use vstd::prelude::*;

use crate::table::{
    last_at_or_before, lemma_last_at_or_before, lemma_last_at_or_before_bounds,
    lemma_last_at_or_before_monotone, lemma_last_at_or_before_none, strictly_increasing,
};

verus! {

/// The different consensus versions, in the order in which they take effect.
#[derive(Debug, Clone, Copy, PartialEq, Eq, Structural, PartialOrd, Ord, Hash)]
pub enum ConsensusVersion {
    /// The initial genesis consensus version.
    V1,
    /// Update to the block reward and execution cost algorithms.
    V2,
    /// Update to the number of validators and finalize scope RNG seed.
    V3,
    /// Update to the Varuna version.
    V4,
    /// Update to the number of validators and enable batch proposal spend limits.
    V5,
    /// Update to the number of validators.
    V6,
}

impl ConsensusVersion {
    /// The number of the version, starting from 1.
    pub open spec fn number(self) -> nat {
        match self {
            ConsensusVersion::V1 => 1,
            ConsensusVersion::V2 => 2,
            ConsensusVersion::V3 => 3,
            ConsensusVersion::V4 => 4,
            ConsensusVersion::V5 => 5,
            ConsensusVersion::V6 => 6,
        }
    }

    /// Returns the number of the version, starting from 1.
    pub fn as_number(&self) -> (r: u8)
        ensures
            r == self.number(),
    {
        match self {
            ConsensusVersion::V1 => 1,
            ConsensusVersion::V2 => 2,
            ConsensusVersion::V3 => 3,
            ConsensusVersion::V4 => 4,
            ConsensusVersion::V5 => 5,
            ConsensusVersion::V6 => 6,
        }
    }
}

/// Errors of the consensus lookups.
#[derive(Debug, Clone, Copy, PartialEq, Eq, Structural)]
pub enum ConsensusError {
    /// The sought height lies before the height at which the first version takes effect.
    MissingGenesisVersion,
    /// The version has no entry in the table of activation heights.
    InvalidConsensusVersion,
    /// The table of certificate limits is empty.
    NoMaxCertificates,
}

/// The activation heights of a table of `(version, height)` pairs.
pub open spec fn activation_heights(heights: Seq<(ConsensusVersion, u32)>) -> Seq<int> {
    heights.map_values(|e: (ConsensusVersion, u32)| e.1 as int)
}

/// The version numbers of a table of `(version, value)` pairs.
pub open spec fn version_numbers<T>(table: Seq<(ConsensusVersion, T)>) -> Seq<int> {
    table.map_values(|e: (ConsensusVersion, T)| e.0.number() as int)
}

/// The version in effect at `height`: that of the last entry activated at or before it.
pub open spec fn version_at(heights: Seq<(ConsensusVersion, u32)>, height: u32) -> Option<ConsensusVersion> {
    let i = last_at_or_before(activation_heights(heights), height as int);
    if i < 0 {
        None
    } else {
        Some(heights[i].0)
    }
}

/// The value of a per-version table in effect for `version`: that of the last entry whose
/// version is not after it.
pub open spec fn value_for_version<T>(table: Seq<(ConsensusVersion, T)>, version: ConsensusVersion) -> Option<T> {
    let i = last_at_or_before(version_numbers(table), version.number() as int);
    if i < 0 {
        None
    } else {
        Some(table[i].1)
    }
}

/// The value of a per-version table in effect at `height`.
pub open spec fn config_value_at<T>(
    heights: Seq<(ConsensusVersion, u32)>,
    table: Seq<(ConsensusVersion, T)>,
    height: u32,
) -> Option<T> {
    match version_at(heights, height) {
        Some(version) => value_for_version(table, version),
        None => None,
    }
}

/// The height listed for `version`: the entry at position `number - 1`, if there is one.
pub open spec fn activation_height(heights: Seq<(ConsensusVersion, u32)>, version: ConsensusVersion) -> Option<u32> {
    if version.number() - 1 < heights.len() {
        Some(heights[version.number() - 1].1)
    } else {
        None
    }
}

/// A table of activation heights is ordered: its heights strictly increase.
pub open spec fn heights_ordered(heights: Seq<(ConsensusVersion, u32)>) -> bool {
    forall|i: int, j: int| 0 <= i < j < heights.len() ==> heights[i].1 < heights[j].1
}

/// A per-version table is ordered: its versions strictly increase.
pub open spec fn versions_ordered<T>(table: Seq<(ConsensusVersion, T)>) -> bool {
    forall|i: int, j: int| 0 <= i < j < table.len() ==> table[i].0.number() < table[j].0.number()
}

/// Binary search of `height` among the activation heights.
fn search_height(heights: &[(ConsensusVersion, u32)], height: u32) -> (r: Result<usize, usize>)
    requires
        heights_ordered(heights@),
    ensures
        match r {
            Ok(i) => i < heights@.len() && heights@[i as int].1 == height,
            Err(i) => i <= heights@.len()
                && (forall|j: int| 0 <= j < i ==> heights@[j].1 < height)
                && (forall|j: int| i <= j < heights@.len() ==> height < heights@[j].1),
        },
{
    let mut lo: usize = 0;
    let mut hi: usize = heights.len();
    while lo < hi
        invariant
            lo <= hi <= heights@.len(),
            heights_ordered(heights@),
            forall|j: int| 0 <= j < lo ==> heights@[j].1 < height,
            forall|j: int| hi <= j < heights@.len() ==> height < heights@[j].1,
        decreases hi - lo,
    {
        let mid = lo + (hi - lo) / 2;
        let key = heights[mid].1;
        if key == height {
            return Ok(mid);
        } else if key < height {
            lo = mid + 1;
        } else {
            hi = mid;
        }
    }
    Err(lo)
}

/// Binary search of `version` among the versions of a per-version table.
fn search_version<T>(table: &[(ConsensusVersion, T)], version: ConsensusVersion) -> (r: Result<usize, usize>)
    requires
        versions_ordered(table@),
    ensures
        match r {
            Ok(i) => i < table@.len() && table@[i as int].0.number() == version.number(),
            Err(i) => i <= table@.len()
                && (forall|j: int| 0 <= j < i ==> table@[j].0.number() < version.number())
                && (forall|j: int| i <= j < table@.len() ==> version.number() < table@[j].0.number()),
        },
{
    let target = version.as_number();
    let mut lo: usize = 0;
    let mut hi: usize = table.len();
    while lo < hi
        invariant
            lo <= hi <= table@.len(),
            target == version.number(),
            versions_ordered(table@),
            forall|j: int| 0 <= j < lo ==> table@[j].0.number() < version.number(),
            forall|j: int| hi <= j < table@.len() ==> version.number() < table@[j].0.number(),
        decreases hi - lo,
    {
        let mid = lo + (hi - lo) / 2;
        let key = table[mid].0.as_number();
        if key == target {
            return Ok(mid);
        } else if key < target {
            lo = mid + 1;
        } else {
            hi = mid;
        }
    }
    Err(lo)
}

/// Returns the consensus version which is active at the given height.
pub fn consensus_version(heights: &[(ConsensusVersion, u32)], seek_height: u32) -> (r: Result<
    ConsensusVersion,
    ConsensusError,
>)
    requires
        heights_ordered(heights@),
    ensures
        r == (match version_at(heights@, seek_height) {
            Some(v) => Ok(v),
            None => Err(ConsensusError::MissingGenesisVersion),
        }),
{
    let ghost keys = activation_heights(heights@);
    assert(strictly_increasing(keys));
    match search_height(heights, seek_height) {
        // A consensus version was found at this height.
        Ok(index) => {
            proof {
                lemma_last_at_or_before(keys, seek_height as int, index as int);
            }
            Ok(heights[index].0)
        },
        Err(index) => {
            if index == 0 {
                proof {
                    lemma_last_at_or_before_none(keys, seek_height as int);
                }
                Err(ConsensusError::MissingGenesisVersion)
            } else {
                // The version belonging to the height *lower* than the sought height.
                proof {
                    lemma_last_at_or_before(keys, seek_height as int, index - 1);
                }
                Ok(heights[index - 1].0)
            }
        },
    }
}

/// Returns the height at which a specified consensus version becomes active.
pub fn consensus_height(heights: &[(ConsensusVersion, u32)], version: ConsensusVersion) -> (r: Result<
    u32,
    ConsensusError,
>)
    ensures
        r == (match activation_height(heights@, version) {
            Some(h) => Ok(h),
            None => Err(ConsensusError::InvalidConsensusVersion),
        }),
{
    let index = (version.as_number() - 1) as usize;
    if index < heights.len() {
        Ok(heights[index].1)
    } else {
        Err(ConsensusError::InvalidConsensusVersion)
    }
}

/// Returns the last `MAX_CERTIFICATES` value.
pub fn latest_max_certificates(max_certificates: &[(ConsensusVersion, u16)]) -> (r: Result<u16, ConsensusError>)
    ensures
        r == (if max_certificates@.len() > 0 {
            Ok(max_certificates@.last().1)
        } else {
            Err(ConsensusError::NoMaxCertificates)
        }),
{
    match max_certificates.last() {
        Some(entry) => Ok(entry.1),
        None => Err(ConsensusError::NoMaxCertificates),
    }
}

/// Returns the value of a per-version table that is in effect at the given height.
pub fn consensus_config_value<T: Copy>(
    heights: &[(ConsensusVersion, u32)],
    table: &[(ConsensusVersion, T)],
    seek_height: u32,
) -> (r: Option<T>)
    requires
        heights_ordered(heights@),
        versions_ordered(table@),
    ensures
        r == config_value_at(heights@, table@, seek_height),
{
    let seek_version = match consensus_version(heights, seek_height) {
        Ok(version) => version,
        Err(_) => return None,
    };
    let ghost keys = version_numbers(table@);
    assert(strictly_increasing(keys));
    match search_version(table, seek_version) {
        Ok(index) => {
            proof {
                lemma_last_at_or_before(keys, seek_version.number() as int, index as int);
            }
            Some(table[index].1)
        },
        Err(index) => {
            if index == 0 {
                // This value is not yet in effect at this consensus version.
                proof {
                    lemma_last_at_or_before_none(keys, seek_version.number() as int);
                }
                None
            } else {
                proof {
                    lemma_last_at_or_before(keys, seek_version.number() as int, index - 1);
                }
                Some(table[index - 1].1)
            }
        },
    }
}

/// A table of activation heights is well formed: its heights strictly increase and its
/// versions are `V1, V2, ...` in this order.
pub open spec fn heights_well_formed(heights: Seq<(ConsensusVersion, u32)>) -> bool {
    &&& heights_ordered(heights)
    &&& forall|i: int| 0 <= i < heights.len() ==> #[trigger] heights[i].0.number() == i + 1
}

/// In a well-formed table, the version in effect at each activation height is the version
/// activated there, and the height listed for that version is that height.
pub proof fn law_version_height_roundtrip(heights: Seq<(ConsensusVersion, u32)>, i: int)
    requires
        heights_well_formed(heights),
        0 <= i < heights.len(),
    ensures
        version_at(heights, heights[i].1) == Some(heights[i].0),
        activation_height(heights, heights[i].0) == Some(heights[i].1),
{
    let keys = activation_heights(heights);
    assert(strictly_increasing(keys));
    if i + 1 < heights.len() {
        assert(keys[i + 1] == heights[i + 1].1);
    }
    lemma_last_at_or_before(keys, heights[i].1 as int, i);
}

/// The version in effect never goes back as the height grows.
pub proof fn law_version_monotone(heights: Seq<(ConsensusVersion, u32)>, h1: u32, h2: u32)
    requires
        heights_well_formed(heights),
        h1 <= h2,
        version_at(heights, h1) is Some,
    ensures
        version_at(heights, h2) is Some,
        version_at(heights, h1).unwrap().number() <= version_at(heights, h2).unwrap().number(),
{
    let keys = activation_heights(heights);
    assert(strictly_increasing(keys));
    if heights.len() == 0 || keys[0] > h1 {
        lemma_last_at_or_before_none(keys, h1 as int);
    }
    lemma_last_at_or_before_monotone(keys, h1 as int, h2 as int);
    lemma_last_at_or_before_bounds(keys, h2 as int);
}

/// When the first version takes effect at height 0, every height has a version in effect.
pub proof fn law_genesis_covers_all_heights(heights: Seq<(ConsensusVersion, u32)>, h: u32)
    requires
        heights_ordered(heights),
        heights.len() > 0,
        heights[0].1 == 0,
    ensures
        version_at(heights, h) is Some,
{
    let keys = activation_heights(heights);
    assert(strictly_increasing(keys));
    lemma_last_at_or_before_bounds(keys, h as int);
}

/// At the activation height of a version that a per-version table lists, the value in effect
/// is the one the table lists for that version.
pub proof fn law_config_value_at_activation<T>(
    heights: Seq<(ConsensusVersion, u32)>,
    table: Seq<(ConsensusVersion, T)>,
    i: int,
    j: int,
)
    requires
        heights_well_formed(heights),
        versions_ordered(table),
        0 <= i < heights.len(),
        0 <= j < table.len(),
        table[j].0 == heights[i].0,
    ensures
        config_value_at(heights, table, heights[i].1) == Some(table[j].1),
{
    law_version_height_roundtrip(heights, i);
    let keys = version_numbers(table);
    assert(strictly_increasing(keys));
    if j + 1 < table.len() {
        assert(keys[j + 1] == table[j + 1].0.number());
    }
    lemma_last_at_or_before(keys, heights[i].0.number() as int, j);
}

} // verus!
