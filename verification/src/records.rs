use vstd::prelude::*;

use crate::program::{Identifier, Literal};
use crate::table::{first_index, lemma_first_index, lemma_first_index_none};
use crate::types::{Address, Field};

verus! {

broadcast use vstd::seq_lib::group_seq_properties;

/// The visibility of a record entry.
#[derive(Debug, Clone, Copy, PartialEq, Eq, Structural)]
pub enum EntryMode {
    Constant,
    Public,
    Private,
}

/// An entry of a record: its name, its visibility, and its literal value if it holds a literal.
#[derive(Debug)]
pub struct RecordEntry {
    pub name: Identifier,
    pub mode: EntryMode,
    pub literal: Option<Literal>,
}

/// A record: its owner and its entries, with distinct names, in order.
#[derive(Debug)]
pub struct Record {
    pub owner: Address,
    pub data: Vec<RecordEntry>,
}

/// The entry named `name`: the first one of that name.
pub open spec fn entry_named(data: Seq<RecordEntry>, name: Identifier) -> Option<RecordEntry> {
    let i = first_index(data, |e: RecordEntry| e.name == name);
    if i < 0 {
        None
    } else {
        Some(data[i])
    }
}

/// The record holds credits: its entry named `microcredits` is a private `u64` amount that is
/// not zero.
pub open spec fn holds_credits(record: Record, microcredits: Identifier) -> bool {
    match entry_named(record.data@, microcredits) {
        Some(e) => e.mode == EntryMode::Private && (e.literal matches Some(Literal::U64(amount)) && amount != 0),
        None => false,
    }
}

/// Returns `true` if the record's entry named `microcredits` is a private, non-zero `u64`.
pub fn is_credits_record(record: &Record, microcredits: &Identifier) -> (r: bool)
    ensures
        r == holds_credits(*record, *microcredits),
{
    let ghost p = |e: RecordEntry| e.name == *microcredits;
    let mut i: usize = 0;
    while i < record.data.len()
        invariant
            i <= record.data@.len(),
            p == (|e: RecordEntry| e.name == *microcredits),
            forall|j: int| 0 <= j < i ==> !p(#[trigger] record.data@[j]),
        decreases record.data@.len() - i,
    {
        let entry = &record.data[i];
        if entry.name == *microcredits {
            proof {
                lemma_first_index(record.data@, p, i as int);
            }
            return match (&entry.mode, &entry.literal) {
                (EntryMode::Private, Some(Literal::U64(amount))) => *amount != 0,
                _ => false,
            };
        }
        i = i + 1;
    }
    proof {
        lemma_first_index_none(record.data@, p);
    }
    false
}

/// The records, with their IDs, that hold credits.
pub open spec fn credits_records(records: Seq<(Field, Record)>, microcredits: Identifier) -> Seq<(Field, Record)> {
    records.filter(|e: (Field, Record)| holds_credits(e.1, microcredits))
}

/// Returns the unspent records (given with their IDs, in order) that hold credits: those whose
/// entry named `microcredits` is a private, non-zero `u64`; in the same order.
pub fn find_unspent_credits_records(records: Vec<(Field, Record)>, microcredits: &Identifier) -> (r: Vec<
    (Field, Record),
>)
    ensures
        r@ == credits_records(records@, *microcredits),
{
    let ghost all = records@;
    let ghost pred = |e: (Field, Record)| holds_credits(e.1, *microcredits);
    let mut out: Vec<(Field, Record)> = Vec::new();
    for item in it: records
        invariant
            it.seq() == all,
            pred == (|e: (Field, Record)| holds_credits(e.1, *microcredits)),
            out@ == all.take(it.index() as int).filter(pred),
    {
        let ghost k = it.index();
        assert(all.take(k + 1) == all.take(k as int).push(all[k as int]));
        assert(item == all[k as int]);
        proof {
            all.take(k as int).lemma_filter_push(all[k as int], pred);
        }
        if is_credits_record(&item.1, microcredits) {
            out.push(item);
        }
    }
    assert(all.take(all.len() as int) == all);
    out
}

/// What makes a record count as holding credits: its entry named `microcredits`. A record is
/// found exactly when it is one of the given records and that entry is private and holds a
/// non-zero `u64`; a record whose entry is constant or public, or whose entry holds anything
/// else, or that has no such entry, is never found.
pub proof fn law_credits_records_are_private_amounts(
    records: Seq<(Field, Record)>,
    microcredits: Identifier,
    x: (Field, Record),
)
    ensures
        credits_records(records, microcredits).contains(x) ==> records.contains(x),
        entry_named(x.1.data@, microcredits) is None ==> !credits_records(records, microcredits).contains(x),
        forall|e: RecordEntry| #[trigger] entry_named(x.1.data@, microcredits) == Some(e) ==> (
            credits_records(records, microcredits).contains(x) <==> (records.contains(x)
                && e.mode == EntryMode::Private && (e.literal matches Some(Literal::U64(amount)) && amount != 0))),
        forall|e: RecordEntry| #[trigger] entry_named(x.1.data@, microcredits) == Some(e) && e.mode != EntryMode::Private
            ==> !credits_records(records, microcredits).contains(x),
{
    let pred = |e: (Field, Record)| holds_credits(e.1, microcredits);
    let found = credits_records(records, microcredits);
    assert(found == records.filter(pred));
    if found.contains(x) {
        records.lemma_filter_contains_rev(pred, x);
        let i = choose|i: int| 0 <= i < found.len() && found[i] == x;
        records.lemma_filter_pred(pred, i);
        assert(holds_credits(x.1, microcredits));
    }
    if records.contains(x) && holds_credits(x.1, microcredits) {
        let i = choose|i: int| 0 <= i < records.len() && records[i] == x;
        records.lemma_filter_contains(pred, i);
    }
}

} // verus!
