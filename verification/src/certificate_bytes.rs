use vstd::prelude::*;

use crate::table::first_occurrences;

verus! {

broadcast use vstd::seq_lib::group_seq_properties;

/// A signature, held as the bytes that encode it.
#[derive(Debug)]
pub struct Signature {
    pub bytes: Vec<u8>,
}

impl View for Signature {
    type V = Seq<u8>;

    open spec fn view(&self) -> Seq<u8> {
        self.bytes@
    }
}

/// Why a list of signatures could not be read or written.
#[derive(Debug, PartialEq, Eq, Structural)]
pub enum SignatureBytesError {
    /// The bytes end before the count or the signatures it announces.
    UnexpectedEnd,
    /// The announced count (first) exceeds the maximum (second).
    TooManySignatures(u16, u16),
    /// A signature's bytes do not encode a valid signature.
    InvalidSignature,
    /// The list to write is longer than a two-byte count can announce.
    CountOutOfRange(usize),
}

/// The views of a list of signatures.
pub open spec fn views(s: Seq<Signature>) -> Seq<Seq<u8>> {
    s.map_values(|x: Signature| x@)
}

/// The number that two bytes encode, least significant first.
pub open spec fn le_u16(lo: u8, hi: u8) -> int {
    lo + 256 * hi
}

/// The two bytes that encode `n`, least significant first.
pub open spec fn u16_le_bytes(n: nat) -> Seq<u8> {
    seq![(n % 256) as u8, (n / 256) as u8]
}

/// The `n` consecutive pieces of width `w` at the start of `bytes`.
pub open spec fn chunks(bytes: Seq<u8>, w: nat, n: nat) -> Seq<Seq<u8>> {
    Seq::new(n, |k: int| bytes.subrange(k * w, k * w + w))
}

/// What reading a list of signatures of width `w` from the start of `bytes` gives: a
/// two-byte count `n` (least significant byte first), at most `max`, then `n` signatures;
/// the distinct ones in the order they first occur, and the number of bytes read.
pub open spec fn read_outcome(bytes: Seq<u8>, w: nat, max: u16) -> Result<
    (Seq<Seq<u8>>, nat),
    SignatureBytesError,
> {
    if bytes.len() < 2 {
        Err(SignatureBytesError::UnexpectedEnd)
    } else {
        let n = le_u16(bytes[0], bytes[1]);
        if n > max {
            Err(SignatureBytesError::TooManySignatures(n as u16, max))
        } else if bytes.len() < 2 + n * w {
            Err(SignatureBytesError::UnexpectedEnd)
        } else {
            Ok(
                (
                    first_occurrences(chunks(bytes.subrange(2, 2 + n * w), w, n as nat)),
                    (2 + n * w) as nat,
                ),
            )
        }
    }
}

/// `valid` may answer `b` for bytes whose contents are `bytes`.
pub open spec fn accepted<VF: Fn(&Vec<u8>) -> bool>(valid: VF, bytes: Seq<u8>, b: bool) -> bool {
    exists|v: Vec<u8>| v@ == bytes && #[trigger] call_ensures(valid, (&v,), b)
}

/// The signature pieces that the count at the start of `bytes` announces.
pub open spec fn announced_pieces(bytes: Seq<u8>, w: nat) -> Seq<Seq<u8>> {
    let n = le_u16(bytes[0], bytes[1]);
    chunks(bytes.subrange(2, 2 + n * w), w, n as nat)
}

/// What reading a list of signatures may give, `valid` deciding whether the bytes of each one
/// encode a valid signature: the framing decides as `read_outcome` says; once it succeeds, the
/// list is read when every announced signature is valid, and otherwise the first invalid one
/// fails the reading.
#[verifier::opaque]
pub open spec fn signatures_read<VF: Fn(&Vec<u8>) -> bool>(
    bytes: Seq<u8>,
    w: nat,
    max: u16,
    valid: VF,
    r: Result<(Seq<Seq<u8>>, nat), SignatureBytesError>,
) -> bool {
    match read_outcome(bytes, w, max) {
        Err(e) => r == Err::<(Seq<Seq<u8>>, nat), SignatureBytesError>(e),
        Ok(x) => match r {
            Ok(y) => y == x && forall|k: int|
                0 <= k < announced_pieces(bytes, w).len() ==> #[trigger] accepted(
                    valid,
                    announced_pieces(bytes, w)[k],
                    true,
                ),
            Err(SignatureBytesError::InvalidSignature) => exists|k: int|
                0 <= k < announced_pieces(bytes, w).len() && #[trigger] accepted(
                    valid,
                    announced_pieces(bytes, w)[k],
                    false,
                ) && forall|j: int| 0 <= j < k ==> #[trigger] accepted(valid, announced_pieces(bytes, w)[j], true),
            Err(_) => false,
        },
    }
}

/// The bytes that encode a list of signatures: the two-byte count, then each signature.
pub open spec fn encoding(s: Seq<Seq<u8>>) -> Seq<u8> {
    u16_le_bytes(s.len()) + s.flatten()
}

/// All items have width `w`.
pub open spec fn all_of_width(s: Seq<Seq<u8>>, w: nat) -> bool {
    forall|i: int| 0 <= i < s.len() ==> #[trigger] s[i].len() == w
}

/// The flattening of items of width `w` has them, piece after piece.
pub proof fn lemma_flatten_pieces(s: Seq<Seq<u8>>, w: nat)
    requires
        all_of_width(s, w),
    ensures
        s.flatten().len() == s.len() * w,
        forall|k: int|
            0 <= k < s.len() ==> #[trigger] s.flatten().subrange(k * w, k * w + w) == s[k],
    decreases s.len(),
{
    if s.len() > 0 {
        let p = s.drop_last();
        lemma_flatten_pieces(p, w);
        assert(s == p.push(s.last()));
        Seq::lemma_flatten_push(p, s.last());
        assert(p.len() * w + w == s.len() * w) by (nonlinear_arith)
            requires
                p.len() + 1 == s.len(),
        ;
        assert(s.flatten().len() == s.len() * w);
        assert forall|k: int| 0 <= k < s.len() implies #[trigger] s.flatten().subrange(k * w, k * w + w)
            == s[k] by {
            if k < p.len() {
                assert(k * w + w <= p.len() * w) by (nonlinear_arith)
                    requires
                        k < p.len(),
                ;
                assert(0 <= k * w) by (nonlinear_arith)
                    requires
                        0 <= k,
                ;
                assert(s.flatten().subrange(k * w, k * w + w) =~= p.flatten().subrange(k * w, k * w + w));
            } else {
                assert(k * w == p.len() * w);
                assert(s.flatten().subrange(k * w, k * w + w) =~= s.last());
            }
        }
    } else {
        assert(s.len() * w == 0) by (nonlinear_arith)
            requires
                s.len() == 0,
        ;
    }
}

/// Without repeated items, keeping first occurrences keeps everything.
pub proof fn lemma_first_occurrences_distinct<A>(s: Seq<A>)
    requires
        s.no_duplicates(),
    ensures
        first_occurrences(s) == s,
    decreases s.len(),
{
    if s.len() > 0 {
        let p = s.drop_last();
        lemma_first_occurrences_distinct(p);
        assert(!p.contains(s.last())) by {
            if p.contains(s.last()) {
                let j = choose|j: int| 0 <= j < p.len() && p[j] == s.last();
                assert(s[j] == s[s.len() - 1]);
            }
        }
        assert(p.push(s.last()) =~= s);
    }
}

/// Signatures read back are those written: a list of distinct signatures of width `w`, as
/// many as `max` allows, encoded and followed by any bytes, reads back as itself, having
/// consumed exactly its encoding.
pub proof fn law_signatures_roundtrip(s: Seq<Seq<u8>>, w: nat, max: u16, rest: Seq<u8>)
    requires
        all_of_width(s, w),
        s.no_duplicates(),
        s.len() <= max,
    ensures
        read_outcome(encoding(s) + rest, w, max) == Ok::<(Seq<Seq<u8>>, nat), SignatureBytesError>(
            (s, encoding(s).len()),
        ),
{
    let bytes = encoding(s) + rest;
    let n = s.len();
    lemma_flatten_pieces(s, w);
    assert(le_u16(bytes[0], bytes[1]) == n);
    let body = bytes.subrange(2, 2 + n * w as int);
    assert(body =~= s.flatten());
    assert(chunks(body, w, n) =~= s);
    lemma_first_occurrences_distinct(s);
}

/// Signatures read back are those written, checked ones too: when `valid` accepts every one of
/// a list of distinct signatures of width `w`, as many as `max` allows, reading their encoding
/// followed by any bytes gives the list back, having read exactly its encoding.
pub proof fn law_valid_signatures_roundtrip<VF: Fn(&Vec<u8>) -> bool>(
    s: Seq<Seq<u8>>,
    w: nat,
    max: u16,
    rest: Seq<u8>,
    valid: VF,
    r: Result<(Seq<Seq<u8>>, nat), SignatureBytesError>,
)
    requires
        all_of_width(s, w),
        s.no_duplicates(),
        s.len() <= max,
        forall|k: int, b: bool| 0 <= k < s.len() && #[trigger] accepted(valid, s[k], b) ==> b,
        signatures_read(encoding(s) + rest, w, max, valid, r),
    ensures
        r == Ok::<(Seq<Seq<u8>>, nat), SignatureBytesError>((s, encoding(s).len())),
{
    reveal(signatures_read);
    let bytes = encoding(s) + rest;
    law_signatures_roundtrip(s, w, max, rest);
    let n = s.len();
    lemma_flatten_pieces(s, w);
    assert(le_u16(bytes[0], bytes[1]) == n);
    let body = bytes.subrange(2, 2 + n * w as int);
    assert(body =~= s.flatten());
    assert(chunks(body, w, n) =~= s);
    assert(announced_pieces(bytes, w) == s);
    if r == Err::<(Seq<Seq<u8>>, nat), SignatureBytesError>(SignatureBytesError::InvalidSignature) {
        let k = choose|k: int|
            0 <= k < announced_pieces(bytes, w).len() && accepted(valid, announced_pieces(bytes, w)[k], false)
                && forall|j: int| 0 <= j < k ==> #[trigger] accepted(valid, announced_pieces(bytes, w)[j], true);
        assert(accepted(valid, s[k], false));
    }
}

/// Piece `k` of `n` pieces of width `w` lies inside the `n * w` bytes.
proof fn lemma_piece_bounds(k: int, n: int, w: int)
    requires
        0 <= k < n,
        0 < w,
    ensures
        0 <= k * w,
        k * w + w <= n * w,
{
    assert(0 <= k * w) by (nonlinear_arith)
        requires
            0 <= k,
            0 < w,
    ;
    assert(k * w + w <= n * w) by (nonlinear_arith)
        requires
            k < n,
            0 < w,
    ;
}

/// Whether two byte strings are equal.
fn same_bytes(a: &Vec<u8>, b: &Vec<u8>) -> (r: bool)
    ensures
        r == (a@ == b@),
{
    if a.len() != b.len() {
        return false;
    }
    let mut i: usize = 0;
    while i < a.len()
        invariant
            a.len() == b.len(),
            i <= a.len(),
            forall|j: int| 0 <= j < i ==> a@[j] == b@[j],
        decreases a.len() - i,
    {
        if a[i] != b[i] {
            return false;
        }
        i = i + 1;
    }
    assert(a@ =~= b@);
    true
}

/// Copies `bytes[start..start + len]`.
fn copy_range(bytes: &[u8], start: usize, len: usize) -> (r: Vec<u8>)
    requires
        start + len <= bytes@.len(),
    ensures
        r@ == bytes@.subrange(start as int, start + len),
{
    let blen = bytes.len();
    let mut r: Vec<u8> = Vec::new();
    let mut i: usize = 0;
    while i < len
        invariant
            blen == bytes@.len(),
            start + len <= bytes@.len(),
            i <= len,
            r@ == bytes@.subrange(start as int, start + i),
        decreases len - i,
    {
        r.push(bytes[start + i]);
        i = i + 1;
        assert(r@ =~= bytes@.subrange(start as int, start + i));
    }
    r
}

/// Reads a list of signatures of `signature_size` bytes each from the start of `bytes`: a
/// two-byte count (least significant byte first), at most `max_signatures`, then that many
/// signatures, each of which `valid` must find to encode a valid signature (the checked or the
/// unchecked parsing of a signature). Gives the distinct signatures in the order they first
/// occur, and the number of bytes read.
pub fn read_signatures<VF: Fn(&Vec<u8>) -> bool>(
    bytes: &[u8],
    signature_size: usize,
    max_signatures: u16,
    valid: &VF,
) -> (r: Result<(Vec<Signature>, usize), SignatureBytesError>)
    requires
        0 < signature_size,
        signature_size * 0x10000 <= usize::MAX,
        forall|v: Vec<u8>| #[trigger] call_requires(*valid, (&v,)),
    ensures
        match r {
            Ok((sigs, used)) => signatures_read(
                bytes@,
                signature_size as nat,
                max_signatures,
                *valid,
                Ok::<(Seq<Seq<u8>>, nat), SignatureBytesError>((views(sigs@), used as nat)),
            ),
            Err(e) => signatures_read(
                bytes@,
                signature_size as nat,
                max_signatures,
                *valid,
                Err::<(Seq<Seq<u8>>, nat), SignatureBytesError>(e),
            ),
        },
{
    reveal(signatures_read);
    if bytes.len() < 2 {
        return Err(SignatureBytesError::UnexpectedEnd);
    }
    let n: u16 = bytes[0] as u16 + 256 * (bytes[1] as u16);
    if n > max_signatures {
        return Err(SignatureBytesError::TooManySignatures(n, max_signatures));
    }
    let count: usize = n as usize;
    assert(count * signature_size <= 0x10000 * signature_size) by (nonlinear_arith)
        requires
            count < 0x10000,
    ;
    let total: usize = count * signature_size;
    if bytes.len() - 2 < total {
        return Err(SignatureBytesError::UnexpectedEnd);
    }
    let ghost w = signature_size as nat;
    let ghost body = bytes@.subrange(2, 2 + total);
    let ghost pieces = chunks(body, w, count as nat);
    assert(pieces == announced_pieces(bytes@, w));
    assert(read_outcome(bytes@, w, max_signatures) == Ok::<(Seq<Seq<u8>>, nat), SignatureBytesError>(
        (first_occurrences(pieces), (2 + total) as nat),
    ));
    let blen = bytes.len();
    let mut out: Vec<Signature> = Vec::new();
    let mut k: usize = 0;
    while k < count
        invariant
            blen == bytes@.len(),
            pieces == announced_pieces(bytes@, w),
            read_outcome(bytes@, w, max_signatures) == Ok::<(Seq<Seq<u8>>, nat), SignatureBytesError>(
                (first_occurrences(pieces), (2 + total) as nat),
            ),
            0 < signature_size,
            w == signature_size,
            total == count * signature_size,
            2 + total <= bytes@.len(),
            body == bytes@.subrange(2, 2 + total),
            pieces == chunks(body, w, count as nat),
            k <= count,
            views(out@) == first_occurrences(pieces.take(k as int)),
            forall|v: Vec<u8>| #[trigger] call_requires(*valid, (&v,)),
            forall|j: int| 0 <= j < k ==> #[trigger] accepted(*valid, pieces[j], true),
        decreases count - k,
    {
        proof {
            lemma_piece_bounds(k as int, count as int, signature_size as int);
        }
        let start: usize = 2 + k * signature_size;
        let chunk = copy_range(bytes, start, signature_size);
        assert(chunk@ == pieces[k as int]) by {
            assert(chunk@ =~= body.subrange(k * w, k * w + w));
        }
        if !valid(&chunk) {
            assert(accepted(*valid, pieces[k as int], false));
            assert(accepted(*valid, announced_pieces(bytes@, w)[k as int], false));
            assert(forall|j: int| 0 <= j < k ==> #[trigger] accepted(*valid, announced_pieces(bytes@, w)[j], true));
            reveal(signatures_read);
            return Err(SignatureBytesError::InvalidSignature);
        }
        assert(accepted(*valid, pieces[k as int], true));
        let mut found = false;
        let mut j: usize = 0;
        while j < out.len()
            invariant
                j <= out.len(),
                found <==> exists|i: int| 0 <= i < j && #[trigger] out@[i]@ == chunk@,
            decreases out.len() - j,
        {
            let same = same_bytes(&out[j].bytes, &chunk);
            assert(same == (out@[j as int]@ == chunk@));
            if same {
                found = true;
            }
            j = j + 1;
        }
        let ghost prev = views(out@);
        assert(pieces.take(k + 1).drop_last() =~= pieces.take(k as int));
        assert(found <==> prev.contains(chunk@)) by {
            if found {
                let i = choose|i: int| 0 <= i < out@.len() && #[trigger] out@[i]@ == chunk@;
                assert(prev[i] == chunk@);
            }
            if prev.contains(chunk@) {
                let i = choose|i: int| 0 <= i < prev.len() && prev[i] == chunk@;
                assert(out@[i]@ == chunk@);
            }
        }
        if !found {
            out.push(Signature { bytes: chunk });
            assert(views(out@) =~= prev.push(pieces[k as int]));
        }
        k = k + 1;
    }
    assert(pieces.take(count as int) =~= pieces);
    Ok((out, 2 + total))
}

/// Writes a list of signatures: the two-byte count (least significant byte first), then the
/// bytes of each signature. A list longer than a two-byte count can announce is refused, and
/// nothing is written.
pub fn write_signatures(signatures: &[Signature], out: &mut Vec<u8>) -> (r: Result<(), SignatureBytesError>)
    ensures
        r is Ok <==> signatures@.len() <= 0xffff,
        r is Ok ==> final(out)@ == old(out)@ + encoding(views(signatures@)),
        r matches Err(e) ==> e == SignatureBytesError::CountOutOfRange(signatures@.len() as usize)
            && final(out)@ == old(out)@,
{
    let n = signatures.len();
    if n > 0xffff {
        return Err(SignatureBytesError::CountOutOfRange(n));
    }
    let ghost start = out@;
    out.push((n % 256) as u8);
    out.push((n / 256) as u8);
    let ghost all = views(signatures@);
    assert(out@ =~= start + u16_le_bytes(n as nat) + all.take(0).flatten());
    let mut k: usize = 0;
    while k < n
        invariant
            n == signatures@.len(),
            all == views(signatures@),
            k <= n,
            out@ == start + u16_le_bytes(n as nat) + all.take(k as int).flatten(),
        decreases n - k,
    {
        let sig = &signatures[k];
        let ghost before = out@;
        let mut i: usize = 0;
        while i < sig.bytes.len()
            invariant
                i <= sig.bytes@.len(),
                out@ == before + sig.bytes@.subrange(0, i as int),
            decreases sig.bytes@.len() - i,
        {
            out.push(sig.bytes[i]);
            i = i + 1;
            assert(out@ =~= before + sig.bytes@.subrange(0, i as int));
        }
        proof {
            assert(all.take(k + 1) =~= all.take(k as int).push(all[k as int]));
            Seq::lemma_flatten_push(all.take(k as int), all[k as int]);
            assert(sig.bytes@.subrange(0, i as int) =~= all[k as int]);
        }
        k = k + 1;
    }
    assert(all.take(n as int) =~= all);
    Ok(())
}

/// The version byte that starts an encoded batch certificate.
pub const CERTIFICATE_VERSION: u8 = 1;

/// A batch certificate as its encoding sees it: a header, and the signatures of the batch.
pub struct CertificateParts<H> {
    pub header: H,
    pub signatures: Vec<Signature>,
}

/// Why a batch certificate could not be read or written.
#[derive(Debug, PartialEq, Eq, Structural)]
pub enum CertificateBytesError {
    /// The bytes are empty: there is no version byte.
    UnexpectedEnd,
    /// The version byte is not the expected one.
    InvalidVersion(u8),
    /// The header could not be read.
    InvalidHeader,
    /// The signatures could not be read or written.
    Signatures(SignatureBytesError),
    /// The signatures do not certify the header.
    InvalidCertificate,
}

/// `read_header` may give `r` for bytes whose contents are `bytes`.
pub open spec fn header_read<H, RH: Fn(&Vec<u8>) -> Option<(H, usize)>>(
    read_header: RH,
    bytes: Seq<u8>,
    r: Option<(H, usize)>,
) -> bool {
    exists|v: Vec<u8>| v@ == bytes && #[trigger] call_ensures(read_header, (&v,), r)
}

/// What reading a certificate from `bytes` may give, before any check of its signatures: the
/// version byte, then a header that `read_header` reads (with the number of bytes it takes,
/// at most what is left), then the signatures, each of which `valid` must accept. The result
/// holds the certificate and the number of bytes read.
pub open spec fn certificate_read<H, RH: Fn(&Vec<u8>) -> Option<(H, usize)>, VF: Fn(&Vec<u8>) -> bool>(
    bytes: Seq<u8>,
    read_header: RH,
    valid: VF,
    w: nat,
    max: u16,
    r: Result<(CertificateParts<H>, usize), CertificateBytesError>,
) -> bool {
    if bytes.len() == 0 {
        r == Err::<(CertificateParts<H>, usize), CertificateBytesError>(CertificateBytesError::UnexpectedEnd)
    } else if bytes[0] != CERTIFICATE_VERSION {
        r == Err::<(CertificateParts<H>, usize), CertificateBytesError>(CertificateBytesError::InvalidVersion(bytes[0]))
    } else {
        let rest = bytes.skip(1);
        match r {
            Ok((c, used)) => exists|n: usize|
                #![trigger rest.skip(n as int)]
                {
                    &&& n <= rest.len()
                    &&& 1 + n <= used
                    &&& header_read(read_header, rest, Some((c.header, n)))
                    &&& signatures_read(
                        rest.skip(n as int),
                        w,
                        max,
                        valid,
                        Ok::<(Seq<Seq<u8>>, nat), SignatureBytesError>((views(c.signatures@), (used - 1 - n) as nat)),
                    )
                },
            Err(CertificateBytesError::InvalidHeader) => header_read(read_header, rest, None) || exists|
                h: H,
                n: usize,
            | n > rest.len() && #[trigger] header_read(read_header, rest, Some((h, n))),
            Err(CertificateBytesError::Signatures(e)) => exists|h: H, n: usize|
                {
                    &&& n <= rest.len()
                    &&& #[trigger] header_read(read_header, rest, Some((h, n)))
                    &&& signatures_read(
                        rest.skip(n as int),
                        w,
                        max,
                        valid,
                        Err::<(Seq<Seq<u8>>, nat), SignatureBytesError>(e),
                    )
                },
            Err(_) => false,
        }
    }
}

/// Reads the version byte, the header and the signatures, without checking them.
fn read_certificate<H, RH: Fn(&Vec<u8>) -> Option<(H, usize)>, VF: Fn(&Vec<u8>) -> bool>(
    bytes: &[u8],
    read_header: RH,
    valid_signature: VF,
    signature_size: usize,
    max_signatures: u16,
) -> (r: Result<(CertificateParts<H>, usize), CertificateBytesError>)
    requires
        0 < signature_size,
        signature_size * 0x10000 <= usize::MAX,
        forall|v: Vec<u8>| #[trigger] call_requires(read_header, (&v,)),
        forall|v: Vec<u8>| #[trigger] call_requires(valid_signature, (&v,)),
    ensures
        certificate_read(bytes@, read_header, valid_signature, signature_size as nat, max_signatures, r),
{
    let len = bytes.len();
    if len == 0 {
        return Err(CertificateBytesError::UnexpectedEnd);
    }
    if bytes[0] != CERTIFICATE_VERSION {
        return Err(CertificateBytesError::InvalidVersion(bytes[0]));
    }
    let ghost rest = bytes@.skip(1);
    let after_version = copy_range(bytes, 1, len - 1);
    assert(after_version@ =~= rest);
    let (header, n) = match read_header(&after_version) {
        Some(read) => read,
        None => {
            assert(header_read(read_header, rest, None));
            return Err(CertificateBytesError::InvalidHeader);
        },
    };
    assert(header_read(read_header, rest, Some((header, n))));
    if n > len - 1 {
        return Err(CertificateBytesError::InvalidHeader);
    }
    let after_header = copy_range(bytes, 1 + n, len - 1 - n);
    assert(after_header@ =~= rest.skip(n as int));
    let (signatures, m) = match read_signatures(after_header.as_slice(), signature_size, max_signatures, &valid_signature) {
        Ok(read) => read,
        Err(e) => return Err(CertificateBytesError::Signatures(e)),
    };
    assert(m <= len - 1 - n) by {
        reveal(signatures_read);
    }
    Ok((CertificateParts { header, signatures }, 1 + n + m))
}

/// Reads a batch certificate: the version byte, the header (read by `read_header`, which
/// gives the header and the number of bytes it takes), and the signatures (each of which
/// `valid_signature` must find to encode a valid signature), which `check` must find to
/// certify the header. Gives the certificate and the number of bytes read.
pub fn read_le<
    H,
    RH: Fn(&Vec<u8>) -> Option<(H, usize)>,
    VF: Fn(&Vec<u8>) -> bool,
    C: Fn(&H, &Vec<Signature>) -> bool,
>(
    bytes: &[u8],
    read_header: RH,
    valid_signature: VF,
    check: C,
    signature_size: usize,
    max_signatures: u16,
) -> (r: Result<(CertificateParts<H>, usize), CertificateBytesError>)
    requires
        0 < signature_size,
        signature_size * 0x10000 <= usize::MAX,
        forall|v: Vec<u8>| #[trigger] call_requires(read_header, (&v,)),
        forall|v: Vec<u8>| #[trigger] call_requires(valid_signature, (&v,)),
        forall|h: H, s: Vec<Signature>| #[trigger] call_requires(check, (&h, &s)),
    ensures
        match r {
            Ok((c, used)) => certificate_read(bytes@, read_header, valid_signature, signature_size as nat, max_signatures, r)
                && call_ensures(check, (&c.header, &c.signatures), true),
            Err(CertificateBytesError::InvalidCertificate) => exists|c: CertificateParts<H>, used: usize|
                #[trigger] certificate_read(
                    bytes@,
                    read_header,
                    valid_signature,
                    signature_size as nat,
                    max_signatures,
                    Ok::<(CertificateParts<H>, usize), CertificateBytesError>((c, used)),
                ) && call_ensures(check, (&c.header, &c.signatures), false),
            Err(e) => certificate_read(bytes@, read_header, valid_signature, signature_size as nat, max_signatures, r),
        },
{
    let r = read_certificate(bytes, read_header, valid_signature, signature_size, max_signatures);
    match r {
        Ok((c, used)) => {
            if check(&c.header, &c.signatures) {
                Ok((c, used))
            } else {
                Err(CertificateBytesError::InvalidCertificate)
            }
        },
        Err(e) => Err(e),
    }
}

/// Reads a batch certificate as `read_le` does, without checking that the signatures
/// certify the header (`read_header` and `valid_signature` are then the unchecked header and
/// signature parsers).
pub fn read_le_unchecked<H, RH: Fn(&Vec<u8>) -> Option<(H, usize)>, VF: Fn(&Vec<u8>) -> bool>(
    bytes: &[u8],
    read_header: RH,
    valid_signature: VF,
    signature_size: usize,
    max_signatures: u16,
) -> (r: Result<(CertificateParts<H>, usize), CertificateBytesError>)
    requires
        0 < signature_size,
        signature_size * 0x10000 <= usize::MAX,
        forall|v: Vec<u8>| #[trigger] call_requires(read_header, (&v,)),
        forall|v: Vec<u8>| #[trigger] call_requires(valid_signature, (&v,)),
    ensures
        certificate_read(bytes@, read_header, valid_signature, signature_size as nat, max_signatures, r),
{
    read_certificate(bytes, read_header, valid_signature, signature_size, max_signatures)
}

impl<H> CertificateParts<H> {
    /// Writes the batch certificate: the version byte, the header's bytes (as `write_header`
    /// gives them), and the signatures. A certificate with more signatures than a two-byte
    /// count can announce is refused after its version and header are written.
    pub fn write_le<WH: Fn(&H) -> Vec<u8>>(&self, write_header: WH, out: &mut Vec<u8>) -> (r: Result<
        (),
        CertificateBytesError,
    >)
        requires
            call_requires(write_header, (&self.header,)),
        ensures
            exists|hb: Vec<u8>|
                {
                    &&& #[trigger] call_ensures(write_header, (&self.header,), hb)
                    &&& match r {
                        Ok(()) => final(out)@ == old(out)@ + seq![CERTIFICATE_VERSION] + hb@ + encoding(
                            views(self.signatures@),
                        ),
                        Err(e) => e == CertificateBytesError::Signatures(
                            SignatureBytesError::CountOutOfRange(self.signatures@.len() as usize),
                        ) && self.signatures@.len() > 0xffff && final(out)@ == old(out)@ + seq![
                            CERTIFICATE_VERSION,
                        ] + hb@,
                    }
                },
    {
        let ghost start = out@;
        out.push(CERTIFICATE_VERSION);
        let header_bytes = write_header(&self.header);
        let mut i: usize = 0;
        while i < header_bytes.len()
            invariant
                i <= header_bytes@.len(),
                out@ == start + seq![CERTIFICATE_VERSION] + header_bytes@.subrange(0, i as int),
            decreases header_bytes@.len() - i,
        {
            out.push(header_bytes[i]);
            i = i + 1;
            assert(out@ =~= start + seq![CERTIFICATE_VERSION] + header_bytes@.subrange(0, i as int));
        }
        assert(header_bytes@.subrange(0, i as int) =~= header_bytes@);
        let ghost middle = out@;
        match write_signatures(self.signatures.as_slice(), out) {
            Ok(()) => {
                assert(out@ =~= start + seq![CERTIFICATE_VERSION] + header_bytes@ + encoding(views(self.signatures@)));
                Ok(())
            },
            Err(e) => Err(CertificateBytesError::Signatures(e)),
        }
    }
}

/// A certificate reads back as it was written: given a header encoding that reads back as
/// the header (whatever follows it), distinct signatures of width `w`, as many as `max`
/// allows, reading the certificate's bytes followed by any bytes gives the header and the
/// signatures back, having read exactly the certificate's bytes.
pub proof fn law_certificate_roundtrip<H, RH: Fn(&Vec<u8>) -> Option<(H, usize)>, VF: Fn(&Vec<u8>) -> bool>(
    header: H,
    header_bytes: Seq<u8>,
    signatures: Seq<Seq<u8>>,
    rest: Seq<u8>,
    read_header: RH,
    valid: VF,
    w: nat,
    max: u16,
    r: Result<(CertificateParts<H>, usize), CertificateBytesError>,
)
    requires
        header_bytes.len() <= usize::MAX,
        forall|tail: Seq<u8>, res: Option<(H, usize)>|
            #[trigger] header_read(read_header, header_bytes + tail, res) ==> res == Some(
                (header, header_bytes.len() as usize),
            ),
        all_of_width(signatures, w),
        signatures.no_duplicates(),
        signatures.len() <= max,
        forall|k: int, b: bool| 0 <= k < signatures.len() && #[trigger] accepted(valid, signatures[k], b) ==> b,
        certificate_read(
            seq![CERTIFICATE_VERSION] + header_bytes + encoding(signatures) + rest,
            read_header,
            valid,
            w,
            max,
            r,
        ),
    ensures
        r matches Ok((c, used)) && c.header == header && views(c.signatures@) == signatures && used == 1
            + header_bytes.len() + encoding(signatures).len(),
{
    let bytes = seq![CERTIFICATE_VERSION] + header_bytes + encoding(signatures) + rest;
    let after_version = bytes.skip(1);
    let tail = encoding(signatures) + rest;
    assert(after_version =~= header_bytes + tail);
    let n = header_bytes.len() as usize;
    assert(after_version.skip(n as int) =~= encoding(signatures) + rest);
    match r {
        Ok((c, used)) => {
            let m = choose|m: usize|
                {
                    &&& m <= after_version.len()
                    &&& 1 + m <= used
                    &&& #[trigger] header_read(read_header, after_version, Some((c.header, m)))
                    &&& signatures_read(
                        after_version.skip(m as int),
                        w,
                        max,
                        valid,
                        Ok::<(Seq<Seq<u8>>, nat), SignatureBytesError>((views(c.signatures@), (used - 1 - m) as nat)),
                    )
                };
            assert(header_read(read_header, header_bytes + tail, Some((c.header, m))));
            law_valid_signatures_roundtrip(
                signatures,
                w,
                max,
                rest,
                valid,
                Ok::<(Seq<Seq<u8>>, nat), SignatureBytesError>((views(c.signatures@), (used - 1 - m) as nat)),
            );
        },
        Err(CertificateBytesError::InvalidHeader) => {
            if header_read(read_header, after_version, None) {
                assert(header_read(read_header, header_bytes + tail, None));
            } else {
                let (h, m) = choose|h: H, m: usize|
                    m > after_version.len() && #[trigger] header_read(read_header, after_version, Some((h, m)));
                assert(header_read(read_header, header_bytes + tail, Some((h, m))));
            }
        },
        Err(CertificateBytesError::Signatures(e)) => {
            let (h, m) = choose|h: H, m: usize|
                {
                    &&& m <= after_version.len()
                    &&& #[trigger] header_read(read_header, after_version, Some((h, m)))
                    &&& signatures_read(
                        after_version.skip(m as int),
                        w,
                        max,
                        valid,
                        Err::<(Seq<Seq<u8>>, nat), SignatureBytesError>(e),
                    )
                };
            assert(header_read(read_header, header_bytes + tail, Some((h, m))));
            law_valid_signatures_roundtrip(
                signatures,
                w,
                max,
                rest,
                valid,
                Err::<(Seq<Seq<u8>>, nat), SignatureBytesError>(e),
            );
        },
        Err(_) => {},
    }
}

} // verus!
