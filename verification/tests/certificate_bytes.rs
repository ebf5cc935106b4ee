use snarkvm::certificate_bytes::{read_signatures, write_signatures, Signature, SignatureBytesError};

fn sig(bytes: &[u8]) -> Signature {
    Signature { bytes: bytes.to_vec() }
}

/// Every byte string is a valid signature.
fn any(_bytes: &Vec<u8>) -> bool {
    true
}

/// A signature is valid when its first byte is not zero.
fn nonzero(bytes: &Vec<u8>) -> bool {
    bytes.first().map_or(false, |b| *b != 0)
}

fn bytes_of(sigs: &[Signature]) -> Vec<Vec<u8>> {
    sigs.iter().map(|s| s.bytes.clone()).collect()
}

#[test]
fn writes_count_then_signatures() {
    let mut out = vec![9u8];
    assert_eq!(write_signatures(&[sig(&[1, 2]), sig(&[3, 4])], &mut out), Ok(()));
    assert_eq!(out, vec![9, 2, 0, 1, 2, 3, 4]);
    let mut empty = vec![];
    assert_eq!(write_signatures(&[], &mut empty), Ok(()));
    assert_eq!(empty, vec![0, 0]);
}

#[test]
fn writes_a_two_byte_count_least_significant_first() {
    let many: Vec<Signature> = (0..300u32).map(|i| sig(&[(i % 256) as u8])).collect();
    let mut out = vec![];
    assert_eq!(write_signatures(&many, &mut out), Ok(()));
    assert_eq!(&out[..2], &[44, 1]);
    assert_eq!(out.len(), 302);
}

#[test]
fn refuses_too_many_to_write() {
    let many: Vec<Signature> = (0..65536u32).map(|_| sig(&[])).collect();
    let mut out = vec![7u8];
    assert_eq!(write_signatures(&many, &mut out), Err(SignatureBytesError::CountOutOfRange(65536)));
    assert_eq!(out, vec![7]);
}

#[test]
fn reads_signatures_back() {
    let sigs = vec![sig(&[1, 2, 3]), sig(&[4, 5, 6]), sig(&[7, 8, 9])];
    let mut bytes = vec![];
    write_signatures(&sigs, &mut bytes).unwrap();
    bytes.extend_from_slice(&[0xaa, 0xbb]);
    let (read, used) = read_signatures(&bytes, 3, 10, &any).unwrap();
    assert_eq!(bytes_of(&read), bytes_of(&sigs));
    assert_eq!(used, 11);
}

#[test]
fn reading_keeps_the_first_of_repeated_signatures() {
    let bytes = vec![4, 0, 1, 2, 3, 4, 1, 2, 5, 6];
    let (read, used) = read_signatures(&bytes, 2, 4, &any).unwrap();
    assert_eq!(bytes_of(&read), vec![vec![1, 2], vec![3, 4], vec![5, 6]]);
    assert_eq!(used, 10);
}

#[test]
fn reading_errors() {
    assert_eq!(read_signatures(&[1], 2, 4, &any).err(), Some(SignatureBytesError::UnexpectedEnd));
    assert_eq!(read_signatures(&[5, 0], 2, 4, &any).err(), Some(SignatureBytesError::TooManySignatures(5, 4)));
    assert_eq!(read_signatures(&[0, 1], 2, 300, &any).err(), Some(SignatureBytesError::UnexpectedEnd));
    assert_eq!(read_signatures(&[0, 1], 2, 255, &any).err(), Some(SignatureBytesError::TooManySignatures(256, 255)));
    assert_eq!(read_signatures(&[2, 0, 1, 2, 3], 2, 4, &any).err(), Some(SignatureBytesError::UnexpectedEnd));
    let (read, used) = read_signatures(&[0, 0, 9], 2, 0, &any).unwrap();
    assert!(read.is_empty());
    assert_eq!(used, 2);
}

use snarkvm::certificate_bytes::{read_le, read_le_unchecked, CertificateBytesError, CertificateParts};

const SIGNATURE_SIZE: usize = 4;
const MAX_SIGNATURES: u16 = 8;

/// A header of the tests: a round, written as 8 bytes, least significant first.
fn write_header(round: &u64) -> Vec<u8> {
    round.to_le_bytes().to_vec()
}

fn read_header(bytes: &Vec<u8>) -> Option<(u64, usize)> {
    if bytes.len() < 8 {
        return None;
    }
    let mut le = [0u8; 8];
    le.copy_from_slice(&bytes[..8]);
    Some((u64::from_le_bytes(le), 8))
}

/// The signatures certify the header when there is at least one.
fn check(_round: &u64, signatures: &Vec<Signature>) -> bool {
    !signatures.is_empty()
}

fn sample_batch_certificates() -> Vec<CertificateParts<u64>> {
    (1..5u64)
        .map(|round| CertificateParts {
            header: round * 1000 + 7,
            signatures: (0..round).map(|k| sig(&[round as u8, k as u8, 0xee, 0x11])).collect(),
        })
        .collect()
}

fn same(a: &CertificateParts<u64>, b: &CertificateParts<u64>) -> bool {
    a.header == b.header && bytes_of(&a.signatures) == bytes_of(&b.signatures)
}

#[test]
fn test_bytes() {
    for expected in sample_batch_certificates() {
        // Check the byte representation.
        let mut expected_bytes = vec![];
        expected.write_le(write_header, &mut expected_bytes).unwrap();
        let (read, used) = read_le(&expected_bytes[..], read_header, nonzero, check, SIGNATURE_SIZE, MAX_SIGNATURES).unwrap();
        assert!(same(&expected, &read));
        assert_eq!(used, expected_bytes.len());
        let (read, _) = read_le_unchecked(&expected_bytes[..], read_header, any, SIGNATURE_SIZE, MAX_SIGNATURES).unwrap();
        assert!(same(&expected, &read));
    }
}

#[test]
fn certificate_layout() {
    let c = CertificateParts { header: 0x0102u64, signatures: vec![sig(&[9, 9, 9, 9])] };
    let mut out = vec![];
    c.write_le(write_header, &mut out).unwrap();
    assert_eq!(out, vec![1, 2, 1, 0, 0, 0, 0, 0, 0, 1, 0, 9, 9, 9, 9]);
}

#[test]
fn certificate_reading_errors() {
    let read = |bytes: &[u8]| read_le(bytes, read_header, nonzero, check, SIGNATURE_SIZE, MAX_SIGNATURES).err();
    assert_eq!(read(&[]), Some(CertificateBytesError::UnexpectedEnd));
    assert_eq!(read(&[2, 0, 0]), Some(CertificateBytesError::InvalidVersion(2)));
    assert_eq!(read(&[1, 0, 0]), Some(CertificateBytesError::InvalidHeader));
    assert_eq!(
        read(&[1, 5, 0, 0, 0, 0, 0, 0, 0, 9, 0]),
        Some(CertificateBytesError::Signatures(SignatureBytesError::TooManySignatures(9, 8)))
    );
    // No signatures: the check refuses, the unchecked reading accepts.
    let bare = [1, 5, 0, 0, 0, 0, 0, 0, 0, 0, 0];
    assert_eq!(read(&bare), Some(CertificateBytesError::InvalidCertificate));
    let (c, used) = read_le_unchecked(&bare, read_header, any, SIGNATURE_SIZE, MAX_SIGNATURES).unwrap();
    assert_eq!(c.header, 5);
    assert!(c.signatures.is_empty());
    assert_eq!(used, 11);
}

#[test]
fn certificate_with_too_many_signatures_is_refused() {
    let c = CertificateParts { header: 3u64, signatures: (0..65536u32).map(|_| sig(&[])).collect() };
    let mut out = vec![];
    assert_eq!(
        c.write_le(write_header, &mut out),
        Err(CertificateBytesError::Signatures(SignatureBytesError::CountOutOfRange(65536)))
    );
    assert_eq!(out, vec![1, 3, 0, 0, 0, 0, 0, 0, 0]);
}

#[test]
fn invalid_signatures_are_refused() {
    // The second of three signatures is invalid.
    let bytes = vec![3, 0, 1, 2, 0, 4, 5, 6];
    assert_eq!(read_signatures(&bytes, 2, 4, &nonzero).err(), Some(SignatureBytesError::InvalidSignature));
    let (read, used) = read_signatures(&bytes, 2, 4, &any).unwrap();
    assert_eq!(bytes_of(&read), vec![vec![1, 2], vec![0, 4], vec![5, 6]]);
    assert_eq!(used, 8);
    // A certificate with an invalid signature.
    let mut certificate = vec![1, 5, 0, 0, 0, 0, 0, 0, 0, 1, 0];
    certificate.extend_from_slice(&[0, 1, 2, 3]);
    assert_eq!(
        read_le(&certificate, read_header, nonzero, check, SIGNATURE_SIZE, MAX_SIGNATURES).err(),
        Some(CertificateBytesError::Signatures(SignatureBytesError::InvalidSignature))
    );
    let (c, _) = read_le_unchecked(&certificate, read_header, any, SIGNATURE_SIZE, MAX_SIGNATURES).unwrap();
    assert_eq!(bytes_of(&c.signatures), vec![vec![0, 1, 2, 3]]);
}
