use vstd::prelude::*;

verus! {

/// A field element, as its 256-bit little-endian value in four 64-bit limbs.
#[derive(Debug, Clone, Copy, PartialEq, Eq, Structural, Hash)]
pub struct Field(pub u64, pub u64, pub u64, pub u64);

/// An account address, as the 256-bit little-endian encoding of its affine x-coordinate in
/// four 64-bit limbs.
#[derive(Debug, Clone, Copy, PartialEq, Eq, Structural, Hash)]
pub struct Address(pub u64, pub u64, pub u64, pub u64);

/// A private key, held as the seed from which its keys derive.
#[derive(Debug, Clone, Copy, PartialEq, Eq, Structural, Hash)]
pub struct PrivateKey(pub Field);

} // verus!
