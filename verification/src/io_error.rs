use vstd::prelude::*;

verus! {

#[verifier::external_type_specification]
#[verifier::external_body]
pub struct ExIoError(std::io::Error);

/// Calls `std::io::Error::new` with `ErrorKind::Other` and the message's text. Trusted, and
/// nothing is stated of the error that comes back: the type is opaque here.
#[verifier::external_body]
pub fn error<S: ToString>(msg: S) -> std::io::Error {
    std::io::Error::new(std::io::ErrorKind::Other, msg.to_string())
}

} // verus!
