use vstd::prelude::*;

verus! {

/// The I/O error of std, carried through as an opaque value.
#[verifier::external_type_specification]
#[verifier::external_body]
pub struct ExIoError(std::io::Error);

/// The errors of the DNS codec.
#[derive(Debug)]
pub enum Error {
    /// A read or write would pass the end of the packet buffer.
    EndOfBuffer,
    /// A compressed name followed more pointers than the limit allows.
    JumpLimit(usize),
    /// A label of a name to encode is longer than 63 bytes.
    SingleLabelLimit,
    /// A socket or file error.
    Io(std::io::Error),
}

pub type Result<T> = core::result::Result<T, Error>;

} // verus!
