use vstd::prelude::*;

use crate::dns;

verus! {

/// The errors of the library.
#[derive(Debug)]
pub enum Error {
    /// An error of the DNS codec.
    DNS(dns::Error),
    /// A socket or file error.
    Io(std::io::Error),
    /// `save` was asked of a list that was not read from a file.
    SaveButInMemory,
}

pub type Result<T> = core::result::Result<T, Error>;

} // verus!
