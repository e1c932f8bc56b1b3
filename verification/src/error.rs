//! The failures that end an operation.

use vstd::prelude::*;
use vstd::std_specs::convert::FromSpecImpl;

verus! {

/// Why the catalog could not be read from the cache.
#[derive(Clone, Copy, Debug, PartialEq, Eq, Structural)]
pub enum ReadError {
    /// The cache file, or the directory it belongs in, is not there.
    NotFound,
    /// The cache file does not hold a catalog.
    Malformed,
}

/// Why an operation was given up. Each of these ends the operation: nothing is
/// tried again, and nothing is answered from what was done so far. A
/// requested name that nothing is known under is no error.
#[derive(Clone, Copy, Debug, PartialEq, Eq, Structural)]
pub enum Error {
    /// The catalog could not be read from the cache.
    Read(ReadError),
    /// The cache directory could not be made, or the cache file not written.
    Write,
    /// The catalog could not be fetched.
    Fetch,
}

impl From<ReadError> for Error {
    fn from(error: ReadError) -> (r: Error) {
        Error::Read(error)
    }
}

impl FromSpecImpl<ReadError> for Error {
    open spec fn obeys_from_spec() -> bool {
        true
    }

    open spec fn from_spec(error: ReadError) -> Error {
        Error::Read(error)
    }
}

} // verus!
