//! The error type of the library.

use vstd::prelude::*;

verus! {

/// `std::io::Error`, the error of a failed read or write. Nothing is known of
/// what it holds.
#[verifier::external_type_specification]
#[verifier::external_body]
pub struct ExIoError(std::io::Error);

/// Why an operation was abandoned.
#[derive(Debug)]
pub enum Error {
    /// Reading the source or writing the output failed.
    Io(std::io::Error),
    /// The configuration cannot be used: the column width is zero.
    InvalidConfiguration,
}

impl From<std::io::Error> for Error {
    fn from(err: std::io::Error) -> (e: Error) {
        Error::Io(err)
    }
}

impl vstd::std_specs::convert::FromSpecImpl<std::io::Error> for Error {
    open spec fn obeys_from_spec() -> bool {
        true
    }

    open spec fn from_spec(err: std::io::Error) -> Error {
        Error::Io(err)
    }
}

} // verus!
