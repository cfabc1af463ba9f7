//! The error type shared by the commands.

use vstd::prelude::*;

verus! {

/// `std::io::Error`, which the library only carries from the operation that
/// failed to the caller that reports it.
#[verifier::external_type_specification]
#[verifier::external_body]
pub struct ExIoError(std::io::Error);

/// Everything that can make a command fail.
#[derive(Debug)]
pub enum Error {
    /// An operation on the file system failed.
    Io(std::io::Error),
    /// The path that a command was pointed at does not exist.
    PathNotFound(String),
}

} // verus!
