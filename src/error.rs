//! FCP-specific errors.
use vstd::prelude::*;

verus! {

/// Declares `std::io::Error` so that a transport failure can be carried as it is.
#[verifier::external_type_specification]
#[verifier::external_body]
pub struct ExIoError(std::io::Error);

/// Enumeration of possible errors during FCP communication.
#[derive(Debug)]
pub enum Error {
    /// Wrapper for an I/O error.
    IoError(std::io::Error),
    /// Error signaling that an FCP connection was used before
    /// it was connected.
    NotConnected,
    /// Error during FCP communication, signaling unexpected
    /// or invalid messages.
    ProtocolError,
}

/// Conversion of a transport result into an FCP result.
pub trait ToFcpError<T> {
    fn to_fcp_error(self) -> Result<T, Error>;
}

impl<T> ToFcpError<T> for Result<T, std::io::Error> {
    /// Keeps a success as it is and wraps a transport failure into
    /// [`Error::IoError`].
    fn to_fcp_error(self) -> (r: Result<T, Error>)
        ensures
            match self {
                Ok(v) => r == Ok::<T, Error>(v),
                Err(e) => r == Err::<T, Error>(Error::IoError(e)),
            },
    {
        match self {
            Ok(v) => Ok(v),
            Err(e) => Err(Error::IoError(e)),
        }
    }
}

} // verus!
