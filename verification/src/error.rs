//! The closed set of failure kinds the media layer reports.
//!
//! The ring and byte reader raise only `RetryLater` and `InvalidInput`;
//! the remaining kinds are reserved for demuxers and decoders layered above.

use vstd::prelude::*;

verus! {

/// All errors the media layer can report.
#[non_exhaustive]
#[derive(Debug, PartialEq, Eq)]
pub enum Error {
    /// The stream contained malformed data and could not be decoded or demuxed.
    DecodeError(&'static str),
    /// An unsupported container or codec feature was encountered.
    Unsupported(&'static str),
    /// A default or user-defined limit was reached while decoding or demuxing
    /// the stream. Limits guard against denial-of-service from hostile streams.
    LimitError(&'static str),
    /// The demuxer or decoder needs to be reset before continuing.
    ResetRequired,
    /// No more data can be had right now; service supply and retry.
    RetryLater,
    /// Invalid input parameters.
    InvalidInput,
}

impl Error {
    /// A short description of the error kind, without its payload.
    pub fn message(&self) -> (m: &'static str)
        ensures
            m@ == match *self {
                Error::DecodeError(_) => "malformed stream"@,
                Error::Unsupported(_) => "unsupported feature"@,
                Error::LimitError(_) => "limit reached"@,
                Error::ResetRequired => "decoder needs to be reset"@,
                Error::RetryLater => "no data, retry later"@,
                Error::InvalidInput => "invalid input parameters"@,
            },
    {
        match self {
            Error::DecodeError(_) => "malformed stream",
            Error::Unsupported(_) => "unsupported feature",
            Error::LimitError(_) => "limit reached",
            Error::ResetRequired => "decoder needs to be reset",
            Error::RetryLater => "no data, retry later",
            Error::InvalidInput => "invalid input parameters",
        }
    }
}

/// Convenience function to create a decode error.
pub fn decode_error<T>(desc: &'static str) -> (r: Result<T, Error>)
    ensures
        r == Result::<T, Error>::Err(Error::DecodeError(desc)),
{
    Err(Error::DecodeError(desc))
}

/// Convenience function to create an unsupported feature error.
pub fn unsupported_error<T>(feature: &'static str) -> (r: Result<T, Error>)
    ensures
        r == Result::<T, Error>::Err(Error::Unsupported(feature)),
{
    Err(Error::Unsupported(feature))
}

/// Convenience function to create a limit error.
pub fn limit_error<T>(constraint: &'static str) -> (r: Result<T, Error>)
    ensures
        r == Result::<T, Error>::Err(Error::LimitError(constraint)),
{
    Err(Error::LimitError(constraint))
}

/// Convenience function to create a reset required error.
pub fn reset_error<T>() -> (r: Result<T, Error>)
    ensures
        r == Result::<T, Error>::Err(Error::ResetRequired),
{
    Err(Error::ResetRequired)
}

/// Convenience function to create an invalid parameters error.
pub fn invalid_input_error<T>() -> (r: Result<T, Error>)
    ensures
        r == Result::<T, Error>::Err(Error::InvalidInput),
{
    Err(Error::InvalidInput)
}

/// Convenience function to create a retry later error.
pub fn retry_later_error<T>() -> (r: Result<T, Error>)
    ensures
        r == Result::<T, Error>::Err(Error::RetryLater),
{
    Err(Error::RetryLater)
}

} // verus!
