use vstd::prelude::*;

verus! {

/// std's I/O error, carried unopened by `Error::IoError`.
#[verifier::external_type_specification]
#[verifier::external_body]
pub struct ExIoError(std::io::Error);

/// The failures that the codec and the client can report.
#[derive(Debug)]
pub enum Error {
    /// A precondition of the client was not met (for example, no connection).
    ClientError(&'static str),
    /// The transport failed.
    IoError(std::io::Error),
    /// A value could not be put on the wire.
    EncodeError(&'static str),
    /// The octets on the wire are malformed.
    DecodeError(&'static str),
}

pub type DiameterResult<T> = Result<T, Error>;

impl Error {
    /// The description carried by the error; for a transport error, a fixed text.
    pub fn message(&self) -> (r: &'static str)
        ensures
            self matches Error::ClientError(m) ==> r == m,
            self matches Error::EncodeError(m) ==> r == m,
            self matches Error::DecodeError(m) ==> r == m,
    {
        match self {
            Error::ClientError(m) => m,
            Error::IoError(_) => "transport failure",
            Error::EncodeError(m) => m,
            Error::DecodeError(m) => m,
        }
    }
}

impl From<std::io::Error> for Error {
    fn from(err: std::io::Error) -> (r: Error)
        ensures
            r == Error::IoError(err),
    {
        Error::IoError(err)
    }
}

impl vstd::std_specs::convert::FromSpecImpl<std::io::Error> for Error {
    open spec fn obeys_from_spec() -> bool {
        true
    }

    open spec fn from_spec(v: std::io::Error) -> Error {
        Error::IoError(v)
    }
}

} // verus!
