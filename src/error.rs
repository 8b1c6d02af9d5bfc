use vstd::prelude::*;

verus! {

/// Why a header could not be read.
#[derive(Debug, Clone, Copy, PartialEq, Eq, Structural)]
pub enum Error {
    /// The header is present, but its value is not an HTTP-date: the request
    /// is malformed, a client error.
    MalformedHeader,
}

impl Error {
    /// The HTTP status code that reports this error.
    pub open spec fn status_spec(self) -> u16 {
        match self {
            Error::MalformedHeader => 400,
        }
    }

    /// The HTTP status code that reports this error: 400 (Bad Request).
    pub fn status(&self) -> (r: u16)
        ensures
            r == self.status_spec(),
    {
        match self {
            Error::MalformedHeader => 400,
        }
    }
}

} // verus!
