use vstd::prelude::*;

verus! {

/// The stage of the departure-acquisition pipeline a failure came from.
/// Every failure is fatal for the whole run; nothing is retried.
#[derive(Debug, Clone, Copy, PartialEq, Eq, Structural)]
pub enum BusErrorKind {
    /// The request URL could not be parsed.
    Url,
    /// The HTTP transport failed (connection, DNS, TLS).
    Network,
    /// The backend answered with a non-success HTTP status.
    Http,
    /// The response body could not be read.
    Io,
    /// The response body was malformed or had the wrong shape.
    Decode,
    /// A pattern identifier did not match the required shape.
    PatternFormat,
}

/// A failure of one departure-acquisition run: the stage it came from
/// plus a human-readable message.
#[derive(Debug)]
pub struct BusError {
    pub kind: BusErrorKind,
    pub message: String,
}

impl BusError {
    pub fn new(kind: BusErrorKind, message: String) -> (r: BusError)
        ensures
            r.kind == kind,
            r.message@ == message@,
    {
        BusError { kind, message }
    }
}

} // verus!
