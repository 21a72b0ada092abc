pub mod aggregate;
pub mod decode;
pub mod error;
pub mod fetch;
pub mod pattern;
pub mod url_build;

use vstd::prelude::*;

verus! {

/// Options for one backend request: how many departures the backend
/// should return per trip pattern (`None` leaves the backend default).
#[derive(Debug, Clone, Copy)]
pub struct RequestConfig {
    pub departures_per_pattern: Option<u32>,
}

/// One scheduled departure: a normalized bus line code together with
/// the absolute departure time, in seconds since the epoch, anchored
/// to the local calendar day by the backend.
#[derive(Debug)]
pub struct Departure {
    pub bus: String,
    pub timestamp: i64,
}

impl Clone for Departure {
    fn clone(&self) -> (r: Self)
        ensures
            r == *self,
    {
        Departure { bus: self.bus.clone(), timestamp: self.timestamp }
    }
}

} // verus!
