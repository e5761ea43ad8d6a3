//! Turning the upstream source's answer into statistics.
use vstd::prelude::*;
use vstd::utf8::valid_utf8;
use crate::error::StatsError;
use crate::stats::{Stats, StatsModel, stats_of, stats_from_csv};

verus! {

/// Relies on `std::str::from_utf8`, which succeeds exactly on well-formed
/// UTF-8.
#[verifier::external_body]
fn utf8_ok(b: &[u8]) -> (r: bool)
    ensures
        r == valid_utf8(b@),
{
    std::str::from_utf8(b).is_ok()
}

/// A status in the 2xx range.
pub open spec fn is_success(status: u16) -> bool {
    200 <= status <= 299
}

/// The statistics that an answer with this status and body yields: a fetch
/// error for a non-success status, whatever the body; a decode error for a
/// body that is not text; else the statistics of the body's CSV.
pub open spec fn response_stats(status: u16, body: Seq<u8>) -> Result<StatsModel, StatsError> {
    if !is_success(status) {
        Err(StatsError::FetchError)
    } else if !valid_utf8(body) {
        Err(StatsError::DecodeError)
    } else {
        stats_of(body)
    }
}

/// The statistics of the upstream source's answer.
pub fn stats_from_response(status: u16, body: &[u8]) -> (r: Result<Stats, StatsError>)
    ensures
        match r {
            Ok(s) => response_stats(status, body@) == Ok::<StatsModel, StatsError>(s@),
            Err(e) => response_stats(status, body@) == Err::<StatsModel, StatsError>(e),
        },
{
    if status < 200 || status > 299 {
        return Err(StatsError::FetchError);
    }
    if !utf8_ok(body) {
        return Err(StatsError::DecodeError);
    }
    stats_from_csv(body)
}

} // verus!
