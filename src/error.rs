use vstd::prelude::*;

verus! {

/// Why a set of statistics could not be produced.
#[derive(Clone, Copy, Debug, PartialEq, Eq, Structural)]
pub enum StatsError {
    /// The upstream source could not be reached or answered with a non-success status.
    FetchError,
    /// The response body is not valid UTF-8 text.
    DecodeError,
    /// The CSV text is malformed, or a `Flaske` field is not an integer.
    ParseError,
    /// The `Dato` or the `Flaske` column is missing.
    SchemaError,
    /// An aggregate is undefined, such as the largest of no amounts.
    AggregationError,
}

impl StatsError {
    /// Whether the failure lies with the upstream source rather than with its data.
    pub open spec fn is_upstream(self) -> bool {
        self is FetchError || self is DecodeError
    }

    /// The HTTP status that reports this failure: 502 when the upstream source
    /// failed, 422 when its data could not be aggregated.
    pub fn http_status(&self) -> (r: u16)
        ensures
            self.is_upstream() ==> r == 502,
            !self.is_upstream() ==> r == 422,
    {
        match self {
            StatsError::FetchError | StatsError::DecodeError => 502,
            _ => 422,
        }
    }
}

} // verus!
