//! Messages exchanged between the supervisor and the sorting actors.

use vstd::prelude::*;

verus! {

/// Supervisor -> SortingActor request: one chunk to be sorted.
#[derive(Debug, Clone, PartialEq, Eq)]
pub struct SortingRequest {
    pub values: Vec<i64>,
}

impl SortingRequest {
    pub fn new(values: Vec<i64>) -> (request: SortingRequest)
        ensures
            request.values == values,
    {
        SortingRequest { values }
    }
}

/// SortingActor -> Supervisor response: the chunk sorted ascending and the
/// time the sort took in milliseconds (negative when it was not measured).
#[derive(Debug, Clone, PartialEq, Eq)]
pub struct SortingResponse {
    pub values: Vec<i64>,
    pub duration: i64,
}

impl SortingResponse {
    pub fn new(values: Vec<i64>, duration: i64) -> (response: SortingResponse)
        ensures
            response.values == values,
            response.duration == duration,
    {
        SortingResponse { values, duration }
    }
}

} // verus!
