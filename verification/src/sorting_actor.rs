//! The sorting actor: sorts one chunk per request and reports how long the
//! sort took.

use crate::merge::is_ascending;
use crate::messages::{SortingRequest, SortingResponse};
use std::time::{Duration, Instant};
use vstd::prelude::*;

verus! {

/// `std::time::Instant`, a reading of the monotonic clock.
#[verifier::external_type_specification]
#[verifier::external_body]
pub struct ExInstant(Instant);

/// `Instant::now`: the current reading of the clock. Nothing is known of it.
#[verifier::external_body]
fn clock_now() -> Instant {
    Instant::now()
}

/// `Instant::elapsed`: the time that has passed since `start`. Nothing is
/// known of it.
#[verifier::external_body]
fn elapsed_since(start: &Instant) -> Duration {
    start.elapsed()
}

/// `Duration::as_millis`: the whole milliseconds in `elapsed`.
#[verifier::external_body]
fn whole_millis(elapsed: &Duration) -> u128 {
    elapsed.as_millis()
}

/// The milliseconds as a signed number, held at the largest one where they
/// exceed it.
fn clamp_millis(millis: u128) -> (duration: i64)
    ensures
        duration == (if millis > i64::MAX {
            i64::MAX as int
        } else {
            millis as int
        }),
{
    if millis > 0x7fff_ffff_ffff_ffff {
        i64::MAX
    } else {
        millis as i64
    }
}

/// The slice method `sort` of std on the vector's elements: afterwards they
/// stand in ascending order, and they are the elements that were there
/// before.
#[verifier::external_body]
fn sort_in_place(v: &mut Vec<i64>)
    ensures
        is_ascending(final(v)@),
        final(v)@.to_multiset() == old(v)@.to_multiset(),
{
    v.sort()
}

/// A worker, known by the address it connected from. It keeps nothing from
/// one request to the next.
#[derive(Debug, Clone)]
pub struct SortingActor {
    pub addr: String,
}

impl SortingActor {
    pub fn new(addr: String) -> (actor: SortingActor)
        ensures
            actor.addr == addr,
    {
        SortingActor { addr }
    }

    /// The values of `v` in ascending order.
    pub fn sort_vec(&self, v: Vec<i64>) -> (sorted: Vec<i64>)
        ensures
            is_ascending(sorted@),
            sorted@.to_multiset() == v@.to_multiset(),
    {
        let mut vals = v;
        sort_in_place(&mut vals);
        vals
    }

    /// Answers one request: sorts its chunk and reports the sorted chunk
    /// together with the time the sort took, in milliseconds.
    pub fn handle(&self, msg: SortingRequest) -> (response: SortingResponse)
        ensures
            is_ascending(response.values@),
            response.values@.to_multiset() == msg.values@.to_multiset(),
            response.duration >= 0,
    {
        let start = clock_now();
        let vals = self.sort_vec(msg.values);
        let elapsed = elapsed_since(&start);
        let duration = clamp_millis(whole_millis(&elapsed));
        SortingResponse::new(vals, duration)
    }
}

} // verus!
