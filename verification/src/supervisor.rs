//! The supervisor's job state: which workers are registered, how a job is
//! dispatched to them, and how their responses are folded into the result.

use crate::chunking::{
    assigned_worker, chunk_at, chunk_views, round_robin_assign, split_error, split_spec,
    split_vec, ChunkError,
};
use crate::chunking::{lemma_combined_is_concat, lemma_split_covers};
use crate::merge::{
    all_ascending, is_ascending, lemma_arrival_order_irrelevant, lemma_combined_by_chunk,
    lemma_merge_all_sorted, lemma_merge_ascending, lemma_merge_empty, merge, merge_all,
    merge_spec,
};
use crate::messages::SortingResponse;
use vstd::prelude::*;

verus! {

/// The supervisor's state as plain values.
pub struct JobState {
    /// The address the supervisor listens on.
    pub addr: Seq<char>,
    /// Where the result goes; a lone `-` stands for nowhere.
    pub output_path: Seq<char>,
    /// Workers that must be registered before a job is dispatched.
    pub num_actors: nat,
    /// Chunks that a job is split into.
    pub num_chunks: nat,
    /// Workers registered so far; worker `i` is the `i`-th that registered.
    pub workers: nat,
    /// Responses merged so far.
    pub processed_chunks: nat,
    /// The result accumulated so far.
    pub sorted_values: Seq<i64>,
}

/// What became of a submitted job.
#[derive(Debug)]
pub enum Dispatch {
    /// Too few workers are registered. Nothing was sent; the values come
    /// back to be submitted again after the retry interval.
    Deferred(Vec<i64>),
    /// The values cannot be split into the configured number of chunks.
    /// Nothing was sent.
    Rejected(ChunkError),
    /// The chunks to send, each with the index of the worker it goes to.
    Sent(Vec<(usize, Vec<i64>)>),
}

/// The assignments are those of a round-robin dispatch of `values`, split
/// into `num_chunks` chunks, over `workers` workers: one per chunk, in chunk
/// order, chunk `i` going to worker `i mod workers`.
pub open spec fn is_round_robin(
    assignments: Seq<(usize, Vec<i64>)>,
    values: Seq<i64>,
    num_chunks: nat,
    workers: nat,
) -> bool {
    &&& assignments.len() == (if workers == 0 {
        0
    } else {
        num_chunks
    })
    &&& forall|i: int|
        0 <= i < assignments.len() ==> (#[trigger] assignments[i]).0 == assigned_worker(i, workers)
            && assignments[i].1@ == chunk_at(values, num_chunks, i)
}

/// The outcome that a submission of `values` has in state `state`.
pub open spec fn is_dispatch_of(out: Dispatch, state: JobState, values: Seq<i64>) -> bool {
    if state.workers < state.num_actors {
        out matches Dispatch::Deferred(v) && v@ == values
    } else {
        match split_error(values.len(), state.num_chunks) {
            Some(e) => out == Dispatch::Rejected(e),
            None => out matches Dispatch::Sent(a) && is_round_robin(
                a@,
                values,
                state.num_chunks,
                state.workers,
            ),
        }
    }
}

/// The state after a response with `values` has arrived in state `state`:
/// a complete job takes no more responses; otherwise the values are merged
/// into the result and counted.
pub open spec fn after_response(state: JobState, values: Seq<i64>) -> JobState {
    if state.processed_chunks >= state.num_chunks {
        state
    } else {
        JobState {
            processed_chunks: state.processed_chunks + 1,
            sorted_values: merge_spec(state.sorted_values, values),
            ..state
        }
    }
}

/// The job is complete: as many responses were merged as there are chunks.
pub open spec fn is_complete(state: JobState) -> bool {
    state.processed_chunks == state.num_chunks
}

/// The supervisor of one sort job.
#[derive(Debug)]
pub struct SupervisorActor {
    addr: String,
    output_path: String,
    num_actors: usize,
    num_chunks: usize,
    sorting_actors: usize,
    processed_chunks: usize,
    sorted_values: Vec<i64>,
}

impl View for SupervisorActor {
    type V = JobState;

    closed spec fn view(&self) -> JobState {
        JobState {
            addr: self.addr@,
            output_path: self.output_path@,
            num_actors: self.num_actors as nat,
            num_chunks: self.num_chunks as nat,
            workers: self.sorting_actors as nat,
            processed_chunks: self.processed_chunks as nat,
            sorted_values: self.sorted_values@,
        }
    }
}

/// The indices `0..n`, in order.
fn worker_indices(n: usize) -> (indices: Vec<usize>)
    ensures
        indices@.len() == n,
        forall|i: int| 0 <= i < n ==> indices@[i] == i,
{
    let mut indices: Vec<usize> = Vec::new();
    let mut i: usize = 0;
    while i < n
        invariant
            i <= n,
            indices@.len() == i,
            forall|k: int| 0 <= k < i ==> indices@[k] == k,
        decreases n - i,
    {
        indices.push(i);
        i += 1;
    }
    indices
}

impl SupervisorActor {
    /// Never are more responses merged than the job has chunks.
    #[verifier::type_invariant]
    spec fn within_chunks(self) -> bool {
        self.processed_chunks <= self.num_chunks
    }

    /// A supervisor with no worker registered and no response merged.
    pub fn new(addr: String, num_actors: usize, num_chunks: usize, output_path: String) -> (actor:
        SupervisorActor)
        ensures
            actor@ == (JobState {
                addr: addr@,
                output_path: output_path@,
                num_actors: num_actors as nat,
                num_chunks: num_chunks as nat,
                workers: 0,
                processed_chunks: 0,
                sorted_values: Seq::<i64>::empty(),
            }),
    {
        SupervisorActor {
            addr,
            output_path,
            num_actors,
            num_chunks,
            sorting_actors: 0,
            processed_chunks: 0,
            sorted_values: Vec::new(),
        }
    }

    /// The address the supervisor listens on.
    pub fn addr(&self) -> (addr: &String)
        ensures
            addr@ == self@.addr,
    {
        &self.addr
    }

    /// Where the result goes.
    pub fn output_path(&self) -> (path: &String)
        ensures
            path@ == self@.output_path,
    {
        &self.output_path
    }

    /// Whether the result is to be written out: it is, unless the output
    /// path is a lone `-`.
    pub fn persists_output(&self) -> (persists: bool)
        ensures
            persists == (self@.output_path != seq!['-']),
    {
        let nowhere = String::from_str("-");
        proof {
            reveal_strlit("-");
            assert("-"@ =~= seq!['-']);
        }
        !(self.output_path == nowhere)
    }

    /// Workers that must be registered before a job is dispatched.
    pub fn num_actors(&self) -> (n: usize)
        ensures
            n == self@.num_actors,
    {
        self.num_actors
    }

    /// Chunks that a job is split into.
    pub fn num_chunks(&self) -> (n: usize)
        ensures
            n == self@.num_chunks,
    {
        self.num_chunks
    }

    /// Workers registered so far.
    pub fn workers(&self) -> (n: usize)
        ensures
            n == self@.workers,
    {
        self.sorting_actors
    }

    /// Responses merged so far; never more than the job has chunks.
    pub fn processed_chunks(&self) -> (n: usize)
        ensures
            n == self@.processed_chunks,
            self@.processed_chunks <= self@.num_chunks,
    {
        proof {
            use_type_invariant(self);
        }
        self.processed_chunks
    }

    /// The result accumulated so far.
    pub fn sorted_values(&self) -> (values: &Vec<i64>)
        ensures
            values@ == self@.sorted_values,
    {
        &self.sorted_values
    }

    /// Whether as many responses were merged as the job has chunks.
    pub fn is_complete(&self) -> (complete: bool)
        ensures
            complete == is_complete(self@),
    {
        self.processed_chunks == self.num_chunks
    }

    /// Registers a newly connected worker behind those already registered
    /// and returns its index, the one by which chunks are assigned to it.
    pub fn register_worker(&mut self) -> (index: usize)
        requires
            old(self)@.workers < usize::MAX,
        ensures
            index == old(self)@.workers,
            final(self)@ == (JobState { workers: old(self)@.workers + 1, ..old(self)@ }),
    {
        proof {
            use_type_invariant(&*self);
        }
        let index = self.sorting_actors;
        self.sorting_actors = index + 1;
        index
    }

    /// Submits a job over `values`. While fewer workers are registered than
    /// required the job is deferred. Otherwise the values are split into the
    /// configured number of chunks and chunk `i` is assigned to worker
    /// `i mod N`, `N` being the number of workers registered now; a split
    /// that is refused rejects the job before anything is assigned.
    pub fn sort_values(&self, values: Vec<i64>) -> (out: Dispatch)
        ensures
            is_dispatch_of(out, self@, values@),
    {
        if self.sorting_actors < self.num_actors {
            return Dispatch::Deferred(values);
        }
        match split_vec(&values, self.num_chunks) {
            Err(e) => Dispatch::Rejected(e),
            Ok(chunks) => {
                let actor_idxs = worker_indices(self.sorting_actors);
                let ghost parts = chunks@;
                let assignments = round_robin_assign(actor_idxs, chunks);
                proof {
                    let n = self@.workers;
                    let k = self@.num_chunks;
                    assert forall|i: int| 0 <= i < assignments@.len() implies (
                    #[trigger] assignments@[i]).0 == assigned_worker(i, n) && assignments@[i].1@
                        == chunk_at(values@, k, i) by {
                        assert(0 <= i % (n as int) < n) by (nonlinear_arith)
                            requires
                                0 <= i,
                                n > 0,
                        ;
                        assert(chunk_views(parts)[i] == parts[i]@);
                        assert(split_spec(values@, k)[i] == chunk_at(values@, k, i));
                    }
                }
                Dispatch::Sent(assignments)
            },
        }
    }

    /// Takes in one response. The first response becomes the result as it
    /// is, every later one is merged into it. Returns whether this response
    /// completed the job. A response that arrives when the job is complete
    /// is dropped.
    pub fn on_response(&mut self, msg: SortingResponse) -> (completed: bool)
        ensures
            final(self)@ == after_response(old(self)@, msg.values@),
            completed == (!is_complete(old(self)@) && is_complete(final(self)@)),
            is_ascending(old(self)@.sorted_values) && is_ascending(msg.values@) ==> is_ascending(
                final(self)@.sorted_values,
            ),
    {
        proof {
            use_type_invariant(&*self);
            lemma_merge_empty(msg.values@);
            if is_ascending(self@.sorted_values) && is_ascending(msg.values@) {
                lemma_merge_ascending(self@.sorted_values, msg.values@);
            }
        }
        if self.processed_chunks >= self.num_chunks {
            return false;
        }
        if self.sorted_values.is_empty() {
            proof {
                assert(self.sorted_values@ =~= Seq::<i64>::empty());
            }
            self.sorted_values = msg.values;
        } else {
            self.sorted_values = merge(&self.sorted_values, &msg.values);
        }
        self.processed_chunks += 1;
        self.processed_chunks == self.num_chunks
    }
}

/// The state after the responses have arrived one after the other, in the
/// order of the sequence.
pub open spec fn after_responses(state: JobState, responses: Seq<Seq<i64>>) -> JobState
    decreases responses.len(),
{
    if responses.len() == 0 {
        state
    } else {
        after_response(after_responses(state, responses.drop_last()), responses.last())
    }
}

/// A job that has merged nothing yet.
pub open spec fn is_fresh(state: JobState) -> bool {
    state.processed_chunks == 0 && state.sorted_values.len() == 0
}

/// Whatever arrives, the count of merged responses never exceeds the number
/// of chunks, and once the job is complete the state no longer changes.
pub proof fn lemma_completion_is_terminal(state: JobState, values: Seq<i64>)
    requires
        state.processed_chunks <= state.num_chunks,
    ensures
        after_response(state, values).processed_chunks <= state.num_chunks,
        is_complete(state) ==> after_response(state, values) == state,
{
}

/// While a fresh job has received no more responses than it has chunks, its
/// result is the fold of the responses in arrival order and its count is
/// their number; if every response is ascending, so is the result.
pub proof fn lemma_job_progress(state: JobState, responses: Seq<Seq<i64>>)
    requires
        is_fresh(state),
        responses.len() <= state.num_chunks,
    ensures
        after_responses(state, responses) == (JobState {
            processed_chunks: responses.len(),
            sorted_values: merge_all(responses),
            ..state
        }),
        all_ascending(responses) ==> is_ascending(merge_all(responses)),
        is_complete(after_responses(state, responses)) <==> responses.len() == state.num_chunks,
    decreases responses.len(),
{
    lemma_merge_all_sorted(responses);
    if responses.len() == 0 {
        assert(state.sorted_values =~= Seq::<i64>::empty());
    } else {
        lemma_job_progress(state, responses.drop_last());
    }
}

/// The result of a job does not depend on the order in which the responses
/// arrive: two arrival orders of the same ascending responses leave the
/// supervisor in the same state.
pub proof fn lemma_job_result_any_order(
    state: JobState,
    first: Seq<Seq<i64>>,
    second: Seq<Seq<i64>>,
)
    requires
        is_fresh(state),
        first.len() <= state.num_chunks,
        all_ascending(first),
        first.to_multiset() == second.to_multiset(),
    ensures
        after_responses(state, first) == after_responses(state, second),
{
    first.to_multiset_ensures();
    second.to_multiset_ensures();
    lemma_job_progress(state, first);
    lemma_job_progress(state, second);
    lemma_arrival_order_irrelevant(first, second);
}

/// A job sorts its input: when every chunk of the split of `values` comes
/// back sorted, in whatever order, the result of the complete job is
/// ascending and holds exactly the values of the input.
pub proof fn lemma_job_sorts_input(
    state: JobState,
    values: Seq<i64>,
    sorted: Seq<Seq<i64>>,
    arrivals: Seq<Seq<i64>>,
)
    requires
        is_fresh(state),
        split_error(values.len(), state.num_chunks) is None,
        sorted.len() == state.num_chunks,
        forall|i: int|
            0 <= i < sorted.len() ==> is_ascending(#[trigger] sorted[i]) && sorted[i].to_multiset()
                == chunk_at(values, state.num_chunks, i).to_multiset(),
        arrivals.to_multiset() == sorted.to_multiset(),
    ensures
        is_complete(after_responses(state, arrivals)),
        is_ascending(after_responses(state, arrivals).sorted_values),
        after_responses(state, arrivals).sorted_values.to_multiset() == values.to_multiset(),
{
    let parts = split_spec(values, state.num_chunks);
    sorted.to_multiset_ensures();
    arrivals.to_multiset_ensures();
    lemma_job_result_any_order(state, sorted, arrivals);
    lemma_job_progress(state, sorted);
    lemma_merge_all_sorted(sorted);
    lemma_split_covers(values, state.num_chunks);
    lemma_combined_by_chunk(sorted, parts);
    lemma_combined_is_concat(parts);
}

} // verus!
