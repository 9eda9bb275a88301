//! Coordination and transport logic of a distributed merge sort: message
//! types, length-prefixed framing, chunking and round-robin assignment, the
//! supervisor's job state and the merge that folds sorted chunks together.

pub mod chunking;
pub mod codec;
pub mod framing;
pub mod merge;
pub mod numbers;
pub mod messages;
pub mod sorting_actor;
pub mod supervisor;

pub use chunking::{round_robin_assign, split_vec, ChunkError};
pub use codec::{SortingActorToSupervisorCodec, SupervisorToSortingActorCodec};
pub use framing::{decode_frame, encode_frame, try_encode_frame};
pub use merge::merge;
pub use numbers::{format_numbers, parse_numbers, InvalidLine};
pub use messages::{SortingRequest, SortingResponse};
pub use sorting_actor::SortingActor;
pub use supervisor::{Dispatch, SupervisorActor};
