//! The two transport codecs. Both directions frame their payload in the same
//! way; each side only ever decodes the kind of message it expects.

use crate::framing::{
    after_first, buffered, decode_frame, first_payload, frame_of, frame_ready, has_room,
    try_encode_frame,
};
use bytes::BytesMut;
use vstd::prelude::*;

verus! {

/// Codec for SortingActor -> Supervisor transport: frames the payloads of
/// responses and takes the payloads of requests out of their frames.
#[derive(Debug, Clone, Copy, Default)]
pub struct SortingActorToSupervisorCodec;

impl SortingActorToSupervisorCodec {
    /// Appends the frame that carries the serialized response to `dst` if
    /// there is room for it, and says whether it did. Without room `dst` is
    /// left as it is.
    pub fn encode(&mut self, payload: &[u8], dst: &mut BytesMut) -> (written: bool)
        ensures
            written == has_room(buffered(*old(dst)).len(), payload@.len()),
            written ==> buffered(*final(dst)) == buffered(*old(dst)) + frame_of(payload@),
            !written ==> *final(dst) == *old(dst),
    {
        try_encode_frame(payload, dst)
    }

    /// Takes the serialized request of the first frame off `src`, or
    /// returns `None` and leaves `src` as it is while that frame is
    /// incomplete.
    pub fn decode(&mut self, src: &mut BytesMut) -> (payload: Option<Vec<u8>>)
        ensures
            match payload {
                Some(bytes) => {
                    &&& frame_ready(buffered(*old(src)))
                    &&& bytes@ == first_payload(buffered(*old(src)))
                    &&& buffered(*final(src)) == after_first(buffered(*old(src)))
                },
                None => !frame_ready(buffered(*old(src))) && *final(src) == *old(src),
            },
    {
        decode_frame(src)
    }
}

/// Codec for Supervisor -> SortingActor transport: frames the payloads of
/// requests and takes the payloads of responses out of their frames.
#[derive(Debug, Clone, Copy, Default)]
pub struct SupervisorToSortingActorCodec;

impl SupervisorToSortingActorCodec {
    /// Appends the frame that carries the serialized request to `dst` if
    /// there is room for it, and says whether it did. Without room `dst` is
    /// left as it is.
    pub fn encode(&mut self, payload: &[u8], dst: &mut BytesMut) -> (written: bool)
        ensures
            written == has_room(buffered(*old(dst)).len(), payload@.len()),
            written ==> buffered(*final(dst)) == buffered(*old(dst)) + frame_of(payload@),
            !written ==> *final(dst) == *old(dst),
    {
        try_encode_frame(payload, dst)
    }

    /// Takes the serialized response of the first frame off `src`, or
    /// returns `None` and leaves `src` as it is while that frame is
    /// incomplete.
    pub fn decode(&mut self, src: &mut BytesMut) -> (payload: Option<Vec<u8>>)
        ensures
            match payload {
                Some(bytes) => {
                    &&& frame_ready(buffered(*old(src)))
                    &&& bytes@ == first_payload(buffered(*old(src)))
                    &&& buffered(*final(src)) == after_first(buffered(*old(src)))
                },
                None => !frame_ready(buffered(*old(src))) && *final(src) == *old(src),
            },
    {
        decode_frame(src)
    }
}

} // verus!
