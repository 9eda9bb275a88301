//! Length-prefixed framing over a growable receive buffer: every frame is an
//! eight-byte big-endian length followed by that many payload bytes.

use byteorder::{BigEndian, ByteOrder};
use bytes::{BufMut, BytesMut};
use vstd::prelude::*;

verus! {

/// Number of bytes in the length header of a frame.
pub const HEADER_LEN: usize = 8;

/// `bytes::BytesMut`, the buffer that frames are written to and read from.
/// It is carried as an opaque value; `buffered` names what it holds.
#[verifier::external_type_specification]
#[verifier::external_body]
pub struct ExBytesMut(BytesMut);

/// The bytes that a buffer currently holds, front first.
pub uninterp spec fn buffered(buf: BytesMut) -> Seq<u8>;

/// The eight bytes that stand for `n` in big-endian order, most significant
/// byte first.
pub open spec fn be_bytes(n: nat) -> Seq<u8> {
    seq![
        ((n / 0x1_00_0000_0000_0000) % 256) as u8,
        ((n / 0x1_0000_0000_0000) % 256) as u8,
        ((n / 0x1_00_0000_0000) % 256) as u8,
        ((n / 0x1_0000_0000) % 256) as u8,
        ((n / 0x1_00_0000) % 256) as u8,
        ((n / 0x1_0000) % 256) as u8,
        ((n / 0x1_00) % 256) as u8,
        (n % 256) as u8,
    ]
}

/// The number that the first eight bytes of `b` stand for in big-endian
/// order.
pub open spec fn be_value(b: Seq<u8>) -> nat
    recommends
        b.len() >= 8,
{
    (b[0] as nat) * 0x1_00_0000_0000_0000 + (b[1] as nat) * 0x1_0000_0000_0000 + (b[2] as nat)
        * 0x1_00_0000_0000 + (b[3] as nat) * 0x1_0000_0000 + (b[4] as nat) * 0x1_00_0000 + (
    b[5] as nat) * 0x1_0000 + (b[6] as nat) * 0x1_00 + (b[7] as nat)
}

/// The frame that carries `payload`: its length as a header, then the
/// payload itself.
pub open spec fn frame_of(payload: Seq<u8>) -> Seq<u8> {
    be_bytes(payload.len()) + payload
}

/// A whole frame stands at the front of `buf`: the header is there, and as
/// many bytes follow as it declares.
pub open spec fn frame_ready(buf: Seq<u8>) -> bool {
    buf.len() >= 8 && be_value(buf) + 8 <= buf.len()
}

/// The payload of the frame at the front of `buf`.
pub open spec fn first_payload(buf: Seq<u8>) -> Seq<u8>
    recommends
        frame_ready(buf),
{
    buf.subrange(8, 8 + be_value(buf) as int)
}

/// What is left of `buf` once the frame at its front is taken away.
pub open spec fn after_first(buf: Seq<u8>) -> Seq<u8>
    recommends
        frame_ready(buf),
{
    buf.subrange(8 + be_value(buf) as int, buf.len() as int)
}

/// Reading a big-endian header back gives the number that was written.
pub proof fn lemma_be_round_trip(n: nat)
    requires
        n <= u64::MAX,
    ensures
        be_bytes(n).len() == 8,
        be_value(be_bytes(n)) == n,
{
    let x = n as u64;
    assert(x == ((x / 0x1_00_0000_0000_0000) % 256) * 0x1_00_0000_0000_0000 + ((x
        / 0x1_0000_0000_0000) % 256) * 0x1_0000_0000_0000 + ((x / 0x1_00_0000_0000) % 256)
        * 0x1_00_0000_0000 + ((x / 0x1_0000_0000) % 256) * 0x1_0000_0000 + ((x / 0x1_00_0000)
        % 256) * 0x1_00_0000 + ((x / 0x1_0000) % 256) * 0x1_0000 + ((x / 0x1_00) % 256) * 0x1_00
        + (x % 256)) by (bit_vector);
}

/// Framing round trip: a buffer that starts with the frame of a payload
/// yields that payload, and what followed the frame is what is left.
pub proof fn lemma_frame_round_trip(payload: Seq<u8>, rest: Seq<u8>)
    requires
        payload.len() <= u64::MAX,
    ensures
        frame_ready(frame_of(payload) + rest),
        first_payload(frame_of(payload) + rest) == payload,
        after_first(frame_of(payload) + rest) == rest,
{
    let buf = frame_of(payload) + rest;
    lemma_be_round_trip(payload.len());
    lemma_header_of_prefix(be_bytes(payload.len()), buf);
    assert(first_payload(buf) =~= payload);
    assert(after_first(buf) =~= rest);
}

/// A strict prefix of a frame never holds a whole frame, so nothing can be
/// taken from it; with the missing bytes appended, the frame is whole again.
pub proof fn lemma_partial_frame(payload: Seq<u8>, n: int)
    requires
        payload.len() <= u64::MAX,
        0 <= n < frame_of(payload).len(),
    ensures
        !frame_ready(frame_of(payload).take(n)),
        frame_of(payload).take(n) + frame_of(payload).skip(n) == frame_of(payload),
        frame_ready(frame_of(payload)),
        first_payload(frame_of(payload)) == payload,
        after_first(frame_of(payload)) == Seq::<u8>::empty(),
{
    let frame = frame_of(payload);
    lemma_be_round_trip(payload.len());
    if n >= 8 {
        lemma_header_of_prefix(be_bytes(payload.len()), frame.take(n));
    }
    assert(frame.take(n) + frame.skip(n) =~= frame);
    lemma_frame_round_trip(payload, Seq::<u8>::empty());
    assert(frame + Seq::<u8>::empty() =~= frame);
}

/// The header value of a buffer depends on its first eight bytes alone.
proof fn lemma_header_of_prefix(header: Seq<u8>, buf: Seq<u8>)
    requires
        header.len() == 8,
        buf.len() >= 8,
        forall|i: int| 0 <= i < 8 ==> buf[i] == header[i],
    ensures
        be_value(buf) == be_value(header),
{
}

/// `BytesMut::len`: the number of bytes the buffer holds.
#[verifier::external_body]
fn buffer_len(buf: &BytesMut) -> (n: usize)
    ensures
        n == buffered(*buf).len(),
{
    buf.len()
}

/// `byteorder::BigEndian::read_u64` on the buffer's bytes: the big-endian
/// value of the first eight bytes. It panics on fewer than eight bytes, which
/// the precondition leaves out.
#[verifier::external_body]
fn read_header(buf: &BytesMut) -> (n: u64)
    requires
        buffered(*buf).len() >= 8,
    ensures
        n == be_value(buffered(*buf)),
{
    BigEndian::read_u64(buf.as_ref())
}

/// `BytesMut::split_to`: takes the first `at` bytes off the buffer and
/// returns them; the buffer keeps the bytes from `at` on. It panics when
/// `at` exceeds the length, which the precondition leaves out.
#[verifier::external_body]
fn split_front(buf: &mut BytesMut, at: usize) -> (front: BytesMut)
    requires
        at <= buffered(*old(buf)).len(),
    ensures
        buffered(front) == buffered(*old(buf)).subrange(0, at as int),
        buffered(*final(buf)) == buffered(*old(buf)).subrange(
            at as int,
            buffered(*old(buf)).len() as int,
        ),
{
    buf.split_to(at)
}

/// `Vec::<u8>::from(BytesMut)`: the bytes of the buffer as a vector.
#[verifier::external_body]
fn into_vec(buf: BytesMut) -> (bytes: Vec<u8>)
    ensures
        bytes@ == buffered(buf),
{
    Vec::from(buf)
}

/// `BytesMut::reserve`: makes room for `additional` more bytes and leaves
/// the contents as they are. It panics when the capacity needed overflows;
/// the precondition keeps the length that is reserved for within the
/// largest allocation.
#[verifier::external_body]
fn reserve(buf: &mut BytesMut, additional: usize)
    requires
        buffered(*old(buf)).len() + additional <= isize::MAX,
    ensures
        buffered(*final(buf)) == buffered(*old(buf)),
{
    buf.reserve(additional)
}

/// `BufMut::put_u64` on a `BytesMut`: appends `n` as eight big-endian bytes,
/// growing the buffer as needed.
#[verifier::external_body]
fn put_u64(buf: &mut BytesMut, n: u64)
    requires
        buffered(*old(buf)).len() + 8 <= isize::MAX,
    ensures
        buffered(*final(buf)) == buffered(*old(buf)) + be_bytes(n as nat),
{
    buf.put_u64(n)
}

/// `BufMut::put` on a `BytesMut` with a byte slice: appends the slice,
/// growing the buffer as needed.
#[verifier::external_body]
fn put_bytes(buf: &mut BytesMut, src: &[u8])
    requires
        buffered(*old(buf)).len() + src@.len() <= isize::MAX,
    ensures
        buffered(*final(buf)) == buffered(*old(buf)) + src@,
{
    buf.put(src)
}

/// Appends the frame that carries `payload` to `dst`.
pub fn encode_frame(payload: &[u8], dst: &mut BytesMut)
    requires
        has_room(buffered(*old(dst)).len(), payload@.len()),
    ensures
        buffered(*final(dst)) == buffered(*old(dst)) + frame_of(payload@),
{
    let ghost before = buffered(*dst);
    reserve(dst, payload.len() + HEADER_LEN);
    put_u64(dst, payload.len() as u64);
    put_bytes(dst, payload);
    proof {
        assert(buffered(*dst) =~= before + frame_of(payload@));
    }
}

/// Whether the frame of a payload of `payload_len` bytes can be appended to
/// a buffer holding `buffered_len` bytes without growing it past the largest
/// allocation.
pub open spec fn has_room(buffered_len: nat, payload_len: nat) -> bool {
    buffered_len + 8 + payload_len <= isize::MAX
}

/// Appends the frame that carries `payload` to `dst` if there is room for
/// it, and says whether it did. Without room `dst` is left as it is.
pub fn try_encode_frame(payload: &[u8], dst: &mut BytesMut) -> (written: bool)
    ensures
        written == has_room(buffered(*old(dst)).len(), payload@.len()),
        written ==> buffered(*final(dst)) == buffered(*old(dst)) + frame_of(payload@),
        !written ==> *final(dst) == *old(dst),
{
    let limit: usize = isize::MAX as usize;
    let held = buffer_len(dst);
    if held > limit - HEADER_LEN || payload.len() > limit - HEADER_LEN - held {
        return false;
    }
    encode_frame(payload, dst);
    true
}

/// Takes one frame off the front of `src` if a whole one is buffered, and
/// returns its payload. While the header or part of the declared payload is
/// still missing, returns `None` and leaves `src` untouched.
pub fn decode_frame(src: &mut BytesMut) -> (payload: Option<Vec<u8>>)
    ensures
        match payload {
            Some(bytes) => {
                &&& frame_ready(buffered(*old(src)))
                &&& bytes@ == first_payload(buffered(*old(src)))
                &&& buffered(*final(src)) == after_first(buffered(*old(src)))
            },
            None => !frame_ready(buffered(*old(src))) && *final(src) == *old(src),
        },
{
    let len = buffer_len(src);
    if len < HEADER_LEN {
        return None;
    }
    let size: u64 = read_header(src);
    if (len - HEADER_LEN) as u64 >= size {
        let ghost before = buffered(*src);
        let _header = split_front(src, HEADER_LEN);
        let body = split_front(src, size as usize);
        let bytes = into_vec(body);
        proof {
            assert(bytes@ =~= first_payload(before));
            assert(buffered(*src) =~= after_first(before));
        }
        Some(bytes)
    } else {
        None
    }
}

} // verus!
