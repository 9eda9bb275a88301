use bytes::BytesMut;
use distributed_sort::codec::{SortingActorToSupervisorCodec, SupervisorToSortingActorCodec};
use distributed_sort::framing::{decode_frame, encode_frame, try_encode_frame};

#[test]
fn encode_writes_big_endian_length_then_payload() {
    let mut dst = BytesMut::new();
    encode_frame(b"abc", &mut dst);
    assert_eq!(&dst[..], &[0, 0, 0, 0, 0, 0, 0, 3, b'a', b'b', b'c'][..]);
}

#[test]
fn encode_header_of_longer_payload() {
    let payload = vec![7u8; 300];
    let mut dst = BytesMut::new();
    encode_frame(&payload, &mut dst);
    assert_eq!(dst.len(), 308);
    assert_eq!(&dst[..8], &[0, 0, 0, 0, 0, 0, 1, 44][..]);
    assert_eq!(&dst[8..], &payload[..]);
}

#[test]
fn encode_appends_to_what_is_buffered() {
    let mut dst = BytesMut::from(&b"xy"[..]);
    encode_frame(b"z", &mut dst);
    assert_eq!(&dst[..], &[b'x', b'y', 0, 0, 0, 0, 0, 0, 0, 1, b'z'][..]);
}

#[test]
fn encode_empty_payload_is_header_alone() {
    let mut dst = BytesMut::new();
    encode_frame(b"", &mut dst);
    assert_eq!(&dst[..], &[0u8; 8][..]);
    assert_eq!(decode_frame(&mut dst), Some(Vec::new()));
    assert!(dst.is_empty());
}

#[test]
fn decode_returns_what_encode_framed() {
    let payload = b"{\"values\":[6,5,4]}".to_vec();
    let mut buf = BytesMut::new();
    encode_frame(&payload, &mut buf);
    assert_eq!(decode_frame(&mut buf), Some(payload));
    assert!(buf.is_empty());
    assert_eq!(decode_frame(&mut buf), None);
}

#[test]
fn decode_reads_length_from_all_header_bytes() {
    let payload: Vec<u8> = (0..70_000u32).map(|x| (x % 251) as u8).collect();
    let mut buf = BytesMut::new();
    encode_frame(&payload, &mut buf);
    assert_eq!(&buf[..8], &[0, 0, 0, 0, 0, 1, 0x11, 0x70][..]);
    assert_eq!(decode_frame(&mut buf), Some(payload));
    assert!(buf.is_empty());
}

#[test]
fn decode_takes_frames_one_by_one() {
    let mut buf = BytesMut::new();
    encode_frame(b"first", &mut buf);
    encode_frame(b"second", &mut buf);
    buf.extend_from_slice(&[0, 0, 0]);
    assert_eq!(decode_frame(&mut buf), Some(b"first".to_vec()));
    assert_eq!(buf.len(), 8 + 6 + 3);
    assert_eq!(decode_frame(&mut buf), Some(b"second".to_vec()));
    assert_eq!(&buf[..], &[0, 0, 0][..]);
    assert_eq!(decode_frame(&mut buf), None);
    assert_eq!(&buf[..], &[0, 0, 0][..]);
}

#[test]
fn decode_of_every_strict_prefix_consumes_nothing() {
    let payload = b"{\"values\":[1,2,3],\"duration\":12}".to_vec();
    let mut frame = BytesMut::new();
    encode_frame(&payload, &mut frame);
    let frame = frame.to_vec();
    for n in 0..frame.len() {
        let mut buf = BytesMut::from(&frame[..n]);
        assert_eq!(decode_frame(&mut buf), None);
        assert_eq!(&buf[..], &frame[..n]);
        buf.extend_from_slice(&frame[n..]);
        assert_eq!(decode_frame(&mut buf), Some(payload.clone()));
        assert!(buf.is_empty());
    }
}

#[test]
fn decode_of_huge_declared_length_waits() {
    let mut buf = BytesMut::from(&[0xff, 0xff, 0xff, 0xff, 0xff, 0xff, 0xff, 0xff, 1, 2][..]);
    assert_eq!(decode_frame(&mut buf), None);
    assert_eq!(buf.len(), 10);
    let mut buf = BytesMut::from(&[0xff, 0xff, 0xff, 0xff, 0xff, 0xff, 0xff, 0xf8, 1, 2][..]);
    assert_eq!(decode_frame(&mut buf), None);
    assert_eq!(buf.len(), 10);
}

#[test]
fn codecs_frame_alike_in_both_directions() {
    let mut to_worker = SupervisorToSortingActorCodec;
    let mut to_supervisor = SortingActorToSupervisorCodec;
    let request = b"{\"values\":[3,2,1]}".to_vec();
    let response = b"{\"values\":[1,2,3],\"duration\":0}".to_vec();

    let mut wire = BytesMut::new();
    assert!(to_worker.encode(&request, &mut wire));
    assert_eq!(&wire[..8], &[0, 0, 0, 0, 0, 0, 0, 18][..]);
    assert_eq!(to_supervisor.decode(&mut wire), Some(request));
    assert!(wire.is_empty());

    assert!(to_supervisor.encode(&response, &mut wire));
    assert_eq!(&wire[..8], &[0, 0, 0, 0, 0, 0, 0, 31][..]);
    assert_eq!(to_worker.decode(&mut wire), Some(response));
    assert!(wire.is_empty());
}

#[test]
fn codecs_wait_for_incomplete_frames() {
    let mut to_worker = SupervisorToSortingActorCodec;
    let mut to_supervisor = SortingActorToSupervisorCodec;
    let mut wire = BytesMut::from(&[0, 0, 0, 0, 0, 0, 0, 2, b'{'][..]);
    assert_eq!(to_worker.decode(&mut wire), None);
    assert_eq!(to_supervisor.decode(&mut wire), None);
    assert_eq!(wire.len(), 9);
    wire.extend_from_slice(b"}");
    assert_eq!(to_worker.decode(&mut wire), Some(b"{}".to_vec()));
}

#[test]
fn try_encode_appends_frame_when_there_is_room() {
    let mut dst = BytesMut::from(&b"q"[..]);
    assert!(try_encode_frame(b"hi", &mut dst));
    assert_eq!(&dst[..], &[b'q', 0, 0, 0, 0, 0, 0, 0, 2, b'h', b'i'][..]);
    assert_eq!(&dst.split_to(1)[..], b"q");
    assert_eq!(decode_frame(&mut dst), Some(b"hi".to_vec()));
}
