//! Tests of the wire codec: exact byte layouts, round trips, and rejected
//! malformed input.

use stream_reassembly::codec::{decode_frame, encode_frame, u64_to_be_bytes, TAG_FIN, TAG_PAYLOAD};
use stream_reassembly::frame::{Frame, FrameBody, StreamId};

#[test]
fn u64_big_endian_layout() {
    let bytes = u64_to_be_bytes(0x0102030405060708);
    assert_eq!(bytes, vec![1, 2, 3, 4, 5, 6, 7, 8]);
    assert_eq!(u64_to_be_bytes(0), vec![0; 8]);
    assert_eq!(u64_to_be_bytes(u64::MAX), vec![0xff; 8]);
}

#[test]
fn stream_id_round_trip() {
    let id = StreamId(0xdead_beef_0042_1100);
    let bytes = id.to_bytes();
    assert_eq!(bytes.len(), 8);
    let back = StreamId::from_bytes(&bytes).unwrap();
    assert_eq!(back, id);
}

#[test]
fn stream_id_rejects_wrong_length() {
    assert!(StreamId::from_bytes(&vec![]).is_none());
    assert!(StreamId::from_bytes(&vec![0; 7]).is_none());
    assert!(StreamId::from_bytes(&vec![0; 9]).is_none());
}

#[test]
fn payload_frame_wire_layout() {
    let f = Frame { stream_id: 1, message_id: 2, body: FrameBody::Payload(vec![0xaa, 0xbb]) };
    let bytes = encode_frame(&f);
    let mut expected = vec![0, 0, 0, 0, 0, 0, 0, 1];
    expected.extend_from_slice(&[0, 0, 0, 0, 0, 0, 0, 2]);
    expected.push(TAG_PAYLOAD);
    expected.extend_from_slice(&[0xaa, 0xbb]);
    assert_eq!(bytes, expected);
}

#[test]
fn fin_frame_wire_layout() {
    let f: Frame<Vec<u8>> = Frame { stream_id: 3, message_id: 7, body: FrameBody::Fin };
    let bytes = encode_frame(&f);
    assert_eq!(bytes.len(), 17);
    assert_eq!(bytes[7], 3);
    assert_eq!(bytes[15], 7);
    assert_eq!(bytes[16], TAG_FIN);
}

#[test]
fn frame_round_trip() {
    let frames: Vec<Frame<Vec<u8>>> = vec![
        Frame { stream_id: 0, message_id: 0, body: FrameBody::Payload(vec![]) },
        Frame { stream_id: 12, message_id: 47, body: FrameBody::Payload(vec![9, 8, 7]) },
        Frame { stream_id: u64::MAX, message_id: 1, body: FrameBody::Fin },
    ];
    for f in frames {
        let bytes = encode_frame(&f);
        let back = decode_frame(&bytes).unwrap();
        assert_eq!(back, f);
    }
}

#[test]
fn decode_rejects_malformed_input() {
    // too short for a header
    assert!(decode_frame(&vec![]).is_none());
    assert!(decode_frame(&vec![0; 16]).is_none());
    // unknown tag byte
    let mut bad_tag = vec![0; 17];
    bad_tag[16] = 2;
    assert!(decode_frame(&bad_tag).is_none());
    // a terminal marker must carry no body
    let f: Frame<Vec<u8>> = Frame { stream_id: 1, message_id: 1, body: FrameBody::Fin };
    let mut fin_with_body = encode_frame(&f);
    fin_with_body.push(0xee);
    assert!(decode_frame(&fin_with_body).is_none());
}
