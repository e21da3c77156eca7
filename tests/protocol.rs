use mover::protocol::{MoverRequest, MoverResponse, OpCode, ProtocolError, ResponseStatus};

fn encode_request(req: &MoverRequest) -> Vec<u8> {
    let mut buffer = Vec::new();
    req.write_to(&mut buffer).unwrap();
    buffer
}

fn request(op: OpCode, id: &[u8], offset: u64, length: u64, data: &[u8]) -> MoverRequest {
    MoverRequest { op, id: id.to_vec(), offset, length, data: data.to_vec() }
}

#[test]
fn test_request_roundtrip() {
    let req = MoverRequest {
        op: OpCode::Read,
        id: b"test-cas-id".to_vec(),
        offset: 0,
        length: 1024,
        data: Vec::new(),
    };

    let mut buffer = Vec::new();
    req.write_to(&mut buffer).unwrap();

    let (decoded, _) = MoverRequest::read_from(&buffer).unwrap();

    assert_eq!(decoded.op, OpCode::Read);
    assert_eq!(decoded.id, b"test-cas-id");
}

#[test]
fn test_response_roundtrip() {
    let resp = MoverResponse::ok(b"test-data".to_vec());

    let mut buffer = Vec::new();
    resp.write_to(&mut buffer).unwrap();

    let (decoded, _) = MoverResponse::read_from(&buffer).unwrap();

    assert_eq!(decoded.status, ResponseStatus::Success);
    assert_eq!(decoded.data, b"test-data");
}

#[test]
fn request_frame_layout_is_exact() {
    let req = request(OpCode::Write, b"ab", 0x0102, 7, b"xyz");
    let bytes = encode_request(&req);
    let expected: Vec<u8> = vec![
        0x02, // op
        0x02, 0x00, // id_len
        b'a', b'b', // id
        0x02, 0x01, 0, 0, 0, 0, 0, 0, // offset
        0x07, 0, 0, 0, 0, 0, 0, 0, // length
        0x03, 0, 0, 0, // data_len
        b'x', b'y', b'z',
    ];
    assert_eq!(bytes, expected);
}

#[test]
fn response_frame_layout_is_exact() {
    let resp = MoverResponse::not_found();
    let mut bytes = Vec::new();
    resp.write_to(&mut bytes).unwrap();
    assert_eq!(bytes, vec![0x01, 0, 0, 0, 0]);
}

#[test]
fn every_operation_round_trips() {
    let ops = [OpCode::Read, OpCode::Write, OpCode::SendZC, OpCode::Recv, OpCode::Batch];
    let tags = [0x01u8, 0x02, 0x03, 0x04, 0x05];
    for (op, tag) in ops.iter().zip(tags.iter()) {
        let req = request(*op, b"id", u64::MAX, 12345, b"payload");
        let bytes = encode_request(&req);
        assert_eq!(bytes[0], *tag);
        let (decoded, used) = MoverRequest::read_from(&bytes).unwrap();
        assert_eq!(used, bytes.len());
        assert_eq!(decoded.op, *op);
        assert_eq!(decoded.id, b"id");
        assert_eq!(decoded.offset, u64::MAX);
        assert_eq!(decoded.length, 12345);
        assert_eq!(decoded.data, b"payload");
    }
}

#[test]
fn every_status_round_trips() {
    let responses = [
        (MoverResponse::ok(b"x".to_vec()), ResponseStatus::Success, 0x00u8),
        (MoverResponse::not_found(), ResponseStatus::NotFound, 0x01),
        (MoverResponse::error("boom".to_string()), ResponseStatus::Error, 0x02),
    ];
    for (resp, status, tag) in responses.iter() {
        let mut bytes = Vec::new();
        resp.write_to(&mut bytes).unwrap();
        assert_eq!(bytes[0], *tag);
        let (decoded, used) = MoverResponse::read_from(&bytes).unwrap();
        assert_eq!(used, bytes.len());
        assert_eq!(decoded.status, *status);
        assert_eq!(decoded.data, resp.data);
    }
}

#[test]
fn empty_fields_round_trip() {
    let req = request(OpCode::Recv, b"", 0, 0, b"");
    let bytes = encode_request(&req);
    assert_eq!(bytes.len(), 1 + 2 + 8 + 8 + 4);
    let (decoded, _) = MoverRequest::read_from(&bytes).unwrap();
    assert!(decoded.id.is_empty());
    assert!(decoded.data.is_empty());
}

#[test]
fn longest_id_round_trips() {
    let id = vec![0xABu8; 0xFFFF];
    let req = request(OpCode::Read, &id, 1, 2, b"");
    let bytes = encode_request(&req);
    assert_eq!(&bytes[1..3], &[0xFF, 0xFF]);
    let (decoded, used) = MoverRequest::read_from(&bytes).unwrap();
    assert_eq!(used, bytes.len());
    assert_eq!(decoded.id, id);
}

#[test]
fn oversized_id_is_refused() {
    let req = request(OpCode::Read, &vec![0u8; 0x1_0000], 0, 0, b"");
    let mut out = vec![9u8];
    assert_eq!(req.write_to(&mut out), Err(ProtocolError::IdTooLong(0x1_0000)));
    assert_eq!(out, vec![9u8]);
}

#[test]
fn decode_leaves_trailing_bytes() {
    let req = request(OpCode::Batch, b"k", 3, 4, b"v");
    let mut bytes = encode_request(&req);
    let frame_len = bytes.len();
    bytes.extend_from_slice(b"trailing");
    let (decoded, used) = MoverRequest::read_from(&bytes).unwrap();
    assert_eq!(used, frame_len);
    assert_eq!(decoded.data, b"v");
}

#[test]
fn unknown_op_byte_is_rejected() {
    let mut bytes = encode_request(&request(OpCode::Read, b"abc", 0, 0, b""));
    bytes[0] = 0x99;
    assert_eq!(MoverRequest::read_from(&bytes).unwrap_err(), ProtocolError::UnknownOp(0x99));
    assert_eq!(MoverRequest::read_from(&[0x00]).unwrap_err(), ProtocolError::UnknownOp(0x00));
    assert_eq!(MoverRequest::read_from(&[0x06]).unwrap_err(), ProtocolError::UnknownOp(0x06));
}

#[test]
fn unknown_status_byte_is_rejected() {
    assert_eq!(
        MoverResponse::read_from(&[0x03, 0, 0, 0, 0]).unwrap_err(),
        ProtocolError::UnknownStatus(0x03)
    );
}

#[test]
fn truncated_frames_are_rejected() {
    let bytes = encode_request(&request(OpCode::Write, b"abc", 1, 2, b"data"));
    for cut in 0..bytes.len() {
        assert_eq!(
            MoverRequest::read_from(&bytes[..cut]).unwrap_err(),
            ProtocolError::Truncated,
            "cut at {}",
            cut
        );
    }
    let mut resp = Vec::new();
    MoverResponse::ok(b"abc".to_vec()).write_to(&mut resp).unwrap();
    for cut in 0..resp.len() {
        assert_eq!(MoverResponse::read_from(&resp[..cut]).unwrap_err(), ProtocolError::Truncated);
    }
}

#[test]
fn error_response_carries_utf8_message() {
    let resp = MoverResponse::error("café".to_string());
    assert_eq!(resp.status, ResponseStatus::Error);
    assert_eq!(resp.data, "café".as_bytes());
}

#[test]
fn op_tags_are_fixed() {
    assert_eq!(OpCode::SendZC.tag(), 0x03);
    assert_eq!(OpCode::from_tag(0x04), Ok(OpCode::Recv));
    assert_eq!(OpCode::from_tag(0x99), Err(ProtocolError::UnknownOp(0x99)));
    assert_eq!(ResponseStatus::from_tag(0x02), Ok(ResponseStatus::Error));
}
