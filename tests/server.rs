use mover::protocol::{MoverRequest, MoverResponse, OpCode, ProtocolError, ResponseStatus};
use mover::server::{dispatch, handle_connection};

fn frame(op: OpCode) -> Vec<u8> {
    let req = MoverRequest { op, id: b"abc".to_vec(), offset: 0, length: 0, data: Vec::new() };
    let mut bytes = Vec::new();
    req.write_to(&mut bytes).unwrap();
    bytes
}

#[test]
fn read_without_backend_is_not_implemented() {
    let reply = handle_connection(&frame(OpCode::Read)).unwrap();
    let (resp, used) = MoverResponse::read_from(&reply).unwrap();
    assert_eq!(used, reply.len());
    assert_eq!(resp.status, ResponseStatus::Error);
    let message = String::from_utf8(resp.data).unwrap();
    assert!(message.contains("not implemented"), "{}", message);
    assert_eq!(message, "READ not implemented - needs Postgres connection");
}

#[test]
fn every_operation_gets_one_error_response() {
    let cases = [
        (OpCode::Write, "WRITE not implemented"),
        (OpCode::SendZC, "SEND_ZC not implemented"),
        (OpCode::Recv, "RECV not implemented"),
        (OpCode::Batch, "BATCH not implemented"),
    ];
    for (op, msg) in cases.iter() {
        let reply = handle_connection(&frame(*op)).unwrap();
        let (resp, _) = MoverResponse::read_from(&reply).unwrap();
        assert_eq!(resp.status, ResponseStatus::Error);
        assert_eq!(resp.data, msg.as_bytes());
    }
}

#[test]
fn malformed_request_gets_no_response() {
    let mut bytes = frame(OpCode::Read);
    bytes[0] = 0x99;
    assert_eq!(handle_connection(&bytes), Err(ProtocolError::UnknownOp(0x99)));
    assert_eq!(handle_connection(&[]), Err(ProtocolError::Truncated));
    let whole = frame(OpCode::Read);
    assert_eq!(handle_connection(&whole[..whole.len() - 1]), Err(ProtocolError::Truncated));
}

#[test]
fn dispatch_routes_by_operation() {
    let req = MoverRequest { op: OpCode::Write, id: Vec::new(), offset: 0, length: 0, data: Vec::new() };
    let resp = dispatch(&req);
    assert_eq!(resp.status, ResponseStatus::Error);
    assert_eq!(resp.data, b"WRITE not implemented");
}
