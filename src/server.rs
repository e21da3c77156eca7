//! One connection's work: decode one request, answer it, encode the answer.
//!
//! A connection carries exactly one request. A frame that cannot be
//! decoded gets no answer: the connection is closed. Every decoded request
//! gets exactly one response; an operation with no handler behind it is
//! answered with an `Error` response that says so.
use vstd::prelude::*;
use vstd::string::*;
use vstd::utf8::{encode_scalar, encode_utf8};
use crate::protocol::{
    MoverRequest, MoverResponse, OpCode, ProtocolError, ResponseStatus, ResponseView,
    parse_request, response_bytes, response_fits,
};

verus! {

/// Largest request a connection reads.
pub const MAX_REQUEST_SIZE: usize = 8192;

/// What the response to an operation with no handler behind it says.
pub open spec fn unimplemented_message(op: OpCode) -> Seq<char> {
    match op {
        OpCode::Read => "READ not implemented - needs Postgres connection"@,
        OpCode::Write => "WRITE not implemented"@,
        OpCode::SendZC => "SEND_ZC not implemented"@,
        OpCode::Recv => "RECV not implemented"@,
        OpCode::Batch => "BATCH not implemented"@,
    }
}

/// The response to a request of operation `op`.
pub open spec fn response_for(op: OpCode) -> ResponseView {
    ResponseView { status: ResponseStatus::Error, data: encode_utf8(unimplemented_message(op)) }
}

/// What a connection sends for the bytes it read: the frame of the
/// response to the request they hold, or nothing where they hold no
/// request.
pub open spec fn connection_reply(input: Seq<u8>) -> Result<Seq<u8>, ProtocolError> {
    match parse_request(input) {
        Ok((q, n)) => Ok(response_bytes(response_for(q.op))),
        Err(e) => Err(e),
    }
}

/// UTF-8 takes at most four bytes a character.
pub proof fn lemma_utf8_len_bound(s: Seq<char>)
    ensures
        encode_utf8(s).len() <= 4 * s.len(),
    decreases s.len(),
{
    if s.len() > 0 {
        lemma_utf8_len_bound(s.drop_first());
        assert(encode_scalar(s[0] as u32).len() <= 4);
    }
}

/// Every response a connection gives fits the response frame.
pub proof fn lemma_responses_fit(op: OpCode)
    ensures
        response_fits(response_for(op)),
{
    reveal_strlit("READ not implemented - needs Postgres connection");
    reveal_strlit("WRITE not implemented");
    reveal_strlit("SEND_ZC not implemented");
    reveal_strlit("RECV not implemented");
    reveal_strlit("BATCH not implemented");
    lemma_utf8_len_bound(unimplemented_message(op));
}

/// Reads from the content store; no store is wired in yet.
fn handle_read(_req: &MoverRequest) -> (r: MoverResponse)
    ensures
        r@ == response_for(OpCode::Read),
{
    MoverResponse::error(String::from_str("READ not implemented - needs Postgres connection"))
}

/// Writes through to the content store; not implemented yet.
fn handle_write(_req: &MoverRequest) -> (r: MoverResponse)
    ensures
        r@ == response_for(OpCode::Write),
{
    MoverResponse::error(String::from_str("WRITE not implemented"))
}

/// Zero-copy send to a peer mover; not implemented yet.
fn handle_send_zc(_req: &MoverRequest) -> (r: MoverResponse)
    ensures
        r@ == response_for(OpCode::SendZC),
{
    MoverResponse::error(String::from_str("SEND_ZC not implemented"))
}

/// Receive from a peer; not implemented yet.
fn handle_recv(_req: &MoverRequest) -> (r: MoverResponse)
    ensures
        r@ == response_for(OpCode::Recv),
{
    MoverResponse::error(String::from_str("RECV not implemented"))
}

/// Batched operations; not implemented yet.
fn handle_batch(_req: &MoverRequest) -> (r: MoverResponse)
    ensures
        r@ == response_for(OpCode::Batch),
{
    MoverResponse::error(String::from_str("BATCH not implemented"))
}

/// Routes a request to the handler of its operation.
pub fn dispatch(req: &MoverRequest) -> (r: MoverResponse)
    ensures
        r@ == response_for(req.op),
{
    match req.op {
        OpCode::Read => handle_read(req),
        OpCode::Write => handle_write(req),
        OpCode::SendZC => handle_send_zc(req),
        OpCode::Recv => handle_recv(req),
        OpCode::Batch => handle_batch(req),
    }
}

/// Everything a connection decides: from the bytes it read, the bytes it
/// sends back, or the decode error on which it closes without answering.
pub fn handle_connection(input: &[u8]) -> (r: Result<Vec<u8>, ProtocolError>)
    ensures
        match r {
            Ok(out) => connection_reply(input@) == Ok::<Seq<u8>, ProtocolError>(out@),
            Err(e) => connection_reply(input@) == Err::<Seq<u8>, ProtocolError>(e),
        },
{
    let req = match MoverRequest::read_from(input) {
        Ok((req, _)) => req,
        Err(e) => return Err(e),
    };
    let response = dispatch(&req);
    let mut out: Vec<u8> = Vec::new();
    proof {
        lemma_responses_fit(req.op);
    }
    match response.write_to(&mut out) {
        Ok(()) => {
            proof {
                assert(out@ =~= response_bytes(response@));
            }
            Ok(out)
        },
        Err(e) => Err(e),
    }
}

} // verus!
