//! Binary wire format of the mover's requests and responses.
//!
//! Request: `[op:u8][id_len:u16][id][offset:u64][length:u64][data_len:u32][data]`.
//! Response: `[status:u8][data_len:u32][data]`. Integers are little-endian.
use vstd::prelude::*;
use vstd::string::*;
use vstd::utf8::encode_utf8;
use crate::le::{
    le_bytes, le_value, lemma_byte_range_values, lemma_le_bytes_len, lemma_le_round_trip,
    lemma_le_value_bound, push_le, read_le,
};

verus! {

/// Operation requested by a client; each has a fixed one-byte tag on the wire.
#[derive(Debug, Clone, Copy, PartialEq, Eq, Structural)]
pub enum OpCode {
    /// Read content from the store.
    Read,
    /// Write content to the store.
    Write,
    /// Zero-copy send to a peer.
    SendZC,
    /// Receive into a registered buffer.
    Recv,
    /// Several reads at once.
    Batch,
}

/// Outcome carried by a response.
#[derive(Debug, Clone, Copy, PartialEq, Eq, Structural)]
pub enum ResponseStatus {
    Success,
    NotFound,
    Error,
}

/// Why a frame could not be encoded or decoded.
#[derive(Debug, Clone, Copy, PartialEq, Eq, Structural)]
pub enum ProtocolError {
    /// The input ends before the frame does.
    Truncated,
    /// The operation byte names no operation.
    UnknownOp(u8),
    /// The status byte names no status.
    UnknownStatus(u8),
    /// The identifier is longer than a 16-bit length can say.
    IdTooLong(usize),
    /// The payload is longer than a 32-bit length can say.
    DataTooLong(usize),
}

pub open spec fn op_tag(op: OpCode) -> u8 {
    match op {
        OpCode::Read => 0x01,
        OpCode::Write => 0x02,
        OpCode::SendZC => 0x03,
        OpCode::Recv => 0x04,
        OpCode::Batch => 0x05,
    }
}

pub open spec fn op_of_tag(b: u8) -> Option<OpCode> {
    if b == 0x01 {
        Some(OpCode::Read)
    } else if b == 0x02 {
        Some(OpCode::Write)
    } else if b == 0x03 {
        Some(OpCode::SendZC)
    } else if b == 0x04 {
        Some(OpCode::Recv)
    } else if b == 0x05 {
        Some(OpCode::Batch)
    } else {
        None
    }
}

pub open spec fn status_tag(s: ResponseStatus) -> u8 {
    match s {
        ResponseStatus::Success => 0x00,
        ResponseStatus::NotFound => 0x01,
        ResponseStatus::Error => 0x02,
    }
}

pub open spec fn status_of_tag(b: u8) -> Option<ResponseStatus> {
    if b == 0x00 {
        Some(ResponseStatus::Success)
    } else if b == 0x01 {
        Some(ResponseStatus::NotFound)
    } else if b == 0x02 {
        Some(ResponseStatus::Error)
    } else {
        None
    }
}

impl OpCode {
    /// The operation's byte on the wire.
    pub fn tag(self) -> (r: u8)
        ensures
            r == op_tag(self),
    {
        match self {
            OpCode::Read => 0x01,
            OpCode::Write => 0x02,
            OpCode::SendZC => 0x03,
            OpCode::Recv => 0x04,
            OpCode::Batch => 0x05,
        }
    }

    /// The operation whose byte is `b`; any other byte is an error.
    pub fn from_tag(b: u8) -> (r: Result<OpCode, ProtocolError>)
        ensures
            match op_of_tag(b) {
                Some(op) => r == Ok::<OpCode, ProtocolError>(op),
                None => r == Err::<OpCode, ProtocolError>(ProtocolError::UnknownOp(b)),
            },
    {
        match b {
            0x01 => Ok(OpCode::Read),
            0x02 => Ok(OpCode::Write),
            0x03 => Ok(OpCode::SendZC),
            0x04 => Ok(OpCode::Recv),
            0x05 => Ok(OpCode::Batch),
            _ => Err(ProtocolError::UnknownOp(b)),
        }
    }
}

impl ResponseStatus {
    /// The status's byte on the wire.
    pub fn tag(self) -> (r: u8)
        ensures
            r == status_tag(self),
    {
        match self {
            ResponseStatus::Success => 0x00,
            ResponseStatus::NotFound => 0x01,
            ResponseStatus::Error => 0x02,
        }
    }

    /// The status whose byte is `b`; any other byte is an error.
    pub fn from_tag(b: u8) -> (r: Result<ResponseStatus, ProtocolError>)
        ensures
            match status_of_tag(b) {
                Some(s) => r == Ok::<ResponseStatus, ProtocolError>(s),
                None => r == Err::<ResponseStatus, ProtocolError>(ProtocolError::UnknownStatus(b)),
            },
    {
        match b {
            0x00 => Ok(ResponseStatus::Success),
            0x01 => Ok(ResponseStatus::NotFound),
            0x02 => Ok(ResponseStatus::Error),
            _ => Err(ProtocolError::UnknownStatus(b)),
        }
    }
}

/// A request as a value: what a frame carries.
pub struct RequestView {
    pub op: OpCode,
    pub id: Seq<u8>,
    pub offset: u64,
    pub length: u64,
    pub data: Seq<u8>,
}

/// A response as a value: what a frame carries.
pub struct ResponseView {
    pub status: ResponseStatus,
    pub data: Seq<u8>,
}

/// One request of a client: an operation on an opaque identifier.
#[derive(Debug)]
pub struct MoverRequest {
    pub op: OpCode,
    /// Content address or peer id.
    pub id: Vec<u8>,
    pub offset: u64,
    pub length: u64,
    /// Payload, for writes.
    pub data: Vec<u8>,
}

/// The answer to one request.
#[derive(Debug)]
pub struct MoverResponse {
    pub status: ResponseStatus,
    pub data: Vec<u8>,
}

impl View for MoverRequest {
    type V = RequestView;

    open spec fn view(&self) -> RequestView {
        RequestView {
            op: self.op,
            id: self.id@,
            offset: self.offset,
            length: self.length,
            data: self.data@,
        }
    }
}

impl View for MoverResponse {
    type V = ResponseView;

    open spec fn view(&self) -> ResponseView {
        ResponseView { status: self.status, data: self.data@ }
    }
}

/// Largest identifier length that the 16-bit length field holds.
pub const MAX_ID_LEN: usize = 0xFFFF;

/// Largest payload length that the 32-bit length field holds.
pub const MAX_DATA_LEN: u64 = 0xFFFF_FFFF;

/// The lengths of a request fit their fields.
pub open spec fn request_fits(r: RequestView) -> bool {
    r.id.len() <= MAX_ID_LEN && r.data.len() <= MAX_DATA_LEN
}

/// The length of a response's payload fits its field.
pub open spec fn response_fits(r: ResponseView) -> bool {
    r.data.len() <= MAX_DATA_LEN
}

/// The frame of a request.
pub open spec fn request_bytes(r: RequestView) -> Seq<u8> {
    seq![op_tag(r.op)] + le_bytes(r.id.len(), 2) + r.id + le_bytes(r.offset as nat, 8) + le_bytes(
        r.length as nat,
        8,
    ) + le_bytes(r.data.len(), 4) + r.data
}

/// The frame of a response.
pub open spec fn response_bytes(r: ResponseView) -> Seq<u8> {
    seq![status_tag(r.status)] + le_bytes(r.data.len(), 4) + r.data
}

/// The request framed at the start of `s`, with the length of its frame.
pub open spec fn parse_request(s: Seq<u8>) -> Result<(RequestView, nat), ProtocolError> {
    if s.len() < 1 {
        Err(ProtocolError::Truncated)
    } else if op_of_tag(s[0]) is None {
        Err(ProtocolError::UnknownOp(s[0]))
    } else if s.len() < 3 {
        Err(ProtocolError::Truncated)
    } else {
        let id_end: int = 3 + le_value(s.subrange(1, 3)) as int;
        if s.len() < id_end + 20 {
            Err(ProtocolError::Truncated)
        } else {
            let data_start: int = id_end + 20;
            let end: int = data_start + le_value(s.subrange(id_end + 16, data_start)) as int;
            if s.len() < end {
                Err(ProtocolError::Truncated)
            } else {
                Ok(
                    (
                        RequestView {
                            op: op_of_tag(s[0])->Some_0,
                            id: s.subrange(3, id_end),
                            offset: le_value(s.subrange(id_end, id_end + 8)) as u64,
                            length: le_value(s.subrange(id_end + 8, id_end + 16)) as u64,
                            data: s.subrange(data_start, end),
                        },
                        end as nat,
                    ),
                )
            }
        }
    }
}

/// The response framed at the start of `s`, with the length of its frame.
pub open spec fn parse_response(s: Seq<u8>) -> Result<(ResponseView, nat), ProtocolError> {
    if s.len() < 1 {
        Err(ProtocolError::Truncated)
    } else if status_of_tag(s[0]) is None {
        Err(ProtocolError::UnknownStatus(s[0]))
    } else if s.len() < 5 {
        Err(ProtocolError::Truncated)
    } else {
        let end: int = 5 + le_value(s.subrange(1, 5)) as int;
        if s.len() < end {
            Err(ProtocolError::Truncated)
        } else {
            Ok(
                (
                    ResponseView { status: status_of_tag(s[0])->Some_0, data: s.subrange(5, end) },
                    end as nat,
                ),
            )
        }
    }
}

/// Appends all of `src` to `out`.
fn push_all(out: &mut Vec<u8>, src: &[u8])
    ensures
        final(out)@ == old(out)@ + src@,
{
    let mut i: usize = 0;
    while i < src.len()
        invariant
            i <= src@.len(),
            out@ == old(out)@ + src@.subrange(0, i as int),
        decreases src@.len() - i,
    {
        out.push(src[i]);
        i = i + 1;
        proof {
            assert(out@ =~= old(out)@ + src@.subrange(0, i as int));
        }
    }
    proof {
        assert(src@.subrange(0, i as int) =~= src@);
    }
}

/// The bytes of `b` from `start` up to `end`.
fn copy_range(b: &[u8], start: usize, end: usize) -> (r: Vec<u8>)
    requires
        start <= end <= b@.len(),
    ensures
        r@ == b@.subrange(start as int, end as int),
{
    let mut r: Vec<u8> = Vec::new();
    let mut i: usize = start;
    while i < end
        invariant
            start <= i <= end,
            end <= b@.len(),
            r@ == b@.subrange(start as int, i as int),
        decreases end - i,
    {
        r.push(b[i]);
        i = i + 1;
        proof {
            assert(r@ =~= b@.subrange(start as int, i as int));
        }
    }
    r
}

impl MoverRequest {
    /// Appends the request's frame to `out`. An identifier or payload too
    /// long for its length field is refused, and `out` is left as it was.
    pub fn write_to(&self, out: &mut Vec<u8>) -> (r: Result<(), ProtocolError>)
        ensures
            self@.id.len() > MAX_ID_LEN ==> r == Err::<(), ProtocolError>(
                ProtocolError::IdTooLong(self.id.len()),
            ) && final(out)@ == old(out)@,
            self@.id.len() <= MAX_ID_LEN && self@.data.len() > MAX_DATA_LEN ==> r == Err::<
                (),
                ProtocolError,
            >(ProtocolError::DataTooLong(self.data.len())) && final(out)@ == old(out)@,
            request_fits(self@) ==> r is Ok && final(out)@ == old(out)@ + request_bytes(self@),
    {
        let id_len = self.id.len();
        let data_len = self.data.len();
        if id_len > MAX_ID_LEN {
            return Err(ProtocolError::IdTooLong(id_len));
        }
        if data_len as u64 > MAX_DATA_LEN {
            return Err(ProtocolError::DataTooLong(data_len));
        }
        let ghost start = out@;
        out.push(self.op.tag());
        push_le(out, id_len as u64, 2);
        push_all(out, self.id.as_slice());
        push_le(out, self.offset, 8);
        push_le(out, self.length, 8);
        push_le(out, data_len as u64, 4);
        push_all(out, self.data.as_slice());
        proof {
            assert(out@ =~= start + request_bytes(self@));
        }
        Ok(())
    }

    /// Decodes the request framed at the start of `input`, and says how
    /// many bytes its frame took.
    pub fn read_from(input: &[u8]) -> (r: Result<(MoverRequest, usize), ProtocolError>)
        ensures
            match r {
                Ok((q, n)) => parse_request(input@) == Ok::<(RequestView, nat), ProtocolError>(
                    (q@, n as nat),
                ),
                Err(e) => parse_request(input@) == Err::<(RequestView, nat), ProtocolError>(e),
            },
    {
        let total = input.len();
        if total < 1 {
            return Err(ProtocolError::Truncated);
        }
        let op = match OpCode::from_tag(input[0]) {
            Ok(op) => op,
            Err(e) => return Err(e),
        };
        if total < 3 {
            return Err(ProtocolError::Truncated);
        }
        let id_len = read_le(input, 1, 2);
        proof {
            lemma_le_value_bound(input@.subrange(1, 3));
            lemma_byte_range_values();
        }
        let id_end: usize = 3 + id_len as usize;
        if total < id_end || total - id_end < 20 {
            return Err(ProtocolError::Truncated);
        }
        let data_start: usize = id_end + 20;
        let data_len = read_le(input, id_end + 16, 4);
        proof {
            lemma_le_value_bound(input@.subrange(id_end + 16, id_end + 20));
        }
        if ((total - data_start) as u64) < data_len {
            return Err(ProtocolError::Truncated);
        }
        let end: usize = data_start + data_len as usize;
        let id = copy_range(input, 3, id_end);
        let offset = read_le(input, id_end, 8);
        let length = read_le(input, id_end + 8, 8);
        let data = copy_range(input, data_start, end);
        proof {
            lemma_le_value_bound(input@.subrange(id_end as int, id_end + 8));
            lemma_le_value_bound(input@.subrange(id_end + 8, id_end + 16));
        }
        let req = MoverRequest { op, id, offset, length, data };
        Ok((req, end))
    }
}

impl MoverResponse {
    /// Appends the response's frame to `out`. A payload too long for its
    /// length field is refused, and `out` is left as it was.
    pub fn write_to(&self, out: &mut Vec<u8>) -> (r: Result<(), ProtocolError>)
        ensures
            self@.data.len() > MAX_DATA_LEN ==> r == Err::<(), ProtocolError>(
                ProtocolError::DataTooLong(self.data.len()),
            ) && final(out)@ == old(out)@,
            response_fits(self@) ==> r is Ok && final(out)@ == old(out)@ + response_bytes(self@),
    {
        let data_len = self.data.len();
        if data_len as u64 > MAX_DATA_LEN {
            return Err(ProtocolError::DataTooLong(data_len));
        }
        let ghost start = out@;
        out.push(self.status.tag());
        push_le(out, data_len as u64, 4);
        push_all(out, self.data.as_slice());
        proof {
            assert(out@ =~= start + response_bytes(self@));
        }
        Ok(())
    }

    /// Decodes the response framed at the start of `input`, and says how
    /// many bytes its frame took.
    pub fn read_from(input: &[u8]) -> (r: Result<(MoverResponse, usize), ProtocolError>)
        ensures
            match r {
                Ok((q, n)) => parse_response(input@) == Ok::<(ResponseView, nat), ProtocolError>(
                    (q@, n as nat),
                ),
                Err(e) => parse_response(input@) == Err::<(ResponseView, nat), ProtocolError>(e),
            },
    {
        let total = input.len();
        if total < 1 {
            return Err(ProtocolError::Truncated);
        }
        let status = match ResponseStatus::from_tag(input[0]) {
            Ok(s) => s,
            Err(e) => return Err(e),
        };
        if total < 5 {
            return Err(ProtocolError::Truncated);
        }
        let data_len = read_le(input, 1, 4);
        proof {
            lemma_le_value_bound(input@.subrange(1, 5));
            lemma_byte_range_values();
        }
        if ((total - 5) as u64) < data_len {
            return Err(ProtocolError::Truncated);
        }
        let end: usize = 5 + data_len as usize;
        let data = copy_range(input, 5, end);
        Ok((MoverResponse { status, data }, end))
    }

    /// A successful response carrying `data`.
    pub fn ok(data: Vec<u8>) -> (r: MoverResponse)
        ensures
            r.status == ResponseStatus::Success,
            r.data == data,
    {
        MoverResponse { status: ResponseStatus::Success, data }
    }

    /// The response to a lookup that found nothing: no payload.
    pub fn not_found() -> (r: MoverResponse)
        ensures
            r.status == ResponseStatus::NotFound,
            r.data@ == Seq::<u8>::empty(),
    {
        MoverResponse { status: ResponseStatus::NotFound, data: Vec::new() }
    }

    /// A failure response whose payload is `message` in UTF-8.
    pub fn error(message: String) -> (r: MoverResponse)
        ensures
            r.status == ResponseStatus::Error,
            r.data@ == encode_utf8(message@),
    {
        MoverResponse { status: ResponseStatus::Error, data: message.as_str().as_bytes_vec() }
    }
}

/// Every operation's tag reads back as that operation.
pub proof fn lemma_op_tag_round_trip(op: OpCode)
    ensures
        op_of_tag(op_tag(op)) == Some(op),
{
}

/// Every status's tag reads back as that status.
pub proof fn lemma_status_tag_round_trip(s: ResponseStatus)
    ensures
        status_of_tag(status_tag(s)) == Some(s),
{
}

/// Decoding the frame of a request whose lengths fit their fields gives
/// back that request and the frame's length, whatever bytes follow it.
pub proof fn lemma_request_round_trip(r: RequestView, rest: Seq<u8>)
    requires
        request_fits(r),
    ensures
        parse_request(request_bytes(r) + rest) == Ok::<(RequestView, nat), ProtocolError>(
            (r, request_bytes(r).len()),
        ),
{
    let id_len: int = r.id.len() as int;
    let data_len: int = r.data.len() as int;
    let f = request_bytes(r);
    let s = f + rest;
    lemma_byte_range_values();
    lemma_le_bytes_len(id_len as nat, 2);
    lemma_le_bytes_len(r.offset as nat, 8);
    lemma_le_bytes_len(r.length as nat, 8);
    lemma_le_bytes_len(data_len as nat, 4);
    lemma_le_round_trip(id_len as nat, 2);
    lemma_le_round_trip(r.offset as nat, 8);
    lemma_le_round_trip(r.length as nat, 8);
    lemma_le_round_trip(data_len as nat, 4);
    lemma_op_tag_round_trip(r.op);
    let id_end: int = 3 + id_len;
    assert(f.len() == id_end + 20 + data_len);
    assert(s[0] == op_tag(r.op));
    assert(s.subrange(1, 3) =~= le_bytes(id_len as nat, 2));
    assert(s.subrange(3, id_end) =~= r.id);
    assert(s.subrange(id_end, id_end + 8) =~= le_bytes(r.offset as nat, 8));
    assert(s.subrange(id_end + 8, id_end + 16) =~= le_bytes(r.length as nat, 8));
    assert(s.subrange(id_end + 16, id_end + 20) =~= le_bytes(data_len as nat, 4));
    assert(s.subrange(id_end + 20, id_end + 20 + data_len) =~= r.data);
}

/// Decoding the frame of a response whose payload fits its field gives
/// back that response and the frame's length, whatever bytes follow it.
pub proof fn lemma_response_round_trip(r: ResponseView, rest: Seq<u8>)
    requires
        response_fits(r),
    ensures
        parse_response(response_bytes(r) + rest) == Ok::<(ResponseView, nat), ProtocolError>(
            (r, response_bytes(r).len()),
        ),
{
    let data_len: int = r.data.len() as int;
    let f = response_bytes(r);
    let s = f + rest;
    lemma_byte_range_values();
    lemma_le_bytes_len(data_len as nat, 4);
    lemma_le_round_trip(data_len as nat, 4);
    lemma_status_tag_round_trip(r.status);
    assert(f.len() == 5 + data_len);
    assert(s[0] == status_tag(r.status));
    assert(s.subrange(1, 5) =~= le_bytes(data_len as nat, 4));
    assert(s.subrange(5, 5 + data_len) =~= r.data);
}

/// A byte that tags no operation is exactly one outside `0x01..=0x05`.
pub proof fn lemma_op_tags(b: u8)
    ensures
        op_of_tag(b) is None <==> !(0x01 <= b <= 0x05),
{
}

/// A request frame whose first byte tags no operation fails to decode,
/// with that byte in the error, whatever follows it.
pub proof fn lemma_unknown_op_rejected(b: u8, rest: Seq<u8>)
    requires
        op_of_tag(b) is None,
    ensures
        parse_request(seq![b] + rest) == Err::<(RequestView, nat), ProtocolError>(
            ProtocolError::UnknownOp(b),
        ),
{
    assert((seq![b] + rest)[0] == b);
}

/// A response frame whose first byte tags no status fails to decode,
/// with that byte in the error, whatever follows it.
pub proof fn lemma_unknown_status_rejected(b: u8, rest: Seq<u8>)
    requires
        status_of_tag(b) is None,
    ensures
        parse_response(seq![b] + rest) == Err::<(ResponseView, nat), ProtocolError>(
            ProtocolError::UnknownStatus(b),
        ),
{
    assert((seq![b] + rest)[0] == b);
}

} // verus!
