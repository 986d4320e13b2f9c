//! Frames on the wire: decoding inbound datagrams, encoding replies.
use vstd::prelude::*;
use vstd::utf8::{decode_utf8, valid_utf8};
use crate::bytes::{append_range, be16, read_be16, write_be16};

verus! {

pub const OP_READ_REQUEST: u16 = 1;
pub const OP_WRITE_REQUEST: u16 = 2;
pub const OP_DATA: u16 = 3;
pub const OP_ACKNOWLEDGE: u16 = 4;
pub const OP_ERROR: u16 = 5;

/// A decoded frame.
#[derive(Debug)]
pub enum Message {
    ReadRequest { filename: String, mode: String },
    WriteRequest { filename: String, mode: String },
    Data { block: u16, payload: Vec<u8> },
    Acknowledge { block: u16 },
    Error { code: u16, message: Vec<u8> },
}

/// The mathematical content of a `Message`.
pub enum MessageView {
    ReadRequest { filename: Seq<char>, mode: Seq<char> },
    WriteRequest { filename: Seq<char>, mode: Seq<char> },
    Data { block: u16, payload: Seq<u8> },
    Acknowledge { block: u16 },
    Error { code: u16, message: Seq<u8> },
}

impl View for Message {
    type V = MessageView;

    open spec fn view(&self) -> MessageView {
        match self {
            Message::ReadRequest { filename, mode } => MessageView::ReadRequest {
                filename: filename@,
                mode: mode@,
            },
            Message::WriteRequest { filename, mode } => MessageView::WriteRequest {
                filename: filename@,
                mode: mode@,
            },
            Message::Data { block, payload } => MessageView::Data { block: *block, payload: payload@ },
            Message::Acknowledge { block } => MessageView::Acknowledge { block: *block },
            Message::Error { code, message } => MessageView::Error { code: *code, message: message@ },
        }
    }
}

/// Why a datagram could not be decoded.
#[derive(Clone, Copy, Debug, PartialEq, Eq, Structural)]
pub enum DecodeError {
    /// Too short for its opcode's fields, or a text field is unterminated or not UTF-8.
    MalformedFrame,
    /// An opcode outside the protocol.
    UnknownOpcode(u16),
}

/// The 16-bit big-endian field at `at`.
pub open spec fn field16(b: Seq<u8>, at: int) -> u16 {
    (b[at] as int * 256 + b[at + 1] as int) as u16
}

/// Index of the first NUL at or after `from`, or the length when there is none.
pub open spec fn field_end(b: Seq<u8>, from: int) -> int
    decreases b.len() - from,
{
    if from >= b.len() {
        b.len() as int
    } else if b[from] == 0 {
        from
    } else {
        field_end(b, from + 1)
    }
}

/// The filename and mode of a request frame: a NUL-terminated filename after
/// the opcode, then a mode that ends at the next NUL or at the end of the frame.
pub open spec fn request_fields(b: Seq<u8>) -> Option<(Seq<char>, Seq<char>)> {
    let e1 = field_end(b, 2);
    if e1 >= b.len() {
        None
    } else {
        let name = b.subrange(2, e1);
        let mode = b.subrange(e1 + 1, field_end(b, e1 + 1));
        if valid_utf8(name) && valid_utf8(mode) {
            Some((decode_utf8(name), decode_utf8(mode)))
        } else {
            None
        }
    }
}

/// What a datagram decodes to.
pub open spec fn decode_spec(b: Seq<u8>) -> Result<MessageView, DecodeError> {
    if b.len() < 2 {
        Err(DecodeError::MalformedFrame)
    } else {
        let op = field16(b, 0);
        if op == OP_READ_REQUEST || op == OP_WRITE_REQUEST {
            match request_fields(b) {
                Some((filename, mode)) => Ok(
                    if op == OP_READ_REQUEST {
                        MessageView::ReadRequest { filename, mode }
                    } else {
                        MessageView::WriteRequest { filename, mode }
                    },
                ),
                None => Err(DecodeError::MalformedFrame),
            }
        } else if op == OP_DATA || op == OP_ACKNOWLEDGE || op == OP_ERROR {
            if b.len() < 4 {
                Err(DecodeError::MalformedFrame)
            } else if op == OP_DATA {
                Ok(MessageView::Data { block: field16(b, 2), payload: b.subrange(4, b.len() as int) })
            } else if op == OP_ACKNOWLEDGE {
                Ok(MessageView::Acknowledge { block: field16(b, 2) })
            } else {
                Ok(MessageView::Error { code: field16(b, 2), message: b.subrange(4, b.len() as int) })
            }
        } else {
            Err(DecodeError::UnknownOpcode(op))
        }
    }
}

/// A data frame: opcode, block number modulo 2^16, payload.
pub open spec fn data_frame(block: int, payload: Seq<u8>) -> Seq<u8> {
    be16(OP_DATA as int) + be16(block) + payload
}

/// An error frame: opcode, error code, message bytes.
pub open spec fn error_frame(code: u16, message: Seq<u8>) -> Seq<u8> {
    be16(OP_ERROR as int) + be16(code as int) + message
}

/// An acknowledgment frame: opcode, block number.
pub open spec fn ack_frame(block: u16) -> Seq<u8> {
    be16(OP_ACKNOWLEDGE as int) + be16(block as int)
}

/// Relies on `String::from_utf8`: it accepts exactly the valid UTF-8 byte
/// strings and decodes them.
#[verifier::external_body]
fn utf8_text(bytes: Vec<u8>) -> (r: Option<String>)
    ensures
        r is Some <==> valid_utf8(bytes@),
        r matches Some(s) ==> s@ == decode_utf8(bytes@),
{
    String::from_utf8(bytes).ok()
}

/// Index of the first NUL at or after `from`, or `b.len()`.
fn find_field_end(b: &[u8], from: usize) -> (r: usize)
    requires
        from <= b@.len(),
    ensures
        r as int == field_end(b@, from as int),
        from <= r <= b@.len(),
{
    let mut i: usize = from;
    while i < b.len() && b[i] != 0
        invariant
            from <= i <= b@.len(),
            field_end(b@, from as int) == field_end(b@, i as int),
        decreases b@.len() - i,
    {
        i = i + 1;
    }
    i
}

fn copy_range(b: &[u8], from: usize, to: usize) -> (r: Vec<u8>)
    requires
        from <= to <= b@.len(),
    ensures
        r@ == b@.subrange(from as int, to as int),
{
    let mut r: Vec<u8> = Vec::new();
    append_range(&mut r, b, from, to);
    r
}

/// Parses the filename and mode of a read or write request.
fn decode_request_fields(b: &[u8]) -> (r: Option<(String, String)>)
    requires
        b@.len() >= 2,
    ensures
        match r {
            Some((n, m)) => request_fields(b@) == Some((n@, m@)),
            None => request_fields(b@) is None,
        },
{
    let e1 = find_field_end(b, 2);
    if e1 >= b.len() {
        return None;
    }
    let e2 = find_field_end(b, e1 + 1);
    let name = utf8_text(copy_range(b, 2, e1));
    let mode = utf8_text(copy_range(b, e1 + 1, e2));
    match (name, mode) {
        (Some(n), Some(m)) => Some((n, m)),
        _ => None,
    }
}

/// Decodes one datagram.
pub fn decode(b: &[u8]) -> (r: Result<Message, DecodeError>)
    ensures
        match r {
            Ok(m) => decode_spec(b@) == Ok::<MessageView, DecodeError>(m@),
            Err(e) => decode_spec(b@) == Err::<MessageView, DecodeError>(e),
        },
{
    if b.len() < 2 {
        return Err(DecodeError::MalformedFrame);
    }
    let op = read_be16(b);
    assert(op == field16(b@, 0));
    if op == OP_READ_REQUEST || op == OP_WRITE_REQUEST {
        match decode_request_fields(b) {
            Some((filename, mode)) => {
                if op == OP_READ_REQUEST {
                    Ok(Message::ReadRequest { filename, mode })
                } else {
                    Ok(Message::WriteRequest { filename, mode })
                }
            },
            None => Err(DecodeError::MalformedFrame),
        }
    } else if op == OP_DATA || op == OP_ACKNOWLEDGE || op == OP_ERROR {
        if b.len() < 4 {
            return Err(DecodeError::MalformedFrame);
        }
        let second = read_be16(copy_range(b, 2, 4).as_slice());
        assert(second == field16(b@, 2));
        if op == OP_DATA {
            Ok(Message::Data { block: second, payload: copy_range(b, 4, b.len()) })
        } else if op == OP_ACKNOWLEDGE {
            Ok(Message::Acknowledge { block: second })
        } else {
            Ok(Message::Error { code: second, message: copy_range(b, 4, b.len()) })
        }
    } else {
        Err(DecodeError::UnknownOpcode(op))
    }
}

/// Encodes a data frame; the block number goes on the wire modulo 2^16.
pub fn encode_data(block: u64, payload: &[u8]) -> (r: Vec<u8>)
    ensures
        r@ == data_frame(block as int, payload@),
{
    let mut r = write_be16(OP_DATA);
    let mut n = write_be16((block % 65536) as u16);
    assert(be16((block % 65536) as u16 as int) == be16(block as int));
    r.append(&mut n);
    append_range(&mut r, payload, 0, payload.len());
    assert(payload@.subrange(0, payload@.len() as int) == payload@);
    r
}

/// Encodes an error frame.
pub fn encode_error(code: u16, message: &[u8]) -> (r: Vec<u8>)
    ensures
        r@ == error_frame(code, message@),
{
    let mut r = write_be16(OP_ERROR);
    let mut c = write_be16(code);
    r.append(&mut c);
    append_range(&mut r, message, 0, message.len());
    assert(message@.subrange(0, message@.len() as int) == message@);
    r
}

/// Encodes an acknowledgment frame, as a client sends it.
pub fn encode_ack(block: u16) -> (r: Vec<u8>)
    ensures
        r@ == ack_frame(block),
{
    let mut r = write_be16(OP_ACKNOWLEDGE);
    let mut n = write_be16(block);
    r.append(&mut n);
    r
}

} // verus!
