//! The wire format: a message is its body's length in two bytes, the high
//! byte first, followed by the body.

use vstd::prelude::*;
use vstd::string::StringSliceAdditionalSpecFns;

pub mod game_data_code;
pub mod request_codes;
pub mod status_codes;

verus! {

/// The longest body a message can carry.
pub const MAX_BODY: usize = 65535;

/// Why a message could not be framed or read.
#[derive(Clone, Copy, Debug, PartialEq, Eq, Structural)]
pub enum FramingError {
    /// The body is longer than the length prefix can say.
    BodyTooLong,
    /// The bytes end before the advertised length is reached.
    Incomplete,
}

/// The two bytes that advertise a body of `len` bytes.
pub open spec fn prefix_of(len: nat) -> Seq<u8> {
    seq![(len / 256) as u8, (len % 256) as u8]
}

/// The length that a prefix advertises.
pub open spec fn advertised(high: u8, low: u8) -> nat {
    (high as nat) * 256 + (low as nat)
}

/// A body with its length prefix.
pub open spec fn frame_of(body: Seq<u8>) -> Seq<u8> {
    prefix_of(body.len()) + body
}

/// The body of the first message in `bytes`, where they hold a whole one.
pub open spec fn body_of(bytes: Seq<u8>) -> Option<Seq<u8>> {
    if bytes.len() >= 2 && bytes.len() >= 2 + advertised(bytes[0], bytes[1]) {
        Some(bytes.subrange(2, 2 + advertised(bytes[0], bytes[1]) as int))
    } else {
        None
    }
}

/// The length of the body that follows the two prefix bytes.
pub fn packet_size(high: u8, low: u8) -> (size: u16)
    ensures
        size == advertised(high, low),
{
    (high as u16) * 256 + (low as u16)
}

/// The message that carries `body`.
pub fn encode(body: &[u8]) -> (frame: Result<Vec<u8>, FramingError>)
    ensures
        body@.len() <= MAX_BODY ==> frame.is_ok() && frame.unwrap()@ == frame_of(body@),
        body@.len() > MAX_BODY ==> frame == Err::<Vec<u8>, FramingError>(FramingError::BodyTooLong),
{
    let len = body.len();
    if len > MAX_BODY {
        return Err(FramingError::BodyTooLong);
    }
    let mut frame: Vec<u8> = Vec::new();
    frame.push((len / 256) as u8);
    frame.push((len % 256) as u8);
    let mut i: usize = 0;
    while i < len
        invariant
            i <= len,
            len == body@.len(),
            frame@ == prefix_of(len as nat) + body@.subrange(0, i as int),
        decreases len - i,
    {
        frame.push(body[i]);
        i += 1;
    }
    assert(body@.subrange(0, len as int) == body@);
    Ok(frame)
}

/// The message that carries a text, as its UTF-8 bytes.
pub fn encode_text(json: &str) -> (frame: Result<Vec<u8>, FramingError>)
    ensures
        json.spec_bytes().len() <= MAX_BODY ==> frame.is_ok() && frame.unwrap()@ == frame_of(json.spec_bytes()),
        json.spec_bytes().len() > MAX_BODY ==> frame == Err::<Vec<u8>, FramingError>(
            FramingError::BodyTooLong,
        ),
{
    encode(json.as_bytes())
}

/// The body of the first message in `bytes`. Bytes that end before the
/// advertised length is reached hold no message.
pub fn decode(bytes: &[u8]) -> (body: Result<Vec<u8>, FramingError>)
    ensures
        match body_of(bytes@) {
            Some(b) => body.is_ok() && body.unwrap()@ == b,
            None => body == Err::<Vec<u8>, FramingError>(FramingError::Incomplete),
        },
{
    if bytes.len() < 2 {
        return Err(FramingError::Incomplete);
    }
    let size = packet_size(bytes[0], bytes[1]) as usize;
    if bytes.len() - 2 < size {
        return Err(FramingError::Incomplete);
    }
    let mut body: Vec<u8> = Vec::new();
    let mut i: usize = 0;
    while i < size
        invariant
            i <= size <= MAX_BODY,
            size + 2 <= bytes@.len(),
            body@ == bytes@.subrange(2, 2 + i as int),
        decreases size - i,
    {
        body.push(bytes[i + 2]);
        i += 1;
    }
    Ok(body)
}

/// Reading a framed body gives the body back, whatever follows the frame.
pub proof fn lemma_frame_round_trip(body: Seq<u8>, rest: Seq<u8>)
    requires
        body.len() <= MAX_BODY,
    ensures
        body_of(frame_of(body) + rest) == Some(body),
        frame_of(body).len() == body.len() + 2,
{
    let bytes = frame_of(body) + rest;
    let len = body.len();
    assert(bytes[0] == (len / 256) as u8);
    assert(bytes[1] == (len % 256) as u8);
    assert(advertised(bytes[0], bytes[1]) == len);
    assert(bytes.subrange(2, 2 + len as int) =~= body);
}

/// A frame cut short holds no message.
pub proof fn lemma_cut_frame_is_incomplete(body: Seq<u8>, kept: int)
    requires
        body.len() <= MAX_BODY,
        0 <= kept < body.len() + 2,
    ensures
        body_of(frame_of(body).subrange(0, kept)).is_none(),
{
    let bytes = frame_of(body).subrange(0, kept);
    let len = body.len();
    if kept >= 2 {
        assert(bytes[0] == (len / 256) as u8);
        assert(bytes[1] == (len % 256) as u8);
        assert(advertised(bytes[0], bytes[1]) == len);
    }
}

} // verus!
