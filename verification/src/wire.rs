//! The binary wire format of the price service.
//!
//! A request frame is nine bytes: a tag byte, then two signed 32-bit integers in
//! big-endian two's complement. A response is one such integer, four bytes, with
//! no tag.

use vstd::prelude::*;

verus! {

/// Length of a request frame in bytes.
pub const FRAME_LEN: usize = 9;

/// Length of a response in bytes.
pub const RESPONSE_LEN: usize = 4;

/// Tag byte of an insert frame, ASCII `I`.
pub const TAG_INSERT: u8 = 0x49;

/// Tag byte of a query frame, ASCII `Q`.
pub const TAG_QUERY: u8 = 0x51;

/// A decoded request.
#[derive(Clone, Copy, Debug, PartialEq, Eq, Structural)]
pub enum Frame {
    /// Record `price` at `timestamp`.
    Insert { timestamp: i32, price: i32 },
    /// Ask for the mean price over the timestamps `min_time..=max_time`.
    Query { min_time: i32, max_time: i32 },
}

/// A violation of the wire protocol. The protocol has no error response: the
/// connection is to be closed.
#[derive(Clone, Copy, Debug, PartialEq, Eq, Structural)]
pub enum ProtocolError {
    /// The first byte of a frame is neither `I` nor `Q`.
    UnknownTag { tag: u8 },
}

/// The unsigned number that four bytes spell, most significant byte first.
pub open spec fn be_unsigned(bytes: Seq<u8>) -> int
    recommends
        bytes.len() == 4,
{
    bytes[0] * 0x100_0000 + bytes[1] * 0x1_0000 + bytes[2] * 0x100 + bytes[3]
}

/// The signed number that four bytes spell in big-endian two's complement.
pub open spec fn be_signed(bytes: Seq<u8>) -> int
    recommends
        bytes.len() == 4,
{
    let u = be_unsigned(bytes);
    if u >= 0x8000_0000 {
        u - 0x1_0000_0000
    } else {
        u
    }
}

/// The 32-bit pattern of `x` in two's complement, read as an unsigned number.
pub open spec fn twos_complement(x: i32) -> int {
    if x < 0 {
        x + 0x1_0000_0000
    } else {
        x as int
    }
}

/// The four bytes of `x` in big-endian two's complement.
pub open spec fn be_bytes(x: i32) -> Seq<u8> {
    let u = twos_complement(x);
    seq![
        (u / 0x100_0000) as u8,
        (u / 0x1_0000 % 0x100) as u8,
        (u / 0x100 % 0x100) as u8,
        (u % 0x100) as u8,
    ]
}

/// What a nine-byte frame means: the tag selects the kind of request, bytes
/// 1..=4 are the first argument and bytes 5..=8 the second.
pub open spec fn frame_of(bytes: Seq<u8>) -> Result<Frame, ProtocolError>
    recommends
        bytes.len() == FRAME_LEN,
{
    let first = be_signed(bytes.subrange(1, 5)) as i32;
    let second = be_signed(bytes.subrange(5, 9)) as i32;
    if bytes[0] == TAG_INSERT {
        Ok(Frame::Insert { timestamp: first, price: second })
    } else if bytes[0] == TAG_QUERY {
        Ok(Frame::Query { min_time: first, max_time: second })
    } else {
        Err(ProtocolError::UnknownTag { tag: bytes[0] })
    }
}

/// Four big-endian bytes always spell a number that fits in 32 signed bits.
pub proof fn lemma_be_signed_fits(bytes: Seq<u8>)
    ensures
        i32::MIN <= be_signed(bytes) <= i32::MAX,
{
}

/// Decoding the bytes of a number gives the number back.
pub proof fn lemma_decode_encode(x: i32)
    ensures
        be_bytes(x).len() == RESPONSE_LEN,
        be_signed(be_bytes(x)) == x,
{
    let u = twos_complement(x);
    assert(0 <= u < 0x1_0000_0000);
    assert(u == (u / 0x100_0000) * 0x100_0000 + (u / 0x1_0000 % 0x100) * 0x1_0000 + (u / 0x100
        % 0x100) * 0x100 + u % 0x100);
    assert(be_unsigned(be_bytes(x)) == u);
}

/// Encoding the number that four bytes spell gives the same four bytes: no two
/// byte strings stand for one number.
pub proof fn lemma_encode_decode(bytes: Seq<u8>)
    requires
        bytes.len() == 4,
    ensures
        be_bytes(be_signed(bytes) as i32) == bytes,
{
    let x = be_signed(bytes) as i32;
    let u = be_unsigned(bytes);
    assert(twos_complement(x) == u);
    assert(u / 0x100_0000 == bytes[0]);
    assert(u / 0x1_0000 % 0x100 == bytes[1]);
    assert(u / 0x100 % 0x100 == bytes[2]);
    assert(u % 0x100 == bytes[3]);
    assert(be_bytes(x) =~= bytes);
}

/// Reads a signed 32-bit integer from four big-endian bytes.
pub fn i32_from_be(bytes: [u8; 4]) -> (value: i32)
    ensures
        value == be_signed(bytes@),
{
    let high: u32 = (bytes[0] as u32) * 0x100_0000 + (bytes[1] as u32) * 0x1_0000;
    let u: u32 = high + (bytes[2] as u32) * 0x100 + (bytes[3] as u32);
    if u >= 0x8000_0000 {
        let low: i32 = (u - 0x8000_0000) as i32;
        low + i32::MIN
    } else {
        u as i32
    }
}

/// Writes a signed 32-bit integer as four big-endian bytes. The response to a
/// query is the mean in this form and nothing else.
pub fn i32_to_be(x: i32) -> (bytes: [u8; 4])
    ensures
        bytes@ == be_bytes(x),
{
    let u: u32 = if x < 0 {
        (x as i64 + 0x1_0000_0000) as u32
    } else {
        x as u32
    };
    let bytes: [u8; 4] = [
        (u / 0x100_0000) as u8,
        (u / 0x1_0000 % 0x100) as u8,
        (u / 0x100 % 0x100) as u8,
        (u % 0x100) as u8,
    ];
    assert(bytes@ =~= be_bytes(x));
    bytes
}

/// Decodes one request frame.
///
/// Fails exactly when the tag byte is neither `I` nor `Q`; every pair of
/// arguments is accepted.
pub fn decode_frame(bytes: &[u8; 9]) -> (frame: Result<Frame, ProtocolError>)
    ensures
        frame == frame_of(bytes@),
        frame is Err <==> bytes@[0] != TAG_INSERT && bytes@[0] != TAG_QUERY,
{
    let tag: u8 = bytes[0];
    let first_bytes: [u8; 4] = [bytes[1], bytes[2], bytes[3], bytes[4]];
    let second_bytes: [u8; 4] = [bytes[5], bytes[6], bytes[7], bytes[8]];
    assert(first_bytes@ =~= bytes@.subrange(1, 5));
    assert(second_bytes@ =~= bytes@.subrange(5, 9));
    let first: i32 = i32_from_be(first_bytes);
    let second: i32 = i32_from_be(second_bytes);
    if tag == TAG_INSERT {
        Ok(Frame::Insert { timestamp: first, price: second })
    } else if tag == TAG_QUERY {
        Ok(Frame::Query { min_time: first, max_time: second })
    } else {
        Err(ProtocolError::UnknownTag { tag })
    }
}

} // verus!
