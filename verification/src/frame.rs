use vstd::prelude::*;

use crate::message::{le_bytes, le_value, MessageModel, ProtocolMessage, HEADER};

verus! {

/// Size of a frame with an empty payload: start bytes, header fields and checksum.
pub const MIN_MSG_SIZE: usize = 10;

/// Why a byte buffer is not a valid frame.
#[derive(Debug, Clone, Copy, PartialEq, Eq, Structural)]
pub enum FrameError {
    /// The buffer does not start with "BR"; the two bytes it starts with.
    InvalidStart { first: u8, second: u8 },
    /// The buffer is shorter than the smallest frame; its length.
    TooShort { length: usize },
    /// The payload length field disagrees with the number of bytes that the buffer has
    /// room for between header and checksum.
    PayloadLengthMismatch { payload_length: u16, available: usize },
    /// The checksum field disagrees with the contents.
    ChecksumMismatch { expected: u16, received: u16 },
}

/// The message that a buffer of at least ten bytes holds, read field by field, with the
/// payload taken as everything between the header and the last two bytes.
pub open spec fn frame_message(b: Seq<u8>) -> MessageModel {
    MessageModel {
        payload_length: le_value(b[2], b[3]),
        message_id: le_value(b[4], b[5]),
        src_device_id: b[6],
        dst_device_id: b[7],
        payload: b.subrange(8, b.len() - 2),
        checksum: le_value(b[b.len() - 2], b[b.len() - 1]),
    }
}

/// What `parse_frame` gives for a buffer of at least two bytes.
pub open spec fn spec_parse_frame(b: Seq<u8>) -> Result<MessageModel, FrameError> {
    if !(b[0] == 0x42 && b[1] == 0x52) {
        Err(FrameError::InvalidStart { first: b[0], second: b[1] })
    } else if b.len() < 10 {
        Err(FrameError::TooShort { length: b.len() as usize })
    } else if le_value(b[2], b[3]) + 10 != b.len() {
        Err(
            FrameError::PayloadLengthMismatch {
                payload_length: le_value(b[2], b[3]),
                available: (b.len() - 10) as usize,
            },
        )
    } else if !frame_message(b).has_valid_crc() {
        Err(
            FrameError::ChecksumMismatch {
                expected: frame_message(b).crc(),
                received: frame_message(b).checksum,
            },
        )
    } else {
        Ok(frame_message(b))
    }
}

/// Reads a 16-bit value from two little-endian bytes.
pub fn u16_from_le_bytes(lo: u8, hi: u8) -> (x: u16)
    ensures
        x == le_value(lo, hi),
{
    lo as u16 + (hi as u16) * 256
}

/// Splits a complete frame into its fields and checks the start bytes, the length and the
/// checksum.
pub fn parse_frame(buffer: &Vec<u8>) -> (res: Result<ProtocolMessage, FrameError>)
    requires
        buffer@.len() >= 2,
    ensures
        match res {
            Ok(message) => spec_parse_frame(buffer@) == Ok::<MessageModel, FrameError>(
                message@,
            ),
            Err(e) => spec_parse_frame(buffer@) == Err::<MessageModel, FrameError>(e),
        },
{
    if !(buffer[0] == HEADER[0] && buffer[1] == HEADER[1]) {
        return Err(FrameError::InvalidStart { first: buffer[0], second: buffer[1] });
    }
    if buffer.len() < MIN_MSG_SIZE {
        return Err(FrameError::TooShort { length: buffer.len() });
    }
    let payload_length: u16 = u16_from_le_bytes(buffer[2], buffer[3]);
    if payload_length as usize + MIN_MSG_SIZE != buffer.len() {
        return Err(
            FrameError::PayloadLengthMismatch {
                payload_length,
                available: buffer.len() - MIN_MSG_SIZE,
            },
        );
    }
    let n: usize = buffer.len();
    let mut payload: Vec<u8> = Vec::new();
    let mut i: usize = 8;
    while i < n - 2
        invariant
            8 <= i <= n - 2,
            n == buffer@.len(),
            n >= 10,
            payload@ == buffer@.subrange(8, i as int),
        decreases n - 2 - i,
    {
        payload.push(buffer[i]);
        i += 1;
        assert(payload@ =~= buffer@.subrange(8, i as int));
    }
    let message = ProtocolMessage {
        payload_length,
        message_id: u16_from_le_bytes(buffer[4], buffer[5]),
        src_device_id: buffer[6],
        dst_device_id: buffer[7],
        payload,
        checksum: u16_from_le_bytes(buffer[n - 2], buffer[n - 1]),
    };
    assert(message@ == frame_message(buffer@));
    let expected: u16 = message.calculate_crc();
    if message.checksum != expected {
        return Err(FrameError::ChecksumMismatch { expected, received: message.checksum });
    }
    Ok(message)
}

/// A 16-bit value read back from its little-endian bytes is the value itself.
pub proof fn lemma_le_roundtrip(x: u16)
    ensures
        le_value(le_bytes(x)[0], le_bytes(x)[1]) == x,
{
}

/// Parsing the frame of a consistent message with a valid checksum gives the message
/// back.
pub proof fn law_frame_roundtrip(m: MessageModel)
    requires
        m.is_consistent(),
        m.has_valid_crc(),
    ensures
        spec_parse_frame(m.frame()) == Ok::<MessageModel, FrameError>(m),
{
    let b = m.frame();
    lemma_le_roundtrip(m.payload_length);
    lemma_le_roundtrip(m.message_id);
    lemma_le_roundtrip(m.checksum);
    assert(b.len() == m.payload.len() + 10);
    assert(b[2] == le_bytes(m.payload_length)[0]);
    assert(b[3] == le_bytes(m.payload_length)[1]);
    assert(b[4] == le_bytes(m.message_id)[0]);
    assert(b[5] == le_bytes(m.message_id)[1]);
    assert(b[b.len() - 2] == le_bytes(m.checksum)[0]);
    assert(b[b.len() - 1] == le_bytes(m.checksum)[1]);
    assert(b.subrange(8, b.len() - 2) =~= m.payload);
    assert(frame_message(b) == m);
}

/// A buffer that parses is exactly the frame of the message it parses to, and that message
/// is consistent and carries a valid checksum.
pub proof fn law_parsed_frame_is_exact(b: Seq<u8>)
    requires
        b.len() >= 2,
        spec_parse_frame(b) is Ok,
    ensures
        spec_parse_frame(b) matches Ok(m) && m.frame() == b && m.is_consistent()
            && m.has_valid_crc(),
{
    let m = frame_message(b);
    assert(m.frame() =~= b);
}

} // verus!
