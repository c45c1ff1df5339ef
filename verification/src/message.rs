use vstd::prelude::*;

use crate::checksum_of;

verus! {

/// Start-of-frame identifier: ASCII "BR".
pub const HEADER: [u8; 2] = [0x42, 0x52];

/// Mathematical model of a protocol message.
pub struct MessageModel {
    pub payload_length: u16,
    pub message_id: u16,
    pub src_device_id: u8,
    pub dst_device_id: u8,
    pub payload: Seq<u8>,
    pub checksum: u16,
}

/// Little-endian encoding of a 16-bit value.
pub open spec fn le_bytes(x: u16) -> Seq<u8> {
    seq![(x % 256) as u8, (x / 256) as u8]
}

/// Value of two little-endian bytes.
pub open spec fn le_value(lo: u8, hi: u8) -> u16 {
    (lo + hi * 256) as u16
}

/// The message that `ProtocolMessage::new` builds: every field zero, no payload.
pub open spec fn empty_message() -> MessageModel {
    MessageModel {
        payload_length: 0,
        message_id: 0,
        src_device_id: 0,
        dst_device_id: 0,
        payload: Seq::empty(),
        checksum: 0,
    }
}

impl MessageModel {
    /// Bytes 0 to 7 of the frame: start bytes, payload length, message id, source and
    /// destination device ids.
    pub open spec fn head_bytes(self) -> Seq<u8> {
        seq![0x42u8, 0x52u8] + le_bytes(self.payload_length) + le_bytes(self.message_id) + seq![
            self.src_device_id,
            self.dst_device_id,
        ]
    }

    /// Every byte of the frame that the checksum covers.
    pub open spec fn body_bytes(self) -> Seq<u8> {
        self.head_bytes() + self.payload
    }

    /// The checksum that the message's contents call for.
    pub open spec fn crc(self) -> u16 {
        checksum_of(self.body_bytes())
    }

    /// The complete frame on the wire.
    pub open spec fn frame(self) -> Seq<u8> {
        self.body_bytes() + le_bytes(self.checksum)
    }

    /// The length of the frame as announced by the `payload_length` field.
    pub open spec fn frame_length(self) -> nat {
        (10 + self.payload_length) as nat
    }

    /// The `payload_length` field agrees with the payload.
    pub open spec fn is_consistent(self) -> bool {
        self.payload.len() == self.payload_length
    }

    pub open spec fn has_valid_crc(self) -> bool {
        self.checksum == self.crc()
    }

    /// The same message with its checksum recomputed.
    pub open spec fn with_updated_checksum(self) -> MessageModel {
        MessageModel { checksum: self.crc(), ..self }
    }

    /// The message after `set_message` with the given id and serialized payload.
    pub open spec fn with_message(self, message_id: u16, payload: Seq<u8>) -> MessageModel {
        MessageModel {
            message_id,
            payload,
            payload_length: payload.len() as u16,
            ..self
        }.with_updated_checksum()
    }
}

/// A message of the ping protocol.
///
/// | Byte        | Type | Name           | Description                                      |
/// |-------------|------|----------------|--------------------------------------------------|
/// | 0           | u8   | start1         | Start frame identifier, ASCII 'B'                |
/// | 1           | u8   | start2         | Start frame identifier, ASCII 'R'                |
/// | 2-3         | u16  | payload_length | Number of bytes in payload.                      |
/// | 4-5         | u16  | message_id     | The message id.                                  |
/// | 6           | u8   | src_device_id  | The device ID of the device sending the message. |
/// | 7           | u8   | dst_device_id  | The device ID of the intended recipient.         |
/// | 8-n         | u8[] | payload        | The message payload.                             |
/// | (n+1)-(n+2) | u16  | checksum       | The sum of all the non-checksum bytes.           |
#[derive(Clone, Debug, PartialEq)]
pub struct ProtocolMessage {
    pub payload_length: u16,
    pub message_id: u16,
    pub src_device_id: u8,
    pub dst_device_id: u8,
    pub payload: Vec<u8>,
    pub checksum: u16,
}

impl View for ProtocolMessage {
    type V = MessageModel;

    open spec fn view(&self) -> MessageModel {
        MessageModel {
            payload_length: self.payload_length,
            message_id: self.message_id,
            src_device_id: self.src_device_id,
            dst_device_id: self.dst_device_id,
            payload: self.payload@,
            checksum: self.checksum,
        }
    }
}

/// Checksum after adding one more byte.
proof fn lemma_checksum_push(bytes: Seq<u8>, b: u8)
    ensures
        checksum_of(bytes.push(b)) == (checksum_of(bytes) + b) % 0x10000,
{
    assert(bytes.push(b).drop_last() =~= bytes);
}

/// Appends the little-endian bytes of `x` to `out`.
fn push_le_u16(out: &mut Vec<u8>, x: u16)
    ensures
        final(out)@ == old(out)@ + le_bytes(x),
{
    out.push((x % 256) as u8);
    out.push((x / 256) as u8);
    assert(final(out)@ =~= old(out)@ + le_bytes(x));
}

impl Default for ProtocolMessage {
    fn default() -> (message: Self)
        ensures
            message@ == empty_message(),
    {
        ProtocolMessage::new()
    }
}

impl ProtocolMessage {
    pub fn new() -> (message: Self)
        ensures
            message@ == empty_message(),
    {
        ProtocolMessage {
            payload_length: 0,
            message_id: 0,
            src_device_id: 0,
            dst_device_id: 0,
            payload: Vec::new(),
            checksum: 0,
        }
    }

    /// Fills the message with `message`'s id and serialized payload and recomputes the
    /// checksum.
    ///
    /// The id and payload are what `message.message_id()` and `message.serialize()` return;
    /// the fields are then set as `set_message_id_and_payload` states.
    pub fn set_message<M: PingMessage>(&mut self, message: &M)
        ensures
            exists|id: u16, payload: Vec<u8>|
                call_ensures(M::message_id, (message,), id) && call_ensures(
                    <M as SerializePayload>::serialize,
                    (message,),
                    payload,
                ) && final(self)@ == old(self)@.with_message(id, payload@),
            final(self)@.has_valid_crc(),
            final(self).src_device_id == old(self).src_device_id,
            final(self).dst_device_id == old(self).dst_device_id,
            final(self).payload_length == final(self).payload@.len() as u16,
    {
        let message_id: u16 = message.message_id();
        let payload = message.serialize();
        self.set_message_id_and_payload(message_id, payload);
    }

    /// Sets the message id and payload, the payload length (truncated to 16 bits, as the
    /// length field holds) and the checksum.
    pub fn set_message_id_and_payload(&mut self, message_id: u16, payload: Vec<u8>)
        ensures
            final(self)@ == old(self)@.with_message(message_id, payload@),
            final(self)@.has_valid_crc(),
    {
        self.message_id = message_id;
        self.payload = payload;
        self.payload_length = self.payload.len() as u16;
        self.update_checksum();
    }

    pub fn set_src_device_id(&mut self, src_device_id: u8)
        ensures
            final(self)@ == (MessageModel {
                src_device_id,
                ..old(self)@
            }).with_updated_checksum(),
            final(self)@.has_valid_crc(),
    {
        self.src_device_id = src_device_id;
        self.update_checksum();
    }

    pub fn dst_device_id(&self) -> (id: u8)
        ensures
            id == self.dst_device_id,
    {
        self.dst_device_id
    }

    pub fn set_dst_device_id(&mut self, dst_device_id: u8)
        ensures
            final(self)@ == (MessageModel {
                dst_device_id,
                ..old(self)@
            }).with_updated_checksum(),
            final(self)@.has_valid_crc(),
    {
        self.dst_device_id = dst_device_id;
        self.update_checksum();
    }

    pub fn payload(&self) -> (payload: &[u8])
        ensures
            payload@ == self.payload@,
    {
        self.payload.as_slice()
    }

    pub fn checksum(&self) -> (checksum: u16)
        ensures
            checksum == self.checksum,
    {
        self.checksum
    }

    pub fn update_checksum(&mut self)
        ensures
            final(self)@ == old(self)@.with_updated_checksum(),
            final(self)@.has_valid_crc(),
    {
        self.checksum = self.calculate_crc();
    }

    /// The sum, modulo 2^16, of every byte of the frame but the checksum bytes.
    pub fn calculate_crc(&self) -> (crc: u16)
        ensures
            crc == self@.crc(),
    {
        let ghost mut seen: Seq<u8> = Seq::empty();
        let mut checksum: u16 = 0;
        let ghost m = self@;
        let bytes: [u8; 8] = [
            HEADER[0],
            HEADER[1],
            (self.payload_length % 256) as u8,
            (self.payload_length / 256) as u8,
            (self.message_id % 256) as u8,
            (self.message_id / 256) as u8,
            self.src_device_id,
            self.dst_device_id,
        ];
        assert(bytes@ =~= m.head_bytes());
        let mut i: usize = 0;
        while i < 8
            invariant
                i <= 8,
                bytes@ == m.head_bytes(),
                seen == bytes@.take(i as int),
                checksum == checksum_of(seen),
            decreases 8 - i,
        {
            proof {
                lemma_checksum_push(seen, bytes[i as int]);
                assert(bytes@.take(i + 1) =~= seen.push(bytes[i as int]));
                seen = seen.push(bytes[i as int]);
            }
            checksum = checksum.wrapping_add(bytes[i] as u16);
            i += 1;
        }
        assert(seen =~= m.head_bytes());
        let mut j: usize = 0;
        while j < self.payload.len()
            invariant
                j <= self.payload@.len(),
                m == self@,
                seen == m.head_bytes() + self.payload@.take(j as int),
                checksum == checksum_of(seen),
            decreases self.payload@.len() - j,
        {
            proof {
                lemma_checksum_push(seen, self.payload@[j as int]);
                assert(m.head_bytes() + self.payload@.take(j + 1) =~= seen.push(
                    self.payload@[j as int],
                ));
                seen = seen.push(self.payload@[j as int]);
            }
            checksum = checksum.wrapping_add(self.payload[j] as u16);
            j += 1;
        }
        assert(seen =~= m.body_bytes());
        checksum
    }

    pub fn has_valid_crc(&self) -> (valid: bool)
        ensures
            valid == self@.has_valid_crc(),
    {
        self.checksum == self.calculate_crc()
    }

    /// Length in bytes of the frame that the `payload_length` field announces.
    pub fn length(&self) -> (length: usize)
        ensures
            length == self@.frame_length(),
    {
        HEADER.len() + 2 + 2 + 1 + 1 + self.payload_length as usize + 2
    }

    /// The frame on the wire.
    pub fn serialized(&self) -> (data: Vec<u8>)
        ensures
            data@ == self@.frame(),
    {
        let mut data: Vec<u8> = Vec::with_capacity(self.length());
        data.push(HEADER[0]);
        data.push(HEADER[1]);
        push_le_u16(&mut data, self.payload_length);
        push_le_u16(&mut data, self.message_id);
        data.push(self.src_device_id);
        data.push(self.dst_device_id);
        assert(data@ =~= self@.head_bytes());
        let mut j: usize = 0;
        while j < self.payload.len()
            invariant
                j <= self.payload@.len(),
                data@ == self@.head_bytes() + self.payload@.take(j as int),
            decreases self.payload@.len() - j,
        {
            data.push(self.payload[j]);
            j += 1;
            assert(data@ =~= self@.head_bytes() + self.payload@.take(j as int));
        }
        assert(self.payload@.take(j as int) =~= self.payload@);
        push_le_u16(&mut data, self.checksum);
        data
    }
}

/// The checksum is the sum of every byte of the frame but the two checksum bytes, as the
/// crate-level `calculate_crc` computes it over those bytes.
pub proof fn law_checksum_covers_frame_without_checksum(m: MessageModel)
    ensures
        m.crc() == checksum_of(m.frame().take(m.frame().len() - 2)),
{
    assert(m.frame().take(m.frame().len() - 2) =~= m.body_bytes());
}

/// For a message whose length field agrees with its payload, the announced length is the
/// length of its frame.
pub proof fn law_length_is_frame_length(m: MessageModel)
    requires
        m.is_consistent(),
    ensures
        m.frame().len() == m.frame_length(),
{
}

/// Setting the same message id and payload twice leaves the message as setting it once.
pub proof fn law_set_message_is_idempotent(m: MessageModel, message_id: u16, payload: Seq<u8>)
    ensures
        m.with_message(message_id, payload).with_message(message_id, payload) == m.with_message(
            message_id,
            payload,
        ),
{
}

/// A message of a message set: it knows its id and can serialize its payload.
pub trait PingMessage: Sized + SerializePayload {
    fn message_id(&self) -> u16;

    fn message_name(&self) -> &'static str;

    fn message_id_from_name(name: &str) -> Result<u16, String>;
}

pub trait SerializePayload {
    fn serialize(&self) -> Vec<u8>;
}

pub trait DeserializePayload: Sized {
    fn deserialize(payload: &[u8]) -> Self;
}

pub trait DeserializeGenericMessage: Sized {
    fn deserialize(message_id: u16, payload: &[u8]) -> Result<Self, &'static str>;
}

} // verus!
