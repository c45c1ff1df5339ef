use vstd::prelude::*;

use crate::frame::u16_from_le_bytes;
use crate::message::{empty_message, le_bytes, le_value, MessageModel, ProtocolMessage};
use crate::parser::PayloadType;
use crate::payload::{decode_fields, decode_payload, values_view, FieldValue};

verus! {

/// Id of the common `ack` message: its payload starts with the acknowledged id.
pub const ACK_ID: u16 = 1;

/// Id of the common `nack` message: its payload starts with the refused id, followed by the
/// reason as text.
pub const NACK_ID: u16 = 2;

/// Id of the common `device_information` message.
pub const DEVICE_INFORMATION_ID: u16 = 4;

/// Id of the common `protocol_version` message.
pub const PROTOCOL_VERSION_ID: u16 = 5;

/// Id of the common `general_request` message: its payload is the requested id.
pub const GENERAL_REQUEST_ID: u16 = 6;

/// Id of the common `set_device_id` message: its payload is the new device id.
pub const SET_DEVICE_ID_ID: u16 = 100;

/// What a device waiting for the acknowledgement of a request does with a received message.
#[derive(Debug, PartialEq)]
pub enum AckOutcome {
    /// Not an answer to the request: keep waiting.
    Skip,
    /// The request was acknowledged.
    Acked,
    /// The request was refused; the bytes of the reason.
    Nacked(Vec<u8>),
    /// An ack or nack that cannot be read: its checksum is wrong or its payload is shorter
    /// than an id.
    Unparsable,
}

/// Model of an `AckOutcome`.
pub enum AckOutcomeModel {
    Skip,
    Acked,
    Nacked(Seq<u8>),
    Unparsable,
}

impl View for AckOutcome {
    type V = AckOutcomeModel;

    open spec fn view(&self) -> AckOutcomeModel {
        match self {
            AckOutcome::Skip => AckOutcomeModel::Skip,
            AckOutcome::Acked => AckOutcomeModel::Acked,
            AckOutcome::Nacked(reason) => AckOutcomeModel::Nacked(reason@),
            AckOutcome::Unparsable => AckOutcomeModel::Unparsable,
        }
    }
}

/// The decision on `answer` while waiting for the acknowledgement of the request with id
/// `message_id`, with `ack_id` and `nack_id` the ids of acks and nacks. Other messages are
/// skipped; an ack or nack must carry a valid checksum and at least the two bytes of the id
/// it answers; an answer to another request is skipped.
pub open spec fn spec_ack_outcome(
    ack_id: u16,
    nack_id: u16,
    message_id: u16,
    answer: MessageModel,
) -> AckOutcomeModel {
    if answer.message_id != ack_id && answer.message_id != nack_id {
        AckOutcomeModel::Skip
    } else if !answer.has_valid_crc() || answer.payload.len() < 2 {
        AckOutcomeModel::Unparsable
    } else if le_value(answer.payload[0], answer.payload[1]) != message_id {
        AckOutcomeModel::Skip
    } else if answer.message_id == ack_id {
        AckOutcomeModel::Acked
    } else {
        AckOutcomeModel::Nacked(answer.payload.subrange(2, answer.payload.len() as int))
    }
}

/// The two bytes at the start of a payload are the little-endian bytes of a request id
/// exactly when they hold its value.
proof fn lemma_id_bytes(p: Seq<u8>, id: u16)
    requires
        p.len() >= 2,
    ensures
        (le_value(p[0], p[1]) == id) <==> (p.take(2) == le_bytes(id)),
{
    if le_value(p[0], p[1]) == id {
        assert(p.take(2) =~= le_bytes(id));
    }
    if p.take(2) == le_bytes(id) {
        assert(p[0] == p.take(2)[0] && p[1] == p.take(2)[1]);
    }
}

/// A device waiting for the acknowledgement of the request `message_id` is done only by an
/// answer to that request: it takes a message as acknowledging it only where it is an ack
/// with a valid checksum whose payload starts with the request's id, and as refusing it only
/// where it is a nack with a valid checksum whose payload is the request's id followed by
/// the reason. Every other ack or nack with a valid checksum and an id, whatever follows the
/// id, is skipped; every other message is skipped too.
pub proof fn law_ack_answers_the_request(
    ack_id: u16,
    nack_id: u16,
    message_id: u16,
    answer: MessageModel,
)
    ensures
        spec_ack_outcome(ack_id, nack_id, message_id, answer) is Acked <==> {
            &&& answer.message_id == ack_id
            &&& answer.has_valid_crc()
            &&& answer.payload.len() >= 2
            &&& answer.payload.take(2) == le_bytes(message_id)
        },
        forall|reason: Seq<u8>|
            spec_ack_outcome(ack_id, nack_id, message_id, answer) == AckOutcomeModel::Nacked(
                reason,
            ) <==> {
                &&& answer.message_id == nack_id
                &&& answer.message_id != ack_id
                &&& answer.has_valid_crc()
                &&& answer.payload == le_bytes(message_id) + reason
            },
        (answer.message_id == ack_id || answer.message_id == nack_id) && answer.has_valid_crc()
            && answer.payload.len() >= 2 && answer.payload.take(2) != le_bytes(message_id)
            ==> spec_ack_outcome(ack_id, nack_id, message_id, answer) is Skip,
        answer.message_id != ack_id && answer.message_id != nack_id ==> spec_ack_outcome(
            ack_id,
            nack_id,
            message_id,
            answer,
        ) is Skip,
{
    let p = answer.payload;
    if p.len() >= 2 {
        lemma_id_bytes(p, message_id);
        assert(p =~= p.take(2) + p.subrange(2, p.len() as int));
    }
    assert forall|reason: Seq<u8>|
        spec_ack_outcome(ack_id, nack_id, message_id, answer) == AckOutcomeModel::Nacked(reason)
            <== {
            &&& answer.message_id == nack_id
            &&& answer.message_id != ack_id
            &&& answer.has_valid_crc()
            &&& answer.payload == le_bytes(message_id) + reason
        } by {
        if answer.payload == le_bytes(message_id) + reason {
            assert(p.take(2) =~= le_bytes(message_id));
            assert(p.subrange(2, p.len() as int) =~= reason);
        }
    }
}

/// Decides what to do with `answer` while waiting for the acknowledgement of `message_id`.
pub fn ack_outcome(ack_id: u16, nack_id: u16, message_id: u16, answer: &ProtocolMessage) -> (r:
    AckOutcome)
    ensures
        r@ == spec_ack_outcome(ack_id, nack_id, message_id, answer@),
{
    if answer.message_id != ack_id && answer.message_id != nack_id {
        return AckOutcome::Skip;
    }
    if !answer.has_valid_crc() || answer.payload.len() < 2 {
        return AckOutcome::Unparsable;
    }
    if u16_from_le_bytes(answer.payload[0], answer.payload[1]) != message_id {
        return AckOutcome::Skip;
    }
    if answer.message_id == ack_id {
        return AckOutcome::Acked;
    }
    let mut reason: Vec<u8> = Vec::new();
    let mut i: usize = 2;
    while i < answer.payload.len()
        invariant
            2 <= i <= answer.payload@.len(),
            reason@ == answer.payload@.subrange(2, i as int),
        decreases answer.payload@.len() - i,
    {
        reason.push(answer.payload[i]);
        i += 1;
        assert(reason@ =~= answer.payload@.subrange(2, i as int));
    }
    AckOutcome::Nacked(reason)
}

/// Whether `answer` is the reply to a request for the message with id `requested_id`.
pub fn awaited_reply(requested_id: u16, answer: &ProtocolMessage) -> (b: bool)
    ensures
        b == (answer.message_id == requested_id),
{
    answer.message_id == requested_id
}

/// What a device waiting for the reply to a request does with a received message.
#[derive(Debug, PartialEq)]
pub enum ReplyOutcome {
    /// Not the requested message: keep waiting.
    Skip,
    /// The requested message, but its checksum is wrong or its payload does not hold the
    /// message's fields.
    Unparsable,
    /// The requested message's fields.
    Reply(Vec<FieldValue>),
}

/// Decides what to do with `answer` while waiting for the message with id `requested_id`,
/// whose fields have the types `types`.
pub fn reply_outcome(requested_id: u16, types: &Vec<PayloadType>, answer: &ProtocolMessage) -> (r:
    ReplyOutcome)
    ensures
        answer.message_id != requested_id ==> r is Skip,
        answer.message_id == requested_id && !answer@.has_valid_crc() ==> r is Unparsable,
        answer.message_id == requested_id && answer@.has_valid_crc() ==> match decode_fields(
            types@,
            answer.payload@,
        ) {
            Some(v) => r matches ReplyOutcome::Reply(w) && values_view(w@) == v,
            None => r is Unparsable,
        },
{
    if !awaited_reply(requested_id, answer) {
        return ReplyOutcome::Skip;
    }
    if !answer.has_valid_crc() {
        return ReplyOutcome::Unparsable;
    }
    match decode_payload(types, answer.payload.as_slice()) {
        Some(values) => ReplyOutcome::Reply(values),
        None => ReplyOutcome::Unparsable,
    }
}

/// The message that asks a device to send the message with id `requested_id`.
pub fn general_request(requested_id: u16) -> (m: ProtocolMessage)
    ensures
        m@ == empty_message().with_message(GENERAL_REQUEST_ID, le_bytes(requested_id)),
{
    let mut payload: Vec<u8> = Vec::new();
    payload.push((requested_id % 256) as u8);
    payload.push((requested_id / 256) as u8);
    assert(payload@ =~= le_bytes(requested_id));
    let mut m = ProtocolMessage::new();
    m.set_message_id_and_payload(GENERAL_REQUEST_ID, payload);
    m
}

/// The message that sets a device's id to `device_id`.
pub fn set_device_id_request(device_id: u8) -> (m: ProtocolMessage)
    ensures
        m@ == empty_message().with_message(SET_DEVICE_ID_ID, seq![device_id]),
{
    let mut payload: Vec<u8> = Vec::new();
    payload.push(device_id);
    assert(payload@ =~= seq![device_id]);
    let mut m = ProtocolMessage::new();
    m.set_message_id_and_payload(SET_DEVICE_ID_ID, payload);
    m
}

} // verus!
