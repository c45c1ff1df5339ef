use vstd::prelude::*;

use crate::frame::u16_from_le_bytes;
use crate::message::{empty_message, le_bytes, le_value, MessageModel, ProtocolMessage, HEADER};

verus! {

#[derive(Debug, Clone, Copy, PartialEq, Eq, Structural)]
pub enum ParseError {
    InvalidStartByte,
    IncompleteData,
    ChecksumError,
}

#[derive(Debug)]
pub enum DecoderResult {
    Success(ProtocolMessage),
    InProgress,
    Error(ParseError),
}

#[derive(Debug, Clone, Copy, PartialEq, Eq, Structural)]
pub enum DecoderState {
    AwaitingStart1,
    AwaitingStart2,
    ReadingHeader,
    ReadingPayload,
    ReadingChecksum,
}

/// Byte-by-byte decoder of protocol frames.
pub struct Decoder {
    pub state: DecoderState,
    buffer: Vec<u8>,
    message: ProtocolMessage,
}

/// Model of a decoder result.
pub enum DecoderResultModel {
    Success(MessageModel),
    InProgress,
    Error(ParseError),
}

impl View for DecoderResult {
    type V = DecoderResultModel;

    open spec fn view(&self) -> DecoderResultModel {
        match self {
            DecoderResult::Success(m) => DecoderResultModel::Success(m@),
            DecoderResult::InProgress => DecoderResultModel::InProgress,
            DecoderResult::Error(e) => DecoderResultModel::Error(*e),
        }
    }
}

/// Model of a decoder: its state, the bytes buffered for the current field group and the
/// message assembled so far.
pub struct DecoderModel {
    pub state: DecoderState,
    pub buffer: Seq<u8>,
    pub message: MessageModel,
}

impl Decoder {
    /// The decoder's state, buffered bytes and message so far.
    pub closed spec fn model(&self) -> DecoderModel {
        DecoderModel { state: self.state, buffer: self.buffer@, message: self.message@ }
    }
}

impl View for Decoder {
    type V = DecoderModel;

    open spec fn view(&self) -> DecoderModel {
        self.model()
    }
}

/// The decoder after the six header bytes `header` have been read into `message`: it reads
/// the payload next, or, when the payload is empty, the checksum.
pub open spec fn header_read(message: MessageModel, header: Seq<u8>) -> DecoderModel {
    let payload_length = le_value(header[0], header[1]);
    DecoderModel {
        state: if payload_length == 0 {
            DecoderState::ReadingChecksum
        } else {
            DecoderState::ReadingPayload
        },
        buffer: Seq::empty(),
        message: MessageModel {
            payload_length,
            message_id: le_value(header[2], header[3]),
            src_device_id: header[4],
            dst_device_id: header[5],
            payload: if payload_length == 0 {
                Seq::empty()
            } else {
                message.payload
            },
            ..message
        },
    }
}

/// One step of the decoder: the decoder after reading `byte`, and what it reports.
pub open spec fn step(d: DecoderModel, byte: u8) -> (DecoderModel, DecoderResultModel) {
    match d.state {
        DecoderState::AwaitingStart1 => {
            if byte == 0x42 {
                (
                    DecoderModel { state: DecoderState::AwaitingStart2, ..d },
                    DecoderResultModel::InProgress,
                )
            } else {
                (d, DecoderResultModel::Error(ParseError::InvalidStartByte))
            }
        },
        DecoderState::AwaitingStart2 => {
            if byte == 0x52 {
                (
                    DecoderModel {
                        state: DecoderState::ReadingHeader,
                        buffer: Seq::empty(),
                        ..d
                    },
                    DecoderResultModel::InProgress,
                )
            } else {
                (
                    DecoderModel { state: DecoderState::AwaitingStart1, ..d },
                    DecoderResultModel::Error(ParseError::InvalidStartByte),
                )
            }
        },
        DecoderState::ReadingHeader => {
            let buf = d.buffer.push(byte);
            if buf.len() == 6 {
                (header_read(d.message, buf), DecoderResultModel::InProgress)
            } else {
                (DecoderModel { buffer: buf, ..d }, DecoderResultModel::InProgress)
            }
        },
        DecoderState::ReadingPayload => {
            let buf = d.buffer.push(byte);
            if buf.len() == d.message.payload_length {
                (
                    DecoderModel {
                        state: DecoderState::ReadingChecksum,
                        buffer: Seq::empty(),
                        message: MessageModel { payload: buf, ..d.message },
                    },
                    DecoderResultModel::InProgress,
                )
            } else {
                (DecoderModel { buffer: buf, ..d }, DecoderResultModel::InProgress)
            }
        },
        DecoderState::ReadingChecksum => {
            let buf = d.buffer.push(byte);
            if buf.len() == 2 {
                (
                    DecoderModel {
                        state: DecoderState::AwaitingStart1,
                        buffer: Seq::empty(),
                        message: empty_message(),
                    },
                    DecoderResultModel::Success(
                        MessageModel { checksum: le_value(buf[0], buf[1]), ..d.message },
                    ),
                )
            } else {
                (DecoderModel { buffer: buf, ..d }, DecoderResultModel::InProgress)
            }
        },
    }
}

/// Feeds `bytes` one by one: the final decoder and every result in order.
pub open spec fn feed(d: DecoderModel, bytes: Seq<u8>) -> (DecoderModel, Seq<DecoderResultModel>)
    decreases bytes.len(),
{
    if bytes.len() == 0 {
        (d, Seq::empty())
    } else {
        let (d1, results) = feed(d, bytes.drop_last());
        let (d2, r) = step(d1, bytes.last());
        (d2, results.push(r))
    }
}

/// `n` results that each report a frame still in progress.
pub open spec fn in_progress(n: nat) -> Seq<DecoderResultModel> {
    Seq::new(n, |i: int| DecoderResultModel::InProgress)
}

/// The decoder that `Decoder::new` builds and that a completed frame leaves behind.
pub open spec fn idle_decoder() -> DecoderModel {
    DecoderModel {
        state: DecoderState::AwaitingStart1,
        buffer: Seq::empty(),
        message: empty_message(),
    }
}

impl Decoder {
    pub fn new() -> (decoder: Self)
        ensures
            decoder@ == idle_decoder(),
    {
        Decoder {
            state: DecoderState::AwaitingStart1,
            buffer: Vec::new(),
            message: ProtocolMessage::new(),
        }
    }

    /// The part of a frame that the decoder waits for.
    pub fn state(&self) -> (state: DecoderState)
        ensures
            state == self@.state,
    {
        self.state
    }

    /// Reads one byte of a frame.
    pub fn parse_byte(&mut self, byte: u8) -> (res: DecoderResult)
        ensures
            (final(self)@, res@) == step(old(self)@, byte),
    {
        match self.state {
            DecoderState::AwaitingStart1 => {
                if byte == HEADER[0] {
                    self.state = DecoderState::AwaitingStart2;
                    return DecoderResult::InProgress;
                }
                return DecoderResult::Error(ParseError::InvalidStartByte);
            },
            DecoderState::AwaitingStart2 => {
                if byte == HEADER[1] {
                    self.state = DecoderState::ReadingHeader;
                    self.buffer.clear();
                    return DecoderResult::InProgress;
                }
                self.state = DecoderState::AwaitingStart1;
                return DecoderResult::Error(ParseError::InvalidStartByte);
            },
            DecoderState::ReadingHeader => {
                self.buffer.push(byte);
                if self.buffer.len() == 6 {
                    self.message.payload_length = u16_from_le_bytes(self.buffer[0], self.buffer[1]);
                    self.message.message_id = u16_from_le_bytes(self.buffer[2], self.buffer[3]);
                    self.message.src_device_id = self.buffer[4];
                    self.message.dst_device_id = self.buffer[5];
                    if self.message.payload_length == 0 {
                        self.message.payload = Vec::new();
                        self.state = DecoderState::ReadingChecksum;
                    } else {
                        self.state = DecoderState::ReadingPayload;
                    }
                    self.buffer.clear();
                }
                return DecoderResult::InProgress;
            },
            DecoderState::ReadingPayload => {
                self.buffer.push(byte);
                if self.buffer.len() == self.message.payload_length as usize {
                    let mut payload: Vec<u8> = Vec::new();
                    std::mem::swap(&mut payload, &mut self.buffer);
                    self.message.payload = payload;
                    self.state = DecoderState::ReadingChecksum;
                }
                return DecoderResult::InProgress;
            },
            DecoderState::ReadingChecksum => {
                self.buffer.push(byte);
                if self.buffer.len() == 2 {
                    self.message.checksum = u16_from_le_bytes(self.buffer[0], self.buffer[1]);
                    let mut message = ProtocolMessage::new();
                    std::mem::swap(&mut message, &mut self.message);
                    self.reset();
                    return DecoderResult::Success(message);
                }
                return DecoderResult::InProgress;
            },
        }
    }

    /// Drops any partial frame and waits for a new start byte; the message fields read so
    /// far stay as they are.
    pub fn reset(&mut self)
        ensures
            final(self)@ == (DecoderModel {
                state: DecoderState::AwaitingStart1,
                buffer: Seq::empty(),
                ..old(self)@
            }),
    {
        self.state = DecoderState::AwaitingStart1;
        self.buffer.clear();
    }
}

/// Feeding one byte is one step.
pub proof fn lemma_feed_one(d: DecoderModel, b: u8)
    ensures
        feed(d, seq![b]) == (step(d, b).0, seq![step(d, b).1]),
{
    assert(seq![b].drop_last() =~= Seq::<u8>::empty());
    assert(feed(d, Seq::<u8>::empty()) == (d, Seq::<DecoderResultModel>::empty()));
    assert(Seq::<DecoderResultModel>::empty().push(step(d, b).1) =~= seq![step(d, b).1]);
}

/// Feeding two byte sequences one after the other is feeding their concatenation.
pub proof fn lemma_feed_concat(d: DecoderModel, a: Seq<u8>, b: Seq<u8>)
    ensures
        feed(d, a + b).0 == feed(feed(d, a).0, b).0,
        feed(d, a + b).1 == feed(d, a).1 + feed(feed(d, a).0, b).1,
    decreases b.len(),
{
    if b.len() == 0 {
        assert(a + b =~= a);
        assert(feed(d, a).1 + Seq::<DecoderResultModel>::empty() =~= feed(d, a).1);
    } else {
        assert((a + b).drop_last() =~= a + b.drop_last());
        assert((a + b).last() == b.last());
        lemma_feed_concat(d, a, b.drop_last());
        let mid = feed(d, a).0;
        let before = feed(d, a).1;
        let rest = feed(mid, b.drop_last());
        let last = step(rest.0, b.last()).1;
        assert(before + rest.1.push(last) =~= (before + rest.1).push(last));
    }
}

/// The number of buffered bytes at which the decoder leaves a buffering state.
pub open spec fn buffer_target(d: DecoderModel) -> int {
    match d.state {
        DecoderState::ReadingHeader => 6,
        DecoderState::ReadingPayload => d.message.payload_length as int,
        _ => 2,
    }
}

pub open spec fn is_buffering(state: DecoderState) -> bool {
    state == DecoderState::ReadingHeader || state == DecoderState::ReadingPayload || state
        == DecoderState::ReadingChecksum
}

/// While the buffer stays short of its target, bytes are buffered and reported in progress.
pub proof fn lemma_feed_buffering(d: DecoderModel, bytes: Seq<u8>)
    requires
        is_buffering(d.state),
        d.buffer.len() + bytes.len() < buffer_target(d),
    ensures
        feed(d, bytes) == (DecoderModel { buffer: d.buffer + bytes, ..d }, in_progress(
            bytes.len(),
        )),
    decreases bytes.len(),
{
    if bytes.len() == 0 {
        assert(d.buffer + bytes =~= d.buffer);
        assert(in_progress(0) =~= Seq::<DecoderResultModel>::empty());
    } else {
        lemma_feed_buffering(d, bytes.drop_last());
        assert((d.buffer + bytes.drop_last()).push(bytes.last()) =~= d.buffer + bytes);
        assert(in_progress((bytes.len() - 1) as nat).push(DecoderResultModel::InProgress)
            =~= in_progress(bytes.len()));
    }
}

/// After the header, the payload bytes are buffered and the decoder moves on to the
/// checksum with the payload in the message; an empty payload is skipped at once.
pub proof fn lemma_feed_payload(d: DecoderModel, p: Seq<u8>)
    requires
        d.buffer == Seq::<u8>::empty(),
        d.message.payload_length == p.len(),
        p.len() == 0 ==> d.state == DecoderState::ReadingChecksum && d.message.payload
            == Seq::<u8>::empty(),
        p.len() > 0 ==> d.state == DecoderState::ReadingPayload,
    ensures
        feed(d, p) == (DecoderModel {
            state: DecoderState::ReadingChecksum,
            buffer: Seq::empty(),
            message: MessageModel { payload: p, ..d.message },
        }, in_progress(p.len())),
{
    let n: nat = p.len();
    if n == 0 {
        assert(p =~= Seq::<u8>::empty());
        assert(in_progress(0) =~= Seq::<DecoderResultModel>::empty());
        assert(feed(d, p) == (d, Seq::<DecoderResultModel>::empty()));
    } else {
        assert(p =~= p.take(n - 1) + seq![p[n - 1]]);
        lemma_feed_buffering(d, p.take(n - 1));
        let db = feed(d, p.take(n - 1)).0;
        assert(db.buffer =~= p.take(n - 1));
        lemma_feed_one(db, p[n - 1]);
        lemma_feed_concat(d, p.take(n - 1), seq![p[n - 1]]);
        assert(db.buffer.push(p[n - 1]) =~= p);
        assert(in_progress((n - 1) as nat) + seq![DecoderResultModel::InProgress] =~= in_progress(
            n,
        ));
    }
}

/// Feeding the frame of a consistent message to a decoder that awaits a start byte reports
/// the message on the last byte, reports every earlier byte in progress, and leaves the
/// decoder idle.
pub proof fn law_decoder_reads_frame(d: DecoderModel, m: MessageModel)
    requires
        d.state == DecoderState::AwaitingStart1,
        m.is_consistent(),
    ensures
        feed(d, m.frame()).0 == idle_decoder(),
        feed(d, m.frame()).1 == in_progress((m.frame().len() - 1) as nat).push(
            DecoderResultModel::Success(m),
        ),
{
    let s1 = seq![0x42u8];
    let s2 = seq![0x52u8];
    let h = le_bytes(m.payload_length) + le_bytes(m.message_id) + seq![
        m.src_device_id,
        m.dst_device_id,
    ];
    let p = m.payload;
    let c = le_bytes(m.checksum);
    assert(m.frame() =~= s1 + s2 + h + p + c);

    // start bytes
    lemma_feed_one(d, 0x42u8);
    let d1 = step(d, 0x42u8).0;
    lemma_feed_one(d1, 0x52u8);
    let d2 = step(d1, 0x52u8).0;
    lemma_feed_concat(d, s1, s2);
    assert(d2 == DecoderModel { state: DecoderState::ReadingHeader, buffer: Seq::empty(), ..d });

    // header
    assert(h =~= h.take(5) + seq![h[5]]);
    lemma_feed_buffering(d2, h.take(5));
    let d2b = feed(d2, h.take(5)).0;
    assert(d2b.buffer =~= h.take(5));
    lemma_feed_one(d2b, h[5]);
    lemma_feed_concat(d2, h.take(5), seq![h[5]]);
    let d3 = step(d2b, h[5]).0;
    assert(d2b.buffer.push(h[5]) =~= h);
    assert(le_value(h[0], h[1]) == m.payload_length);
    assert(le_value(h[2], h[3]) == m.message_id);
    assert(d3 == header_read(d.message, h));
    lemma_feed_concat(d, s1 + s2, h);

    // payload
    lemma_feed_payload(d3, p);
    let d4 = feed(d3, p).0;
    lemma_feed_concat(d, s1 + s2 + h, p);

    // checksum
    lemma_feed_one(d4, c[0]);
    let d5 = step(d4, c[0]).0;
    assert(d5.buffer =~= seq![c[0]]);
    lemma_feed_one(d5, c[1]);
    assert(c =~= seq![c[0]] + seq![c[1]]);
    lemma_feed_concat(d4, seq![c[0]], seq![c[1]]);
    assert(d5.buffer.push(c[1]) =~= c);
    assert(le_value(c[0], c[1]) == m.checksum);
    let done = step(d5, c[1]);
    assert(done.1 == DecoderResultModel::Success(m));
    lemma_feed_concat(d, s1 + s2 + h + p, c);

    assert(feed(d, m.frame()).1 =~= in_progress((m.frame().len() - 1) as nat).push(
        DecoderResultModel::Success(m),
    ));
}

} // verus!
