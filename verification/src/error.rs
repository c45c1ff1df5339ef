use vstd::prelude::*;

use crate::decoder::ParseError;
use crate::message::ProtocolMessage;

verus! {

/// Errors of the device layer: I/O, decoding, channel, timing and protocol failures.
#[derive(Debug, Clone)]
pub enum PingError {
    Io(String),
    ParseError(ParseError),
    TokioBroadcastError(String),
    TokioMpscError(String),
    JoinError,
    TimeoutError,
    TryFromError(ProtocolMessage),
    NackError(String),
}

} // verus!
