//! The error surface of the handshake core.
//!
//! Every fallible operation of this crate reports one of these kinds.  All of
//! them are fatal to the handshake: the caller is expected to tear the
//! connection down and, if appropriate, start over with fresh state.

use vstd::prelude::*;

verus! {

/// One error kind per way the handshake can fail.
#[derive(Clone, Copy, Debug, PartialEq, Eq, Structural)]
pub enum BsshError {
    /// A banner line exceeded the maximum length without a `\r\n` terminator.
    NoLineTerminationFound,
    /// A banner line was not valid UTF-8.
    NotUtf8String,
    /// A comment line arrived while comment lines were not permitted.
    ExpectedHeaderString,
    /// The comment-line budget of the banner exchange was exceeded.
    TooManyCommentLines,
    /// The peer closed the stream, or the stream ran out, mid-read.
    ConnectionEndedUnexpectedly,
    /// A declared length field exceeds the configured ceiling.
    BufferCapacityExceeded,
    /// A name-list had an empty component or was not valid UTF-8.
    MalformedNameList,
    /// A key-exchange-init message did not start with the expected tag.
    ExpectedKexMsgInit,
    /// The reserved field of a key-exchange-init message was not zero.
    ExpectedZeroU32,
    /// A peer-supplied Diffie-Hellman value failed its range validation.
    NegativeOrOutOfRangeExchangeValue,
}

/// The diagnostic line each error kind stands for.
pub open spec fn spec_message(e: BsshError) -> Seq<char> {
    match e {
        BsshError::NoLineTerminationFound => "Error while parsing initial message: no proper line termination found (and reached maximum string length)."@,
        BsshError::NotUtf8String => "Error while parsing initial message: not utf8 string."@,
        BsshError::ExpectedHeaderString => "Error while parsing initial message: expected SSH-2.0-... string."@,
        BsshError::TooManyCommentLines => "Error while parsing initial message: too many additional (comment) lines."@,
        BsshError::ConnectionEndedUnexpectedly => "Connection ended unexpectedly."@,
        BsshError::BufferCapacityExceeded => "Buffer capacity exceeded."@,
        BsshError::MalformedNameList => "Malformed name list."@,
        BsshError::ExpectedKexMsgInit => "Error while processing key exchange packet: expected KEX_MSG_INIT in header"@,
        BsshError::ExpectedZeroU32 => "Error while processing key exchange packet: expected 0 (u32) at the end of message"@,
        BsshError::NegativeOrOutOfRangeExchangeValue => "Error in kex exchange: exchange value is negative or out of range."@,
    }
}

impl BsshError {
    /// The diagnostic line for this error, for callers that log it.
    pub fn message(&self) -> (r: String)
        ensures
            r@ == spec_message(*self),
    {
        match self {
            BsshError::NoLineTerminationFound => "Error while parsing initial message: no proper line termination found (and reached maximum string length).".to_owned(),
            BsshError::NotUtf8String => "Error while parsing initial message: not utf8 string.".to_owned(),
            BsshError::ExpectedHeaderString => "Error while parsing initial message: expected SSH-2.0-... string.".to_owned(),
            BsshError::TooManyCommentLines => "Error while parsing initial message: too many additional (comment) lines.".to_owned(),
            BsshError::ConnectionEndedUnexpectedly => "Connection ended unexpectedly.".to_owned(),
            BsshError::BufferCapacityExceeded => "Buffer capacity exceeded.".to_owned(),
            BsshError::MalformedNameList => "Malformed name list.".to_owned(),
            BsshError::ExpectedKexMsgInit => "Error while processing key exchange packet: expected KEX_MSG_INIT in header".to_owned(),
            BsshError::ExpectedZeroU32 => "Error while processing key exchange packet: expected 0 (u32) at the end of message".to_owned(),
            BsshError::NegativeOrOutOfRangeExchangeValue => "Error in kex exchange: exchange value is negative or out of range.".to_owned(),
        }
    }
}

} // verus!
