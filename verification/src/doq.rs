//! The framing of DNS messages on a QUIC stream.

use crate::bytes::{append_octets, be16, lemma_be16_read, word_at};
use vstd::prelude::*;

verus! {

/// The largest response that is accepted. A larger one is an error rather than
/// cut short.
pub const MAX_DNS_MESSAGE_SIZE: usize = 8192;

/// The port of DNS over QUIC.
pub const DOQ_PORT: u16 = 853;

/// Why a message does not fit.
#[derive(Clone, Copy, PartialEq, Eq, Structural, Debug)]
pub enum DoqError {
    /// The length of the query does not fit into its prefix.
    QueryTooLarge,
    /// The server announces a response of so many octets.
    ResponseTooLarge(usize),
}

/// A message behind its length.
pub open spec fn framed(message: Seq<u8>) -> Seq<u8> {
    be16(message.len() as int) + message
}

/// Puts a query behind its length, as it is sent.
pub fn frame_query(payload: &[u8]) -> (r: Result<Vec<u8>, DoqError>)
    ensures
        match r {
            Ok(frame) => payload@.len() <= 0xffff && frame@ == framed(payload@),
            Err(e) => payload@.len() > 0xffff && e == DoqError::QueryTooLarge,
        },
        r is Ok <==> payload@.len() <= 65535,
        r matches Ok(frame) ==> frame@.len() == 2 + payload@.len() && frame@[0] * 256 + frame@[1]
            == payload@.len() && frame@.skip(2) == payload@,
{
    if payload.len() > 0xffff {
        return Err(DoqError::QueryTooLarge);
    }
    let mut frame: Vec<u8> = Vec::new();
    frame.push((payload.len() / 256) as u8);
    frame.push((payload.len() % 256) as u8);
    append_octets(&mut frame, payload);
    proof {
        assert(frame@ =~= framed(payload@));
        assert(frame@.skip(2) =~= payload@);
    }
    Ok(frame)
}

/// Reads the length of a response from its prefix.
pub fn response_len(prefix: [u8; 2]) -> (r: Result<usize, DoqError>)
    ensures
        match r {
            Ok(len) => len == word_at(prefix@, 0) && len <= MAX_DNS_MESSAGE_SIZE,
            Err(e) => word_at(prefix@, 0) > MAX_DNS_MESSAGE_SIZE && e == DoqError::ResponseTooLarge(
                word_at(prefix@, 0) as usize,
            ),
        },
        r is Ok <==> prefix@[0] * 256 + prefix@[1] <= 8192,
        r matches Ok(len) ==> len == prefix@[0] * 256 + prefix@[1],
        r matches Err(DoqError::ResponseTooLarge(len)) ==> len == prefix@[0] * 256 + prefix@[1],
        r matches Err(e) ==> e is ResponseTooLarge,
{
    let len: usize = prefix[0] as usize * 256 + prefix[1] as usize;
    if len > MAX_DNS_MESSAGE_SIZE {
        Err(DoqError::ResponseTooLarge(len))
    } else {
        Ok(len)
    }
}

/// A message that was framed is found again in front of whatever follows it on
/// the stream.
pub proof fn law_framed_message_is_found(message: Seq<u8>, rest: Seq<u8>)
    requires
        message.len() <= 0xffff,
    ensures
        word_at((framed(message) + rest).take(2), 0) == message.len(),
        (framed(message) + rest).subrange(2, 2int + message.len()) == message,
{
    let stream = framed(message) + rest;
    let prefix = stream.take(2);
    assert(prefix.subrange(0, 2) =~= be16(message.len() as int));
    lemma_be16_read(message.len() as int, prefix, 0);
    assert(stream.subrange(2, 2int + message.len()) =~= message);
}

/// A frame is the length of its message in two octets, the higher one first, and
/// then the message as it is.
pub proof fn law_frame_is_length_and_message(message: Seq<u8>)
    requires
        message.len() <= 65535,
    ensures
        framed(message).len() == 2 + message.len(),
        framed(message)[0] * 256 + framed(message)[1] == message.len(),
        framed(message).skip(2) == message,
        MAX_DNS_MESSAGE_SIZE == 8192,
        DOQ_PORT == 853,
{
    assert(framed(message).skip(2) =~= message);
}

/// Different messages have different frames.
pub proof fn law_frames_tell_messages_apart(a: Seq<u8>, b: Seq<u8>)
    requires
        a.len() <= 65535,
        b.len() <= 65535,
        framed(a) == framed(b),
    ensures
        a == b,
{
    law_frame_is_length_and_message(a);
    law_frame_is_length_and_message(b);
}

} // verus!
