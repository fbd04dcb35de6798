//! Messages and their wire frames.
//!
//! A frame is the message-type identifier as a little-endian `u32`, the
//! payload's length in bytes as a little-endian `u32`, and the payload, the
//! UTF-8 text of a JSON document.
use vstd::bytes::*;
use vstd::prelude::*;
use vstd::slice::slice_subrange;
use vstd::utf8::*;

use crate::document::{
    accepts_json, json_accepts, member_int, member_int_of, member_str, member_str_of, object_text,
    opt_chars, Document,
};
use crate::connection::{Channel, ChannelView, Connection};
use crate::error::Error;

verus! {

broadcast use {encode_utf8_decode_utf8, decode_utf8_encode_utf8, encode_utf8_valid_utf8};

/// The different message types.
#[derive(Debug, Clone, Copy, PartialEq, Eq, Structural, Hash)]
pub enum MessageType {
    Handshake,
    Frame,
    Close,
    Ping,
    Pong,
}

impl MessageType {
    /// The identifier of the type on the wire.
    pub open spec fn spec_code(self) -> u32 {
        match self {
            MessageType::Handshake => 0,
            MessageType::Frame => 1,
            MessageType::Close => 2,
            MessageType::Ping => 3,
            MessageType::Pong => 4,
        }
    }

    /// The type with a given wire identifier, if there is one.
    pub open spec fn spec_from_code(n: u32) -> Option<MessageType> {
        if n == 0 {
            Some(MessageType::Handshake)
        } else if n == 1 {
            Some(MessageType::Frame)
        } else if n == 2 {
            Some(MessageType::Close)
        } else if n == 3 {
            Some(MessageType::Ping)
        } else if n == 4 {
            Some(MessageType::Pong)
        } else {
            None
        }
    }

    /// Returns the identifier of the type on the wire.
    pub fn code(self) -> (r: u32)
        ensures
            r == self.spec_code(),
            MessageType::spec_from_code(r) == Some(self),
    {
        match self {
            MessageType::Handshake => 0,
            MessageType::Frame => 1,
            MessageType::Close => 2,
            MessageType::Ping => 3,
            MessageType::Pong => 4,
        }
    }

    /// Returns the type with the given wire identifier, or `FormatError` when
    /// the identifier is not one of the five.
    pub fn from_code(n: u32) -> (r: Result<MessageType, Error>)
        ensures
            match MessageType::spec_from_code(n) {
                Some(t) => r == Ok::<MessageType, Error>(t) && t.spec_code() == n,
                None => r == Err::<MessageType, Error>(Error::FormatError(n)),
            },
    {
        match n {
            0 => Ok(MessageType::Handshake),
            1 => Ok(MessageType::Frame),
            2 => Ok(MessageType::Close),
            3 => Ok(MessageType::Ping),
            4 => Ok(MessageType::Pong),
            _ => Err(Error::FormatError(n)),
        }
    }
}

/// What a message is: its type and the text of its payload.
pub struct MessageView {
    pub kind: MessageType,
    pub payload: Seq<char>,
}

/// The UTF-8 bytes of a message's payload.
pub open spec fn payload_bytes(m: MessageView) -> Seq<u8> {
    encode_utf8(m.payload)
}

/// Whether the payload's length fits in the frame's length field.
pub open spec fn fits_frame(m: MessageView) -> bool {
    payload_bytes(m).len() <= u32::MAX
}

/// Whether a message can travel in a frame and be read back: its payload
/// fits and is a JSON document.
pub open spec fn valid_message(m: MessageView) -> bool {
    fits_frame(m) && json_accepts(payload_bytes(m))
}

/// The frame of a message.
pub open spec fn frame_of(m: MessageView) -> Seq<u8> {
    spec_u32_to_le_bytes(m.kind.spec_code()) + spec_u32_to_le_bytes(payload_bytes(m).len() as u32)
        + payload_bytes(m)
}

/// The payload length that a frame header declares.
pub open spec fn declared_len(b: Seq<u8>) -> int {
    spec_u32_from_le_bytes(b.subrange(4, 8)) as int
}

/// The message-type identifier at the start of a frame.
pub open spec fn declared_code(b: Seq<u8>) -> u32 {
    spec_u32_from_le_bytes(b.subrange(0, 4))
}

/// What decoding the start of a byte stream gives: nothing when the stream is
/// empty, else the first message and the number of bytes its frame takes, or
/// the error that the first frame shows.
pub open spec fn decode_spec(b: Seq<u8>) -> Result<Option<(MessageView, int)>, Error> {
    if b.len() == 0 {
        Ok(None)
    } else if b.len() < 4 {
        Err(Error::TruncatedFrame)
    } else {
        match MessageType::spec_from_code(declared_code(b)) {
            None => Err(Error::FormatError(declared_code(b))),
            Some(kind) => if b.len() < 8 || b.len() < 8 + declared_len(b) {
                Err(Error::TruncatedFrame)
            } else {
                let p = b.subrange(8, 8 + declared_len(b));
                if !valid_utf8(p) {
                    Err(Error::EncodingError)
                } else if !json_accepts(p) {
                    Err(Error::PayloadError)
                } else {
                    Ok(Some((MessageView { kind, payload: decode_utf8(p) }, 8 + declared_len(b))))
                }
            },
        }
    }
}

/// Whether an executable decoding result is the one that `decode_spec` gives.
pub open spec fn decoded_as(
    r: Result<Option<(Message, usize)>, Error>,
    s: Result<Option<(MessageView, int)>, Error>,
) -> bool {
    match (r, s) {
        (Ok(None), Ok(None)) => true,
        (Ok(Some((m, n))), Ok(Some((v, k)))) => m@ == v && n as int == k,
        (Err(e), Err(f)) => e == f,
        _ => false,
    }
}

/// Whether a channel only gained received bytes and kept its other records.
pub open spec fn taken_from(before: ChannelView, after: ChannelView) -> bool {
    &&& before.received.len() <= after.received.len()
    &&& after.received.subrange(0, before.received.len() as int) == before.received
    &&& after.writes == before.writes
    &&& after.open == before.open
    &&& after.opens == before.opens
    &&& after.checks == before.checks
    &&& before.reads.len() <= after.reads.len()
    &&& after.reads.subrange(0, before.reads.len() as int) == before.reads
}

/// The reads that `decode_from` makes, given the bytes `b` they took: the
/// four-byte identifier first; after a known identifier, the four-byte
/// length; after a length that is not zero, the payload; each only when the
/// read before it was answered, and the bytes taken are those of the
/// answered reads.
pub open spec fn decode_reads(rs: Seq<(nat, bool)>, b: Seq<u8>) -> bool {
    &&& rs.len() >= 1
    &&& rs[0].0 == 4
    &&& if !rs[0].1 {
        rs.len() == 1 && b.len() == 0
    } else if MessageType::spec_from_code(declared_code(b)) is None {
        rs.len() == 1 && b.len() == 4
    } else {
        &&& rs.len() >= 2
        &&& rs[1].0 == 4
        &&& if !rs[1].1 {
            rs.len() == 2 && b.len() == 4
        } else if declared_len(b) == 0 {
            rs.len() == 2 && b.len() == 8
        } else {
            &&& rs.len() == 3
            &&& rs[2].0 == declared_len(b)
            &&& b.len() == if rs[2].1 {
                8 + declared_len(b)
            } else {
                8
            }
        }
    }
}

/// Whether a result of `decode_from` is what `decode_spec` gives on the bytes
/// `b` that it took from the channel: nothing when it took nothing, else the
/// whole frame of the message or the bytes that show the error.
pub open spec fn decoded_from(r: Result<Option<Message>, Error>, b: Seq<u8>) -> bool {
    match r {
        Ok(None) => b.len() == 0,
        Ok(Some(m)) => decode_spec(b) == Ok::<Option<(MessageView, int)>, Error>(
            Some((m@, b.len() as int)),
        ),
        Err(e) => b.len() > 0 && decode_spec(b) == Err::<Option<(MessageView, int)>, Error>(e),
    }
}

/// Relies on `std::str::from_utf8`: the text whose UTF-8 bytes are the given
/// bytes, when they are valid UTF-8.
#[verifier::external_body]
fn utf8_text(bytes: &[u8]) -> (r: Option<String>)
    ensures
        r is Some <==> valid_utf8(bytes@),
        r matches Some(s) ==> encode_utf8(s@) == bytes@,
{
    match std::str::from_utf8(bytes) {
        Ok(s) => Some(s.to_owned()),
        Err(_) => None,
    }
}

/// A message with a given `MessageType` and a JSON payload.
#[derive(Debug, Clone)]
pub struct Message {
    msg_type: MessageType,
    payload: String,
}

impl View for Message {
    type V = MessageView;

    closed spec fn view(&self) -> MessageView {
        MessageView { kind: self.msg_type, payload: self.payload@ }
    }
}

impl Message {
    /// Creates a `Message` with the given `MessageType` and payload.
    pub fn new(msg_type: MessageType, payload: Document) -> (r: Message)
        ensures
            r@ == (MessageView { kind: msg_type, payload: object_text(payload@) }),
    {
        Message { msg_type, payload: payload.text() }
    }

    /// A copy of the message.
    pub fn duplicate(&self) -> (r: Message)
        ensures
            r@ == self@,
    {
        Message { msg_type: self.msg_type, payload: self.payload.clone() }
    }

    /// Returns the `MessageType` of this `Message`.
    pub fn ty(&self) -> (r: MessageType)
        ensures
            r == self@.kind,
    {
        self.msg_type
    }

    /// Returns the JSON text of the payload.
    pub fn payload(&self) -> (r: &str)
        ensures
            r@ == self@.payload,
    {
        self.payload.as_str()
    }

    /// Returns the string value under a given top-level key, if found.
    pub fn value(&self, key: &str) -> (r: Option<String>)
        ensures
            opt_chars(r) == member_str(self@.payload, key@),
    {
        member_str_of(self.payload.as_str(), key)
    }

    /// Returns the integer value under a given top-level key, if found.
    pub fn int_value(&self, key: &str) -> (r: Option<i64>)
        ensures
            match r {
                Some(n) => member_int(self@.payload, key@) == Some(n as int),
                None => member_int(self@.payload, key@) is None,
            },
    {
        member_int_of(self.payload.as_str(), key)
    }

    /// Sets the `MessageType` of this `Message`.
    pub fn set_ty(&mut self, ty: MessageType)
        ensures
            final(self)@ == (MessageView { kind: ty, payload: old(self)@.payload }),
    {
        self.msg_type = ty;
    }

    /// Encodes the message as a frame; `None` when the payload is too long
    /// for the frame's length field.
    pub fn encode(&self) -> (r: Option<Vec<u8>>)
        ensures
            match r {
                Some(b) => fits_frame(self@) && b@ == frame_of(self@),
                None => !fits_frame(self@),
            },
    {
        let bytes = self.payload.as_str().as_bytes();
        if bytes.len() > 0xFFFF_FFFFusize {
            return None;
        }
        let code = self.msg_type.code();
        let mut out = u32_to_le_bytes(code);
        let len_bytes = u32_to_le_bytes(bytes.len() as u32);
        out.extend_from_slice(len_bytes.as_slice());
        out.extend_from_slice(bytes);
        assert(out@ =~= frame_of(self@));
        Some(out)
    }

    /// Tries to encode this `Message` to the given channel. Returns the
    /// channel's answer, or `false` without writing when the payload is too
    /// long for a frame.
    pub fn encode_to<C: Connection>(&self, conn: &mut Channel<C>) -> (r: bool)
        ensures
            fits_frame(self@) ==> final(conn)@ == (ChannelView {
                writes: old(conn)@.writes.push((frame_of(self@), r)),
                ..old(conn)@
            }),
            !fits_frame(self@) ==> !r && final(conn)@ == old(conn)@,
    {
        match self.encode() {
            Some(bytes) => conn.write(bytes.as_slice()),
            None => false,
        }
    }

    /// Tries to decode a `Message` from the given channel.
    ///
    /// Reads the type identifier, then the length, then the payload, each in
    /// one piece. Returns `Ok(None)` when the identifier has not arrived; a
    /// frame whose length or payload cannot be read in full gives
    /// `TruncatedFrame`; the other errors are those of `decode`. In every case
    /// the result is what `decode` gives on the bytes taken from the channel.
    pub fn decode_from<C: Connection>(conn: &mut Channel<C>) -> (r: Result<Option<Message>, Error>)
        ensures
            taken_from(old(conn)@, final(conn)@),
            decoded_from(r, final(conn)@.received.skip(old(conn)@.received.len() as int)),
            decode_reads(
                final(conn)@.reads.skip(old(conn)@.reads.len() as int),
                final(conn)@.received.skip(old(conn)@.received.len() as int),
            ),
    {
        let ghost before = conn@.received;
        let ghost r0 = conn@.reads;
        let mut head = vec![0u8; 4];
        if !conn.read(head.as_mut_slice()) {
            assert(conn@.received.skip(before.len() as int) =~= Seq::<u8>::empty());
            assert(conn@.received.subrange(0, before.len() as int) =~= before);
            assert(conn@.reads.skip(r0.len() as int) =~= seq![(4nat, false)]);
            assert(conn@.reads.subrange(0, r0.len() as int) =~= r0);
            return Ok(None);
        }
        assert(conn@.reads.skip(r0.len() as int) =~= seq![(4nat, true)]);
        assert(conn@.reads.subrange(0, r0.len() as int) =~= r0);
        let ghost b4 = conn@.received.skip(before.len() as int);
        assert(b4 =~= head@);
        assert(conn@.received.subrange(0, before.len() as int) =~= before);
        assert(b4.subrange(0, 4) =~= head@);
        let code = u32_from_le_bytes(head.as_slice());
        let kind = match MessageType::from_code(code) {
            Ok(k) => k,
            Err(e) => return Err(e),
        };
        let ghost r1 = conn@.reads;
        let mut len_bytes = vec![0u8; 4];
        if !conn.read(len_bytes.as_mut_slice()) {
            assert(conn@.reads.skip(r0.len() as int) =~= seq![(4nat, true), (4nat, false)]);
            assert(conn@.reads.subrange(0, r0.len() as int) =~= r0);
            assert(conn@.received.subrange(0, before.len() as int) =~= before);
            return Err(Error::TruncatedFrame);
        }
        assert(conn@.reads.skip(r0.len() as int) =~= seq![(4nat, true), (4nat, true)]);
        assert(conn@.reads.subrange(0, r0.len() as int) =~= r0);
        let ghost b8 = conn@.received.skip(before.len() as int);
        assert(b8 =~= head@ + len_bytes@);
        assert(conn@.received.subrange(0, before.len() as int) =~= before);
        assert(b8.subrange(0, 4) =~= head@);
        assert(b8.subrange(4, 8) =~= len_bytes@);
        let len = u32_from_le_bytes(len_bytes.as_slice()) as usize;
        let mut payload = vec![0u8; len];
        if len > 0 {
            let ok = conn.read(payload.as_mut_slice());
            assert(conn@.reads.skip(r0.len() as int) =~= seq![
                (4nat, true),
                (4nat, true),
                (len as nat, ok),
            ]);
            assert(conn@.reads.subrange(0, r0.len() as int) =~= r0);
            if !ok {
                assert(conn@.received.subrange(0, before.len() as int) =~= before);
                return Err(Error::TruncatedFrame);
            }
        }
        let ghost b = conn@.received.skip(before.len() as int);
        assert(conn@.received.subrange(0, before.len() as int) =~= before);
        proof {
            if len == 0 {
                assert(payload@ =~= Seq::<u8>::empty());
                assert(b =~= b8);
            } else {
                assert(b =~= head@ + len_bytes@ + payload@);
            }
            assert(b.subrange(0, 4) =~= head@);
            assert(b.subrange(4, 8) =~= len_bytes@);
            assert(b.subrange(8, 8 + len as int) =~= payload@);
        }
        match Self::parse_payload(kind, payload.as_slice()) {
            Ok(m) => Ok(Some(m)),
            Err(e) => Err(e),
        }
    }

    /// Decodes the first message of a byte stream.
    ///
    /// Returns `Ok(None)` on an empty stream, the message and the length of its
    /// frame on success, `FormatError` on an unknown type identifier,
    /// `TruncatedFrame` when fewer bytes are there than the frame declares,
    /// `EncodingError` when the payload is not UTF-8 and `PayloadError` when it
    /// is not a JSON document.
    pub fn decode(bytes: &[u8]) -> (r: Result<Option<(Message, usize)>, Error>)
        ensures
            decoded_as(r, decode_spec(bytes@)),
    {
        let total = bytes.len();
        if total == 0 {
            return Ok(None);
        }
        if total < 4 {
            return Err(Error::TruncatedFrame);
        }
        let code = u32_from_le_bytes(slice_subrange(bytes, 0, 4));
        let kind = match MessageType::from_code(code) {
            Ok(k) => k,
            Err(e) => return Err(e),
        };
        if total < 8 {
            return Err(Error::TruncatedFrame);
        }
        let len = u32_from_le_bytes(slice_subrange(bytes, 4, 8)) as usize;
        if total - 8 < len {
            return Err(Error::TruncatedFrame);
        }
        assert(declared_len(bytes@) == len as int);
        let payload = slice_subrange(bytes, 8, 8 + len);
        match Self::parse_payload(kind, payload) {
            Ok(m) => Ok(Some((m, 8 + len))),
            Err(e) => Err(e),
        }
    }

    /// Builds a message from the payload bytes of a frame.
    fn parse_payload(kind: MessageType, payload: &[u8]) -> (r: Result<Message, Error>)
        ensures
            !valid_utf8(payload@) ==> r == Err::<Message, Error>(Error::EncodingError),
            valid_utf8(payload@) && !json_accepts(payload@) ==> r == Err::<Message, Error>(
                Error::PayloadError,
            ),
            valid_utf8(payload@) && json_accepts(payload@) ==> (r matches Ok(m) && m@ == (
            MessageView { kind, payload: decode_utf8(payload@) })),
    {
        let text = match utf8_text(payload) {
            Some(t) => t,
            None => return Err(Error::EncodingError),
        };
        if !accepts_json(payload) {
            return Err(Error::PayloadError);
        }
        Ok(Message { msg_type: kind, payload: text })
    }
}

/// Decoding the frame of a valid message gives the message back, whatever
/// bytes follow the frame in the stream.
pub proof fn lemma_round_trip(m: MessageView, rest: Seq<u8>)
    requires
        valid_message(m),
    ensures
        decode_spec(frame_of(m) + rest) == Ok::<Option<(MessageView, int)>, Error>(
            Some((m, frame_of(m).len() as int)),
        ),
{
    lemma_auto_spec_u32_to_from_le_bytes();
    let p = payload_bytes(m);
    let b = frame_of(m) + rest;
    let h0 = spec_u32_to_le_bytes(m.kind.spec_code());
    let h1 = spec_u32_to_le_bytes(p.len() as u32);
    assert(b.subrange(0, 4) =~= h0);
    assert(b.subrange(4, 8) =~= h1);
    assert(declared_len(b) == p.len());
    assert(b.subrange(8, 8 + declared_len(b)) =~= p);
    assert(MessageType::spec_from_code(m.kind.spec_code()) == Some(m.kind));
    assert(decode_utf8(p) == m.payload);
}

/// A stream that holds only the start of a frame, header included, decodes
/// to `TruncatedFrame` and never to a shorter message.
pub proof fn lemma_truncated(b: Seq<u8>)
    requires
        b.len() >= 8,
        MessageType::spec_from_code(declared_code(b)) is Some,
        b.len() < 8 + declared_len(b),
    ensures
        decode_spec(b) == Err::<Option<(MessageView, int)>, Error>(Error::TruncatedFrame),
{
}

/// Every proper, non-empty prefix of a message's frame decodes to
/// `TruncatedFrame`.
pub proof fn lemma_prefix_truncated(m: MessageView, k: int)
    requires
        fits_frame(m),
        0 < k < frame_of(m).len(),
    ensures
        decode_spec(frame_of(m).subrange(0, k)) == Err::<Option<(MessageView, int)>, Error>(
            Error::TruncatedFrame,
        ),
{
    lemma_auto_spec_u32_to_from_le_bytes();
    let f = frame_of(m);
    let b = f.subrange(0, k);
    if k >= 4 {
        assert(b.subrange(0, 4) =~= spec_u32_to_le_bytes(m.kind.spec_code()));
        assert(MessageType::spec_from_code(m.kind.spec_code()) == Some(m.kind));
    }
    if k >= 8 {
        assert(b.subrange(4, 8) =~= spec_u32_to_le_bytes(payload_bytes(m).len() as u32));
    }
}

/// A frame that decodes to a message whole is that message's frame.
pub proof fn lemma_decoded_is_frame(b: Seq<u8>, v: MessageView)
    requires
        decode_spec(b) == Ok::<Option<(MessageView, int)>, Error>(Some((v, b.len() as int))),
    ensures
        b == frame_of(v),
        valid_message(v),
{
    lemma_auto_spec_u32_to_from_le_bytes();
    let p = b.subrange(8, b.len() as int);
    assert(payload_bytes(v) == p);
    assert(v.kind.spec_code() == declared_code(b));
    assert(b.subrange(0, 4) =~= spec_u32_to_le_bytes(v.kind.spec_code()));
    assert(b.subrange(4, 8) =~= spec_u32_to_le_bytes(p.len() as u32));
    assert(b =~= b.subrange(0, 4) + b.subrange(4, 8) + p);
}

/// Reading from a stream that carries the frame of a valid message, possibly
/// followed by more bytes: whatever prefix of it the channel handed out, a
/// decoded message is that message, and it took exactly its frame.
pub proof fn lemma_stream_round_trip(m: MessageView, rest: Seq<u8>, b: Seq<u8>, v: MessageView)
    requires
        valid_message(m),
        b.len() <= (frame_of(m) + rest).len(),
        b == (frame_of(m) + rest).subrange(0, b.len() as int),
        decode_spec(b) == Ok::<Option<(MessageView, int)>, Error>(Some((v, b.len() as int))),
    ensures
        v == m,
        b == frame_of(m),
{
    lemma_auto_spec_u32_to_from_le_bytes();
    let f = frame_of(m);
    let p = payload_bytes(m);
    assert(b.subrange(0, 4) =~= f.subrange(0, 4));
    assert(b.subrange(4, 8) =~= f.subrange(4, 8));
    assert(f.subrange(0, 4) =~= spec_u32_to_le_bytes(m.kind.spec_code()));
    assert(f.subrange(4, 8) =~= spec_u32_to_le_bytes(p.len() as u32));
    assert(declared_len(b) == p.len());
    assert(b =~= f);
    lemma_round_trip(m, Seq::empty());
    assert(f + Seq::<u8>::empty() =~= f);
}

/// Reading from a stream that carries only part of a frame never gives a
/// message: nothing when no byte was taken, `TruncatedFrame` otherwise.
pub proof fn lemma_stream_partial(m: MessageView, b: Seq<u8>)
    requires
        fits_frame(m),
        b.len() < frame_of(m).len(),
        b == frame_of(m).subrange(0, b.len() as int),
    ensures
        b.len() == 0 ==> decode_spec(b) == Ok::<Option<(MessageView, int)>, Error>(None),
        b.len() > 0 ==> decode_spec(b) == Err::<Option<(MessageView, int)>, Error>(
            Error::TruncatedFrame,
        ),
{
    if b.len() > 0 {
        lemma_prefix_truncated(m, b.len() as int);
    }
}

} // verus!
