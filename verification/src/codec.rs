//! The incremental codec: frames out of a byte stream that arrives in
//! pieces, and frames into bytes.
//!
//! Decoding is a state machine over the bytes buffered so far. One call of
//! [`PacketCodec::decode`] is one attempt, described by [`step`]: it either
//! waits for more bytes, skips part of a frame that is too large, or takes
//! one whole frame off the front of the buffer.

use crate::buffer::{
    buffered, bytes_mut_view, discard_all, freeze, le_i32, lemma_le_i32_round_trip, put_i32_le,
    split_front, take_u32_le, u32_of_le,
};
use crate::packet::{
    fits, parse, payload_bytes, CodecType, Fault, Packet, PacketError, PacketView, MAX_PAYLOAD,
};
use bytes::BytesMut;
use vstd::prelude::*;
use vstd::utf8::*;

verus! {

/// Where the decoder stands in the stream.
#[derive(PartialEq, Eq, Debug, Clone, Copy, Structural)]
pub enum DecodeState {
    /// At a frame boundary: a length prefix comes next.
    Head,
    /// The prefix has been taken; this many payload bytes are awaited.
    AwaitingBody(usize),
    /// Inside a frame that is too large; this many bytes are still to be dropped.
    DiscardingOverflow(usize),
}

/// A codec as contracts speak of it.
pub struct CodecView {
    pub state: DecodeState,
    pub role: CodecType,
    pub max_length: usize,
}

/// What one decode attempt hands out.
pub enum Emit {
    /// Nothing: more bytes are needed, or bytes were dropped.
    Nothing,
    /// One frame.
    Frame(PacketView),
    /// A frame within the size limit that is malformed.
    Reject(Fault),
}

/// The outcome of one decode attempt.
pub struct Step {
    pub state: DecodeState,
    pub rest: Seq<u8>,
    pub emit: Emit,
}

/// What decoding a payload hands out.
pub open spec fn emit_of(parsed: Result<PacketView, Fault>) -> Emit {
    match parsed {
        Ok(p) => Emit::Frame(p),
        Err(f) => Emit::Reject(f),
    }
}

/// With the prefix `len` already taken: wait until `len` payload bytes are
/// buffered, then take exactly those and decode them.
pub open spec fn take_payload(len: nat, role: CodecType, buf: Seq<u8>) -> Step {
    if buf.len() < len {
        Step { state: DecodeState::AwaitingBody(len as usize), rest: buf, emit: Emit::Nothing }
    } else {
        Step {
            state: DecodeState::Head,
            rest: buf.skip(len as int),
            emit: emit_of(parse(buf.take(len as int), role)),
        }
    }
}

/// Drop up to `remaining` bytes; once all are dropped the stream is back at
/// a frame boundary.
pub open spec fn skip_overflow(remaining: nat, buf: Seq<u8>) -> Step {
    if buf.len() >= remaining {
        Step { state: DecodeState::Head, rest: buf.skip(remaining as int), emit: Emit::Nothing }
    } else {
        Step {
            state: DecodeState::DiscardingOverflow((remaining - buf.len()) as usize),
            rest: Seq::empty(),
            emit: Emit::Nothing,
        }
    }
}

/// One decode attempt on the bytes buffered so far.
///
/// At a frame boundary nothing happens until more than four bytes are
/// there. Then the prefix is taken and read as an unsigned little-endian
/// length. A length above the limit has that many bytes dropped, now or
/// over the following attempts; a length within it has that many bytes
/// awaited and then decoded.
pub open spec fn step(codec: CodecView, buf: Seq<u8>) -> Step {
    match codec.state {
        DecodeState::Head => {
            if buf.len() <= 4 {
                Step { state: DecodeState::Head, rest: buf, emit: Emit::Nothing }
            } else {
                let declared = u32_of_le(buf) as nat;
                if declared > codec.max_length {
                    skip_overflow(declared, buf.skip(4))
                } else {
                    take_payload(declared, codec.role, buf.skip(4))
                }
            }
        },
        DecodeState::AwaitingBody(len) => take_payload(len as nat, codec.role, buf),
        DecodeState::DiscardingOverflow(remaining) => skip_overflow(remaining as nat, buf),
    }
}

/// What the codec puts on the wire for a message: the payload's length as
/// a four-byte little-endian prefix, then the payload.
pub open spec fn wire_bytes(p: PacketView) -> Seq<u8> {
    le_i32(payload_bytes(p).len() as i32) + payload_bytes(p)
}

/// The prefix the codec writes for a message that fits is the length of
/// the payload, which is the body's text and ten bytes more; the whole
/// wire form is four bytes longer than that.
pub proof fn lemma_prefix_is_payload_len(p: PacketView)
    requires
        fits(p),
    ensures
        wire_bytes(p).len() == encode_utf8(p.body).len() + 14,
        u32_of_le(wire_bytes(p)) == encode_utf8(p.body).len() + 10,
        wire_bytes(p).skip(4) == payload_bytes(p),
{
    let len = payload_bytes(p).len();
    assert(len == encode_utf8(p.body).len() + 10);
    lemma_le_i32_round_trip(len as i32);
    assert(u32_of_le(wire_bytes(p)) == u32_of_le(le_i32(len as i32)));
    assert(wire_bytes(p).skip(4) =~= payload_bytes(p));
}

/// Frames a byte stream in one direction.
pub struct PacketCodec {
    state: DecodeState,
    ctype: CodecType,
    max_length: usize,
}

impl View for PacketCodec {
    type V = CodecView;

    closed spec fn view(&self) -> CodecView {
        CodecView { state: self.state, role: self.ctype, max_length: self.max_length }
    }
}

impl PacketCodec {
    /// A codec at a frame boundary. The protocol sets the largest payload at
    /// 4096 bytes; a higher limit may not be understood by every peer.
    pub fn new(codec_type: CodecType, max_length: usize) -> (codec: PacketCodec)
        ensures
            codec@ == (CodecView { state: DecodeState::Head, role: codec_type, max_length }),
    {
        PacketCodec { state: DecodeState::Head, ctype: codec_type, max_length }
    }

    /// A codec for the initiating side, with the protocol's size limit.
    pub fn new_client() -> (codec: PacketCodec)
        ensures
            codec@ == (CodecView {
                state: DecodeState::Head,
                role: CodecType::Client,
                max_length: MAX_PAYLOAD,
            }),
    {
        Self::new(CodecType::Client, MAX_PAYLOAD)
    }

    /// A codec for the accepting side, with the protocol's size limit.
    pub fn new_server() -> (codec: PacketCodec)
        ensures
            codec@ == (CodecView {
                state: DecodeState::Head,
                role: CodecType::Server,
                max_length: MAX_PAYLOAD,
            }),
    {
        Self::new(CodecType::Server, MAX_PAYLOAD)
    }

    /// Where the decoder stands.
    pub fn state(&self) -> (s: DecodeState)
        ensures
            s == self@.state,
    {
        self.state
    }

    /// The side this codec decodes for.
    pub fn role(&self) -> (r: CodecType)
        ensures
            r == self@.role,
    {
        self.ctype
    }

    /// The largest payload this codec decodes.
    pub fn max_length(&self) -> (n: usize)
        ensures
            n == self@.max_length,
    {
        self.max_length
    }

    /// Appends the message to `dst` as it goes on the wire: the length of
    /// the payload as a prefix, then the payload. A message whose body is
    /// too long for the protocol is refused, and so is one that `dst` has no
    /// room for; `dst` is then left as it was. The codec's decoding state
    /// plays no part and is not changed.
    pub fn encode(&mut self, item: Packet, dst: &mut BytesMut) -> (r: Result<(), PacketError>)
        ensures
            final(self)@ == old(self)@,
            r is Ok <==> fits(item@) && bytes_mut_view(*old(dst)).len() + wire_bytes(item@).len()
                <= isize::MAX,
            r is Ok ==> bytes_mut_view(*final(dst)) == bytes_mut_view(*old(dst)) + wire_bytes(item@),
            r is Err ==> bytes_mut_view(*final(dst)) == bytes_mut_view(*old(dst)),
            r is Err ==> r->Err_0 == PacketError::InvalidLength,
    {
        if !item.is_sendable() {
            return Err(PacketError::InvalidLength);
        }
        let len: usize = item.encoded_len();
        if buffered(dst) > isize::MAX as usize - 4 - len {
            return Err(PacketError::InvalidLength);
        }
        put_i32_le(dst, len as i32);
        item.write_bytes(dst);
        proof {
            assert(bytes_mut_view(*dst) =~= bytes_mut_view(*old(dst)) + wire_bytes(item@));
        }
        Ok(())
    }

    /// One decode attempt on the bytes received so far.
    ///
    /// Takes what [`step`] says off the front of `src` and hands out the
    /// frame it found, if any. A malformed frame within the size limit is an
    /// error; its bytes are gone and the decoder is at the next boundary.
    pub fn decode(&mut self, src: &mut BytesMut) -> (r: Result<Option<Packet>, PacketError>)
        ensures
            final(self)@.role == old(self)@.role,
            final(self)@.max_length == old(self)@.max_length,
            final(self)@.state == step(old(self)@, bytes_mut_view(*old(src))).state,
            bytes_mut_view(*final(src)) == step(old(self)@, bytes_mut_view(*old(src))).rest,
            match r {
                Ok(None) => step(old(self)@, bytes_mut_view(*old(src))).emit == Emit::Nothing,
                Ok(Some(p)) => step(old(self)@, bytes_mut_view(*old(src))).emit == Emit::Frame(p@),
                Err(e) => step(old(self)@, bytes_mut_view(*old(src))).emit == Emit::Reject(
                    e.fault(),
                ),
            },
    {
        let len: usize = match self.state {
            DecodeState::Head => {
                if buffered(src) <= 4 {
                    return Ok(None);
                }
                let declared: usize = take_u32_le(src) as usize;
                let have: usize = buffered(src);
                if declared > self.max_length {
                    if have >= declared {
                        let _ = split_front(src, declared);
                    } else {
                        discard_all(src);
                        self.state = DecodeState::DiscardingOverflow(declared - have);
                    }
                    return Ok(None);
                }
                if have < declared {
                    self.state = DecodeState::AwaitingBody(declared);
                    return Ok(None);
                }
                declared
            },
            DecodeState::AwaitingBody(len) => {
                if buffered(src) < len {
                    return Ok(None);
                }
                len
            },
            DecodeState::DiscardingOverflow(remaining) => {
                let have: usize = buffered(src);
                if have >= remaining {
                    let _ = split_front(src, remaining);
                    self.state = DecodeState::Head;
                } else {
                    discard_all(src);
                    self.state = DecodeState::DiscardingOverflow(remaining - have);
                }
                return Ok(None);
            },
        };
        let data = freeze(split_front(src, len));
        self.state = DecodeState::Head;
        match Packet::from_bytes(data, self.ctype) {
            Ok(p) => Ok(Some(p)),
            Err(e) => Err(e),
        }
    }
}

} // verus!
