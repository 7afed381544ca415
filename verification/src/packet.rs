//! One protocol message and its fixed byte layout.
//!
//! A frame on the wire is a four-byte little-endian id, a four-byte
//! little-endian type code, the UTF-8 text of the body and two terminator
//! bytes. The length prefix that precedes it belongs to the codec.

use crate::buffer::{
    bytes_mut_view, bytes_view, get_i32_le, i32_of_le, le_i32, lemma_le_i32_round_trip, put_i32_le,
    put_slice, read_text, remaining,
};
use bytes::{Bytes, BytesMut};
use vstd::prelude::*;
use vstd::std_specs::convert::FromSpecImpl;
use vstd::utf8::*;

verus! {

/// Smallest payload: id, type code and terminator around an empty body.
pub const MIN_PAYLOAD: usize = 10;

/// Largest payload the protocol allows.
pub const MAX_PAYLOAD: usize = 4096;

/// Longest body, in UTF-8 bytes, that fits in a payload.
pub const MAX_BODY: usize = 4086;

/// The four kinds of message.
#[derive(PartialEq, Eq, Debug, Clone, Copy, Structural)]
pub enum PacketType {
    Auth,
    AuthResponse,
    ExecCommand,
    ResponseValue,
}

/// The side of the conversation a decoder sits on. It settles what type
/// code 2 means: a reply to the client, a request to the server.
#[derive(PartialEq, Eq, Debug, Clone, Copy, Structural)]
pub enum CodecType {
    Client,
    Server,
}

/// The numeric code a message kind is sent as. Two kinds share code 2.
pub open spec fn code_of(t: PacketType) -> i32 {
    match t {
        PacketType::ResponseValue => 0,
        PacketType::AuthResponse => 2,
        PacketType::ExecCommand => 2,
        PacketType::Auth => 3,
    }
}

/// The message kind a received code stands for on the given side, if any.
pub open spec fn type_of_code(code: int, role: CodecType) -> Option<PacketType> {
    if code == 0 {
        Some(PacketType::ResponseValue)
    } else if code == 2 {
        match role {
            CodecType::Client => Some(PacketType::AuthResponse),
            CodecType::Server => Some(PacketType::ExecCommand),
        }
    } else if code == 3 {
        Some(PacketType::Auth)
    } else {
        None
    }
}

/// Whether a decoder on side `role` reads the code of `t` back as `t`.
pub open spec fn unambiguous_for(t: PacketType, role: CodecType) -> bool {
    match t {
        PacketType::AuthResponse => role == CodecType::Client,
        PacketType::ExecCommand => role == CodecType::Server,
        _ => true,
    }
}

impl PacketType {
    /// Reads a type code as received on side `codec`.
    pub fn from_i32(i: i32, codec: CodecType) -> (r: Option<PacketType>)
        ensures
            r == type_of_code(i as int, codec),
    {
        if i == 0 {
            Some(PacketType::ResponseValue)
        } else if i == 2 {
            match codec {
                CodecType::Client => Some(PacketType::AuthResponse),
                CodecType::Server => Some(PacketType::ExecCommand),
            }
        } else if i == 3 {
            Some(PacketType::Auth)
        } else {
            None
        }
    }

    /// The type code this kind is sent as.
    pub fn bytes(&self) -> (r: i32)
        ensures
            r == code_of(*self),
    {
        match self {
            PacketType::ResponseValue => 0,
            PacketType::AuthResponse => 2,
            PacketType::ExecCommand => 2,
            PacketType::Auth => 3,
        }
    }
}

/// Why a payload is not a frame, as contracts speak of it.
pub enum Fault {
    /// The payload is shorter than 10 or longer than 4096 bytes.
    InvalidLength,
    /// The type code is none of 0, 2 and 3.
    UndefinedType,
    /// The body is not UTF-8.
    InvalidText,
}

/// Why decoding failed.
#[derive(Debug)]
pub enum PacketError {
    InvalidLength,
    UndefinedType,
    Io(std::io::Error),
}

impl From<std::io::Error> for PacketError {
    fn from(err: std::io::Error) -> (e: PacketError) {
        PacketError::Io(err)
    }
}

impl FromSpecImpl<std::io::Error> for PacketError {
    open spec fn obeys_from_spec() -> bool {
        true
    }

    open spec fn from_spec(err: std::io::Error) -> PacketError {
        PacketError::Io(err)
    }
}

impl PacketError {
    /// The fault this error reports. A body that is not UTF-8 surfaces as
    /// the I/O error of the failed read.
    pub open spec fn fault(&self) -> Fault {
        match self {
            PacketError::InvalidLength => Fault::InvalidLength,
            PacketError::UndefinedType => Fault::UndefinedType,
            PacketError::Io(_) => Fault::InvalidText,
        }
    }

    /// A short description of the error.
    pub fn message(&self) -> (s: &'static str)
        ensures
            s@ == match self {
                PacketError::InvalidLength => "Invalid Packet Length"@,
                PacketError::UndefinedType => "Undefined Packet Type "@,
                PacketError::Io(_) => "Io Error"@,
            },
    {
        match self {
            PacketError::InvalidLength => "Invalid Packet Length",
            PacketError::UndefinedType => "Undefined Packet Type ",
            PacketError::Io(_) => "Io Error",
        }
    }
}

/// One protocol message.
#[derive(Debug, PartialEq, Eq, Clone)]
pub struct Packet {
    pub ptype: PacketType,
    pub id: i32,
    pub body: String,
}

/// A message as contracts speak of it: the body as a sequence of characters.
pub struct PacketView {
    pub ptype: PacketType,
    pub id: i32,
    pub body: Seq<char>,
}

impl View for Packet {
    type V = PacketView;

    open spec fn view(&self) -> PacketView {
        PacketView { ptype: self.ptype, id: self.id, body: self.body@ }
    }
}

/// The payload of a message: id, type code, body text, two zero bytes.
pub open spec fn payload_bytes(p: PacketView) -> Seq<u8> {
    le_i32(p.id) + le_i32(code_of(p.ptype)) + encode_utf8(p.body) + seq![0u8, 0u8]
}

/// Whether the body is short enough for the payload to stay within the
/// protocol's ceiling.
pub open spec fn fits(p: PacketView) -> bool {
    encode_utf8(p.body).len() <= MAX_BODY
}

/// What a payload decodes to on side `role`. The length is checked first,
/// then the type code, then the text; the two terminator bytes are counted
/// and never looked at.
pub open spec fn parse(payload: Seq<u8>, role: CodecType) -> Result<PacketView, Fault> {
    if payload.len() < MIN_PAYLOAD || payload.len() > MAX_PAYLOAD {
        Err(Fault::InvalidLength)
    } else {
        let text = payload.skip(8).take(payload.len() - 10);
        match type_of_code(i32_of_le(payload.skip(4)), role) {
            None => Err(Fault::UndefinedType),
            Some(t) => if valid_utf8(text) {
                Ok(PacketView { ptype: t, id: i32_of_le(payload) as i32, body: decode_utf8(text) })
            } else {
                Err(Fault::InvalidText)
            },
        }
    }
}

impl Packet {
    /// Decodes a payload, without its length prefix, as received on side
    /// `codec`.
    pub fn from_bytes(b: Bytes, codec: CodecType) -> (r: Result<Packet, PacketError>)
        ensures
            match r {
                Ok(p) => parse(bytes_view(b), codec) == Ok::<PacketView, Fault>(p@),
                Err(e) => parse(bytes_view(b), codec) == Err::<PacketView, Fault>(e.fault()),
            },
    {
        let ghost payload = bytes_view(b);
        let mut rest = b;
        let n: usize = remaining(&rest);
        if n < MIN_PAYLOAD || n > MAX_PAYLOAD {
            return Err(PacketError::InvalidLength);
        }
        let msg_id: i32 = get_i32_le(&mut rest);
        let code: i32 = get_i32_le(&mut rest);
        proof {
            assert(payload.skip(4).skip(4) =~= payload.skip(8));
        }
        let ptype = match PacketType::from_i32(code, codec) {
            Some(t) => t,
            None => {
                return Err(PacketError::UndefinedType);
            },
        };
        let text_len: usize = remaining(&rest) - 2;
        match read_text(rest, text_len) {
            Ok(body) => Ok(Packet { ptype, id: msg_id, body }),
            Err(e) => Err(PacketError::Io(e)),
        }
    }

    /// Whether the body is short enough to be sent.
    pub fn is_sendable(&self) -> (ok: bool)
        ensures
            ok == fits(self@),
    {
        self.body.as_str().as_bytes().len() <= MAX_BODY
    }

    /// The length of the payload: the body's UTF-8 bytes and ten more.
    pub fn encoded_len(&self) -> (n: usize)
        requires
            encode_utf8(self.body@).len() + 10 <= usize::MAX,
        ensures
            n == encode_utf8(self.body@).len() + 10,
            n == payload_bytes(self@).len(),
    {
        self.body.as_str().len() + 10
    }

    /// Appends the payload to `buf` and returns its length. The buffer
    /// must be able to grow by that much.
    pub fn write_bytes(self, buf: &mut BytesMut) -> (n: usize)
        requires
            bytes_mut_view(*old(buf)).len() + encode_utf8(self.body@).len() + 10 <= isize::MAX,
        ensures
            bytes_mut_view(*final(buf)) == bytes_mut_view(*old(buf)) + payload_bytes(self@),
            n == encode_utf8(self.body@).len() + 10,
    {
        let terminator: Vec<u8> = vec![0u8, 0u8];
        put_i32_le(buf, self.id);
        put_i32_le(buf, self.ptype.bytes());
        put_slice(buf, self.body.as_str().as_bytes());
        put_slice(buf, terminator.as_slice());
        proof {
            assert(terminator@ =~= seq![0u8, 0u8]);
            assert(bytes_mut_view(*buf) =~= bytes_mut_view(*old(buf)) + payload_bytes(self@));
        }
        self.body.as_str().len() + 10
    }
}

/// The payload of a message is ten bytes longer than its body's text.
pub proof fn lemma_payload_len(p: PacketView)
    ensures
        payload_bytes(p).len() == encode_utf8(p.body).len() + 10,
{
}

/// Decoding the payload of a message that fits gives the message back, on
/// any side that reads its type code as the kind that was sent.
pub proof fn lemma_round_trip(p: PacketView, role: CodecType)
    requires
        fits(p),
        unambiguous_for(p.ptype, role),
    ensures
        parse(payload_bytes(p), role) == Ok::<PacketView, Fault>(p),
{
    let payload = payload_bytes(p);
    let text = encode_utf8(p.body);
    lemma_le_i32_round_trip(p.id);
    lemma_le_i32_round_trip(code_of(p.ptype));
    encode_utf8_valid_utf8(p.body);
    encode_utf8_decode_utf8(p.body);
    assert(payload.skip(8).take(payload.len() - 10) =~= text);
    assert(i32_of_le(payload) == i32_of_le(le_i32(p.id)));
    assert(i32_of_le(payload.skip(4)) == i32_of_le(le_i32(code_of(p.ptype))));
}

/// The same payload with type code 2 is an `AuthResponse` to a client and
/// an `ExecCommand` to a server, with the same id and body on both sides,
/// and is refused by both or by neither.
pub proof fn lemma_type_code_by_role(payload: Seq<u8>)
    requires
        i32_of_le(payload.skip(4)) == 2,
    ensures
        match parse(payload, CodecType::Server) {
            Ok(p) => p.ptype == PacketType::ExecCommand && parse(payload, CodecType::Client) == Ok::<
                PacketView,
                Fault,
            >(PacketView { ptype: PacketType::AuthResponse, id: p.id, body: p.body }),
            Err(f) => parse(payload, CodecType::Client) == Err::<PacketView, Fault>(f),
        },
{
}

} // verus!
