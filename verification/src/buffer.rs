//! Byte buffers of the `bytes` crate as the codec sees them.
//!
//! The buffers themselves are opaque to the verifier. What they hold is named
//! by [`bytes_view`] and [`bytes_mut_view`], and every operation the codec
//! performs on them goes through one of the small functions below, whose
//! contracts are taken on trust from the upstream implementation.

use bytes::{Buf, BufMut, Bytes, BytesMut};
use std::io::Read;
use vstd::prelude::*;
use vstd::utf8::*;

verus! {

/// `bytes::Bytes`, an immutable byte buffer, known by name only.
#[verifier::external_type_specification]
#[verifier::external_body]
pub struct ExBytes(bytes::Bytes);

/// `bytes::BytesMut`, a growable byte buffer, known by name only.
#[verifier::external_type_specification]
#[verifier::external_body]
pub struct ExBytesMut(bytes::BytesMut);

/// `std::io::Error`, carried through and never looked into.
#[verifier::external_type_specification]
#[verifier::external_body]
pub struct ExIoError(std::io::Error);

/// The bytes that remain to be read from an immutable buffer, front first.
pub uninterp spec fn bytes_view(b: Bytes) -> Seq<u8>;

/// The bytes held by a growable buffer, front first.
pub uninterp spec fn bytes_mut_view(b: BytesMut) -> Seq<u8>;

/// The unsigned 32-bit value whose two's complement bit pattern is that of `x`.
pub open spec fn unsigned_of(x: i32) -> int {
    if x >= 0 {
        x as int
    } else {
        x + 0x1_0000_0000
    }
}

/// The four bytes of `x` in little-endian order.
pub open spec fn le_i32(x: i32) -> Seq<u8> {
    let u = unsigned_of(x);
    seq![
        (u % 256) as u8,
        ((u / 256) % 256) as u8,
        ((u / 65536) % 256) as u8,
        ((u / 16777216) % 256) as u8,
    ]
}

/// The unsigned integer whose little-endian encoding is the first four bytes of `b`.
pub open spec fn u32_of_le(b: Seq<u8>) -> int
    recommends
        b.len() >= 4,
{
    b[0] + 256 * b[1] + 65536 * b[2] + 16777216 * b[3]
}

/// The signed integer whose little-endian encoding is the first four bytes of `b`.
pub open spec fn i32_of_le(b: Seq<u8>) -> int
    recommends
        b.len() >= 4,
{
    let u = u32_of_le(b);
    if u < 0x8000_0000 {
        u
    } else {
        u - 0x1_0000_0000
    }
}

/// Decoding the little-endian bytes of a signed integer gives it back.
pub proof fn lemma_le_i32_round_trip(x: i32)
    ensures
        le_i32(x).len() == 4,
        i32_of_le(le_i32(x)) == x,
{
    let u = unsigned_of(x);
    assert(0 <= u < 0x1_0000_0000);
    assert(u == (u % 256) + 256 * ((u / 256) % 256) + 65536 * ((u / 65536) % 256) + 16777216 * ((u
        / 16777216) % 256));
}

/// `BytesMut::len`: the number of bytes held.
#[verifier::external_body]
pub(crate) fn buffered(buf: &BytesMut) -> (n: usize)
    ensures
        n == bytes_mut_view(*buf).len(),
{
    buf.len()
}

/// `Buf::get_u32_le` on a `BytesMut`: removes the first four bytes and
/// returns them read as an unsigned little-endian integer. Upstream panics
/// when fewer than four bytes are held, hence the precondition.
#[verifier::external_body]
pub(crate) fn take_u32_le(buf: &mut BytesMut) -> (v: u32)
    requires
        bytes_mut_view(*old(buf)).len() >= 4,
    ensures
        v == u32_of_le(bytes_mut_view(*old(buf))),
        bytes_mut_view(*final(buf)) == bytes_mut_view(*old(buf)).subrange(
            4,
            bytes_mut_view(*old(buf)).len() as int,
        ),
{
    buf.get_u32_le()
}

/// `BytesMut::split_to`: removes the first `at` bytes and returns them as a
/// buffer of their own. Upstream panics when `at` exceeds the length.
#[verifier::external_body]
pub(crate) fn split_front(buf: &mut BytesMut, at: usize) -> (front: BytesMut)
    requires
        at <= bytes_mut_view(*old(buf)).len(),
    ensures
        bytes_mut_view(front) == bytes_mut_view(*old(buf)).subrange(0, at as int),
        bytes_mut_view(*final(buf)) == bytes_mut_view(*old(buf)).subrange(
            at as int,
            bytes_mut_view(*old(buf)).len() as int,
        ),
{
    buf.split_to(at)
}

/// `BytesMut::clear`: removes every byte.
#[verifier::external_body]
pub(crate) fn discard_all(buf: &mut BytesMut)
    ensures
        bytes_mut_view(*final(buf)) == Seq::<u8>::empty(),
{
    buf.clear()
}

/// `BytesMut::freeze`: the same bytes as an immutable buffer.
#[verifier::external_body]
pub(crate) fn freeze(buf: BytesMut) -> (frozen: Bytes)
    ensures
        bytes_view(frozen) == bytes_mut_view(buf),
{
    buf.freeze()
}

/// `BufMut::put_i32_le` on a `BytesMut`: appends the four little-endian bytes
/// of `v`. The buffer grows as needed; upstream panics only when the new
/// capacity would overflow, which the bound on the new length excludes.
#[verifier::external_body]
pub(crate) fn put_i32_le(buf: &mut BytesMut, v: i32)
    requires
        bytes_mut_view(*old(buf)).len() + 4 <= isize::MAX,
    ensures
        bytes_mut_view(*final(buf)) == bytes_mut_view(*old(buf)) + le_i32(v),
{
    buf.put_i32_le(v)
}

/// `BufMut::put_slice` on a `BytesMut`: appends `src`. The buffer grows as
/// needed; upstream panics only when the new capacity would overflow, which
/// the bound on the new length excludes.
#[verifier::external_body]
pub(crate) fn put_slice(buf: &mut BytesMut, src: &[u8])
    requires
        bytes_mut_view(*old(buf)).len() + src@.len() <= isize::MAX,
    ensures
        bytes_mut_view(*final(buf)) == bytes_mut_view(*old(buf)) + src@,
{
    buf.put_slice(src)
}

/// `Buf::remaining` on a `Bytes`: the number of bytes left to read.
#[verifier::external_body]
pub(crate) fn remaining(b: &Bytes) -> (n: usize)
    ensures
        n == bytes_view(*b).len(),
{
    b.remaining()
}

/// `Buf::get_i32_le` on a `Bytes`: removes the first four bytes and returns
/// them read as a signed little-endian integer. Upstream panics when fewer
/// than four bytes remain, hence the precondition.
#[verifier::external_body]
pub(crate) fn get_i32_le(b: &mut Bytes) -> (v: i32)
    requires
        bytes_view(*old(b)).len() >= 4,
    ensures
        v == i32_of_le(bytes_view(*old(b))),
        bytes_view(*final(b)) == bytes_view(*old(b)).subrange(4, bytes_view(*old(b)).len() as int),
{
    b.get_i32_le()
}

/// `Buf::take`, `Buf::reader` and `Read::read_to_string` in a row: reads the
/// first `n` bytes as text. The reader over a buffer never fails, so the only
/// error is the one `read_to_string` reports for bytes that are not UTF-8.
#[verifier::external_body]
pub(crate) fn read_text(b: Bytes, n: usize) -> (r: Result<String, std::io::Error>)
    requires
        n <= bytes_view(b).len(),
    ensures
        match r {
            Ok(s) => valid_utf8(bytes_view(b).take(n as int)) && s@ == decode_utf8(
                bytes_view(b).take(n as int),
            ),
            Err(_) => !valid_utf8(bytes_view(b).take(n as int)),
        },
{
    let mut text = String::new();
    b.take(n).reader().read_to_string(&mut text)?;
    Ok(text)
}

} // verus!
