//! What the decoder does with a stream that arrives in pieces.
//!
//! A stream is modelled as a sequence of chunks. Each arrival appends one
//! chunk to the buffered bytes and is followed by one decode attempt. The
//! laws below say that the frames handed out depend on the bytes alone, not
//! on where the stream was cut.

use crate::buffer::{le_i32, lemma_le_i32_round_trip, u32_of_le};
use crate::codec::{
    emit_of, skip_overflow, step, take_payload, wire_bytes, CodecView, DecodeState, Emit, Step,
};
use crate::packet::{fits, lemma_round_trip, parse, payload_bytes, unambiguous_for, PacketView};
use vstd::prelude::*;

verus! {

/// The chunks laid end to end.
pub open spec fn joined(chunks: Seq<Seq<u8>>) -> Seq<u8>
    decreases chunks.len(),
{
    if chunks.len() == 0 {
        Seq::empty()
    } else {
        joined(chunks.drop_last()) + chunks.last()
    }
}

/// Where a decoder stands after a run of arrivals, and what it handed out.
pub struct Trace {
    pub state: DecodeState,
    pub rest: Seq<u8>,
    /// Every frame and every rejection, in order. Attempts that hand out
    /// nothing leave no entry.
    pub emitted: Seq<Emit>,
}

/// The trace after one more attempt, on what was buffered and `chunk`.
pub open spec fn arrival(codec: CodecView, before: Trace, chunk: Seq<u8>) -> Trace {
    let s = step(
        CodecView { state: before.state, role: codec.role, max_length: codec.max_length },
        before.rest + chunk,
    );
    Trace {
        state: s.state,
        rest: s.rest,
        emitted: if s.emit is Nothing {
            before.emitted
        } else {
            before.emitted.push(s.emit)
        },
    }
}

/// Feeds the chunks one by one to a decoder that has `pending` buffered:
/// each chunk is appended to what is buffered and one attempt is made.
pub open spec fn feed(codec: CodecView, pending: Seq<u8>, chunks: Seq<Seq<u8>>) -> Trace
    decreases chunks.len(),
{
    if chunks.len() == 0 {
        Trace { state: codec.state, rest: pending, emitted: Seq::empty() }
    } else {
        arrival(codec, feed(codec, pending, chunks.drop_last()), chunks.last())
    }
}

/// The first `k` chunks laid end to end are the front of all of them.
pub proof fn lemma_joined_prefix(chunks: Seq<Seq<u8>>, k: int)
    requires
        0 <= k <= chunks.len(),
    ensures
        joined(chunks.take(k)).len() <= joined(chunks).len(),
        joined(chunks.take(k)) == joined(chunks).take(joined(chunks.take(k)).len() as int),
    decreases chunks.len() - k,
{
    if k == chunks.len() {
        assert(chunks.take(k) =~= chunks);
        assert(joined(chunks).take(joined(chunks).len() as int) =~= joined(chunks));
    } else {
        lemma_joined_prefix(chunks, k + 1);
        let longer = chunks.take(k + 1);
        assert(longer.drop_last() =~= chunks.take(k));
        assert(longer.last() == chunks[k]);
        let a = joined(chunks.take(k));
        assert(joined(longer) == a + chunks[k]);
        assert(a =~= joined(longer).take(a.len() as int));
        assert(a =~= joined(chunks).take(a.len() as int));
    }
}

/// `wire` is one whole frame for `codec`: a prefix that declares the length
/// of what follows it, which is within the codec's limit, and a payload
/// that decodes to `e`.
pub open spec fn framed(wire: Seq<u8>, codec: CodecView, e: Emit) -> bool {
    &&& wire.len() >= 5
    &&& u32_of_le(wire) == wire.len() - 4
    &&& wire.len() - 4 <= codec.max_length
    &&& emit_of(parse(wire.skip(4), codec.role)) == e
}

/// Where the decoder stands once the first `n` bytes of the frame `wire`
/// have arrived at a decoder that started empty at a frame boundary.
pub open spec fn mid_frame(wire: Seq<u8>, e: Emit, n: int, t: Trace) -> bool {
    if n <= 4 {
        t.state == DecodeState::Head && t.rest == wire.take(n) && t.emitted.len() == 0
    } else if n < wire.len() {
        t.state == DecodeState::AwaitingBody((wire.len() - 4) as usize) && t.rest == wire.subrange(
            4,
            n,
        ) && t.emitted.len() == 0
    } else {
        t.state == DecodeState::Head && t.rest == Seq::<u8>::empty() && t.emitted == seq![e]
    }
}

/// The wire form of a message that fits is one whole frame for every codec
/// whose limit admits it and whose side reads its type code as sent.
pub proof fn lemma_wire_is_framed(codec: CodecView, p: PacketView)
    requires
        fits(p),
        unambiguous_for(p.ptype, codec.role),
        payload_bytes(p).len() <= codec.max_length,
    ensures
        framed(wire_bytes(p), codec, Emit::Frame(p)),
        wire_bytes(p).len() == payload_bytes(p).len() + 4,
{
    let wire = wire_bytes(p);
    let payload = payload_bytes(p);
    let len = payload.len();
    assert(10 <= len <= 4096);
    lemma_le_i32_round_trip(len as i32);
    lemma_round_trip(p, codec.role);
    assert(wire.skip(4) =~= payload);
    assert(u32_of_le(wire) == u32_of_le(le_i32(len as i32)));
}

/// One more arrival within a frame: if the decoder stands where `m` bytes
/// put it, it stands where `n` bytes put it after the bytes between have
/// arrived and one attempt was made.
proof fn lemma_arrival_within_frame(
    codec: CodecView,
    wire: Seq<u8>,
    e: Emit,
    m: int,
    n: int,
    before: Trace,
)
    requires
        framed(wire, codec, e),
        0 <= m <= n <= wire.len(),
        mid_frame(wire, e, m, before),
    ensures
        mid_frame(wire, e, n, arrival(codec, before, wire.subrange(m, n))),
{
    let len = (wire.len() - 4) as nat;
    let buf = before.rest + wire.subrange(m, n);
    let view = CodecView { state: before.state, role: codec.role, max_length: codec.max_length };
    let s = step(view, buf);
    if m <= 4 {
        assert(buf =~= wire.take(n));
        if n > 4 {
            assert(u32_of_le(buf) == u32_of_le(wire));
            assert(buf.skip(4) =~= wire.subrange(4, n));
            assert(s == take_payload(len, codec.role, buf.skip(4)));
            if n == wire.len() {
                assert(buf.skip(4).take(len as int) =~= wire.skip(4));
                assert(buf.skip(4).skip(len as int) =~= Seq::<u8>::empty());
                assert(s.emit == e);
                assert(before.emitted.push(e) =~= seq![e]);
            }
        }
    } else if m < wire.len() {
        assert(buf =~= wire.subrange(4, n));
        assert(s == take_payload(len, codec.role, buf));
        if n == wire.len() {
            assert(buf.take(len as int) =~= wire.skip(4));
            assert(buf.skip(len as int) =~= Seq::<u8>::empty());
            assert(s.emit == e);
            assert(before.emitted.push(e) =~= seq![e]);
        }
    } else {
        assert(buf =~= Seq::<u8>::empty());
    }
}

/// However many of the bytes of one frame have arrived, in whatever pieces,
/// the decoder has handed out nothing before the last byte and exactly the
/// frame's outcome from then on.
pub proof fn lemma_feed_within_frame(
    codec: CodecView,
    wire: Seq<u8>,
    e: Emit,
    chunks: Seq<Seq<u8>>,
)
    requires
        codec.state == DecodeState::Head,
        framed(wire, codec, e),
        joined(chunks).len() <= wire.len(),
        joined(chunks) == wire.take(joined(chunks).len() as int),
    ensures
        mid_frame(wire, e, joined(chunks).len() as int, feed(codec, Seq::empty(), chunks)),
    decreases chunks.len(),
{
    if chunks.len() == 0 {
        assert(wire.take(0) =~= Seq::<u8>::empty());
    } else {
        let earlier = chunks.drop_last();
        let a = joined(earlier);
        let j = joined(chunks);
        let m = a.len() as int;
        let n = j.len() as int;
        assert(j == a + chunks.last());
        assert(a =~= j.take(m));
        assert(a =~= wire.take(m));
        assert(chunks.last() =~= j.subrange(m, n));
        assert(j.subrange(m, n) =~= wire.subrange(m, n));
        lemma_feed_within_frame(codec, wire, e, earlier);
        lemma_arrival_within_frame(codec, wire, e, m, n, feed(codec, Seq::empty(), earlier));
    }
}

/// A frame cut at any byte boundaries, down to one byte at a time, comes
/// out exactly once, and not before its last byte has arrived: after the
/// first `k` chunks nothing has been handed out while bytes are missing,
/// and exactly the frame once they are all there. At the end the decoder
/// is back at a frame boundary with nothing buffered.
pub proof fn lemma_fragmented_frame(
    codec: CodecView,
    p: PacketView,
    chunks: Seq<Seq<u8>>,
    k: int,
)
    requires
        codec.state == DecodeState::Head,
        fits(p),
        unambiguous_for(p.ptype, codec.role),
        payload_bytes(p).len() <= codec.max_length,
        joined(chunks) == wire_bytes(p),
        0 <= k <= chunks.len(),
    ensures
        feed(codec, Seq::empty(), chunks) == (Trace {
            state: DecodeState::Head,
            rest: Seq::empty(),
            emitted: seq![Emit::Frame(p)],
        }),
        joined(chunks.take(k)).len() < wire_bytes(p).len() ==> feed(
            codec,
            Seq::empty(),
            chunks.take(k),
        ).emitted.len() == 0,
        joined(chunks.take(k)).len() == wire_bytes(p).len() ==> feed(
            codec,
            Seq::empty(),
            chunks.take(k),
        ).emitted == seq![Emit::Frame(p)],
{
    let wire = wire_bytes(p);
    let e = Emit::Frame(p);
    lemma_wire_is_framed(codec, p);
    lemma_joined_prefix(chunks, k);
    assert(wire.take(wire.len() as int) =~= wire);
    lemma_feed_within_frame(codec, wire, e, chunks.take(k));
    lemma_feed_within_frame(codec, wire, e, chunks);
}

/// `total` is one whole frame that is too large for `codec`: a prefix that
/// declares more than the codec's limit, and that many bytes after it.
pub open spec fn oversized(total: Seq<u8>, codec: CodecView) -> bool {
    &&& total.len() >= 4
    &&& u32_of_le(total) > codec.max_length
    &&& total.len() == 4 + u32_of_le(total)
}

/// Where the decoder stands once the first `n` bytes of the oversized frame
/// `total` have arrived at a decoder that started empty at a frame boundary:
/// it has handed out nothing, and holds no byte of the frame once the
/// prefix is complete.
pub open spec fn mid_overflow(total: Seq<u8>, n: int, t: Trace) -> bool {
    &&& t.emitted.len() == 0
    &&& if n <= 4 {
        t.state == DecodeState::Head && t.rest == total.take(n)
    } else if n < total.len() {
        t.state == DecodeState::DiscardingOverflow((total.len() - n) as usize) && t.rest == Seq::<
            u8,
        >::empty()
    } else {
        t.state == DecodeState::Head && t.rest == Seq::<u8>::empty()
    }
}

/// One more arrival within an oversized frame.
proof fn lemma_arrival_within_oversized(
    codec: CodecView,
    total: Seq<u8>,
    m: int,
    n: int,
    before: Trace,
)
    requires
        oversized(total, codec),
        0 <= m <= n <= total.len(),
        mid_overflow(total, m, before),
    ensures
        mid_overflow(total, n, arrival(codec, before, total.subrange(m, n))),
{
    let declared = (total.len() - 4) as nat;
    let buf = before.rest + total.subrange(m, n);
    let view = CodecView { state: before.state, role: codec.role, max_length: codec.max_length };
    let s = step(view, buf);
    assert(total.len() >= 5);
    assert(declared <= 0xffff_ffff);
    if m <= 4 {
        assert(buf =~= total.take(n));
        if n > 4 {
            assert(u32_of_le(buf) == u32_of_le(total));
            assert(buf.skip(4) =~= total.subrange(4, n));
            assert(s == skip_overflow(declared, buf.skip(4)));
            if n == total.len() {
                assert(buf.skip(4).skip(declared as int) =~= Seq::<u8>::empty());
            }
        }
    } else if m < total.len() {
        assert(buf =~= total.subrange(m, n));
        assert(s == skip_overflow((total.len() - m) as nat, buf));
        if n == total.len() {
            assert(buf.skip(total.len() - m) =~= Seq::<u8>::empty());
        }
    } else {
        assert(buf =~= Seq::<u8>::empty());
    }
}

/// However many of the bytes of one oversized frame have arrived, in
/// whatever pieces, the decoder has handed out nothing and kept none of
/// them beyond an incomplete prefix.
pub proof fn lemma_feed_within_oversized(codec: CodecView, total: Seq<u8>, chunks: Seq<Seq<u8>>)
    requires
        codec.state == DecodeState::Head,
        oversized(total, codec),
        joined(chunks).len() <= total.len(),
        joined(chunks) == total.take(joined(chunks).len() as int),
    ensures
        mid_overflow(total, joined(chunks).len() as int, feed(codec, Seq::empty(), chunks)),
    decreases chunks.len(),
{
    if chunks.len() == 0 {
        assert(total.take(0) =~= Seq::<u8>::empty());
    } else {
        let earlier = chunks.drop_last();
        let a = joined(earlier);
        let j = joined(chunks);
        let m = a.len() as int;
        let n = j.len() as int;
        assert(j == a + chunks.last());
        assert(a =~= j.take(m));
        assert(a =~= total.take(m));
        assert(chunks.last() =~= j.subrange(m, n));
        assert(j.subrange(m, n) =~= total.subrange(m, n));
        lemma_feed_within_oversized(codec, total, earlier);
        lemma_arrival_within_oversized(codec, total, m, n, feed(codec, Seq::empty(), earlier));
    }
}

/// A frame whose declared length exceeds the limit is dropped whole,
/// whether it arrives in one piece or in many: once its last byte has
/// arrived exactly its bytes are gone, nothing was handed out, and the
/// decoder is at the frame boundary that follows.
pub proof fn lemma_oversized_skipped(codec: CodecView, total: Seq<u8>, chunks: Seq<Seq<u8>>)
    requires
        codec.state == DecodeState::Head,
        oversized(total, codec),
        joined(chunks) == total,
    ensures
        feed(codec, Seq::empty(), chunks) == (Trace {
            state: DecodeState::Head,
            rest: Seq::empty(),
            emitted: Seq::empty(),
        }),
{
    assert(total.take(total.len() as int) =~= total);
    lemma_feed_within_oversized(codec, total, chunks);
    assert(feed(codec, Seq::empty(), chunks).emitted =~= Seq::<Emit>::empty());
}

/// An oversized frame that is buffered whole is dropped in one attempt,
/// which leaves exactly the bytes that follow it and hands out nothing.
pub proof fn lemma_oversized_single_write(codec: CodecView, total: Seq<u8>, tail: Seq<u8>)
    requires
        codec.state == DecodeState::Head,
        oversized(total, codec),
    ensures
        step(codec, total + tail) == (Step {
            state: DecodeState::Head,
            rest: tail,
            emit: Emit::Nothing,
        }),
{
    let buf = total + tail;
    let declared = (total.len() - 4) as nat;
    assert(u32_of_le(buf) == u32_of_le(total));
    assert(buf.skip(4).skip(declared as int) =~= tail);
}

/// Feeding one run of chunks and then another is feeding them all: the
/// second run starts where the first left the decoder.
pub proof fn lemma_feed_concat(
    codec: CodecView,
    pending: Seq<u8>,
    first: Seq<Seq<u8>>,
    second: Seq<Seq<u8>>,
)
    ensures
        ({
            let t = feed(codec, pending, first);
            let u = feed(
                CodecView { state: t.state, role: codec.role, max_length: codec.max_length },
                t.rest,
                second,
            );
            feed(codec, pending, first + second) == (Trace {
                state: u.state,
                rest: u.rest,
                emitted: t.emitted + u.emitted,
            })
        }),
    decreases second.len(),
{
    let t = feed(codec, pending, first);
    let middle = CodecView { state: t.state, role: codec.role, max_length: codec.max_length };
    if second.len() == 0 {
        assert(first + second =~= first);
        assert(t.emitted + Seq::<Emit>::empty() =~= t.emitted);
    } else {
        let all = first + second;
        assert(all.drop_last() =~= first + second.drop_last());
        assert(all.last() == second.last());
        lemma_feed_concat(codec, pending, first, second.drop_last());
        let u0 = feed(middle, t.rest, second.drop_last());
        let u = feed(middle, t.rest, second);
        let s = step(
            CodecView { state: u0.state, role: codec.role, max_length: codec.max_length },
            u0.rest + second.last(),
        );
        if s.emit is Nothing {
        } else {
            assert((t.emitted + u0.emitted).push(s.emit) =~= t.emitted + u0.emitted.push(s.emit));
        }
    }
}

/// After an oversized frame, however it was cut, the decoder resumes on the
/// frame that follows it, however that one is cut: the oversized frame's
/// bytes are dropped, and the next frame is the one thing handed out.
pub proof fn lemma_recovery(
    codec: CodecView,
    total: Seq<u8>,
    p: PacketView,
    dropped: Seq<Seq<u8>>,
    kept: Seq<Seq<u8>>,
)
    requires
        codec.state == DecodeState::Head,
        oversized(total, codec),
        fits(p),
        unambiguous_for(p.ptype, codec.role),
        payload_bytes(p).len() <= codec.max_length,
        joined(dropped) == total,
        joined(kept) == wire_bytes(p),
    ensures
        feed(codec, Seq::empty(), dropped + kept) == (Trace {
            state: DecodeState::Head,
            rest: Seq::empty(),
            emitted: seq![Emit::Frame(p)],
        }),
{
    lemma_oversized_skipped(codec, total, dropped);
    lemma_fragmented_frame(codec, p, kept, 0);
    lemma_feed_concat(codec, Seq::empty(), dropped, kept);
    assert(Seq::<Emit>::empty() + seq![Emit::Frame(p)] =~= seq![Emit::Frame(p)]);
}

/// An oversized frame and the frame after it, buffered together: the first
/// attempt drops the oversized frame, the second hands out the next one.
pub proof fn lemma_recovery_single_write(codec: CodecView, total: Seq<u8>, p: PacketView)
    requires
        codec.state == DecodeState::Head,
        oversized(total, codec),
        fits(p),
        unambiguous_for(p.ptype, codec.role),
        payload_bytes(p).len() <= codec.max_length,
    ensures
        step(codec, total + wire_bytes(p)) == (Step {
            state: DecodeState::Head,
            rest: wire_bytes(p),
            emit: Emit::Nothing,
        }),
        step(codec, wire_bytes(p)) == (Step {
            state: DecodeState::Head,
            rest: Seq::empty(),
            emit: Emit::Frame(p),
        }),
{
    let wire = wire_bytes(p);
    lemma_oversized_single_write(codec, total, wire);
    lemma_wire_is_framed(codec, p);
    let len = (wire.len() - 4) as nat;
    assert(wire.skip(4).take(len as int) =~= wire.skip(4));
    assert(wire.skip(4).skip(len as int) =~= Seq::<u8>::empty());
}

/// Where the decoder stands once the first `n` bytes of an oversized frame
/// `total` followed by a frame `wire` have arrived. Within the oversized
/// frame it stands as [`mid_overflow`] says. Beyond it, it stands as
/// [`mid_frame`] says of the bytes of `wire` that have arrived, or it holds
/// those bytes at a frame boundary and has not looked at them yet: that is
/// so where they arrived together with the end of the oversized frame.
pub open spec fn across(total: Seq<u8>, wire: Seq<u8>, e: Emit, n: int, t: Trace) -> bool {
    if n <= total.len() {
        mid_overflow(total, n, t)
    } else {
        ||| mid_frame(wire, e, n - total.len(), t)
        ||| (t.emitted.len() == 0 && t.state == DecodeState::Head && t.rest == wire.take(
            n - total.len(),
        ))
    }
}

/// An arrival that brings the end of an oversized frame and `k` bytes of
/// what follows it: the frame is dropped and those bytes are kept, not yet
/// looked at.
proof fn lemma_arrival_leaving_oversized(
    codec: CodecView,
    total: Seq<u8>,
    wire: Seq<u8>,
    m: int,
    k: int,
    before: Trace,
)
    requires
        oversized(total, codec),
        0 <= m < total.len(),
        0 < k <= wire.len(),
        mid_overflow(total, m, before),
    ensures
        ({
            let t = arrival(codec, before, (total + wire).subrange(m, total.len() + k));
            t.emitted.len() == 0 && t.state == DecodeState::Head && t.rest == wire.take(k)
        }),
{
    let stream = total + wire;
    let t_len = total.len() as int;
    let n = t_len + k;
    let buf = before.rest + stream.subrange(m, n);
    let view = CodecView { state: before.state, role: codec.role, max_length: codec.max_length };
    let s = step(view, buf);
    let declared = (t_len - 4) as nat;
    assert(t_len >= 5);
    assert(declared <= 0xffff_ffff);
    if m <= 4 {
        assert(buf =~= stream.take(n));
        assert(u32_of_le(buf) == u32_of_le(total));
        assert(s == skip_overflow(declared, buf.skip(4)));
        assert(buf.skip(4).skip(declared as int) =~= wire.take(k));
    } else {
        assert(buf =~= stream.subrange(m, n));
        assert(s == skip_overflow((t_len - m) as nat, buf));
        assert(buf.skip(t_len - m) =~= wire.take(k));
    }
}

/// An arrival of bytes of a frame at a decoder that holds the first `j`
/// bytes of it at a frame boundary and has not looked at them yet.
proof fn lemma_arrival_on_unread(
    codec: CodecView,
    wire: Seq<u8>,
    e: Emit,
    j: int,
    k: int,
    before: Trace,
)
    requires
        framed(wire, codec, e),
        0 <= j <= k <= wire.len(),
        before.emitted.len() == 0,
        before.state == DecodeState::Head,
        before.rest == wire.take(j),
    ensures
        mid_frame(wire, e, k, arrival(codec, before, wire.subrange(j, k))),
{
    let fresh = Trace { state: DecodeState::Head, rest: Seq::empty(), emitted: Seq::empty() };
    assert(before.emitted =~= fresh.emitted);
    assert(wire.take(0) =~= Seq::<u8>::empty());
    assert(before.rest + wire.subrange(j, k) =~= fresh.rest + wire.subrange(0, k));
    lemma_arrival_within_frame(codec, wire, e, 0, k, fresh);
}

/// One more arrival within an oversized frame and the frame after it.
proof fn lemma_arrival_across(
    codec: CodecView,
    total: Seq<u8>,
    wire: Seq<u8>,
    e: Emit,
    m: int,
    n: int,
    before: Trace,
)
    requires
        oversized(total, codec),
        framed(wire, codec, e),
        0 <= m <= n <= total.len() + wire.len(),
        across(total, wire, e, m, before),
    ensures
        across(total, wire, e, n, arrival(codec, before, (total + wire).subrange(m, n))),
{
    let stream = total + wire;
    let t_len = total.len() as int;
    let chunk = stream.subrange(m, n);
    if n <= t_len {
        assert(chunk =~= total.subrange(m, n));
        lemma_arrival_within_oversized(codec, total, m, n, before);
    } else if m < t_len {
        lemma_arrival_leaving_oversized(codec, total, wire, m, n - t_len, before);
    } else {
        let j = m - t_len;
        let k = n - t_len;
        assert(chunk =~= wire.subrange(j, k));
        if m > t_len && mid_frame(wire, e, j, before) {
            lemma_arrival_within_frame(codec, wire, e, j, k, before);
        } else {
            assert(total.take(t_len) =~= total);
            assert(wire.take(0) =~= Seq::<u8>::empty());
            lemma_arrival_on_unread(codec, wire, e, j, k, before);
        }
    }
}

/// However many bytes of an oversized frame and the frame after it have
/// arrived, in whatever pieces, the decoder stands as [`across`] says.
pub proof fn lemma_feed_across(
    codec: CodecView,
    total: Seq<u8>,
    wire: Seq<u8>,
    e: Emit,
    chunks: Seq<Seq<u8>>,
)
    requires
        codec.state == DecodeState::Head,
        oversized(total, codec),
        framed(wire, codec, e),
        joined(chunks).len() <= total.len() + wire.len(),
        joined(chunks) == (total + wire).take(joined(chunks).len() as int),
    ensures
        across(total, wire, e, joined(chunks).len() as int, feed(codec, Seq::empty(), chunks)),
    decreases chunks.len(),
{
    let stream = total + wire;
    if chunks.len() == 0 {
        assert(total.take(0) =~= Seq::<u8>::empty());
    } else {
        let earlier = chunks.drop_last();
        let a = joined(earlier);
        let j = joined(chunks);
        let m = a.len() as int;
        let n = j.len() as int;
        assert(j == a + chunks.last());
        assert(a =~= j.take(m));
        assert(a =~= stream.take(m));
        assert(chunks.last() =~= j.subrange(m, n));
        assert(j.subrange(m, n) =~= stream.subrange(m, n));
        lemma_feed_across(codec, total, wire, e, earlier);
        lemma_arrival_across(codec, total, wire, e, m, n, feed(codec, Seq::empty(), earlier));
    }
}

/// An oversized frame and the frame after it, cut anywhere, also across
/// the boundary between the two: nothing is handed out for the oversized
/// frame, and the frame after it is handed out once, at the latest by the
/// attempt that follows the arrival of its last byte. (Where that byte
/// arrives together with the end of the oversized frame, the attempt that
/// drops the one does not yet look at the other.)
pub proof fn lemma_recovery_any_cut(
    codec: CodecView,
    total: Seq<u8>,
    p: PacketView,
    chunks: Seq<Seq<u8>>,
)
    requires
        codec.state == DecodeState::Head,
        oversized(total, codec),
        fits(p),
        unambiguous_for(p.ptype, codec.role),
        payload_bytes(p).len() <= codec.max_length,
        joined(chunks) == total + wire_bytes(p),
    ensures
        feed(codec, Seq::empty(), chunks.push(Seq::empty())) == (Trace {
            state: DecodeState::Head,
            rest: Seq::empty(),
            emitted: seq![Emit::Frame(p)],
        }),
        feed(codec, Seq::empty(), chunks).emitted.len() == 0 || feed(
            codec,
            Seq::empty(),
            chunks,
        ).emitted == seq![Emit::Frame(p)],
{
    let wire = wire_bytes(p);
    let e = Emit::Frame(p);
    let stream = total + wire;
    let n = stream.len() as int;
    lemma_wire_is_framed(codec, p);
    assert(stream.take(n) =~= stream);
    lemma_feed_across(codec, total, wire, e, chunks);
    let all = chunks.push(Seq::empty());
    assert(all.drop_last() =~= chunks);
    assert(all.last() == Seq::<u8>::empty());
    assert(stream.subrange(n, n) =~= Seq::<u8>::empty());
    lemma_arrival_across(codec, total, wire, e, n, n, feed(codec, Seq::empty(), chunks));
    let t = feed(codec, Seq::empty(), all);
    assert(wire.take(wire.len() as int) =~= wire);
    assert(across(total, wire, e, n, t));
    let before = feed(codec, Seq::empty(), chunks);
    if mid_frame(wire, e, n - total.len(), before) {
        assert(before.rest + Seq::<u8>::empty() =~= Seq::<u8>::empty());
    } else {
        assert(before.rest + Seq::<u8>::empty() =~= wire);
        assert(wire.skip(4).take(wire.len() - 4) =~= wire.skip(4));
        assert(wire.skip(4).skip(wire.len() - 4) =~= Seq::<u8>::empty());
        assert(before.emitted.push(e) =~= seq![e]);
    }
}

} // verus!
