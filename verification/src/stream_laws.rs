//! Laws of the byte stream: what is delivered to the application is the
//! stream the peer sent, in order, without gaps and without duplicates.

use crate::model::TcbView;
use crate::model::TcpState;
use crate::reorder::concat;
use crate::reorder::drain;
use crate::reorder::lemma_concat_add;
use crate::reorder::total_len;
use crate::seqnum::lemma_add_offset_of;
use crate::seqnum::lemma_offset_of_add;
use crate::seqnum::lemma_seq_add_add;
use crate::seqnum::lemma_seq_diff_zero;
use crate::seqnum::offset_of;
use crate::seqnum::seq_add;
use crate::seqnum::seq_diff;
use crate::transitions::data_step;
use crate::transitions::fin_step;
use crate::transitions::on_segment_spec;
use crate::transitions::process_ack;
use crate::wire::SegmentView;
use vstd::prelude::*;

verus! {

/// Whether `payload` at sequence number `seq` is a piece of `stream`, whose
/// first byte has sequence number `first`.
pub open spec fn piece_of(stream: Seq<u8>, first: u32, seq: u32, payload: Seq<u8>) -> bool {
    let from = offset_of(first, seq);
    from + payload.len() <= stream.len() && payload == stream.subrange(from, from + payload.len())
}

/// Whether every buffered segment is a piece of `stream`.
pub open spec fn buffer_from(stream: Seq<u8>, first: u32, buffer: Map<u32, Seq<u8>>) -> bool {
    forall|k: u32| buffer.contains_key(k) ==> piece_of(stream, first, k, #[trigger] buffer[k])
}

/// Whether an established connection has received the first `n` bytes of
/// `stream` in order and buffers nothing but pieces of it. The stream is
/// shorter than 2^32 bytes, so that no two of its bytes share a sequence
/// number.
pub open spec fn receiving(t: TcbView, stream: Seq<u8>, first: u32, n: int) -> bool {
    &&& t.state == TcpState::Established
    &&& 0 <= n <= stream.len() < 0x1_0000_0000
    &&& t.local_ack == seq_add(first, n)
    &&& buffer_from(stream, first, t.reorder_buffer)
}

/// Whether the connection has left the established state for good.
pub open spec fn past_established(state: TcpState) -> bool {
    state != TcpState::SynSent && state != TcpState::Established
}

/// What a connection delivers while it handles `segments` one after the
/// other, each at its time: the payloads laid end to end.
pub open spec fn delivered(t: TcbView, segments: Seq<(SegmentView, u64)>) -> Seq<u8>
    decreases segments.len(),
{
    if segments.len() == 0 {
        Seq::empty()
    } else {
        let (next, action) = on_segment_spec(t, segments[0].0, segments[0].1);
        concat(action.deliveries()) + delivered(next, segments.drop_first())
    }
}

/// Draining a buffer of pieces of the stream, from the sequence number of
/// offset `n`, takes out the bytes that follow offset `n`, and leaves
/// pieces of the stream.
proof fn lemma_drain_stream(buffer: Map<u32, Seq<u8>>, stream: Seq<u8>, first: u32, n: int)
    requires
        buffer.dom().finite(),
        buffer_from(stream, first, buffer),
        0 <= n <= stream.len() < 0x1_0000_0000,
    ensures
        ({
            let d = drain(buffer, seq_add(first, n));
            let reached = n + total_len(d.segments);
            &&& reached <= stream.len()
            &&& concat(d.segments) == stream.subrange(n, reached)
            &&& d.ack == seq_add(first, reached)
            &&& buffer_from(stream, first, d.buffer)
        }),
    decreases buffer.dom().len(),
{
    let ack = seq_add(first, n);
    if buffer.contains_key(ack) {
        let head = buffer[ack];
        lemma_offset_of_add(first, n);
        assert(piece_of(stream, first, ack, head));
        let next = n + head.len();
        lemma_seq_add_add(first, n, head.len() as int);
        let rest = buffer.remove(ack);
        assert(buffer_from(stream, first, rest));
        lemma_drain_stream(rest, stream, first, next);
        let d = drain(rest, seq_add(first, next));
        let reached = next + total_len(d.segments);
        lemma_concat_add(seq![head], d.segments);
        assert(concat(seq![head]) =~= head) by {
            reveal_with_fuel(concat, 2);
            assert(seq![head].drop_first() =~= Seq::<Seq<u8>>::empty());
        }
        assert(total_len(seq![head]) == head.len()) by {
            reveal_with_fuel(total_len, 2);
            assert(seq![head].drop_first() =~= Seq::<Seq<u8>>::empty());
        }
        assert(stream.subrange(n, next) + stream.subrange(next, reached) =~= stream.subrange(
            n,
            reached,
        ));
    } else {
        assert(concat(Seq::<Seq<u8>>::empty()) =~= stream.subrange(n, n));
    }
}

/// The handshake starts the stream: once the peer's SYN is acknowledged,
/// the connection is receiving, at offset zero, whatever stream starts
/// right after the peer's initial sequence number.
pub proof fn law_handshake_starts_the_stream(t: TcbView, s: SegmentView, now: u64, stream: Seq<u8>)
    requires
        t.inv(),
        t.state == TcpState::SynSent,
        s.syn && s.ack,
        stream.len() < 0x1_0000_0000,
    ensures
        receiving(on_segment_spec(t, s, now).0, stream, seq_add(s.seq, 1), 0),
{
    crate::seqnum::lemma_seq_add_zero(seq_add(s.seq, 1));
}

/// A piece of the stream starts at the next expected sequence number
/// exactly if its offset is the count of bytes received.
proof fn lemma_in_order_is_same_offset(
    t: TcbView,
    seq: u32,
    payload: Seq<u8>,
    stream: Seq<u8>,
    first: u32,
    n: int,
)
    requires
        receiving(t, stream, first, n),
        piece_of(stream, first, seq, payload),
    ensures
        seq_diff(seq, t.local_ack) == 0 <==> offset_of(first, seq) == n,
        0 <= offset_of(first, seq),
        seq_add(seq, payload.len() as int) == seq_add(first, offset_of(first, seq) + payload.len()),
{
    lemma_add_offset_of(first, seq);
    lemma_offset_of_add(first, n);
    lemma_seq_diff_zero(seq, t.local_ack);
    lemma_seq_add_add(first, offset_of(first, seq), payload.len() as int);
}

/// The piece of the stream at offset `n`, followed by what draining the
/// buffer yields after it, is the stream from `n` on.
proof fn lemma_collect_stream(
    buffer: Map<u32, Seq<u8>>,
    payload: Seq<u8>,
    stream: Seq<u8>,
    first: u32,
    n: int,
)
    requires
        buffer.dom().finite(),
        buffer_from(stream, first, buffer),
        0 <= n,
        n + payload.len() <= stream.len() < 0x1_0000_0000,
        payload == stream.subrange(n, n + payload.len()),
    ensures
        ({
            let d = drain(buffer, seq_add(first, n + payload.len()));
            let segments = seq![payload] + d.segments;
            let reached = n + total_len(segments);
            &&& reached <= stream.len()
            &&& concat(segments) == stream.subrange(n, reached)
            &&& d.ack == seq_add(first, reached)
            &&& buffer_from(stream, first, d.buffer)
        }),
{
    let mid = n + payload.len();
    lemma_drain_stream(buffer, stream, first, mid);
    let d = drain(buffer, seq_add(first, mid));
    lemma_concat_add(seq![payload], d.segments);
    reveal_with_fuel(concat, 2);
    reveal_with_fuel(total_len, 2);
    assert(seq![payload].drop_first() =~= Seq::<Seq<u8>>::empty());
    assert(concat(seq![payload]) =~= payload);
    assert(total_len(seq![payload]) == payload.len());
    let reached = mid + total_len(d.segments);
    assert(stream.subrange(n, mid) + stream.subrange(mid, reached) =~= stream.subrange(n, reached));
}

/// A data segment that carries a piece of the stream.
proof fn lemma_data_continues_the_stream(
    t: TcbView,
    seq: u32,
    payload: Seq<u8>,
    stream: Seq<u8>,
    first: u32,
    n: int,
)
    requires
        t.inv(),
        receiving(t, stream, first, n),
        piece_of(stream, first, seq, payload),
        payload.len() > 0,
    ensures
        ({
            let (after, action) = data_step(t, seq, payload);
            let reached = n + total_len(action.deliveries());
            &&& reached <= stream.len()
            &&& concat(action.deliveries()) == stream.subrange(n, reached)
            &&& after.state == TcpState::Established ==> receiving(after, stream, first, reached)
            &&& after.state != TcpState::Established ==> past_established(after.state)
        }),
{
    lemma_in_order_is_same_offset(t, seq, payload, stream, first, n);
    let from = offset_of(first, seq);
    reveal_with_fuel(concat, 2);
    reveal_with_fuel(total_len, 2);
    assert(concat(Seq::<Seq<u8>>::empty()) =~= stream.subrange(n, n));
    if from == n {
        lemma_collect_stream(t.reorder_buffer, payload, stream, first, n);
        let d = drain(t.reorder_buffer, seq_add(seq, payload.len() as int));
        if (seq![payload] + d.segments).len() == 1 {
            assert(seq![payload] + d.segments =~= seq![payload]);
        }
    } else {
        assert(buffer_from(stream, first, t.reorder_buffer.insert(seq, payload)));
    }
}

/// A FIN whose payload is a piece of the stream.
proof fn lemma_fin_continues_the_stream(
    t: TcbView,
    seq: u32,
    payload: Seq<u8>,
    stream: Seq<u8>,
    first: u32,
    n: int,
)
    requires
        t.inv(),
        receiving(t, stream, first, n),
        piece_of(stream, first, seq, payload),
    ensures
        ({
            let (after, action) = fin_step(t, seq, payload);
            let reached = n + total_len(action.deliveries());
            &&& reached <= stream.len()
            &&& concat(action.deliveries()) == stream.subrange(n, reached)
            &&& after.state == TcpState::Established ==> receiving(after, stream, first, reached)
            &&& after.state != TcpState::Established ==> past_established(after.state)
        }),
{
    lemma_in_order_is_same_offset(t, seq, payload, stream, first, n);
    let from = offset_of(first, seq);
    reveal_with_fuel(concat, 2);
    reveal_with_fuel(total_len, 2);
    assert(concat(Seq::<Seq<u8>>::empty()) =~= stream.subrange(n, n));
    if from == n && payload.len() > 0 {
        lemma_seq_add_add(first, n, payload.len() as int);
        lemma_collect_stream(t.reorder_buffer, payload, stream, first, n);
    } else {
        lemma_drain_stream(t.reorder_buffer, stream, first, n);
        let d = drain(t.reorder_buffer, seq_add(first, n));
        assert(Seq::<Seq<u8>>::empty() + d.segments =~= d.segments);
        assert(buffer_from(stream, first, t.reorder_buffer.insert(seq, payload)));
    }
}

/// One inbound segment on a connection that has received the first `n`
/// bytes of the peer's stream: if the segment carries a piece of the
/// stream, what is delivered is exactly the bytes that follow the first
/// `n`, up to the new count of bytes received; while the connection stays
/// established it goes on receiving from there.
pub proof fn law_delivery_continues_the_stream(
    t: TcbView,
    s: SegmentView,
    now: u64,
    stream: Seq<u8>,
    first: u32,
    n: int,
)
    requires
        t.inv(),
        receiving(t, stream, first, n),
        piece_of(stream, first, s.seq, s.payload),
    ensures
        ({
            let (after, action) = on_segment_spec(t, s, now);
            let reached = n + total_len(action.deliveries());
            &&& reached <= stream.len()
            &&& concat(action.deliveries()) == stream.subrange(n, reached)
            &&& after.state == TcpState::Established ==> receiving(after, stream, first, reached)
            &&& after.state != TcpState::Established ==> past_established(after.state)
        }),
{
    let t1 = process_ack(TcbView { last_activity: now, ..t }, s);
    assert(t1.inv());
    assert(receiving(t1, stream, first, n));
    if s.rst || (!s.fin && s.payload.len() == 0) {
        reveal_with_fuel(concat, 2);
        reveal_with_fuel(total_len, 2);
        assert(concat(Seq::<Seq<u8>>::empty()) =~= stream.subrange(n, n));
    } else if s.fin {
        lemma_fin_continues_the_stream(t1, s.seq, s.payload, stream, first, n);
    } else {
        lemma_data_continues_the_stream(t1, s.seq, s.payload, stream, first, n);
    }
}

/// Once a connection has left the established state it delivers nothing
/// more and does not come back.
pub proof fn law_nothing_delivered_after_close(t: TcbView, s: SegmentView, now: u64)
    requires
        past_established(t.state),
    ensures
        on_segment_spec(t, s, now).1.deliveries() == Seq::<Seq<u8>>::empty(),
        past_established(on_segment_spec(t, s, now).0.state),
{
}

/// After the connection has left the established state, no sequence of
/// segments delivers anything.
proof fn lemma_delivered_after_close(t: TcbView, segments: Seq<(SegmentView, u64)>)
    requires
        past_established(t.state),
    ensures
        delivered(t, segments) == Seq::<u8>::empty(),
    decreases segments.len(),
{
    if segments.len() > 0 {
        law_nothing_delivered_after_close(t, segments[0].0, segments[0].1);
        lemma_delivered_after_close(
            on_segment_spec(t, segments[0].0, segments[0].1).0,
            segments.drop_first(),
        );
        assert(concat(Seq::<Seq<u8>>::empty()) =~= Seq::<u8>::empty());
        assert(delivered(t, segments) =~= Seq::<u8>::empty());
    }
}

/// The bytes delivered on a connection, laid end to end, are the in-order
/// continuation of the peer's stream: whatever pieces of the stream
/// arrive, in whatever order and however often, a connection that has
/// received the first `n` bytes delivers the bytes from `n` up to some
/// point of the stream, with no gap and no byte twice.
pub proof fn law_delivered_bytes_are_a_prefix(
    t: TcbView,
    segments: Seq<(SegmentView, u64)>,
    stream: Seq<u8>,
    first: u32,
    n: int,
)
    requires
        t.inv(),
        receiving(t, stream, first, n),
        forall|i: int|
            0 <= i < segments.len() ==> piece_of(
                stream,
                first,
                (#[trigger] segments[i]).0.seq,
                segments[i].0.payload,
            ),
    ensures
        exists|reached: int|
            n <= reached <= stream.len() && delivered(t, segments) == #[trigger] stream.subrange(
                n,
                reached,
            ),
    decreases segments.len(),
{
    if segments.len() == 0 {
        assert(delivered(t, segments) =~= stream.subrange(n, n));
    } else {
        let s = segments[0].0;
        let now = segments[0].1;
        let (after, action) = on_segment_spec(t, s, now);
        law_delivery_continues_the_stream(t, s, now, stream, first, n);
        crate::laws::law_invariant_preserved(t, s, Seq::empty(), now, t.id, 0);
        let mid = n + total_len(action.deliveries());
        let rest = segments.drop_first();
        if after.state == TcpState::Established {
            assert forall|i: int| 0 <= i < rest.len() implies piece_of(
                stream,
                first,
                (#[trigger] rest[i]).0.seq,
                rest[i].0.payload,
            ) by {
                assert(rest[i] == segments[i + 1]);
            }
            law_delivered_bytes_are_a_prefix(after, rest, stream, first, mid);
            let reached = choose|reached: int|
                mid <= reached <= stream.len() && delivered(after, rest) == #[trigger] stream.subrange(
                    mid,
                    reached,
                );
            assert(stream.subrange(n, mid) + stream.subrange(mid, reached) =~= stream.subrange(
                n,
                reached,
            ));
        } else {
            lemma_delivered_after_close(after, rest);
            assert(stream.subrange(n, mid) + Seq::<u8>::empty() =~= stream.subrange(n, mid));
        }
    }
}

} // verus!
