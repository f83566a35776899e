//! Laws of complete delivery: once every segment of the peer's stream has
//! arrived, in whatever order and however often, the whole stream has been
//! delivered.

use crate::model::TcbView;
use crate::reorder::concat;
use crate::reorder::drain;
use crate::reorder::lemma_concat_add;
use crate::reorder::total_len;
use crate::seqnum::lemma_add_offset_of;
use crate::seqnum::lemma_offset_of_add;
use crate::seqnum::lemma_seq_add_add;
use crate::seqnum::lemma_seq_diff_offsets;
use crate::seqnum::offset_of;
use crate::seqnum::seq_add;
use crate::seqnum::seq_diff;
use crate::stream_laws::delivered;
use crate::stream_laws::receiving;
use crate::transitions::budget_permits;
use crate::transitions::data_step;
use crate::transitions::on_segment_spec;
use crate::transitions::process_ack;
use crate::wire::SegmentView;
use vstd::prelude::*;

verus! {

/// Whether the bytes from offset `from`, `len` of them, are one segment of
/// the stream as the peer has cut it: `cut` holds the offsets at which the
/// peer's segments begin and end, and the segment runs from one of them to
/// the next.
pub open spec fn cut_segment(cut: Set<int>, stream_len: int, from: int, len: int) -> bool {
    &&& 0 <= from
    &&& 0 < len
    &&& from + len <= stream_len
    &&& cut.contains(from)
    &&& cut.contains(from + len)
    &&& forall|x: int| cut.contains(x) ==> !(from < x < from + len)
}

/// Whether `payload` at sequence number `seq` is one whole segment of the
/// stream, whose first byte has sequence number `first`.
pub open spec fn whole_segment(
    cut: Set<int>,
    stream: Seq<u8>,
    first: u32,
    seq: u32,
    payload: Seq<u8>,
) -> bool {
    let from = offset_of(first, seq);
    &&& cut_segment(cut, stream.len() as int, from, payload.len() as int)
    &&& payload == stream.subrange(from, from + payload.len())
}

/// Whether an inbound segment is plain data: one whole segment of the
/// stream, without FIN or RST.
pub open spec fn carries_segment(cut: Set<int>, stream: Seq<u8>, first: u32, s: SegmentView) -> bool {
    whole_segment(cut, stream, first, s.seq, s.payload) && !s.fin && !s.rst
}

/// Whether the segment at offset `from` has been dealt with: it has been
/// delivered, or it waits in the reorder buffer.
pub open spec fn settled(buffer: Map<u32, Seq<u8>>, first: u32, n: int, from: int, len: int)
    -> bool {
    from + len <= n || buffer.contains_key(seq_add(first, from))
}

/// Whether an established connection has received the first `n` bytes of
/// a stream shorter than 2^31 bytes, up to the end of one of the peer's
/// segments, holds no FIN, and buffers nothing but whole segments that
/// start after those bytes.
pub open spec fn tracking(t: TcbView, cut: Set<int>, stream: Seq<u8>, first: u32, n: int) -> bool {
    &&& receiving(t, stream, first, n)
    &&& stream.len() < 0x8000_0000
    &&& cut.contains(n)
    &&& t.pending_fin_seq is None
    &&& forall|k: u32| #[trigger]
        t.reorder_buffer.contains_key(k) ==> whole_segment(
            cut,
            stream,
            first,
            k,
            t.reorder_buffer[k],
        ) && n < offset_of(first, k)
}

/// Whether an out-of-order segment is lost for want of room: it lies ahead,
/// the budget does not let it in, and it is not buffered already.
pub open spec fn loses(t: TcbView, s: SegmentView) -> bool {
    &&& seq_diff(s.seq, t.local_ack) > 0
    &&& !budget_permits(t, s.payload)
    &&& !t.reorder_buffer.contains_key(s.seq)
}

/// Whether the reorder buffer has room for every segment of a run that
/// needs it.
pub open spec fn finds_room(t: TcbView, segments: Seq<(SegmentView, u64)>) -> bool
    decreases segments.len(),
{
    segments.len() == 0 || (!loses(t, segments[0].0) && finds_room(
        on_segment_spec(t, segments[0].0, segments[0].1).0,
        segments.drop_first(),
    ))
}

/// The connection after it has handled `segments` one after the other.
pub open spec fn state_after(t: TcbView, segments: Seq<(SegmentView, u64)>) -> TcbView
    decreases segments.len(),
{
    if segments.len() == 0 {
        t
    } else {
        state_after(on_segment_spec(t, segments[0].0, segments[0].1).0, segments.drop_first())
    }
}

/// The handshake starts the tracking: once the peer's SYN is acknowledged,
/// the connection tracks, from offset zero, whatever stream starts right
/// after the peer's initial sequence number.
pub proof fn law_handshake_starts_tracking(
    t: TcbView,
    s: SegmentView,
    now: u64,
    cut: Set<int>,
    stream: Seq<u8>,
)
    requires
        t.inv(),
        t.state == crate::model::TcpState::SynSent,
        s.syn && s.ack,
        stream.len() < 0x8000_0000,
        cut.contains(0),
    ensures
        tracking(on_segment_spec(t, s, now).0, cut, stream, seq_add(s.seq, 1), 0),
{
    crate::seqnum::lemma_seq_add_zero(seq_add(s.seq, 1));
}

/// Two segments of the cut that start at the same offset are the same.
proof fn lemma_cut_segment_unique(cut: Set<int>, stream_len: int, from: int, a: int, b: int)
    requires
        cut_segment(cut, stream_len, from, a),
        cut_segment(cut, stream_len, from, b),
    ensures
        a == b,
{
    if a < b {
        assert(cut.contains(from + a));
    } else if b < a {
        assert(cut.contains(from + b));
    }
}

/// Draining a buffer of whole segments, none of which starts before offset
/// `m`, reaches the end of a segment, takes out the stream from `m` up to
/// there, leaves whole segments that start after it, and settles every
/// segment that was settled before.
proof fn lemma_drain_segments(
    buffer: Map<u32, Seq<u8>>,
    cut: Set<int>,
    stream: Seq<u8>,
    first: u32,
    m: int,
)
    requires
        buffer.dom().finite(),
        stream.len() < 0x8000_0000,
        0 <= m <= stream.len(),
        cut.contains(m),
        forall|k: u32| #[trigger]
            buffer.contains_key(k) ==> whole_segment(cut, stream, first, k, buffer[k]) && m
                <= offset_of(first, k),
    ensures
        ({
            let d = drain(buffer, seq_add(first, m));
            let reached = m + total_len(d.segments);
            &&& reached <= stream.len()
            &&& cut.contains(reached)
            &&& concat(d.segments) == stream.subrange(m, reached)
            &&& d.ack == seq_add(first, reached)
            &&& forall|k: u32| #[trigger]
                d.buffer.contains_key(k) ==> whole_segment(cut, stream, first, k, d.buffer[k])
                    && reached < offset_of(first, k)
            &&& forall|from: int, len: int|
                cut_segment(cut, stream.len() as int, from, len) && #[trigger] settled(
                    buffer,
                    first,
                    m,
                    from,
                    len,
                ) ==> settled(d.buffer, first, reached, from, len)
        }),
    decreases buffer.dom().len(),
{
    let ack = seq_add(first, m);
    lemma_offset_of_add(first, m);
    if buffer.contains_key(ack) {
        let head = buffer[ack];
        let next = m + head.len();
        lemma_seq_add_add(first, m, head.len() as int);
        let rest = buffer.remove(ack);
        assert forall|k: u32| #[trigger] rest.contains_key(k) implies whole_segment(
            cut,
            stream,
            first,
            k,
            rest[k],
        ) && next <= offset_of(first, k) by {
            assert(buffer.contains_key(k));
            lemma_add_offset_of(first, k);
            assert(cut.contains(offset_of(first, k)));
        }
        lemma_drain_segments(rest, cut, stream, first, next);
        let d = drain(rest, seq_add(first, next));
        let reached = next + total_len(d.segments);
        lemma_concat_add(seq![head], d.segments);
        assert(seq![head].drop_first() =~= Seq::<Seq<u8>>::empty());
        assert(concat(seq![head]) =~= head) by {
            reveal_with_fuel(concat, 2);
        }
        assert(total_len(seq![head]) == head.len()) by {
            reveal_with_fuel(total_len, 2);
        }
        assert(stream.subrange(m, next) + stream.subrange(next, reached) =~= stream.subrange(
            m,
            reached,
        ));
        assert forall|from: int, len: int|
            cut_segment(cut, stream.len() as int, from, len) && #[trigger] settled(
                buffer,
                first,
                m,
                from,
                len,
            ) implies settled(d.buffer, first, reached, from, len) by {
            if from + len > m {
                let key = seq_add(first, from);
                lemma_offset_of_add(first, from);
                if key == ack {
                    lemma_cut_segment_unique(cut, stream.len() as int, m, len, head.len() as int);
                } else {
                    assert(rest.contains_key(key));
                    assert(settled(rest, first, next, from, len));
                }
            } else {
                assert(settled(rest, first, next, from, len));
            }
        }
    } else {
        assert(concat(Seq::<Seq<u8>>::empty()) =~= stream.subrange(m, m));
        assert forall|k: u32| #[trigger] buffer.contains_key(k) implies m < offset_of(first, k) by {
            lemma_add_offset_of(first, k);
        }
    }
}

/// What handling one whole segment leaves behind, seen from a connection
/// that had received the first `n` bytes: it tracks the stream up to what
/// it has delivered, the segment is settled, and so is every segment that
/// was settled before.
pub open spec fn settles(
    before: TcbView,
    after: TcbView,
    deliveries: Seq<Seq<u8>>,
    seq: u32,
    payload: Seq<u8>,
    cut: Set<int>,
    stream: Seq<u8>,
    first: u32,
    n: int,
) -> bool {
    let reached = n + total_len(deliveries);
    &&& tracking(after, cut, stream, first, reached)
    &&& concat(deliveries) == stream.subrange(n, reached)
    &&& settled(after.reorder_buffer, first, reached, offset_of(first, seq), payload.len() as int)
    &&& forall|from: int, len: int|
        cut_segment(cut, stream.len() as int, from, len) && #[trigger] settled(
            before.reorder_buffer,
            first,
            n,
            from,
            len,
        ) ==> settled(after.reorder_buffer, first, reached, from, len)
}

/// Where a whole segment lies, seen from a connection that tracks the
/// stream: as far from the next expected sequence number as its offset is
/// from the count of bytes received.
proof fn lemma_where_segment_lies(
    t: TcbView,
    seq: u32,
    payload: Seq<u8>,
    cut: Set<int>,
    stream: Seq<u8>,
    first: u32,
    n: int,
)
    requires
        tracking(t, cut, stream, first, n),
        whole_segment(cut, stream, first, seq, payload),
    ensures
        seq_diff(seq, t.local_ack) == offset_of(first, seq) - n,
        seq == seq_add(first, offset_of(first, seq)),
        seq_add(seq, payload.len() as int) == seq_add(first, offset_of(first, seq) + payload.len()),
        offset_of(first, seq) < n ==> offset_of(first, seq) + payload.len() <= n,
{
    lemma_add_offset_of(first, seq);
    lemma_offset_of_add(first, n);
    lemma_seq_diff_offsets(first, seq, t.local_ack);
    lemma_seq_add_add(first, offset_of(first, seq), payload.len() as int);
    assert(cut.contains(n));
}

/// A whole segment at the next expected sequence number: it is delivered
/// together with the buffered segments that follow on from it.
proof fn lemma_in_order_segment_settles(
    t: TcbView,
    seq: u32,
    payload: Seq<u8>,
    cut: Set<int>,
    stream: Seq<u8>,
    first: u32,
    n: int,
)
    requires
        t.inv(),
        tracking(t, cut, stream, first, n),
        whole_segment(cut, stream, first, seq, payload),
        offset_of(first, seq) == n,
    ensures
        settles(
            t,
            data_step(t, seq, payload).0,
            data_step(t, seq, payload).1.deliveries(),
            seq,
            payload,
            cut,
            stream,
            first,
            n,
        ),
{
    let len = payload.len() as int;
    lemma_where_segment_lies(t, seq, payload, cut, stream, first, n);
    assert forall|k: u32| #[trigger] t.reorder_buffer.contains_key(k) implies n + len
        <= offset_of(first, k) by {
        assert(cut.contains(offset_of(first, k)));
    }
    lemma_drain_segments(t.reorder_buffer, cut, stream, first, n + len);
    let d = drain(t.reorder_buffer, seq_add(first, n + len));
    lemma_concat_add(seq![payload], d.segments);
    reveal_with_fuel(concat, 2);
    reveal_with_fuel(total_len, 2);
    assert(seq![payload].drop_first() =~= Seq::<Seq<u8>>::empty());
    assert(concat(seq![payload]) =~= payload);
    if (seq![payload] + d.segments).len() == 1 {
        assert(seq![payload] + d.segments =~= seq![payload]);
    }
    let reached = n + len + total_len(d.segments);
    assert(stream.subrange(n, n + len) + stream.subrange(n + len, reached) =~= stream.subrange(
        n,
        reached,
    ));
    assert forall|o: int, l: int|
        cut_segment(cut, stream.len() as int, o, l) && #[trigger] settled(
            t.reorder_buffer,
            first,
            n,
            o,
            l,
        ) implies settled(d.buffer, first, reached, o, l) by {
        assert(settled(t.reorder_buffer, first, n + len, o, l));
    }
}

/// A whole segment that does not start at the next expected sequence
/// number: one that was delivered before is only acknowledged, one that
/// lies ahead is buffered, or is buffered already.
proof fn lemma_other_segment_settles(
    t: TcbView,
    seq: u32,
    payload: Seq<u8>,
    cut: Set<int>,
    stream: Seq<u8>,
    first: u32,
    n: int,
)
    requires
        t.inv(),
        tracking(t, cut, stream, first, n),
        whole_segment(cut, stream, first, seq, payload),
        offset_of(first, seq) != n,
        seq_diff(seq, t.local_ack) > 0 && !budget_permits(t, payload)
            ==> t.reorder_buffer.contains_key(seq),
    ensures
        settles(
            t,
            data_step(t, seq, payload).0,
            data_step(t, seq, payload).1.deliveries(),
            seq,
            payload,
            cut,
            stream,
            first,
            n,
        ),
{
    lemma_where_segment_lies(t, seq, payload, cut, stream, first, n);
    reveal_with_fuel(concat, 2);
    reveal_with_fuel(total_len, 2);
    assert(concat(Seq::<Seq<u8>>::empty()) =~= stream.subrange(n, n));
    if offset_of(first, seq) > n && budget_permits(t, payload) {
        let buffer = t.reorder_buffer.insert(seq, payload);
        assert forall|k: u32| #[trigger] buffer.contains_key(k) implies whole_segment(
            cut,
            stream,
            first,
            k,
            buffer[k],
        ) && n < offset_of(first, k) by {
            if k != seq {
                assert(t.reorder_buffer.contains_key(k));
            }
        }
    }
}

/// One whole segment of the stream on a connection that tracks it: the
/// connection delivers the stream from where it stood up to the end of a
/// segment, goes on tracking from there, and the segment is settled, as is
/// every segment that was settled before.
proof fn lemma_segment_is_settled(
    t: TcbView,
    s: SegmentView,
    now: u64,
    cut: Set<int>,
    stream: Seq<u8>,
    first: u32,
    n: int,
)
    requires
        t.inv(),
        tracking(t, cut, stream, first, n),
        carries_segment(cut, stream, first, s),
        !loses(t, s),
    ensures
        on_segment_spec(t, s, now).0.inv(),
        settles(
            t,
            on_segment_spec(t, s, now).0,
            on_segment_spec(t, s, now).1.deliveries(),
            s.seq,
            s.payload,
            cut,
            stream,
            first,
            n,
        ),
{
    crate::laws::law_invariant_preserved(t, s, Seq::empty(), now, t.id, 0);
    let t1 = process_ack(TcbView { last_activity: now, ..t }, s);
    assert(t1.inv());
    assert(tracking(t1, cut, stream, first, n));
    assert(t1.reorder_buffer == t.reorder_buffer);
    if offset_of(first, s.seq) == n {
        lemma_in_order_segment_settles(t1, s.seq, s.payload, cut, stream, first, n);
    } else {
        lemma_other_segment_settles(t1, s.seq, s.payload, cut, stream, first, n);
    }
}

/// A run of whole segments on a connection that tracks the stream.
#[verifier::rlimit(60)]
proof fn lemma_run_settles(
    t: TcbView,
    segments: Seq<(SegmentView, u64)>,
    cut: Set<int>,
    stream: Seq<u8>,
    first: u32,
    n: int,
)
    requires
        t.inv(),
        tracking(t, cut, stream, first, n),
        forall|i: int|
            0 <= i < segments.len() ==> carries_segment(cut, stream, first, (#[trigger] segments[i]).0),
        finds_room(t, segments),
    ensures
        ({
            let after = state_after(t, segments);
            let reached = n + delivered(t, segments).len();
            &&& after.inv()
            &&& tracking(after, cut, stream, first, reached)
            &&& delivered(t, segments) == stream.subrange(n, reached)
            &&& forall|i: int|
                0 <= i < segments.len() ==> settled(
                    after.reorder_buffer,
                    first,
                    reached,
                    offset_of(first, (#[trigger] segments[i]).0.seq),
                    segments[i].0.payload.len() as int,
                )
            &&& forall|from: int, len: int|
                cut_segment(cut, stream.len() as int, from, len) && #[trigger] settled(
                    t.reorder_buffer,
                    first,
                    n,
                    from,
                    len,
                ) ==> settled(after.reorder_buffer, first, reached, from, len)
        }),
    decreases segments.len(),
{
    if segments.len() == 0 {
        assert(delivered(t, segments) =~= stream.subrange(n, n));
    } else {
        let s = segments[0].0;
        let now = segments[0].1;
        let (next, action) = on_segment_spec(t, s, now);
        lemma_segment_is_settled(t, s, now, cut, stream, first, n);
        assert(settles(t, next, action.deliveries(), s.seq, s.payload, cut, stream, first, n));
        let mid = n + total_len(action.deliveries());
        lemma_concat_add(action.deliveries(), Seq::empty());
        let rest = segments.drop_first();
        assert forall|i: int| 0 <= i < rest.len() implies carries_segment(
            cut,
            stream,
            first,
            (#[trigger] rest[i]).0,
        ) by {
            assert(rest[i] == segments[i + 1]);
        }
        lemma_run_settles(next, rest, cut, stream, first, mid);
        let after = state_after(next, rest);
        let reached = mid + delivered(next, rest).len();
        assert(stream.subrange(n, mid) + stream.subrange(mid, reached) =~= stream.subrange(
            n,
            reached,
        ));
        assert forall|i: int| 0 <= i < segments.len() implies settled(
            after.reorder_buffer,
            first,
            reached,
            offset_of(first, (#[trigger] segments[i]).0.seq),
            segments[i].0.payload.len() as int,
        ) by {
            if i == 0 {
                assert(settled(
                    next.reorder_buffer,
                    first,
                    mid,
                    offset_of(first, s.seq),
                    s.payload.len() as int,
                ));
            } else {
                assert(segments[i] == rest[i - 1]);
            }
        }
        assert forall|from: int, len: int|
            cut_segment(cut, stream.len() as int, from, len) && #[trigger] settled(
                t.reorder_buffer,
                first,
                n,
                from,
                len,
            ) implies settled(after.reorder_buffer, first, reached, from, len) by {
            assert(settled(next.reorder_buffer, first, mid, from, len));
        }
    }
}

/// The bytes delivered on a connection, laid end to end, are the peer's
/// stream: if the peer cuts its stream into segments and every segment
/// arrives at least once, in whatever order and however often, with room in
/// the reorder buffer for what arrives early, then exactly the stream is
/// delivered, each byte once and in order, and the next expected sequence
/// number stands at its end. This holds wherever in the sequence space the
/// stream lies.
pub proof fn law_every_segment_arrived_delivers_the_stream(
    t: TcbView,
    segments: Seq<(SegmentView, u64)>,
    cut: Set<int>,
    stream: Seq<u8>,
    first: u32,
    n: int,
)
    requires
        t.inv(),
        tracking(t, cut, stream, first, n),
        cut.contains(stream.len() as int),
        forall|i: int|
            0 <= i < segments.len() ==> carries_segment(cut, stream, first, (#[trigger] segments[i]).0),
        finds_room(t, segments),
        forall|from: int|
            cut.contains(from) && n <= from < stream.len() ==> exists|i: int|
                0 <= i < segments.len() && offset_of(first, (#[trigger] segments[i]).0.seq) == from,
    ensures
        delivered(t, segments) == stream.subrange(n, stream.len() as int),
        state_after(t, segments).local_ack == seq_add(first, stream.len() as int),
        state_after(t, segments).reorder_buffer == Map::<u32, Seq<u8>>::empty(),
{
    lemma_run_settles(t, segments, cut, stream, first, n);
    let after = state_after(t, segments);
    let reached = n + delivered(t, segments).len();
    if reached < stream.len() {
        let i = choose|i: int|
            0 <= i < segments.len() && offset_of(first, (#[trigger] segments[i]).0.seq) == reached;
        lemma_add_offset_of(first, segments[i].0.seq);
        assert(settled(
            after.reorder_buffer,
            first,
            reached,
            offset_of(first, segments[i].0.seq),
            segments[i].0.payload.len() as int,
        ));
        assert(after.reorder_buffer.contains_key(after.local_ack));
    }
    assert(after.reorder_buffer =~= Map::<u32, Seq<u8>>::empty()) by {
        assert forall|k: u32| !after.reorder_buffer.contains_key(k) by {
            if after.reorder_buffer.contains_key(k) {
                assert(whole_segment(cut, stream, first, k, after.reorder_buffer[k]));
            }
        }
    }
}

} // verus!
