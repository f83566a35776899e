//! The mathematics of the reorder buffer: segments received ahead of the
//! next expected sequence number, keyed by their first sequence number.

use crate::seqnum::seq_add;
use vstd::prelude::*;

verus! {

/// Payload bytes held under keys below `n`.
pub open spec fn bytes_below(m: Map<u32, Seq<u8>>, n: nat) -> nat
    decreases n,
{
    if n == 0 {
        0
    } else {
        let k = (n - 1) as u32;
        bytes_below(m, (n - 1) as nat) + if m.contains_key(k) {
            m[k].len()
        } else {
            0
        }
    }
}

/// Payload bytes held in the buffer: the sum of the lengths of its values.
pub open spec fn total_bytes(m: Map<u32, Seq<u8>>) -> nat {
    bytes_below(m, 0x1_0000_0000)
}

/// Total length of a list of payloads.
pub open spec fn total_len(segments: Seq<Seq<u8>>) -> nat
    decreases segments.len(),
{
    if segments.len() == 0 {
        0
    } else {
        segments[0].len() + total_len(segments.drop_first())
    }
}

/// The payloads of a list laid end to end.
pub open spec fn concat(segments: Seq<Seq<u8>>) -> Seq<u8>
    decreases segments.len(),
{
    if segments.len() == 0 {
        Seq::empty()
    } else {
        segments[0] + concat(segments.drop_first())
    }
}

/// What draining leaves: the remaining buffer, the sequence number reached,
/// and the payloads taken out, in order.
pub struct Drained {
    pub buffer: Map<u32, Seq<u8>>,
    pub ack: u32,
    pub segments: Seq<Seq<u8>>,
}

/// Takes segments out of the buffer for as long as it holds one that
/// starts at the next expected sequence number, advancing that number past
/// each. Segments are found by their sequence number, so the order of the
/// raw keys does not matter.
pub open spec fn drain(m: Map<u32, Seq<u8>>, ack: u32) -> Drained
    decreases m.dom().len(),
    when m.dom().finite()
{
    if m.contains_key(ack) {
        let rest = drain(m.remove(ack), seq_add(ack, m[ack].len() as int));
        Drained { buffer: rest.buffer, ack: rest.ack, segments: seq![m[ack]] + rest.segments }
    } else {
        Drained { buffer: m, ack, segments: Seq::empty() }
    }
}

proof fn lemma_bytes_below_empty(n: nat)
    ensures
        bytes_below(Map::empty(), n) == 0,
    decreases n,
{
    if n > 0 {
        lemma_bytes_below_empty((n - 1) as nat);
    }
}

/// An empty buffer holds no bytes.
pub proof fn lemma_total_empty()
    ensures
        total_bytes(Map::empty()) == 0,
{
    lemma_bytes_below_empty(0x1_0000_0000);
}

proof fn lemma_bytes_below_insert(m: Map<u32, Seq<u8>>, k: u32, v: Seq<u8>, n: nat)
    requires
        n <= 0x1_0000_0000,
    ensures
        bytes_below(m.insert(k, v), n) + (if k < n && m.contains_key(k) {
            m[k].len()
        } else {
            0
        }) == bytes_below(m, n) + (if k < n {
            v.len()
        } else {
            0
        }),
    decreases n,
{
    if n > 0 {
        lemma_bytes_below_insert(m, k, v, (n - 1) as nat);
    }
}

/// Storing a payload adds its length and takes off the length of the
/// payload it replaces, if any.
pub proof fn lemma_total_insert(m: Map<u32, Seq<u8>>, k: u32, v: Seq<u8>)
    ensures
        total_bytes(m.insert(k, v)) + (if m.contains_key(k) {
            m[k].len()
        } else {
            0
        }) == total_bytes(m) + v.len(),
{
    lemma_bytes_below_insert(m, k, v, 0x1_0000_0000);
}

proof fn lemma_bytes_below_remove(m: Map<u32, Seq<u8>>, k: u32, n: nat)
    requires
        n <= 0x1_0000_0000,
        m.contains_key(k),
    ensures
        bytes_below(m.remove(k), n) + (if k < n {
            m[k].len()
        } else {
            0
        }) == bytes_below(m, n),
    decreases n,
{
    if n > 0 {
        lemma_bytes_below_remove(m, k, (n - 1) as nat);
    }
}

/// Taking a payload out takes off its length.
pub proof fn lemma_total_remove(m: Map<u32, Seq<u8>>, k: u32)
    requires
        m.contains_key(k),
    ensures
        total_bytes(m.remove(k)) + m[k].len() == total_bytes(m),
{
    lemma_bytes_below_remove(m, k, 0x1_0000_0000);
}

/// Draining leaves no segment at the sequence number reached, takes
/// nothing from elsewhere, and accounts for every byte.
pub proof fn lemma_drain(m: Map<u32, Seq<u8>>, ack: u32)
    requires
        m.dom().finite(),
    ensures
        !drain(m, ack).buffer.contains_key(drain(m, ack).ack),
        drain(m, ack).buffer.dom().finite(),
        drain(m, ack).buffer.submap_of(m),
        total_bytes(drain(m, ack).buffer) + total_len(drain(m, ack).segments) == total_bytes(m),
        drain(m, ack).ack == seq_add(ack, total_len(drain(m, ack).segments) as int),
    decreases m.dom().len(),
{
    if m.contains_key(ack) {
        let next = seq_add(ack, m[ack].len() as int);
        let rest = drain(m.remove(ack), next);
        lemma_drain(m.remove(ack), next);
        lemma_total_remove(m, ack);
        let segments = seq![m[ack]] + rest.segments;
        assert(segments.drop_first() =~= rest.segments);
        crate::seqnum::lemma_seq_add_add(ack, m[ack].len() as int, total_len(rest.segments) as int);
    } else {
        crate::seqnum::lemma_seq_add_zero(ack);
    }
}

/// The payloads of two lists laid end to end.
pub proof fn lemma_concat_add(a: Seq<Seq<u8>>, b: Seq<Seq<u8>>)
    ensures
        concat(a + b) == concat(a) + concat(b),
        total_len(a + b) == total_len(a) + total_len(b),
        concat(a).len() == total_len(a),
    decreases a.len(),
{
    if a.len() == 0 {
        assert(a + b =~= b);
        assert(concat(a + b) =~= concat(a) + concat(b));
    } else {
        assert((a + b).drop_first() =~= a.drop_first() + b);
        lemma_concat_add(a.drop_first(), b);
        assert(concat(a + b) =~= concat(a) + concat(b));
    }
}

} // verus!
