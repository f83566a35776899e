//! The mathematical model of the virtual stack and of its operations.

use crate::conn_id::TcpConnectionId;
use crate::model::fresh_tcb;
use crate::model::ActionView;
use crate::model::TcbView;
use crate::model::TcpState;
use crate::seqnum::seq_add;
use crate::transitions::can_send;
use crate::transitions::close_emits_fin;
use crate::transitions::close_spec;
use crate::transitions::emit_all;
use crate::transitions::head_due;
use crate::transitions::is_stale;
use crate::transitions::on_segment_spec;
use crate::transitions::receiver_gone_spec;
use crate::transitions::segments_of;
use crate::transitions::send_spec;
use crate::transitions::sweep_spec;
use crate::wire::emit;
use crate::wire::parse_spec;
use crate::wire::SegmentView;
use crate::wire::FLAG_ACK;
use crate::wire::FLAG_FIN;
use crate::wire::FLAG_RST;
use crate::wire::FLAG_SYN;
use vstd::prelude::*;

verus! {

/// First local port the allocator hands out, and the one it returns to.
pub const FIRST_PORT: u16 = 49152;

/// End of the range of local ports: the allocator hands out the ports
/// below it and then starts over.
pub const LAST_PORT: u16 = 65000;

/// Where the initial-sequence-number generator starts.
pub const FIRST_ISN: u32 = 1_000_000;

/// The virtual stack as a mathematical value. The connection table is keyed
/// by the packed connection identifier ([`TcpConnectionId::key_spec`]).
pub struct StackView {
    pub local_ipv4: u32,
    pub connections: Map<u128, TcbView>,
    pub next_local_port: u16,
    pub next_seq: u32,
    pub outgoing: Seq<Seq<u8>>,
}

impl StackView {
    /// What holds of the stack between operations: every control block
    /// satisfies the connection invariant and is filed under its own
    /// identifier, and the next local port lies in the range of the
    /// allocator.
    pub open spec fn inv(self) -> bool {
        &&& FIRST_PORT <= self.next_local_port < LAST_PORT
        &&& self.connections.dom().finite()
        &&& forall|k: u128| #[trigger]
            self.connections.contains_key(k) ==> self.connections[k].inv()
                && self.connections[k].id.key_spec() == k
    }

    /// Whether the table holds a connection with this identifier.
    pub open spec fn has(self, id: TcpConnectionId) -> bool {
        self.connections.contains_key(id.key_spec())
    }

    /// The control block of a connection.
    pub open spec fn tcb(self, id: TcpConnectionId) -> TcbView {
        self.connections[id.key_spec()]
    }

    /// The stack with the control block of `id` set to `t`.
    pub open spec fn with_tcb(self, id: TcpConnectionId, t: TcbView) -> StackView {
        StackView { connections: self.connections.insert(id.key_spec(), t), ..self }
    }
}

/// A stack that has not opened any connection.
pub open spec fn new_stack(local_ipv4: u32) -> StackView {
    StackView {
        local_ipv4,
        connections: Map::empty(),
        next_local_port: FIRST_PORT,
        next_seq: FIRST_ISN,
        outgoing: Seq::empty(),
    }
}

/// The port the allocator hands out after `port`.
pub open spec fn next_port(port: u16) -> u16 {
    if port + 1 >= LAST_PORT {
        FIRST_PORT
    } else {
        (port + 1) as u16
    }
}

/// The step of the initial-sequence-number generator for a wall-clock
/// sub-second component: between 1 and 1,000,000.
pub open spec fn isn_increment(subsec_nanos: u32) -> u32 {
    (subsec_nanos % 1_000_000 + 1) as u32
}

/// Opening a connection: the identifier it gets and the stack afterwards,
/// with the new control block in the table and the SYN queued.
pub open spec fn connect_spec(
    s: StackView,
    remote_addr: u32,
    remote_port: u16,
    now: u64,
    subsec_nanos: u32,
) -> (StackView, TcpConnectionId) {
    let id = TcpConnectionId {
        local_addr: s.local_ipv4,
        local_port: s.next_local_port,
        remote_addr,
        remote_port,
    };
    (
        StackView {
            local_ipv4: s.local_ipv4,
            connections: s.connections.insert(id.key_spec(), fresh_tcb(id, s.next_seq, now)),
            next_local_port: next_port(s.next_local_port),
            next_seq: seq_add(s.next_seq, isn_increment(subsec_nanos) as int),
            outgoing: emit(s.outgoing, id, s.next_seq, 0, FLAG_SYN, Seq::empty()),
        },
        id,
    )
}

/// Whether data can be sent on `id`: the connection exists and its state
/// allows sending.
pub open spec fn sendable(s: StackView, id: TcpConnectionId) -> bool {
    s.has(id) && can_send(s.tcb(id).state)
}

/// The stack after `data` was sent on a sendable connection.
pub open spec fn stack_send_spec(s: StackView, id: TcpConnectionId, data: Seq<u8>, now: u64)
    -> StackView {
    let t = s.tcb(id);
    StackView {
        connections: s.connections.insert(id.key_spec(), send_spec(t, data, now)),
        outgoing: emit_all(s.outgoing, id, t.local_ack, segments_of(data, t.local_seq, now)),
        ..s
    }
}

/// The stack after `id` was closed by the application.
pub open spec fn stack_close_spec(s: StackView, id: TcpConnectionId) -> StackView {
    if s.has(id) {
        let t = s.tcb(id);
        StackView {
            connections: s.connections.insert(id.key_spec(), close_spec(t)),
            outgoing: if close_emits_fin(t.state) {
                emit(s.outgoing, id, t.local_seq, t.local_ack, FLAG_FIN | FLAG_ACK, Seq::empty())
            } else {
                s.outgoing
            },
            ..s
        }
    } else {
        s
    }
}

/// Whether a SYN is still unanswered on `id`.
pub open spec fn syn_pending(s: StackView, id: TcpConnectionId) -> bool {
    s.has(id) && s.tcb(id).state == TcpState::SynSent
}

/// The stack after the SYN of `id` was sent again, if it is still pending.
pub open spec fn resend_syn_spec(s: StackView, id: TcpConnectionId) -> StackView {
    if syn_pending(s, id) {
        StackView {
            outgoing: emit(s.outgoing, id, s.tcb(id).initial_seq, 0, FLAG_SYN, Seq::empty()),
            ..s
        }
    } else {
        s
    }
}

/// The outbound queue after the ACK that an action asks for was queued.
pub open spec fn reply_emit(out: Seq<Seq<u8>>, id: TcpConnectionId, action: ActionView) -> Seq<
    Seq<u8>,
> {
    match action.reply() {
        Some((seq, ack)) => emit(out, id, seq, ack, FLAG_ACK, Seq::empty()),
        None => out,
    }
}

/// The acknowledgment number of the reset that answers a segment without
/// ACK: past its payload, and past its SYN or FIN.
pub open spec fn orphan_ack(seg: SegmentView) -> u32 {
    seq_add(
        seq_add(seg.seq, seg.payload.len() as int),
        if seg.syn || seg.fin {
            1
        } else {
            0
        },
    )
}

/// The outbound queue after a segment for an unknown connection was
/// answered: a reset is never answered; a segment with ACK gets a RST that
/// takes its sequence number from the acknowledgment; any other gets a
/// RST+ACK that acknowledges it.
pub open spec fn orphan_reply(out: Seq<Seq<u8>>, id: TcpConnectionId, seg: SegmentView) -> Seq<
    Seq<u8>,
> {
    if seg.rst {
        out
    } else if seg.ack {
        emit(out, id, seg.ack_num, 0, FLAG_RST, Seq::empty())
    } else {
        emit(out, id, 0, orphan_ack(seg), FLAG_RST | FLAG_ACK, Seq::empty())
    }
}

/// What a parsed inbound segment makes of the stack, and the follow-up
/// work for the connection it belongs to, if there is one.
pub open spec fn segment_spec(s: StackView, id: TcpConnectionId, seg: SegmentView, now: u64) -> (
    StackView,
    Option<(TcpConnectionId, ActionView)>,
) {
    if s.has(id) {
        let (t, action) = on_segment_spec(s.tcb(id), seg, now);
        (
            StackView {
                connections: s.connections.insert(id.key_spec(), t),
                outgoing: reply_emit(s.outgoing, id, action),
                ..s
            },
            Some((id, action)),
        )
    } else {
        (StackView { outgoing: orphan_reply(s.outgoing, id, seg), ..s }, None)
    }
}

/// What an inbound datagram makes of the stack. Anything that is not IPv4
/// carrying TCP changes nothing.
pub open spec fn inbound_spec(s: StackView, packet: Seq<u8>, now: u64) -> (
    StackView,
    Option<(TcpConnectionId, ActionView)>,
) {
    match parse_spec(packet) {
        Some((id, seg)) => segment_spec(s, id, seg, now),
        None => (s, None),
    }
}

/// Taking the outbound queue: the stack afterwards, and what is handed
/// out.
pub open spec fn take_outgoing_spec(s: StackView) -> (StackView, Seq<Seq<u8>>) {
    (StackView { outgoing: Seq::empty(), ..s }, s.outgoing)
}

/// The stack after the receiver of `id` was found gone.
pub open spec fn stack_receiver_gone_spec(s: StackView, id: TcpConnectionId, now: u64)
    -> StackView {
    if s.has(id) {
        s.with_tcb(id, receiver_gone_spec(s.tcb(id), now))
    } else {
        s
    }
}

/// The connection table after one retransmission sweep.
pub open spec fn swept(connections: Map<u128, TcbView>, now: u64) -> Map<u128, TcbView> {
    connections.map_values(|t: TcbView| sweep_spec(t, now))
}

/// The connections whose oldest unacknowledged segment is due.
pub open spec fn due_keys(connections: Map<u128, TcbView>, now: u64) -> Set<u128> {
    Set::new(|k: u128| connections.contains_key(k) && head_due(connections[k], now))
}

/// The outbound queue after the oldest unacknowledged segment of `t` was
/// queued again, with the current acknowledgment number.
pub open spec fn emit_head(out: Seq<Seq<u8>>, t: TcbView) -> Seq<Seq<u8>> {
    let head = t.retransmit_queue[0];
    emit(out, t.id, head.seq, t.local_ack, head.flags, head.data)
}

/// The outbound queue after the connections in `order` each had their
/// oldest unacknowledged segment queued again, one after the other.
pub open spec fn emit_retransmits(
    out: Seq<Seq<u8>>,
    connections: Map<u128, TcbView>,
    order: Seq<u128>,
) -> Seq<Seq<u8>>
    decreases order.len(),
{
    if order.len() == 0 {
        out
    } else {
        emit_head(emit_retransmits(out, connections, order.drop_last()), connections[order.last()])
    }
}

/// The connection table without its stale connections.
pub open spec fn without_stale(connections: Map<u128, TcbView>, now: u64) -> Map<u128, TcbView> {
    connections.restrict(
        Set::new(|k: u128| connections.contains_key(k) && !is_stale(connections[k], now)),
    )
}

} // verus!
