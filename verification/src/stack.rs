//! The virtual stack: connection table, port and sequence-number
//! allocation, and the queue of outbound datagrams.
//!
//! Every operation is a plain state change. The caller supplies the time,
//! ships what [`VirtualStack::take_outgoing_packets`] returns through the
//! tunnel, and carries out what [`VirtualStack::process_incoming_packet`]
//! leaves to do.

use crate::conn_id::TcpConnectionId;
use crate::model::TcbView;
use crate::model::TcpState;
use crate::stack_model::connect_spec;
use crate::stack_model::due_keys;
use crate::stack_model::emit_retransmits;
use crate::stack_model::inbound_spec;
use crate::stack_model::isn_increment;
use crate::stack_model::new_stack;
use crate::stack_model::next_port;
use crate::stack_model::resend_syn_spec;
use crate::stack_model::segment_spec;
use crate::stack_model::sendable;
use crate::stack_model::stack_close_spec;
use crate::stack_model::stack_receiver_gone_spec;
use crate::stack_model::stack_send_spec;
use crate::stack_model::swept;
use crate::stack_model::syn_pending;
use crate::stack_model::take_outgoing_spec;
use crate::stack_model::without_stale;
use crate::stack_model::StackView;
use crate::stack_model::FIRST_ISN;
use crate::stack_model::FIRST_PORT;
use crate::stack_model::LAST_PORT;
use crate::seqnum::seq_add;
use crate::seqnum::seq_advance;
use crate::tcb::TcpControlBlock;
use crate::transitions::head_due;
use crate::transitions::head_exhausted;
use crate::transitions::is_stale;
use crate::transitions::sweep_spec;
use crate::tcb::TcpPacketAction;
use crate::wire::emit;
use crate::wire::parse_packet;
use crate::wire::payloads;
use crate::wire::TcpSegment;
use crate::wire::FLAG_ACK;
use crate::wire::FLAG_FIN;
use crate::wire::FLAG_RST;
use crate::wire::FLAG_SYN;
use std::collections::HashMap;
use vstd::prelude::*;
use vstd::std_specs::hash::spec_keys_iter;
use vstd::std_specs::iter::IteratorSpec;

verus! {

/// Why data could not be sent: the connection is not connected.
#[derive(Debug, Clone, Copy, PartialEq, Eq, Structural)]
pub enum NotConnected {
    /// No connection with this identifier is in the table.
    ConnectionNotFound,
    /// The connection is in a state in which nothing can be sent.
    NotSendable,
}

/// Whether data can be sent on `id`, and if not, why not.
pub open spec fn send_outcome(s: StackView, id: TcpConnectionId) -> Result<(), NotConnected> {
    if !s.has(id) {
        Err(NotConnected::ConnectionNotFound)
    } else if !sendable(s, id) {
        Err(NotConnected::NotSendable)
    } else {
        Ok(())
    }
}

/// The connection table as a map of mathematical control blocks.
pub open spec fn table_view(m: Map<u128, TcpControlBlock>) -> Map<u128, TcbView> {
    m.map_values(|t: TcpControlBlock| t@)
}

/// What [`VirtualStack::process_incoming_packet`] returns, as a
/// mathematical value.
pub open spec fn outcome_view(r: Option<(TcpConnectionId, TcpPacketAction)>) -> Option<
    (TcpConnectionId, crate::model::ActionView),
> {
    match r {
        Some((id, action)) => Some((id, action@)),
        None => None,
    }
}

/// Virtual TCP/IP stack for a tunnel that carries raw IP datagrams.
///
/// Manages TCP connections at the IP packet level. Outgoing datagrams are
/// queued and must be sent by the caller through the tunnel. Incoming
/// datagrams are processed here, and application data is handed back to
/// the caller for delivery.
pub struct VirtualStack {
    local_ipv4: u32,
    tcp_connections: HashMap<u128, TcpControlBlock>,
    next_local_port: u16,
    next_seq: u32,
    /// Queued outgoing IP packets (to be sent through the tunnel).
    outgoing_packets: Vec<Vec<u8>>,
}

impl View for VirtualStack {
    type V = StackView;

    closed spec fn view(&self) -> StackView {
        StackView {
            local_ipv4: self.local_ipv4,
            connections: table_view(self.tcp_connections@),
            next_local_port: self.next_local_port,
            next_seq: self.next_seq,
            outgoing: payloads(self.outgoing_packets@),
        }
    }
}

/// The view of a table has the keys of the table.
proof fn lemma_table_view(m: Map<u128, TcpControlBlock>)
    ensures
        table_view(m).dom() == m.dom(),
        m.dom().finite() ==> table_view(m).dom().finite(),
        forall|k: u128| m.contains_key(k) ==> #[trigger] table_view(m)[k] == m[k]@,
{
    assert(table_view(m).dom() =~= m.dom());
}

/// The keys of the connection table, each once, in the order in which the
/// table yields them.
fn table_keys(m: &HashMap<u128, TcpControlBlock>) -> (keys: Vec<u128>)
    ensures
        keys@.no_duplicates(),
        keys@.to_set() == m@.dom(),
{
    let mut keys: Vec<u128> = Vec::new();
    let ghost all = spec_keys_iter(m).remaining().unref();
    for k in it: m.keys()
        invariant
            it.seq().unref() == all,
            keys@ == all.subrange(0, it.index() as int),
    {
        keys.push(*k);
    }
    assert(keys@ =~= all);
    keys
}

/// Whether `k` is among the first `i` of `keys`.
spec fn visited(keys: Seq<u128>, i: int, k: u128) -> bool {
    keys.subrange(0, i).contains(k)
}

/// One more key visited.
proof fn lemma_visited_step(keys: Seq<u128>, i: int)
    requires
        0 <= i < keys.len(),
    ensures
        forall|k: u128| #[trigger] visited(keys, i + 1, k) <==> visited(keys, i, k) || k == keys[i],
        forall|k: u128| !visited(keys, 0, k),
        keys.no_duplicates() ==> !visited(keys, i, keys[i]),
{
    let shorter = keys.subrange(0, i);
    let longer = keys.subrange(0, i + 1);
    assert(longer =~= shorter.push(keys[i]));
    assert forall|k: u128| #[trigger] visited(keys, i + 1, k) <==> visited(keys, i, k) || k
        == keys[i] by {
        if visited(keys, i, k) {
            let j = choose|j: int| 0 <= j < shorter.len() && shorter[j] == k;
            assert(longer[j] == k);
        }
        if k == keys[i] {
            assert(longer[i] == k);
        }
        if visited(keys, i + 1, k) {
            let j = choose|j: int| 0 <= j < longer.len() && longer[j] == k;
            if j < i {
                assert(shorter[j] == k);
            }
        }
    }
    if keys.no_duplicates() && visited(keys, i, keys[i]) {
        let j = choose|j: int| 0 <= j < shorter.len() && shorter[j] == keys[i];
        assert(keys[j] == keys[i]);
    }
}

/// Every key of the sequence has been visited at its end, and no other.
proof fn lemma_visited_all(keys: Seq<u128>)
    ensures
        forall|k: u128| #[trigger] visited(keys, keys.len() as int, k) <==> keys.to_set().contains(k),
{
    assert(keys.subrange(0, keys.len() as int) =~= keys);
}

/// An empty payload.
fn no_payload() -> (v: Vec<u8>)
    ensures
        v@ == Seq::<u8>::empty(),
{
    Vec::new()
}

impl VirtualStack {
    /// Well-formedness: the model satisfies the stack invariant.
    pub open spec fn wf(&self) -> bool {
        self@.inv()
    }

    /// Create a new virtual stack with the given local IPv4 address.
    pub fn new(local_ipv4: u32) -> (stack: VirtualStack)
        ensures
            stack@ == new_stack(local_ipv4),
            stack.wf(),
    {
        let stack = VirtualStack {
            local_ipv4,
            tcp_connections: HashMap::new(),
            next_local_port: FIRST_PORT,
            next_seq: FIRST_ISN,
            outgoing_packets: Vec::new(),
        };
        proof {
            assert(table_view(stack.tcp_connections@) =~= Map::<u128, TcbView>::empty());
            assert(payloads(stack.outgoing_packets@) =~= Seq::<Seq<u8>>::empty());
        }
        stack
    }

    /// Hands out the next local port: counting up from 49152 and starting
    /// over at 49152 after 64999, so that every port lies in
    /// [49152, 65000).
    pub fn allocate_port(&mut self) -> (port: u16)
        requires
            old(self).wf(),
        ensures
            final(self).wf(),
            port == old(self)@.next_local_port,
            FIRST_PORT <= port < LAST_PORT,
            final(self)@ == (StackView { next_local_port: next_port(port), ..old(self)@ }),
    {
        let port: u16 = self.next_local_port;
        if port >= LAST_PORT - 1 {
            self.next_local_port = FIRST_PORT;
        } else {
            self.next_local_port = port + 1;
        }
        port
    }

    /// Hands out the next initial sequence number and moves the generator
    /// on by a step derived from the wall clock's sub-second component.
    pub fn generate_initial_seq(&mut self, subsec_nanos: u32) -> (isn: u32)
        requires
            old(self).wf(),
        ensures
            final(self).wf(),
            isn == old(self)@.next_seq,
            final(self)@ == (StackView {
                next_seq: seq_add(isn, isn_increment(subsec_nanos) as int),
                ..old(self)@
            }),
    {
        let increment: u32 = subsec_nanos % 1_000_000 + 1;
        let isn: u32 = self.next_seq;
        self.next_seq = self.next_seq.wrapping_add(increment);
        isn
    }

    /// Build and queue a TCP packet for sending.
    fn send_tcp_packet(
        &mut self,
        conn_id: &TcpConnectionId,
        seq: u32,
        ack: u32,
        flags: u8,
        payload: &[u8],
    )
        ensures
            final(self)@ == (StackView {
                outgoing: emit(old(self)@.outgoing, *conn_id, seq, ack, flags, payload@),
                ..old(self)@
            }),
    {
        crate::wire::send_tcp_packet(&mut self.outgoing_packets, conn_id, seq, ack, flags, payload);
    }

    /// Files a control block under the key of its identifier.
    fn store(&mut self, key: u128, tcb: TcpControlBlock)
        requires
            old(self).wf(),
            tcb.wf(),
            tcb@.id.key_spec() == key,
        ensures
            final(self).wf(),
            final(self)@ == (StackView {
                connections: old(self)@.connections.insert(key, tcb@),
                ..old(self)@
            }),
    {
        proof {
            lemma_table_view(self.tcp_connections@);
        }
        let ghost before = self.tcp_connections@;
        self.tcp_connections.insert(key, tcb);
        proof {
            lemma_table_view(self.tcp_connections@);
            assert(table_view(self.tcp_connections@) =~= table_view(before).insert(key, tcb@));
        }
    }

    /// Takes a control block out of the table.
    fn take(&mut self, key: u128) -> (tcb: Option<TcpControlBlock>)
        requires
            old(self).wf(),
        ensures
            final(self).wf(),
            final(self)@ == (StackView {
                connections: old(self)@.connections.remove(key),
                ..old(self)@
            }),
            tcb is Some <==> old(self)@.connections.contains_key(key),
            tcb matches Some(t) ==> t@ == old(self)@.connections[key] && t.wf() && t@.id.key_spec()
                == key,
    {
        proof {
            lemma_table_view(self.tcp_connections@);
        }
        let ghost before = self.tcp_connections@;
        let tcb = self.tcp_connections.remove(&key);
        proof {
            lemma_table_view(self.tcp_connections@);
            assert(table_view(self.tcp_connections@) =~= table_view(before).remove(key));
        }
        tcb
    }

    /// Initiate a TCP connection to a remote endpoint: allocates a port and
    /// an initial sequence number, files the control block in state
    /// `SynSent` and queues the SYN. Returns the connection identifier.
    pub fn tcp_connect(&mut self, remote_addr: u32, remote_port: u16, now: u64, subsec_nanos: u32)
        -> (conn_id: TcpConnectionId)
        requires
            old(self).wf(),
        ensures
            final(self).wf(),
            (final(self)@, conn_id) == connect_spec(
                old(self)@,
                remote_addr,
                remote_port,
                now,
                subsec_nanos,
            ),
    {
        let local_port: u16 = self.allocate_port();
        let initial_seq: u32 = self.generate_initial_seq(subsec_nanos);
        let conn_id = TcpConnectionId {
            local_addr: self.local_ipv4,
            local_port,
            remote_addr,
            remote_port,
        };
        let tcb = TcpControlBlock::new(conn_id, initial_seq, now);
        self.store(conn_id.table_key(), tcb);
        let empty = no_payload();
        self.send_tcp_packet(&conn_id, initial_seq, 0, FLAG_SYN, empty.as_slice());
        conn_id
    }

    /// Send data on an established TCP connection.
    ///
    /// Fails, and changes nothing, if the connection is unknown or its
    /// state is neither `Established` nor `CloseWait`.
    pub fn tcp_send(&mut self, conn_id: &TcpConnectionId, data: &[u8], now: u64) -> (r: Result<
        (),
        NotConnected,
    >)
        requires
            old(self).wf(),
        ensures
            final(self).wf(),
            r == send_outcome(old(self)@, *conn_id),
            r is Ok ==> final(self)@ == stack_send_spec(old(self)@, *conn_id, data@, now),
            r is Err ==> final(self)@ == old(self)@,
    {
        let key: u128 = conn_id.table_key();
        let ghost s = self@;
        let mut tcb = match self.take(key) {
            Some(t) => t,
            None => {
                assert(self@.connections =~= s.connections);
                return Err(NotConnected::ConnectionNotFound);
            },
        };
        proof {
            TcpConnectionId::lemma_key_injective(tcb@.id, *conn_id);
        }
        let state = tcb.state();
        if state != TcpState::Established && state != TcpState::CloseWait {
            self.store(key, tcb);
            assert(self@.connections =~= s.connections);
            return Err(NotConnected::NotSendable);
        }
        tcb.send(data, now, &mut self.outgoing_packets);
        self.store(key, tcb);
        assert(self@.connections =~= stack_send_spec(s, *conn_id, data@, now).connections);
        Ok(())
    }

    /// Close a TCP connection gracefully. From `Established` the connection
    /// goes to `FinWait1`, from `CloseWait` to `LastAck`; there the
    /// retransmit queue is cleared and a FIN-ACK is queued. In any other
    /// state, and for an unknown connection, nothing changes.
    pub fn tcp_close(&mut self, conn_id: &TcpConnectionId) -> (r: Result<(), NotConnected>)
        requires
            old(self).wf(),
        ensures
            final(self).wf(),
            r is Ok,
            final(self)@ == stack_close_spec(old(self)@, *conn_id),
    {
        let key: u128 = conn_id.table_key();
        let ghost s = self@;
        let mut tcb = match self.take(key) {
            Some(t) => t,
            None => {
                assert(self@.connections =~= s.connections);
                return Ok(());
            },
        };
        proof {
            TcpConnectionId::lemma_key_injective(tcb@.id, *conn_id);
        }
        let fin = tcb.close();
        self.store(key, tcb);
        assert(self@.connections =~= stack_close_spec(s, *conn_id).connections);
        match fin {
            Some((seq, ack)) => {
                let empty = no_payload();
                self.send_tcp_packet(conn_id, seq, ack, FLAG_FIN | FLAG_ACK, empty.as_slice());
            },
            None => {},
        }
        Ok(())
    }

    /// Check if a connection is in the Established state.
    pub fn is_tcp_established(&self, conn_id: &TcpConnectionId) -> (established: bool)
        ensures
            established == (self@.has(*conn_id) && self@.tcb(*conn_id).state
                == TcpState::Established),
    {
        let key: u128 = conn_id.table_key();
        proof {
            lemma_table_view(self.tcp_connections@);
        }
        match self.tcp_connections.get(&key) {
            Some(tcb) => tcb.state() == TcpState::Established,
            None => false,
        }
    }

    /// Get the current state of a TCP connection.
    pub fn get_tcp_state(&self, conn_id: &TcpConnectionId) -> (state: Option<TcpState>)
        ensures
            state == if self@.has(*conn_id) {
                Some(self@.tcb(*conn_id).state)
            } else {
                None::<TcpState>
            },
    {
        let key: u128 = conn_id.table_key();
        proof {
            lemma_table_view(self.tcp_connections@);
        }
        match self.tcp_connections.get(&key) {
            Some(tcb) => Some(tcb.state()),
            None => None,
        }
    }

    /// The control block of a connection, for inspection.
    pub fn tcb(&self, conn_id: &TcpConnectionId) -> (tcb: Option<&TcpControlBlock>)
        ensures
            tcb is Some <==> self@.has(*conn_id),
            tcb matches Some(t) ==> t@ == self@.tcb(*conn_id),
    {
        let key: u128 = conn_id.table_key();
        proof {
            lemma_table_view(self.tcp_connections@);
        }
        self.tcp_connections.get(&key)
    }

    /// Whether the connection has given up on its oldest unacknowledged
    /// segment: it is due once more, but was retransmitted as often as
    /// allowed. False for an unknown connection.
    pub fn retransmit_exhausted(&self, conn_id: &TcpConnectionId, now: u64) -> (exhausted: bool)
        ensures
            exhausted == (self@.has(*conn_id) && head_exhausted(self@.tcb(*conn_id), now)),
    {
        match self.tcb(conn_id) {
            Some(tcb) => tcb.retransmit_exhausted(now),
            None => false,
        }
    }

    /// The local IPv4 address of the stack.
    pub fn local_ipv4(&self) -> (addr: u32)
        ensures
            addr == self@.local_ipv4,
    {
        self.local_ipv4
    }

    /// Remove a TCP connection from tracking.
    pub fn remove_tcp_connection(&mut self, conn_id: &TcpConnectionId)
        requires
            old(self).wf(),
        ensures
            final(self).wf(),
            final(self)@ == (StackView {
                connections: old(self)@.connections.remove(conn_id.key_spec()),
                ..old(self)@
            }),
    {
        let key: u128 = conn_id.table_key();
        let _ = self.take(key);
    }

    /// Resend SYN for a connection in SynSent state, with the initial
    /// sequence number it was first sent with. Returns true if the SYN was
    /// resent, false if the connection is unknown or not in SynSent state.
    pub fn resend_syn_if_pending(&mut self, conn_id: &TcpConnectionId) -> (resent: bool)
        requires
            old(self).wf(),
        ensures
            final(self).wf(),
            resent == syn_pending(old(self)@, *conn_id),
            final(self)@ == resend_syn_spec(old(self)@, *conn_id),
    {
        let key: u128 = conn_id.table_key();
        proof {
            lemma_table_view(self.tcp_connections@);
        }
        let initial_seq: Option<u32> = match self.tcp_connections.get(&key) {
            Some(tcb) => {
                if tcb.state() == TcpState::SynSent {
                    Some(tcb.initial_seq())
                } else {
                    None
                }
            },
            None => None,
        };
        match initial_seq {
            Some(seq) => {
                let empty = no_payload();
                self.send_tcp_packet(conn_id, seq, 0, FLAG_SYN, empty.as_slice());
                true
            },
            None => false,
        }
    }

    /// Take all queued outgoing IP packets (the caller sends them through
    /// the tunnel). The queue is empty afterwards.
    pub fn take_outgoing_packets(&mut self) -> (packets: Vec<Vec<u8>>)
        ensures
            (final(self)@, payloads(packets@)) == take_outgoing_spec(old(self)@),
            packets@.len() == old(self)@.outgoing.len(),
    {
        let mut packets: Vec<Vec<u8>> = Vec::new();
        std::mem::swap(&mut packets, &mut self.outgoing_packets);
        assert(payloads(self.outgoing_packets@) =~= Seq::<Seq<u8>>::empty());
        packets
    }

    /// Get number of active TCP connections.
    pub fn connection_count(&self) -> (count: usize)
        ensures
            count == self@.connections.len(),
    {
        proof {
            lemma_table_view(self.tcp_connections@);
        }
        self.tcp_connections.len()
    }

    /// Handles a parsed segment: advances the connection it belongs to and
    /// queues the reply, or answers a segment for an unknown connection
    /// with a reset.
    fn process_tcp_packet(&mut self, conn_id: TcpConnectionId, seg: TcpSegment, now: u64) -> (r:
        Option<(TcpConnectionId, TcpPacketAction)>)
        requires
            old(self).wf(),
        ensures
            final(self).wf(),
            (final(self)@, outcome_view(r)) == segment_spec(old(self)@, conn_id, seg@, now),
    {
        let key: u128 = conn_id.table_key();
        let ghost s = self@;
        let empty = no_payload();
        match self.take(key) {
            Some(mut tcb) => {
                proof {
                    TcpConnectionId::lemma_key_injective(tcb@.id, conn_id);
                }
                let action = tcb.on_segment(seg, now);
                self.store(key, tcb);
                assert(self@.connections =~= segment_spec(s, conn_id, seg@, now).0.connections);
                match action.reply() {
                    Some((seq, ack)) => {
                        self.send_tcp_packet(&conn_id, seq, ack, FLAG_ACK, empty.as_slice());
                    },
                    None => {},
                }
                Some((conn_id, action))
            },
            None => {
                assert(self@.connections =~= s.connections);
                if !seg.rst {
                    if seg.ack {
                        self.send_tcp_packet(&conn_id, seg.ack_num, 0, FLAG_RST, empty.as_slice());
                    } else {
                        let past_payload: u32 = seq_advance(seg.seq, seg.payload.len());
                        let ack_num: u32 = seq_advance(
                            past_payload,
                            if seg.syn || seg.fin {
                                1
                            } else {
                                0
                            },
                        );
                        self.send_tcp_packet(
                            &conn_id,
                            0,
                            ack_num,
                            FLAG_RST | FLAG_ACK,
                            empty.as_slice(),
                        );
                    }
                }
                None
            },
        }
    }

    /// Process an incoming IP packet received from the tunnel.
    ///
    /// Anything that is not IPv4 carrying TCP is dropped without effect.
    /// Otherwise the segment is handled and the reply queued; what is left
    /// to do for the connection (deliveries, end of stream, waking
    /// waiters) is returned with the connection's identifier.
    pub fn process_incoming_packet(&mut self, packet: &[u8], now: u64) -> (r: Option<
        (TcpConnectionId, TcpPacketAction),
    >)
        requires
            old(self).wf(),
        ensures
            final(self).wf(),
            (final(self)@, outcome_view(r)) == inbound_spec(old(self)@, packet@, now),
    {
        match parse_packet(packet) {
            Some((conn_id, seg)) => self.process_tcp_packet(conn_id, seg, now),
            None => None,
        }
    }

    /// Records that the application's receiver of `conn_id` has gone away
    /// while data was being delivered: the connection is closed.
    pub fn receiver_gone(&mut self, conn_id: &TcpConnectionId, now: u64)
        requires
            old(self).wf(),
        ensures
            final(self).wf(),
            final(self)@ == stack_receiver_gone_spec(old(self)@, *conn_id, now),
    {
        let key: u128 = conn_id.table_key();
        let ghost s = self@;
        match self.take(key) {
            Some(mut tcb) => {
                tcb.receiver_gone(now);
                self.store(key, tcb);
                assert(self@.connections =~= stack_receiver_gone_spec(s, *conn_id, now).connections);
            },
            None => {
                assert(self@.connections =~= s.connections);
            },
        }
    }

    /// Check all connections for segments that need retransmission.
    ///
    /// Only the oldest unacknowledged segment of each connection in state
    /// `Established` or `CloseWait` is considered. If it has waited for the
    /// connection's timeout and was retransmitted fewer than eight times,
    /// it is queued again with the current acknowledgment number, and the
    /// timeout doubles up to its ceiling. Returns the number of segments
    /// retransmitted. The connections are visited in the order of the
    /// table, which is not fixed.
    pub fn check_retransmissions(&mut self, now: u64) -> (count: usize)
        requires
            old(self).wf(),
        ensures
            final(self).wf(),
            final(self)@.connections == swept(old(self)@.connections, now),
            final(self)@.local_ipv4 == old(self)@.local_ipv4,
            final(self)@.next_local_port == old(self)@.next_local_port,
            final(self)@.next_seq == old(self)@.next_seq,
            count == due_keys(old(self)@.connections, now).len(),
            exists|order: Seq<u128>|
                {
                    &&& #[trigger] order.no_duplicates()
                    &&& order.to_set() == due_keys(old(self)@.connections, now)
                    &&& final(self)@.outgoing == emit_retransmits(
                        old(self)@.outgoing,
                        old(self)@.connections,
                        order,
                    )
                },
    {
        let keys = table_keys(&self.tcp_connections);
        let ghost s = self@;
        let ghost mut order: Seq<u128> = Seq::empty();
        let mut count: usize = 0;
        let mut i: usize = 0;
        proof {
            lemma_table_view(self.tcp_connections@);
            if keys.len() > 0 {
                lemma_visited_step(keys@, 0);
            } else {
                assert(keys@.subrange(0, 0) =~= keys@);
            }
        }
        while i < keys.len()
            invariant
                i <= keys.len(),
                keys@.no_duplicates(),
                keys@.to_set() == s.connections.dom(),
                s.inv(),
                self.wf(),
                self@.local_ipv4 == s.local_ipv4,
                self@.next_local_port == s.next_local_port,
                self@.next_seq == s.next_seq,
                self@.connections.dom() == s.connections.dom(),
                forall|k: u128| #[trigger]
                    s.connections.contains_key(k) ==> self@.connections[k] == if visited(
                        keys@,
                        i as int,
                        k,
                    ) {
                        sweep_spec(s.connections[k], now)
                    } else {
                        s.connections[k]
                    },
                order.no_duplicates(),
                forall|k: u128| #[trigger]
                    order.contains(k) <==> visited(keys@, i as int, k) && s.connections.contains_key(
                        k,
                    ) && head_due(s.connections[k], now),
                self@.outgoing == emit_retransmits(s.outgoing, s.connections, order),
                count == order.len(),
                count <= i,
            decreases keys.len() - i,
        {
            let key: u128 = keys[i];
            let ghost before = self@;
            let ghost order_before = order;
            proof {
                lemma_visited_step(keys@, i as int);
                assert(keys@.to_set().contains(key)) by {
                    assert(keys@.contains(key));
                }
            }
            match self.take(key) {
                Some(mut tcb) => {
                    let due = tcb.check_retransmission(now);
                    let id = tcb.id();
                    self.store(key, tcb);
                    match due {
                        Some((seq, data, flags, ack)) => {
                            self.send_tcp_packet(&id, seq, ack, flags, data.as_slice());
                            count = count + 1;
                            proof {
                                order = order_before.push(key);
                                assert(order.drop_last() =~= order_before);
                                assert(!order_before.contains(key));
                                assert forall|a: int, b: int|
                                    0 <= a < order.len() && 0 <= b < order.len() && a != b implies order[a]
                                    != order[b] by {
                                    if a < order_before.len() {
                                        assert(order_before.contains(order[a]));
                                    }
                                    if b < order_before.len() {
                                        assert(order_before.contains(order[b]));
                                    }
                                }
                                assert forall|k: u128| #[trigger]
                                    order.contains(k) <==> order_before.contains(k) || k == key by {
                                    if order_before.contains(k) {
                                        let j = choose|j: int|
                                            0 <= j < order_before.len() && order_before[j] == k;
                                        assert(order[j] == k);
                                    }
                                    if k == key {
                                        assert(order[order_before.len() as int] == k);
                                    }
                                }
                            }
                        },
                        None => {},
                    }
                },
                None => {},
            }
            proof {
                assert(self@.connections.dom() =~= s.connections.dom());
            }
            i = i + 1;
        }
        proof {
            lemma_visited_all(keys@);
            assert(self@.connections =~= swept(s.connections, now));
            assert(order.to_set() =~= due_keys(s.connections, now));
            order.unique_seq_to_set();
        }
        count
    }

    /// Clean up stale TCP connections: those whose age exceeds what their
    /// state allows. Returns the number removed.
    pub fn cleanup_stale_connections(&mut self, now: u64) -> (removed: usize)
        requires
            old(self).wf(),
        ensures
            final(self).wf(),
            final(self)@ == (StackView {
                connections: without_stale(old(self)@.connections, now),
                ..old(self)@
            }),
            removed == old(self)@.connections.len() - final(self)@.connections.len(),
    {
        proof {
            lemma_table_view(self.tcp_connections@);
        }
        let before: usize = self.tcp_connections.len();
        let keys = table_keys(&self.tcp_connections);
        let ghost s = self@;
        let mut i: usize = 0;
        proof {
            if keys.len() > 0 {
                lemma_visited_step(keys@, 0);
            } else {
                assert(keys@.subrange(0, 0) =~= keys@);
            }
        }
        while i < keys.len()
            invariant
                i <= keys.len(),
                keys@.no_duplicates(),
                keys@.to_set() == s.connections.dom(),
                s.inv(),
                self.wf(),
                self@.local_ipv4 == s.local_ipv4,
                self@.next_local_port == s.next_local_port,
                self@.next_seq == s.next_seq,
                self@.outgoing == s.outgoing,
                forall|k: u128| #[trigger]
                    self@.connections.contains_key(k) <==> s.connections.contains_key(k) && !(visited(
                        keys@,
                        i as int,
                        k,
                    ) && is_stale(s.connections[k], now)),
                forall|k: u128| #[trigger]
                    self@.connections.contains_key(k) ==> self@.connections[k] == s.connections[k],
            decreases keys.len() - i,
        {
            let key: u128 = keys[i];
            proof {
                lemma_visited_step(keys@, i as int);
                lemma_table_view(self.tcp_connections@);
            }
            let stale: bool = match self.tcp_connections.get(&key) {
                Some(tcb) => tcb.is_stale(now),
                None => false,
            };
            if stale {
                let _ = self.take(key);
            }
            i = i + 1;
        }
        proof {
            lemma_visited_all(keys@);
            lemma_table_view(self.tcp_connections@);
            assert(self@.connections =~= without_stale(s.connections, now));
            vstd::set_lib::lemma_len_subset(self@.connections.dom(), s.connections.dom());
        }
        before - self.tcp_connections.len()
    }
}

} // verus!
