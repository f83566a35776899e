use moonlight_core_rs::conn_id::TcpConnectionId;
use moonlight_core_rs::model::TcpState;
use moonlight_core_rs::stack::NotConnected;
use moonlight_core_rs::stack::VirtualStack;
use moonlight_core_rs::tcb::TcpPacketAction;
use moonlight_core_rs::wire::parse_packet;
use moonlight_core_rs::wire::FLAG_ACK;
use moonlight_core_rs::wire::FLAG_FIN;
use moonlight_core_rs::wire::FLAG_PSH;
use moonlight_core_rs::wire::FLAG_RST;
use moonlight_core_rs::wire::FLAG_SYN;

const LOCAL: u32 = 0x0A00_0001;
const REMOTE: u32 = 0x0A00_0005;
const ISN: u32 = 1_000_000;

/// A hand-made datagram with zero checksums.
fn datagram(
    src: u32,
    sport: u16,
    dst: u32,
    dport: u16,
    seq: u32,
    ack: u32,
    flags: u8,
    payload: &[u8],
) -> Vec<u8> {
    let mut p: Vec<u8> = Vec::new();
    let total = (40 + payload.len()) as u16;
    p.extend_from_slice(&[0x45, 0]);
    p.extend_from_slice(&total.to_be_bytes());
    p.extend_from_slice(&[0, 0, 0x40, 0, 64, 6, 0, 0]);
    p.extend_from_slice(&src.to_be_bytes());
    p.extend_from_slice(&dst.to_be_bytes());
    p.extend_from_slice(&sport.to_be_bytes());
    p.extend_from_slice(&dport.to_be_bytes());
    p.extend_from_slice(&seq.to_be_bytes());
    p.extend_from_slice(&ack.to_be_bytes());
    p.extend_from_slice(&[0x50, flags, 0xFF, 0xFF, 0, 0, 0, 0]);
    p.extend_from_slice(payload);
    p
}

/// A segment from the peer of `id`.
fn from_peer(id: &TcpConnectionId, seq: u32, ack: u32, flags: u8, payload: &[u8]) -> Vec<u8> {
    datagram(id.remote_addr, id.remote_port, id.local_addr, id.local_port, seq, ack, flags, payload)
}

/// Sequence number, acknowledgment number, flags byte and payload of an
/// outbound datagram.
fn sent(packet: &[u8]) -> (u32, u32, u8, Vec<u8>) {
    let seq = u32::from_be_bytes([packet[24], packet[25], packet[26], packet[27]]);
    let ack = u32::from_be_bytes([packet[28], packet[29], packet[30], packet[31]]);
    let header = ((packet[32] >> 4) as usize) * 4;
    (seq, ack, packet[33], packet[20 + header..].to_vec())
}

/// A stack with one established connection: our ISN is 1,000,000, the
/// peer's 9000.
fn established() -> (VirtualStack, TcpConnectionId) {
    let mut stack = VirtualStack::new(LOCAL);
    let id = stack.tcp_connect(REMOTE, 80, 0, 0);
    stack.take_outgoing_packets();
    let syn_ack = from_peer(&id, 9000, ISN + 1, FLAG_SYN | FLAG_ACK, &[]);
    stack.process_incoming_packet(&syn_ack, 10);
    stack.take_outgoing_packets();
    (stack, id)
}

#[test]
fn handshake() {
    let mut stack = VirtualStack::new(LOCAL);
    let id = stack.tcp_connect(REMOTE, 80, 0, 123_456_789);
    assert_eq!(
        id,
        TcpConnectionId { local_addr: LOCAL, local_port: 49152, remote_addr: REMOTE, remote_port: 80 }
    );
    assert_eq!(stack.get_tcp_state(&id), Some(TcpState::SynSent));
    assert!(!stack.is_tcp_established(&id));
    let out = stack.take_outgoing_packets();
    assert_eq!(out.len(), 1);
    let syn = &out[0];
    assert_eq!(sent(syn).0, ISN);
    assert_eq!(sent(syn).1, 0);
    assert_eq!(sent(syn).2, FLAG_SYN);
    assert_eq!(&syn[40..48], &[0x02, 0x04, 0x05, 0x50, 0x01, 0x03, 0x03, 0x07][..]);
    assert_eq!(syn.len(), 48);
    assert_eq!(&syn[12..16], &[10, 0, 0, 1][..]);
    assert_eq!(&syn[16..20], &[10, 0, 0, 5][..]);
    assert_eq!(&syn[20..22], &49152u16.to_be_bytes()[..]);
    assert_eq!(&syn[22..24], &80u16.to_be_bytes()[..]);

    let syn_ack = from_peer(&id, 9000, ISN + 1, FLAG_SYN | FLAG_ACK, &[]);
    let (conn, action) = stack.process_incoming_packet(&syn_ack, 10).unwrap();
    assert_eq!(conn, id);
    assert!(matches!(action, TcpPacketAction::ConnectionEstablished { seq, ack }
        if seq == ISN + 1 && ack == 9001));
    let delivery = action.into_delivery();
    assert!(delivery.notify);
    assert!(delivery.payloads.is_empty());
    assert!(!delivery.eof);
    let out = stack.take_outgoing_packets();
    assert_eq!(out.len(), 1);
    assert_eq!(sent(&out[0]), (ISN + 1, 9001, FLAG_ACK, vec![]));
    assert_eq!(out[0].len(), 40);
    assert!(stack.is_tcp_established(&id));
    assert_eq!(stack.get_tcp_state(&id), Some(TcpState::Established));
    let tcb = stack.tcb(&id).unwrap();
    assert_eq!(tcb.local_seq(), ISN + 1);
    assert_eq!(tcb.snd_una(), ISN + 1);
    assert_eq!(tcb.local_ack(), 9001);
    assert_eq!(tcb.initial_seq(), ISN);
    assert_eq!(tcb.rto(), 500);
}

#[test]
fn in_order_data() {
    let (mut stack, id) = established();
    let (_, action) =
        stack.process_incoming_packet(&from_peer(&id, 9001, ISN + 1, FLAG_ACK, b"HELLO"), 20).unwrap();
    assert!(matches!(&action, TcpPacketAction::SendData { seq, ack, data }
        if *seq == ISN + 1 && *ack == 9006 && data == b"HELLO"));
    let delivery = action.into_delivery();
    assert_eq!(delivery.payloads, vec![b"HELLO".to_vec()]);
    assert!(!delivery.eof);
    assert!(delivery.close_on_disconnect);
    assert!(!delivery.notify);
    let out = stack.take_outgoing_packets();
    assert_eq!(out.len(), 1);
    assert_eq!(sent(&out[0]), (ISN + 1, 9006, FLAG_ACK, vec![]));
    assert_eq!(stack.tcb(&id).unwrap().local_ack(), 9006);
}

#[test]
fn reorder_then_fill() {
    let (mut stack, id) = established();
    let (_, first) =
        stack.process_incoming_packet(&from_peer(&id, 9006, ISN + 1, FLAG_ACK, b"WORLD"), 20).unwrap();
    assert!(matches!(first, TcpPacketAction::BufferedOutOfOrder { seq, ack }
        if seq == ISN + 1 && ack == 9001));
    assert!(first.into_delivery().payloads.is_empty());
    assert_eq!(stack.tcb(&id).unwrap().reorder_buffer_bytes(), 5);
    let (_, second) =
        stack.process_incoming_packet(&from_peer(&id, 9001, ISN + 1, FLAG_ACK, b"HELLO"), 21).unwrap();
    assert!(matches!(&second, TcpPacketAction::SendMultipleData { ack, .. } if *ack == 9011));
    let delivery = second.into_delivery();
    assert_eq!(delivery.payloads, vec![b"HELLO".to_vec(), b"WORLD".to_vec()]);
    assert!(!delivery.eof);
    let out = stack.take_outgoing_packets();
    assert_eq!(out.len(), 2);
    assert_eq!(sent(&out[0]), (ISN + 1, 9001, FLAG_ACK, vec![]));
    assert_eq!(sent(&out[1]), (ISN + 1, 9011, FLAG_ACK, vec![]));
    assert_eq!(stack.tcb(&id).unwrap().reorder_buffer_bytes(), 0);
    assert_eq!(stack.tcb(&id).unwrap().local_ack(), 9011);
}

#[test]
fn out_of_order_fin() {
    let (mut stack, id) = established();
    let (_, first) =
        stack.process_incoming_packet(&from_peer(&id, 9006, ISN + 1, FLAG_FIN | FLAG_ACK, &[]), 20)
            .unwrap();
    assert!(matches!(first, TcpPacketAction::BufferedOutOfOrder { ack, .. } if ack == 9001));
    assert_eq!(stack.tcb(&id).unwrap().pending_fin_seq(), Some(9006));
    assert_eq!(stack.get_tcp_state(&id), Some(TcpState::Established));
    let (_, second) =
        stack.process_incoming_packet(&from_peer(&id, 9001, ISN + 1, FLAG_ACK, b"abcde"), 21).unwrap();
    assert!(matches!(&second, TcpPacketAction::SendDataThenFinAck { ack, .. } if *ack == 9007));
    let delivery = second.into_delivery();
    assert_eq!(delivery.payloads, vec![b"abcde".to_vec()]);
    assert!(delivery.eof);
    assert!(!delivery.close_on_disconnect);
    let out = stack.take_outgoing_packets();
    assert_eq!(out.len(), 2);
    assert_eq!(sent(&out[0]), (ISN + 1, 9001, FLAG_ACK, vec![]));
    assert_eq!(sent(&out[1]), (ISN + 1, 9007, FLAG_ACK, vec![]));
    assert_eq!(stack.get_tcp_state(&id), Some(TcpState::CloseWait));
    assert_eq!(stack.tcb(&id).unwrap().pending_fin_seq(), None);
    assert_eq!(stack.tcb(&id).unwrap().local_ack(), 9007);
}

#[test]
fn retransmit() {
    let (mut stack, id) = established();
    let data = vec![b'X'; 100];
    assert_eq!(stack.tcp_send(&id, &data, 1000), Ok(()));
    let out = stack.take_outgoing_packets();
    assert_eq!(out.len(), 1);
    assert_eq!(sent(&out[0]), (ISN + 1, 9001, FLAG_ACK | FLAG_PSH, data.clone()));
    assert_eq!(stack.tcb(&id).unwrap().local_seq(), ISN + 101);
    assert_eq!(stack.tcb(&id).unwrap().unacked_segments(), 1);

    assert_eq!(stack.check_retransmissions(1499), 0);
    assert!(!stack.retransmit_exhausted(&id, 1500));
    assert!(stack.take_outgoing_packets().is_empty());
    assert_eq!(stack.check_retransmissions(1500), 1);
    assert_eq!(stack.tcb(&id).unwrap().rto(), 1000);
    let out = stack.take_outgoing_packets();
    assert_eq!(out.len(), 1);
    assert_eq!(sent(&out[0]), (ISN + 1, 9001, FLAG_ACK | FLAG_PSH, data.clone()));

    assert_eq!(stack.check_retransmissions(2499), 0);
    assert_eq!(stack.check_retransmissions(2500), 1);
    assert_eq!(stack.tcb(&id).unwrap().rto(), 2000);
    assert_eq!(stack.take_outgoing_packets().len(), 1);
}

#[test]
fn orphan_packet() {
    let mut stack = VirtualStack::new(0x0A00_0001);
    let packet = datagram(0x0102_0304, 1234, 0x0A00_0001, 80, 777, 42, FLAG_ACK, b"data");
    assert!(stack.process_incoming_packet(&packet, 5).is_none());
    let out = stack.take_outgoing_packets();
    assert_eq!(out.len(), 1);
    assert_eq!(sent(&out[0]), (42, 0, FLAG_RST, vec![]));
    let (to, _) = parse_packet(&out[0]).unwrap();
    assert_eq!(
        to,
        TcpConnectionId {
            local_addr: 0x0102_0304,
            local_port: 1234,
            remote_addr: 0x0A00_0001,
            remote_port: 80,
        }
    );
    assert_eq!(stack.connection_count(), 0);
}

#[test]
fn orphan_without_ack_gets_rst_ack() {
    let mut stack = VirtualStack::new(LOCAL);
    let data = datagram(REMOTE, 1234, LOCAL, 80, 1000, 0, 0, b"abc");
    stack.process_incoming_packet(&data, 5);
    let syn = datagram(REMOTE, 1234, LOCAL, 80, 1000, 0, FLAG_SYN, &[]);
    stack.process_incoming_packet(&syn, 5);
    let fin = datagram(REMOTE, 1234, LOCAL, 80, 0xFFFF_FFFF, 0, FLAG_FIN, b"ab");
    stack.process_incoming_packet(&fin, 5);
    let out = stack.take_outgoing_packets();
    assert_eq!(out.len(), 3);
    assert_eq!(sent(&out[0]), (0, 1003, FLAG_RST | FLAG_ACK, vec![]));
    assert_eq!(sent(&out[1]), (0, 1001, FLAG_RST | FLAG_ACK, vec![]));
    assert_eq!(sent(&out[2]), (0, 2, FLAG_RST | FLAG_ACK, vec![]));
}

#[test]
fn orphan_reset_is_not_answered() {
    let mut stack = VirtualStack::new(LOCAL);
    let rst = datagram(REMOTE, 1234, LOCAL, 80, 1000, 5, FLAG_RST | FLAG_ACK, &[]);
    assert!(stack.process_incoming_packet(&rst, 5).is_none());
    assert!(stack.take_outgoing_packets().is_empty());
}

#[test]
fn malformed_datagrams_change_nothing() {
    let (mut stack, id) = established();
    assert!(stack.process_incoming_packet(&[], 20).is_none());
    assert!(stack.process_incoming_packet(&[0x45; 19], 20).is_none());
    let mut udp = from_peer(&id, 9001, ISN + 1, FLAG_ACK, b"HELLO");
    udp[9] = 17;
    assert!(stack.process_incoming_packet(&udp, 20).is_none());
    let mut v6 = from_peer(&id, 9001, ISN + 1, FLAG_ACK, b"HELLO");
    v6[0] = 0x60;
    assert!(stack.process_incoming_packet(&v6, 20).is_none());
    assert!(stack.take_outgoing_packets().is_empty());
    assert_eq!(stack.tcb(&id).unwrap().local_ack(), 9001);
    assert_eq!(stack.connection_count(), 1);
}

#[test]
fn duplicate_segment_is_only_acknowledged() {
    let (mut stack, id) = established();
    let hello = from_peer(&id, 9001, ISN + 1, FLAG_ACK, b"HELLO");
    stack.process_incoming_packet(&hello, 20);
    stack.take_outgoing_packets();
    let (_, action) = stack.process_incoming_packet(&hello, 21).unwrap();
    assert!(matches!(action, TcpPacketAction::SendAck { seq, ack } if seq == ISN + 1 && ack == 9006));
    let delivery = action.into_delivery();
    assert!(delivery.payloads.is_empty());
    assert!(!delivery.eof);
    let out = stack.take_outgoing_packets();
    assert_eq!(out.len(), 1);
    assert_eq!(sent(&out[0]), (ISN + 1, 9006, FLAG_ACK, vec![]));
    assert_eq!(stack.tcb(&id).unwrap().local_ack(), 9006);
}

#[test]
fn pure_ack_emits_nothing() {
    let (mut stack, id) = established();
    let (_, action) =
        stack.process_incoming_packet(&from_peer(&id, 9001, ISN + 1, FLAG_ACK, &[]), 20).unwrap();
    assert!(matches!(action, TcpPacketAction::Nothing));
    assert!(stack.take_outgoing_packets().is_empty());
}

#[test]
fn close_twice_is_close_once() {
    let (mut stack, id) = established();
    assert_eq!(stack.tcp_close(&id), Ok(()));
    assert_eq!(stack.get_tcp_state(&id), Some(TcpState::FinWait1));
    let out = stack.take_outgoing_packets();
    assert_eq!(out.len(), 1);
    assert_eq!(sent(&out[0]), (ISN + 1, 9001, FLAG_FIN | FLAG_ACK, vec![]));
    assert_eq!(stack.tcp_close(&id), Ok(()));
    assert_eq!(stack.get_tcp_state(&id), Some(TcpState::FinWait1));
    assert!(stack.take_outgoing_packets().is_empty());
}

#[test]
fn close_of_unknown_connection_is_a_no_op() {
    let mut stack = VirtualStack::new(LOCAL);
    let id =
        TcpConnectionId { local_addr: LOCAL, local_port: 5, remote_addr: REMOTE, remote_port: 80 };
    assert_eq!(stack.tcp_close(&id), Ok(()));
    assert!(stack.take_outgoing_packets().is_empty());
    assert_eq!(stack.connection_count(), 0);
}

#[test]
fn close_before_handshake_is_a_no_op() {
    let mut stack = VirtualStack::new(LOCAL);
    let id = stack.tcp_connect(REMOTE, 80, 0, 0);
    stack.take_outgoing_packets();
    assert_eq!(stack.tcp_close(&id), Ok(()));
    assert_eq!(stack.get_tcp_state(&id), Some(TcpState::SynSent));
    assert!(stack.take_outgoing_packets().is_empty());
}

#[test]
fn close_of_a_closed_connection_keeps_its_queue() {
    let (mut stack, id) = established();
    stack.tcp_send(&id, b"abc", 100).unwrap();
    stack.take_outgoing_packets();
    stack.receiver_gone(&id, 110);
    assert_eq!(stack.get_tcp_state(&id), Some(TcpState::Closed));
    assert_eq!(stack.tcb(&id).unwrap().unacked_segments(), 1);
    assert_eq!(stack.tcp_close(&id), Ok(()));
    assert_eq!(stack.get_tcp_state(&id), Some(TcpState::Closed));
    assert_eq!(stack.tcb(&id).unwrap().unacked_segments(), 1);
    assert!(stack.take_outgoing_packets().is_empty());
    assert_eq!(stack.connection_count(), 1);
}

#[test]
fn close_in_fin_wait_changes_nothing() {
    let (mut stack, id) = established();
    stack.tcp_close(&id).unwrap();
    stack.take_outgoing_packets();
    stack.process_incoming_packet(&from_peer(&id, 9001, ISN + 2, FLAG_ACK, &[]), 20);
    assert_eq!(stack.get_tcp_state(&id), Some(TcpState::FinWait2));
    assert_eq!(stack.tcp_close(&id), Ok(()));
    assert_eq!(stack.get_tcp_state(&id), Some(TcpState::FinWait2));
    assert!(stack.take_outgoing_packets().is_empty());
}

#[test]
fn close_clears_the_retransmit_queue() {
    let (mut stack, id) = established();
    stack.tcp_send(&id, b"abc", 100).unwrap();
    assert_eq!(stack.tcb(&id).unwrap().unacked_segments(), 1);
    stack.tcp_close(&id).unwrap();
    assert_eq!(stack.tcb(&id).unwrap().unacked_segments(), 0);
    assert_eq!(stack.check_retransmissions(100_000), 0);
}

#[test]
fn take_outgoing_twice_gives_empty() {
    let mut stack = VirtualStack::new(LOCAL);
    stack.tcp_connect(REMOTE, 80, 0, 0);
    assert_eq!(stack.take_outgoing_packets().len(), 1);
    assert!(stack.take_outgoing_packets().is_empty());
}

#[test]
fn ports_count_up_and_start_over_after_64999() {
    let mut stack = VirtualStack::new(LOCAL);
    assert_eq!(stack.allocate_port(), 49152);
    assert_eq!(stack.allocate_port(), 49153);
    let mut last = 49153;
    let mut calls = 2;
    while last < 64999 {
        let next = stack.allocate_port();
        assert_eq!(next, last + 1);
        last = next;
        calls += 1;
    }
    assert_eq!(last, 64999);
    assert_eq!(calls, 15848);
    assert_eq!(stack.allocate_port(), 49152);
    assert_eq!(stack.allocate_port(), 49153);
}

#[test]
fn every_port_lies_in_the_range() {
    let mut stack = VirtualStack::new(LOCAL);
    for _ in 0..40_000 {
        let port = stack.allocate_port();
        assert!((49152..65000).contains(&port));
    }
}

#[test]
fn initial_sequence_numbers_step_by_the_subsecond_component() {
    let mut stack = VirtualStack::new(LOCAL);
    assert_eq!(stack.generate_initial_seq(0), 1_000_000);
    assert_eq!(stack.generate_initial_seq(999_999), 1_000_001);
    assert_eq!(stack.generate_initial_seq(1_000_000), 2_000_001);
    assert_eq!(stack.generate_initial_seq(123_456_789), 2_000_002);
    assert_eq!(stack.generate_initial_seq(0), 2_456_792);
}

#[test]
fn initial_sequence_numbers_wrap() {
    let mut stack = VirtualStack::new(LOCAL);
    let mut isn = stack.generate_initial_seq(999_999);
    let mut steps = 0u32;
    while steps < 5000 {
        let next = stack.generate_initial_seq(999_999);
        assert_eq!(next, isn.wrapping_add(1_000_000));
        isn = next;
        steps += 1;
    }
    assert!(isn < 1_000_000_000);
}

#[test]
fn connections_get_distinct_ports_and_sequence_numbers() {
    let mut stack = VirtualStack::new(LOCAL);
    let a = stack.tcp_connect(REMOTE, 80, 0, 41);
    let b = stack.tcp_connect(REMOTE, 80, 0, 0);
    assert_eq!(a.local_port, 49152);
    assert_eq!(b.local_port, 49153);
    assert_eq!(stack.connection_count(), 2);
    let out = stack.take_outgoing_packets();
    assert_eq!(sent(&out[0]).0, 1_000_000);
    assert_eq!(sent(&out[1]).0, 1_000_042);
    assert_eq!(stack.tcb(&b).unwrap().initial_seq(), 1_000_042);
}

#[test]
fn send_needs_a_sendable_connection() {
    let mut stack = VirtualStack::new(LOCAL);
    let unknown =
        TcpConnectionId { local_addr: LOCAL, local_port: 5, remote_addr: REMOTE, remote_port: 80 };
    assert_eq!(stack.tcp_send(&unknown, b"x", 0), Err(NotConnected::ConnectionNotFound));
    let id = stack.tcp_connect(REMOTE, 80, 0, 0);
    stack.take_outgoing_packets();
    assert_eq!(stack.tcp_send(&id, b"x", 0), Err(NotConnected::NotSendable));
    assert!(stack.take_outgoing_packets().is_empty());
    assert_eq!(stack.tcb(&id).unwrap().local_seq(), ISN);
    let (mut stack, id) = established();
    stack.tcp_close(&id).unwrap();
    stack.take_outgoing_packets();
    assert_eq!(stack.tcp_send(&id, b"x", 0), Err(NotConnected::NotSendable));
    assert!(stack.take_outgoing_packets().is_empty());
}

#[test]
fn send_cuts_data_at_the_segment_size() {
    let (mut stack, id) = established();
    let data: Vec<u8> = (0..3000u32).map(|i| (i % 251) as u8).collect();
    stack.tcp_send(&id, &data, 50).unwrap();
    let out = stack.take_outgoing_packets();
    assert_eq!(out.len(), 3);
    assert_eq!(sent(&out[0]), (ISN + 1, 9001, FLAG_ACK, data[0..1360].to_vec()));
    assert_eq!(sent(&out[1]), (ISN + 1361, 9001, FLAG_ACK, data[1360..2720].to_vec()));
    assert_eq!(sent(&out[2]), (ISN + 2721, 9001, FLAG_ACK | FLAG_PSH, data[2720..3000].to_vec()));
    assert_eq!(stack.tcb(&id).unwrap().local_seq(), ISN + 3001);
    assert_eq!(stack.tcb(&id).unwrap().unacked_segments(), 3);
}

#[test]
fn send_of_exactly_one_segment_sets_psh() {
    let (mut stack, id) = established();
    stack.tcp_send(&id, &vec![7u8; 1360], 50).unwrap();
    let out = stack.take_outgoing_packets();
    assert_eq!(out.len(), 1);
    assert_eq!(sent(&out[0]).2, FLAG_ACK | FLAG_PSH);
    stack.tcp_send(&id, &vec![7u8; 2720], 50).unwrap();
    let out = stack.take_outgoing_packets();
    assert_eq!(out.len(), 2);
    assert_eq!(sent(&out[0]).2, FLAG_ACK);
    assert_eq!(sent(&out[1]).2, FLAG_ACK | FLAG_PSH);
}

#[test]
fn send_of_nothing_sends_nothing() {
    let (mut stack, id) = established();
    assert_eq!(stack.tcp_send(&id, &[], 50), Ok(()));
    assert!(stack.take_outgoing_packets().is_empty());
    assert_eq!(stack.tcb(&id).unwrap().unacked_segments(), 0);
    assert_eq!(stack.tcb(&id).unwrap().local_seq(), ISN + 1);
}

#[test]
fn acknowledgment_drops_covered_segments_and_resets_the_timeout() {
    let (mut stack, id) = established();
    stack.tcp_send(&id, &vec![1u8; 3000], 1000).unwrap();
    stack.take_outgoing_packets();
    assert_eq!(stack.check_retransmissions(1500), 1);
    assert_eq!(stack.check_retransmissions(2500), 1);
    assert_eq!(stack.tcb(&id).unwrap().rto(), 2000);
    stack.take_outgoing_packets();
    stack.process_incoming_packet(&from_peer(&id, 9001, ISN + 1361, FLAG_ACK, &[]), 2600);
    assert_eq!(stack.tcb(&id).unwrap().unacked_segments(), 2);
    assert_eq!(stack.tcb(&id).unwrap().snd_una(), ISN + 1361);
    assert_eq!(stack.tcb(&id).unwrap().rto(), 500);
    stack.process_incoming_packet(&from_peer(&id, 9001, ISN + 1361, FLAG_ACK, &[]), 2700);
    assert_eq!(stack.tcb(&id).unwrap().unacked_segments(), 2);
    stack.process_incoming_packet(&from_peer(&id, 9001, ISN + 2000, FLAG_ACK, &[]), 2800);
    assert_eq!(stack.tcb(&id).unwrap().unacked_segments(), 2);
    assert_eq!(stack.tcb(&id).unwrap().snd_una(), ISN + 2000);
    stack.process_incoming_packet(&from_peer(&id, 9001, ISN + 3001, FLAG_ACK, &[]), 2900);
    assert_eq!(stack.tcb(&id).unwrap().unacked_segments(), 0);
    assert_eq!(stack.check_retransmissions(100_000), 0);
}

#[test]
fn timeout_doubles_up_to_eight_seconds_and_stops_after_eight_tries() {
    let (mut stack, id) = established();
    stack.tcp_send(&id, b"x", 0).unwrap();
    let mut now = 0u64;
    let mut expected = [1000u64, 2000, 4000, 8000, 8000, 8000, 8000, 8000].iter();
    let mut tries = 0;
    loop {
        now += stack.tcb(&id).unwrap().rto();
        let count = stack.check_retransmissions(now);
        if count == 0 {
            break;
        }
        tries += 1;
        assert_eq!(stack.tcb(&id).unwrap().rto(), *expected.next().unwrap());
    }
    assert_eq!(tries, 8);
    assert!(stack.retransmit_exhausted(&id, now));
    assert!(!stack.retransmit_exhausted(&id, now - 1));
    assert_eq!(stack.check_retransmissions(now + 1_000_000), 0);
    assert!(stack.retransmit_exhausted(&id, now + 1_000_000));
    assert_eq!(stack.tcb(&id).unwrap().unacked_segments(), 1);
    assert_eq!(stack.take_outgoing_packets().len(), 9);
}

#[test]
fn only_the_oldest_segment_is_retransmitted() {
    let (mut stack, id) = established();
    stack.tcp_send(&id, &vec![1u8; 3000], 0).unwrap();
    stack.take_outgoing_packets();
    assert_eq!(stack.check_retransmissions(500), 1);
    let out = stack.take_outgoing_packets();
    assert_eq!(out.len(), 1);
    assert_eq!(sent(&out[0]).0, ISN + 1);
    assert_eq!(sent(&out[0]).3.len(), 1360);
}

#[test]
fn retransmission_carries_the_current_acknowledgment_number() {
    let (mut stack, id) = established();
    stack.tcp_send(&id, b"ping", 0).unwrap();
    stack.process_incoming_packet(&from_peer(&id, 9001, ISN + 1, FLAG_ACK, b"HELLO"), 100);
    stack.take_outgoing_packets();
    assert_eq!(stack.check_retransmissions(500), 1);
    let out = stack.take_outgoing_packets();
    assert_eq!(sent(&out[0]), (ISN + 1, 9006, FLAG_ACK | FLAG_PSH, b"ping".to_vec()));
}

#[test]
fn every_due_connection_retransmits_once() {
    let mut stack = VirtualStack::new(LOCAL);
    let mut ids: Vec<TcpConnectionId> = Vec::new();
    for port in 0..5u16 {
        let id = stack.tcp_connect(REMOTE, 8000 + port, 0, 0);
        stack.process_incoming_packet(
            &from_peer(&id, 9000, ISN + 1, FLAG_SYN | FLAG_ACK, &[]),
            0,
        );
        ids.push(id);
    }
    stack.tcp_send(&ids[0], b"zero", 0).unwrap();
    stack.tcp_send(&ids[2], b"two", 0).unwrap();
    stack.tcp_send(&ids[4], b"four", 400).unwrap();
    stack.take_outgoing_packets();
    assert_eq!(stack.check_retransmissions(500), 2);
    let out = stack.take_outgoing_packets();
    assert_eq!(out.len(), 2);
    let mut payloads: Vec<Vec<u8>> = out.iter().map(|p| sent(p).3).collect();
    payloads.sort();
    assert_eq!(payloads, vec![b"two".to_vec(), b"zero".to_vec()]);
    assert_eq!(stack.tcb(&ids[0]).unwrap().rto(), 1000);
    assert_eq!(stack.tcb(&ids[1]).unwrap().rto(), 500);
    assert_eq!(stack.tcb(&ids[2]).unwrap().rto(), 1000);
    assert_eq!(stack.tcb(&ids[4]).unwrap().rto(), 500);
    assert_eq!(stack.connection_count(), 5);
}

#[test]
fn in_order_fin_with_payload() {
    let (mut stack, id) = established();
    let (_, action) = stack
        .process_incoming_packet(&from_peer(&id, 9001, ISN + 1, FLAG_FIN | FLAG_ACK, b"bye"), 20)
        .unwrap();
    assert!(matches!(&action, TcpPacketAction::SendDataThenFinAck { ack, .. } if *ack == 9005));
    let delivery = action.into_delivery();
    assert_eq!(delivery.payloads, vec![b"bye".to_vec()]);
    assert!(delivery.eof);
    assert_eq!(stack.get_tcp_state(&id), Some(TcpState::CloseWait));
    let out = stack.take_outgoing_packets();
    assert_eq!(sent(&out[0]), (ISN + 1, 9005, FLAG_ACK, vec![]));
}

#[test]
fn in_order_fin_without_payload_then_half_close() {
    let (mut stack, id) = established();
    let (_, action) = stack
        .process_incoming_packet(&from_peer(&id, 9001, ISN + 1, FLAG_FIN | FLAG_ACK, &[]), 20)
        .unwrap();
    assert!(matches!(action, TcpPacketAction::SendFinAck { seq, ack } if seq == ISN + 1 && ack == 9002));
    let delivery = action.into_delivery();
    assert!(delivery.payloads.is_empty());
    assert!(delivery.eof);
    assert_eq!(stack.get_tcp_state(&id), Some(TcpState::CloseWait));
    stack.take_outgoing_packets();
    assert_eq!(stack.tcp_send(&id, b"still here", 30), Ok(()));
    let out = stack.take_outgoing_packets();
    assert_eq!(sent(&out[0]), (ISN + 1, 9002, FLAG_ACK | FLAG_PSH, b"still here".to_vec()));
    stack.tcp_close(&id).unwrap();
    assert_eq!(stack.get_tcp_state(&id), Some(TcpState::LastAck));
    let out = stack.take_outgoing_packets();
    assert_eq!(sent(&out[0]), (ISN + 11, 9002, FLAG_FIN | FLAG_ACK, vec![]));
    let (_, action) =
        stack.process_incoming_packet(&from_peer(&id, 9002, ISN + 12, FLAG_ACK, &[]), 40).unwrap();
    assert!(matches!(action, TcpPacketAction::Nothing));
    assert_eq!(stack.get_tcp_state(&id), Some(TcpState::Closed));
}

#[test]
fn premature_fin_with_payload_is_buffered() {
    let (mut stack, id) = established();
    stack.process_incoming_packet(&from_peer(&id, 9004, ISN + 1, FLAG_FIN | FLAG_ACK, b"de"), 20);
    assert_eq!(stack.tcb(&id).unwrap().pending_fin_seq(), Some(9006));
    assert_eq!(stack.tcb(&id).unwrap().reorder_buffer_bytes(), 2);
    let (_, action) =
        stack.process_incoming_packet(&from_peer(&id, 9001, ISN + 1, FLAG_ACK, b"abc"), 21).unwrap();
    assert!(matches!(&action, TcpPacketAction::SendDataThenFinAck { ack, .. } if *ack == 9007));
    let delivery = action.into_delivery();
    assert_eq!(delivery.payloads, vec![b"abc".to_vec(), b"de".to_vec()]);
    assert!(delivery.eof);
    assert_eq!(stack.get_tcp_state(&id), Some(TcpState::CloseWait));
    assert_eq!(stack.tcb(&id).unwrap().reorder_buffer_bytes(), 0);
}

#[test]
fn pending_fin_waits_for_the_whole_gap() {
    let (mut stack, id) = established();
    stack.process_incoming_packet(&from_peer(&id, 9007, ISN + 1, FLAG_FIN | FLAG_ACK, &[]), 20);
    let (_, action) =
        stack.process_incoming_packet(&from_peer(&id, 9001, ISN + 1, FLAG_ACK, b"abc"), 21).unwrap();
    assert!(matches!(&action, TcpPacketAction::SendData { ack, .. } if *ack == 9004));
    assert_eq!(stack.get_tcp_state(&id), Some(TcpState::Established));
    assert_eq!(stack.tcb(&id).unwrap().pending_fin_seq(), Some(9007));
    let (_, action) =
        stack.process_incoming_packet(&from_peer(&id, 9004, ISN + 1, FLAG_ACK, b"def"), 22).unwrap();
    assert!(matches!(&action, TcpPacketAction::SendDataThenFinAck { ack, .. } if *ack == 9008));
    assert_eq!(stack.get_tcp_state(&id), Some(TcpState::CloseWait));
}

#[test]
fn sequence_numbers_wrap_while_receiving() {
    let mut stack = VirtualStack::new(LOCAL);
    let id = stack.tcp_connect(REMOTE, 80, 0, 0);
    stack.process_incoming_packet(&from_peer(&id, 0xFFFF_FFFC, ISN + 1, FLAG_SYN | FLAG_ACK, &[]), 1);
    assert_eq!(stack.tcb(&id).unwrap().local_ack(), 0xFFFF_FFFD);
    stack.take_outgoing_packets();
    let (_, action) = stack
        .process_incoming_packet(&from_peer(&id, 0xFFFF_FFFD, ISN + 1, FLAG_ACK, b"HELLO"), 2)
        .unwrap();
    assert!(matches!(&action, TcpPacketAction::SendData { ack, .. } if *ack == 2));
    assert_eq!(stack.tcb(&id).unwrap().local_ack(), 2);
    let (_, dup) = stack
        .process_incoming_packet(&from_peer(&id, 0xFFFF_FFFD, ISN + 1, FLAG_ACK, b"HELLO"), 3)
        .unwrap();
    assert!(matches!(dup, TcpPacketAction::SendAck { ack, .. } if ack == 2));
}

#[test]
fn reorder_budget_drops_what_does_not_fit() {
    let (mut stack, id) = established();
    let chunk = vec![9u8; 60_000];
    let mut seq = 9001u32 + 100;
    let mut stored = 0usize;
    while stored + chunk.len() <= 1_048_576 {
        let (_, action) =
            stack.process_incoming_packet(&from_peer(&id, seq, ISN + 1, FLAG_ACK, &chunk), 20).unwrap();
        assert!(matches!(action, TcpPacketAction::BufferedOutOfOrder { .. }));
        stored += chunk.len();
        seq += 60_000;
    }
    assert_eq!(stored, 1_020_000);
    assert_eq!(stack.tcb(&id).unwrap().reorder_buffer_bytes(), stored);
    let (_, action) =
        stack.process_incoming_packet(&from_peer(&id, seq, ISN + 1, FLAG_ACK, &chunk), 21).unwrap();
    assert!(matches!(action, TcpPacketAction::DroppedOutOfOrder { seq, ack }
        if seq == ISN + 1 && ack == 9001));
    let delivery = action.into_delivery();
    assert!(delivery.payloads.is_empty() && !delivery.eof && !delivery.notify);
    let out = stack.take_outgoing_packets();
    assert_eq!(sent(out.last().unwrap()), (ISN + 1, 9001, FLAG_ACK, vec![]));
    assert_eq!(stack.tcb(&id).unwrap().reorder_buffer_bytes(), stored);
    let exact = vec![1u8; 1_048_576 - stored];
    let (_, action) =
        stack.process_incoming_packet(&from_peer(&id, seq, ISN + 1, FLAG_ACK, &exact), 22).unwrap();
    assert!(matches!(action, TcpPacketAction::BufferedOutOfOrder { .. }));
    assert_eq!(stack.tcb(&id).unwrap().reorder_buffer_bytes(), 1_048_576);
    let (_, action) =
        stack.process_incoming_packet(&from_peer(&id, seq + 50_000, ISN + 1, FLAG_ACK, b"x"), 23)
            .unwrap();
    assert!(matches!(action, TcpPacketAction::DroppedOutOfOrder { .. }));
}

#[test]
fn repeated_out_of_order_segment_is_counted_once() {
    let (mut stack, id) = established();
    let world = from_peer(&id, 9006, ISN + 1, FLAG_ACK, b"WORLD");
    stack.process_incoming_packet(&world, 20);
    stack.process_incoming_packet(&world, 21);
    assert_eq!(stack.tcb(&id).unwrap().reorder_buffer_bytes(), 5);
    stack.process_incoming_packet(&from_peer(&id, 9006, ISN + 1, FLAG_ACK, b"WORLDS"), 22);
    assert_eq!(stack.tcb(&id).unwrap().reorder_buffer_bytes(), 6);
    let (_, action) =
        stack.process_incoming_packet(&from_peer(&id, 9001, ISN + 1, FLAG_ACK, b"HELLO"), 23).unwrap();
    assert_eq!(action.into_delivery().payloads, vec![b"HELLO".to_vec(), b"WORLDS".to_vec()]);
    assert_eq!(stack.tcb(&id).unwrap().reorder_buffer_bytes(), 0);
    assert_eq!(stack.tcb(&id).unwrap().local_ack(), 9012);
}

#[test]
fn several_buffered_segments_come_out_in_order() {
    let (mut stack, id) = established();
    stack.process_incoming_packet(&from_peer(&id, 9007, ISN + 1, FLAG_ACK, b"ghi"), 20);
    stack.process_incoming_packet(&from_peer(&id, 9004, ISN + 1, FLAG_ACK, b"def"), 21);
    stack.process_incoming_packet(&from_peer(&id, 9013, ISN + 1, FLAG_ACK, b"late"), 22);
    let (_, action) =
        stack.process_incoming_packet(&from_peer(&id, 9001, ISN + 1, FLAG_ACK, b"abc"), 23).unwrap();
    assert!(matches!(&action, TcpPacketAction::SendMultipleData { ack, .. } if *ack == 9010));
    assert_eq!(
        action.into_delivery().payloads,
        vec![b"abc".to_vec(), b"def".to_vec(), b"ghi".to_vec()]
    );
    assert_eq!(stack.tcb(&id).unwrap().reorder_buffer_bytes(), 4);
}

#[test]
fn reset_during_handshake() {
    let mut stack = VirtualStack::new(LOCAL);
    let id = stack.tcp_connect(REMOTE, 80, 0, 0);
    stack.take_outgoing_packets();
    let (_, action) =
        stack.process_incoming_packet(&from_peer(&id, 0, ISN + 1, FLAG_RST | FLAG_ACK, &[]), 5).unwrap();
    assert!(matches!(action, TcpPacketAction::ConnectionReset));
    let delivery = action.into_delivery();
    assert!(delivery.notify);
    assert!(!delivery.eof);
    assert_eq!(stack.get_tcp_state(&id), Some(TcpState::Closed));
    assert!(stack.take_outgoing_packets().is_empty());
}

#[test]
fn other_segments_during_handshake_are_ignored() {
    let mut stack = VirtualStack::new(LOCAL);
    let id = stack.tcp_connect(REMOTE, 80, 0, 0);
    stack.take_outgoing_packets();
    let (_, action) =
        stack.process_incoming_packet(&from_peer(&id, 9000, ISN + 1, FLAG_ACK, b"x"), 5).unwrap();
    assert!(matches!(action, TcpPacketAction::Nothing));
    let (_, action) =
        stack.process_incoming_packet(&from_peer(&id, 9000, 0, FLAG_SYN, &[]), 5).unwrap();
    assert!(matches!(action, TcpPacketAction::Nothing));
    assert_eq!(stack.get_tcp_state(&id), Some(TcpState::SynSent));
    assert!(stack.take_outgoing_packets().is_empty());
}

#[test]
fn reset_of_established_connection_signals_eof() {
    let (mut stack, id) = established();
    stack.tcp_send(&id, b"abc", 15).unwrap();
    stack.take_outgoing_packets();
    let (_, action) =
        stack.process_incoming_packet(&from_peer(&id, 9001, ISN + 1, FLAG_RST, &[]), 20).unwrap();
    assert!(matches!(action, TcpPacketAction::SignalEof));
    let delivery = action.into_delivery();
    assert!(delivery.eof);
    assert!(delivery.payloads.is_empty());
    assert!(!delivery.notify);
    assert_eq!(stack.get_tcp_state(&id), Some(TcpState::Closed));
    assert_eq!(stack.tcb(&id).unwrap().unacked_segments(), 0);
    assert!(stack.take_outgoing_packets().is_empty());
}

#[test]
fn active_close_through_fin_wait() {
    let (mut stack, id) = established();
    stack.tcp_close(&id).unwrap();
    stack.take_outgoing_packets();
    let (_, action) =
        stack.process_incoming_packet(&from_peer(&id, 9001, ISN + 2, FLAG_ACK, &[]), 20).unwrap();
    assert!(matches!(action, TcpPacketAction::Nothing));
    assert_eq!(stack.get_tcp_state(&id), Some(TcpState::FinWait2));
    let (_, action) =
        stack.process_incoming_packet(&from_peer(&id, 9001, ISN + 2, FLAG_FIN, b"zz"), 21).unwrap();
    assert!(matches!(action, TcpPacketAction::SendAck { seq, ack } if seq == ISN + 1 && ack == 9004));
    assert_eq!(stack.get_tcp_state(&id), Some(TcpState::TimeWait));
    let out = stack.take_outgoing_packets();
    assert_eq!(sent(&out[0]), (ISN + 1, 9004, FLAG_ACK, vec![]));
    let (_, again) =
        stack.process_incoming_packet(&from_peer(&id, 9001, ISN + 2, FLAG_FIN, b"zz"), 22).unwrap();
    assert!(matches!(again, TcpPacketAction::SendAck { ack, .. } if ack == 9004));
    let (_, quiet) =
        stack.process_incoming_packet(&from_peer(&id, 9001, ISN + 2, FLAG_ACK, &[]), 23).unwrap();
    assert!(matches!(quiet, TcpPacketAction::Nothing));
    assert_eq!(stack.get_tcp_state(&id), Some(TcpState::TimeWait));
}

#[test]
fn simultaneous_close_from_fin_wait1() {
    let (mut stack, id) = established();
    stack.tcp_close(&id).unwrap();
    let (_, action) = stack
        .process_incoming_packet(&from_peer(&id, 9001, ISN + 2, FLAG_FIN | FLAG_ACK, &[]), 20)
        .unwrap();
    assert!(matches!(action, TcpPacketAction::SendAck { ack, .. } if ack == 9002));
    assert_eq!(stack.get_tcp_state(&id), Some(TcpState::TimeWait));
    let (mut stack, id) = established();
    stack.tcp_close(&id).unwrap();
    let (_, action) =
        stack.process_incoming_packet(&from_peer(&id, 9001, ISN + 2, FLAG_FIN, &[]), 20).unwrap();
    assert!(matches!(action, TcpPacketAction::Nothing));
    assert_eq!(stack.get_tcp_state(&id), Some(TcpState::FinWait1));
    stack.process_incoming_packet(&from_peer(&id, 9001, 0, FLAG_RST, &[]), 21);
    assert_eq!(stack.get_tcp_state(&id), Some(TcpState::Closed));
}

#[test]
fn close_wait_only_reacts_to_reset() {
    let (mut stack, id) = established();
    stack.process_incoming_packet(&from_peer(&id, 9001, ISN + 1, FLAG_FIN | FLAG_ACK, &[]), 20);
    stack.take_outgoing_packets();
    let (_, action) =
        stack.process_incoming_packet(&from_peer(&id, 9002, ISN + 1, FLAG_ACK, b"more"), 21).unwrap();
    assert!(matches!(action, TcpPacketAction::Nothing));
    assert!(stack.take_outgoing_packets().is_empty());
    assert_eq!(stack.get_tcp_state(&id), Some(TcpState::CloseWait));
    stack.process_incoming_packet(&from_peer(&id, 9002, ISN + 1, FLAG_RST, &[]), 22);
    assert_eq!(stack.get_tcp_state(&id), Some(TcpState::Closed));
    let (_, action) =
        stack.process_incoming_packet(&from_peer(&id, 9002, ISN + 1, FLAG_ACK, b"more"), 23).unwrap();
    assert!(matches!(action, TcpPacketAction::Nothing));
}

#[test]
fn resend_syn_only_while_pending() {
    let mut stack = VirtualStack::new(LOCAL);
    let id = stack.tcp_connect(REMOTE, 80, 0, 7);
    let first = stack.take_outgoing_packets();
    assert!(stack.resend_syn_if_pending(&id));
    let again = stack.take_outgoing_packets();
    assert_eq!(again, first);
    stack.process_incoming_packet(&from_peer(&id, 9000, ISN + 1, FLAG_SYN | FLAG_ACK, &[]), 10);
    stack.take_outgoing_packets();
    assert!(!stack.resend_syn_if_pending(&id));
    assert!(stack.take_outgoing_packets().is_empty());
    let unknown = TcpConnectionId { local_port: 1, ..id };
    assert!(!stack.resend_syn_if_pending(&unknown));
}

#[test]
fn remove_drops_the_connection() {
    let (mut stack, id) = established();
    assert_eq!(stack.connection_count(), 1);
    stack.remove_tcp_connection(&id);
    assert_eq!(stack.connection_count(), 0);
    assert_eq!(stack.get_tcp_state(&id), None);
    assert!(!stack.is_tcp_established(&id));
    assert!(stack.tcb(&id).is_none());
    stack.remove_tcp_connection(&id);
    assert_eq!(stack.connection_count(), 0);
    stack.process_incoming_packet(&from_peer(&id, 9001, ISN + 1, FLAG_ACK, b"x"), 20);
    let out = stack.take_outgoing_packets();
    assert_eq!(sent(&out[0]), (ISN + 1, 0, FLAG_RST, vec![]));
}

#[test]
fn receiver_gone_closes_the_connection() {
    let (mut stack, id) = established();
    stack.receiver_gone(&id, 77);
    assert_eq!(stack.get_tcp_state(&id), Some(TcpState::Closed));
    assert_eq!(stack.cleanup_stale_connections(77 + 5_000), 0);
    assert_eq!(stack.cleanup_stale_connections(77 + 5_001), 1);
    let unknown = TcpConnectionId { local_port: 1, ..id };
    stack.receiver_gone(&unknown, 78);
    assert_eq!(stack.connection_count(), 0);
}

#[test]
fn stale_thresholds_by_state() {
    let mut stack = VirtualStack::new(LOCAL);
    let pending = stack.tcp_connect(REMOTE, 80, 1000, 0);
    assert_eq!(stack.cleanup_stale_connections(1000 + 30_000), 0);
    assert_eq!(stack.cleanup_stale_connections(1000 + 30_001), 1);
    assert_eq!(stack.get_tcp_state(&pending), None);

    let (mut stack, id) = established();
    assert_eq!(stack.cleanup_stale_connections(10 + 600_000), 0);
    assert_eq!(stack.cleanup_stale_connections(10 + 600_001), 1);
    assert_eq!(stack.get_tcp_state(&id), None);

    let (mut stack, id) = established();
    stack.process_incoming_packet(&from_peer(&id, 9001, ISN + 1, FLAG_ACK, b"x"), 5000);
    assert_eq!(stack.cleanup_stale_connections(10 + 600_001), 0);
    assert_eq!(stack.cleanup_stale_connections(5000 + 600_001), 1);

    let (mut stack, id) = established();
    stack.tcp_close(&id).unwrap();
    assert_eq!(stack.cleanup_stale_connections(10 + 120_000), 0);
    assert_eq!(stack.cleanup_stale_connections(10 + 120_001), 1);

    let (mut stack, id) = established();
    stack.process_incoming_packet(&from_peer(&id, 9001, ISN + 1, FLAG_FIN | FLAG_ACK, &[]), 100);
    assert_eq!(stack.get_tcp_state(&id), Some(TcpState::CloseWait));
    assert_eq!(stack.cleanup_stale_connections(100 + 120_000), 0);
    stack.tcp_close(&id).unwrap();
    assert_eq!(stack.get_tcp_state(&id), Some(TcpState::LastAck));
    assert_eq!(stack.cleanup_stale_connections(100 + 120_001), 1);

    let (mut stack, id) = established();
    stack.tcp_close(&id).unwrap();
    stack.process_incoming_packet(&from_peer(&id, 9001, ISN + 2, FLAG_FIN | FLAG_ACK, &[]), 200);
    assert_eq!(stack.get_tcp_state(&id), Some(TcpState::TimeWait));
    assert_eq!(stack.cleanup_stale_connections(200 + 60_000), 0);
    assert_eq!(stack.cleanup_stale_connections(200 + 60_001), 1);

    let (mut stack, id) = established();
    stack.process_incoming_packet(&from_peer(&id, 9001, ISN + 1, FLAG_RST, &[]), 300);
    assert_eq!(stack.get_tcp_state(&id), Some(TcpState::Closed));
    assert_eq!(stack.cleanup_stale_connections(300 + 5_000), 0);
    assert_eq!(stack.cleanup_stale_connections(0), 0);
    assert_eq!(stack.cleanup_stale_connections(300 + 5_001), 1);
}

#[test]
fn connection_aged_half_a_second_past_its_limit_is_removed() {
    let mut stack = VirtualStack::new(LOCAL);
    stack.tcp_connect(REMOTE, 80, 0, 0);
    assert_eq!(stack.cleanup_stale_connections(30_500), 1);
    assert_eq!(stack.connection_count(), 0);
}

#[test]
fn cleanup_removes_only_the_stale() {
    let mut stack = VirtualStack::new(LOCAL);
    let old = stack.tcp_connect(REMOTE, 80, 0, 0);
    let young = stack.tcp_connect(REMOTE, 81, 20_000, 0);
    let other = stack.tcp_connect(REMOTE, 82, 500, 0);
    assert_eq!(stack.cleanup_stale_connections(31_600), 2);
    assert_eq!(stack.connection_count(), 1);
    assert_eq!(stack.get_tcp_state(&old), None);
    assert_eq!(stack.get_tcp_state(&other), None);
    assert_eq!(stack.get_tcp_state(&young), Some(TcpState::SynSent));
}

#[test]
fn reconnecting_on_a_reused_port_replaces_the_connection() {
    let mut stack = VirtualStack::new(LOCAL);
    let first = stack.tcp_connect(REMOTE, 80, 0, 0);
    stack.process_incoming_packet(&from_peer(&first, 9000, ISN + 1, FLAG_SYN | FLAG_ACK, &[]), 1);
    let mut port = first.local_port;
    while port < 64999 {
        port = stack.allocate_port();
    }
    let second = stack.tcp_connect(REMOTE, 80, 50, 0);
    assert_eq!(second, first);
    assert_eq!(stack.connection_count(), 1);
    assert_eq!(stack.get_tcp_state(&second), Some(TcpState::SynSent));
}

#[test]
fn new_stack_is_empty() {
    let mut stack = VirtualStack::new(0xC0A8_0102);
    assert_eq!(stack.local_ipv4(), 0xC0A8_0102);
    assert_eq!(stack.connection_count(), 0);
    assert!(stack.take_outgoing_packets().is_empty());
    assert_eq!(stack.check_retransmissions(1_000_000), 0);
    assert_eq!(stack.cleanup_stale_connections(1_000_000), 0);
}

#[test]
fn buffered_segment_is_found_behind_an_earlier_key() {
    let (mut stack, id) = established();
    stack.process_incoming_packet(&from_peer(&id, 9011, ISN + 1, FLAG_ACK, b"later"), 20);
    stack.process_incoming_packet(&from_peer(&id, 9006, ISN + 1, FLAG_ACK, b"xyz"), 21);
    let (_, action) = stack
        .process_incoming_packet(&from_peer(&id, 9001, ISN + 1, FLAG_ACK, b"0123456789"), 22)
        .unwrap();
    assert!(matches!(&action, TcpPacketAction::SendMultipleData { ack, .. } if *ack == 9016));
    assert_eq!(
        action.into_delivery().payloads,
        vec![b"0123456789".to_vec(), b"later".to_vec()]
    );
    let tcb = stack.tcb(&id).unwrap();
    assert_eq!(tcb.local_ack(), 9016);
    assert!(!tcb.buffers_segment_at(9011));
    assert!(!tcb.buffers_segment_at(9016));
    assert!(tcb.buffers_segment_at(9006));
    assert_eq!(tcb.reorder_buffer_bytes(), 3);
}

#[test]
fn stream_across_the_wrap_fed_last_to_first() {
    let stream: Vec<u8> = (0..21u8).collect();
    let first = 4_294_967_280u32;
    let mut stack = VirtualStack::new(LOCAL);
    let id = stack.tcp_connect(REMOTE, 80, 0, 0);
    stack.process_incoming_packet(
        &from_peer(&id, first.wrapping_sub(1), ISN + 1, FLAG_SYN | FLAG_ACK, &[]),
        1,
    );
    let mut delivered: Vec<u8> = Vec::new();
    for (from, to) in [(16usize, 21usize), (8, 16), (0, 8)] {
        let seq = first.wrapping_add(from as u32);
        let packet = from_peer(&id, seq, ISN + 1, FLAG_ACK, &stream[from..to]);
        let (_, action) = stack.process_incoming_packet(&packet, 2).unwrap();
        for payload in action.into_delivery().payloads {
            delivered.extend_from_slice(&payload);
        }
        let tcb = stack.tcb(&id).unwrap();
        assert!(!tcb.buffers_segment_at(tcb.local_ack()));
    }
    assert_eq!(delivered, stream);
    let tcb = stack.tcb(&id).unwrap();
    assert_eq!(tcb.local_ack(), 5);
    assert_eq!(tcb.reorder_buffer_bytes(), 0);
}

#[test]
fn segment_at_the_next_number_is_taken_whatever_else_is_buffered() {
    let mut stack = VirtualStack::new(LOCAL);
    let id = stack.tcp_connect(REMOTE, 80, 0, 0);
    stack.process_incoming_packet(
        &from_peer(&id, 4_294_967_279, ISN + 1, FLAG_SYN | FLAG_ACK, &[]),
        1,
    );
    assert_eq!(stack.tcb(&id).unwrap().local_ack(), 4_294_967_280);
    stack.process_incoming_packet(&from_peer(&id, 0, ISN + 1, FLAG_ACK, b"wrapped!"), 2);
    stack.process_incoming_packet(&from_peer(&id, 4_294_967_288, ISN + 1, FLAG_ACK, b"8 bytes."), 3);
    let (_, action) = stack
        .process_incoming_packet(&from_peer(&id, 4_294_967_280, ISN + 1, FLAG_ACK, b"in order"), 4)
        .unwrap();
    assert_eq!(
        action.into_delivery().payloads,
        vec![b"in order".to_vec(), b"8 bytes.".to_vec(), b"wrapped!".to_vec()]
    );
    let tcb = stack.tcb(&id).unwrap();
    assert_eq!(tcb.local_ack(), 8);
    assert!(!tcb.buffers_segment_at(4_294_967_288));
    assert!(!tcb.buffers_segment_at(0));
    assert_eq!(tcb.reorder_buffer_bytes(), 0);
}

#[test]
fn acknowledgment_is_applied_before_a_reset() {
    let (mut stack, id) = established();
    stack.tcp_send(&id, b"abc", 15).unwrap();
    stack.process_incoming_packet(&from_peer(&id, 9001, ISN + 4, FLAG_RST | FLAG_ACK, &[]), 20);
    assert_eq!(stack.tcb(&id).unwrap().snd_una(), ISN + 4);
    assert_eq!(stack.get_tcp_state(&id), Some(TcpState::Closed));
}

#[test]
fn old_acknowledgment_changes_nothing() {
    let (mut stack, id) = established();
    stack.tcp_send(&id, b"abc", 15).unwrap();
    stack.check_retransmissions(515);
    assert_eq!(stack.tcb(&id).unwrap().rto(), 1000);
    stack.process_incoming_packet(&from_peer(&id, 9001, ISN + 1, FLAG_ACK, &[]), 600);
    stack.process_incoming_packet(&from_peer(&id, 9001, ISN, FLAG_ACK, &[]), 601);
    assert_eq!(stack.tcb(&id).unwrap().rto(), 1000);
    assert_eq!(stack.tcb(&id).unwrap().snd_una(), ISN + 1);
    assert_eq!(stack.tcb(&id).unwrap().unacked_segments(), 1);
}

#[test]
fn nothing_is_buffered_at_the_next_expected_number() {
    let (mut stack, id) = established();
    for (seq, data) in [(9007u32, &b"ghi"[..]), (9004, &b"def"[..]), (9013, &b"late"[..])] {
        stack.process_incoming_packet(&from_peer(&id, seq, ISN + 1, FLAG_ACK, data), 20);
        let tcb = stack.tcb(&id).unwrap();
        assert!(tcb.buffers_segment_at(seq));
        assert!(!tcb.buffers_segment_at(tcb.local_ack()));
    }
    stack.process_incoming_packet(&from_peer(&id, 9001, ISN + 1, FLAG_ACK, b"abc"), 21);
    let tcb = stack.tcb(&id).unwrap();
    assert_eq!(tcb.local_ack(), 9010);
    assert!(!tcb.buffers_segment_at(9004));
    assert!(!tcb.buffers_segment_at(9007));
    assert!(!tcb.buffers_segment_at(9010));
    assert!(tcb.buffers_segment_at(9013));
}

#[test]
fn delivered_bytes_are_the_stream_in_order() {
    let stream: Vec<u8> = (0..5000u32).map(|i| (i * 7 % 256) as u8).collect();
    let pieces: [(usize, usize); 12] = [
        (1000, 500),
        (0, 100),
        (0, 100),
        (100, 900),
        (3000, 1000),
        (1500, 700),
        (1000, 500),
        (2200, 800),
        (4000, 1000),
        (2200, 800),
        (50, 30),
        (4990, 10),
    ];
    let mut first = 0xFFFF_F000u32;
    for _ in 0..2 {
        let mut stack = VirtualStack::new(LOCAL);
        let id = stack.tcp_connect(REMOTE, 80, 0, 0);
        stack.process_incoming_packet(
            &from_peer(&id, first.wrapping_sub(1), ISN + 1, FLAG_SYN | FLAG_ACK, &[]),
            1,
        );
        let mut delivered: Vec<u8> = Vec::new();
        for (from, len) in pieces {
            let seq = first.wrapping_add(from as u32);
            let packet = from_peer(&id, seq, ISN + 1, FLAG_ACK, &stream[from..from + len]);
            let (_, action) = stack.process_incoming_packet(&packet, 2).unwrap();
            for payload in action.into_delivery().payloads {
                assert!(!payload.is_empty());
                delivered.extend_from_slice(&payload);
            }
            assert_eq!(&delivered[..], &stream[..delivered.len()]);
            let tcb = stack.tcb(&id).unwrap();
            assert_eq!(tcb.local_ack(), first.wrapping_add(delivered.len() as u32));
        }
        assert_eq!(delivered, stream);
        assert_eq!(stack.tcb(&id).unwrap().reorder_buffer_bytes(), 0);
        first = 9001;
    }
}

#[test]
fn unacknowledged_mark_stays_within_what_was_sent() {
    let (mut stack, id) = established();
    let in_flight = |stack: &VirtualStack| {
        let tcb = stack.tcb(&id).unwrap();
        moonlight_core_rs::seqnum::seq_delta(tcb.local_seq(), tcb.snd_una())
    };
    assert_eq!(in_flight(&stack), 0);
    stack.tcp_send(&id, &vec![5u8; 4000], 10).unwrap();
    assert_eq!(in_flight(&stack), 4000);
    stack.process_incoming_packet(&from_peer(&id, 9001, ISN + 1 + 1360, FLAG_ACK, &[]), 20);
    assert_eq!(in_flight(&stack), 2640);
    stack.process_incoming_packet(&from_peer(&id, 9001, ISN + 1 + 2720, FLAG_ACK, &[]), 21);
    assert_eq!(in_flight(&stack), 1280);
    assert_eq!(stack.tcb(&id).unwrap().unacked_segments(), 1);
    stack.tcp_send(&id, b"tail", 22).unwrap();
    assert_eq!(in_flight(&stack), 1284);
    stack.process_incoming_packet(&from_peer(&id, 9001, ISN + 1 + 4004, FLAG_ACK, &[]), 23);
    assert_eq!(in_flight(&stack), 0);
    assert_eq!(stack.tcb(&id).unwrap().unacked_segments(), 0);
}

#[test]
fn nothing_stays_buffered_once_the_fin_is_accepted() {
    let (mut stack, id) = established();
    stack.process_incoming_packet(&from_peer(&id, 9005, ISN + 1, FLAG_ACK, b"past the fin"), 20);
    assert_eq!(stack.tcb(&id).unwrap().reorder_buffer_bytes(), 12);
    let (_, action) = stack
        .process_incoming_packet(&from_peer(&id, 9001, ISN + 1, FLAG_FIN | FLAG_ACK, b"abc"), 21)
        .unwrap();
    assert_eq!(action.into_delivery().payloads, vec![b"abc".to_vec()]);
    let tcb = stack.tcb(&id).unwrap();
    assert_eq!(tcb.local_ack(), 9005);
    assert!(!tcb.buffers_segment_at(9005));
    assert_eq!(tcb.reorder_buffer_bytes(), 0);
    assert_eq!(stack.get_tcp_state(&id), Some(TcpState::CloseWait));
}

#[test]
fn fin_after_our_close_drops_what_was_buffered() {
    let (mut stack, id) = established();
    stack.process_incoming_packet(&from_peer(&id, 9002, ISN + 1, FLAG_ACK, b"x"), 20);
    stack.tcp_close(&id).unwrap();
    assert_eq!(stack.tcb(&id).unwrap().reorder_buffer_bytes(), 1);
    stack.process_incoming_packet(&from_peer(&id, 9001, ISN + 2, FLAG_FIN | FLAG_ACK, &[]), 21);
    let tcb = stack.tcb(&id).unwrap();
    assert_eq!(tcb.local_ack(), 9002);
    assert!(!tcb.buffers_segment_at(9002));
    assert_eq!(tcb.reorder_buffer_bytes(), 0);
    assert_eq!(stack.get_tcp_state(&id), Some(TcpState::TimeWait));
}
