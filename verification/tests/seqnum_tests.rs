use moonlight_core_rs::conn_id::TcpConnectionId;
use moonlight_core_rs::seqnum::len32;
use moonlight_core_rs::seqnum::seq_advance;
use moonlight_core_rs::seqnum::seq_delta;

#[test]
fn delta_is_the_signed_modular_difference() {
    assert_eq!(seq_delta(5, 5), 0);
    assert_eq!(seq_delta(9006, 9001), 5);
    assert_eq!(seq_delta(9001, 9006), -5);
    assert_eq!(seq_delta(0, 0xFFFF_FFFF), 1);
    assert_eq!(seq_delta(0xFFFF_FFFF, 0), -1);
    assert_eq!(seq_delta(3, 0xFFFF_FFF0), 19);
    assert_eq!(seq_delta(0x7FFF_FFFF, 0), i32::MAX);
    assert_eq!(seq_delta(0x8000_0000, 0), i32::MIN);
    assert_eq!(seq_delta(0, 0x8000_0000), i32::MIN);
    assert_eq!(seq_delta(0, 0x7FFF_FFFF), -i32::MAX);
}

#[test]
fn delta_agrees_with_wrapping_subtraction() {
    for a in [0u32, 1, 2, 1000, 0x7FFF_FFFF, 0x8000_0000, 0x8000_0001, 0xFFFF_FFFE, 0xFFFF_FFFF] {
        for b in [0u32, 1, 77, 0x7FFF_FFFF, 0x8000_0000, 0xFFFF_FFFF] {
            assert_eq!(seq_delta(a, b), a.wrapping_sub(b) as i32);
        }
    }
}

#[test]
fn advance_wraps_at_two_to_the_thirty_two() {
    assert_eq!(seq_advance(9001, 5), 9006);
    assert_eq!(seq_advance(0xFFFF_FFFF, 1), 0);
    assert_eq!(seq_advance(0xFFFF_FFF0, 0x20), 0x10);
    assert_eq!(seq_advance(7, 0), 7);
}

#[test]
fn len32_keeps_the_low_32_bits() {
    assert_eq!(len32(0), 0);
    assert_eq!(len32(1360), 1360);
    assert_eq!(len32(0xFFFF_FFFF), 0xFFFF_FFFF);
    assert_eq!(len32(0x1_0000_0005usize), 5);
}

#[test]
fn table_key_packs_the_four_fields() {
    let id = TcpConnectionId {
        local_addr: 0x0A00_0001,
        local_port: 0xC000,
        remote_addr: 0x0A00_0005,
        remote_port: 0x0050,
    };
    assert_eq!(id.table_key(), 0x0A00_0001_C000_0A00_0005_0050u128);
    let other = TcpConnectionId { local_port: 0xC001, ..id };
    assert_ne!(id.table_key(), other.table_key());
    let swapped = TcpConnectionId {
        local_addr: 0x0A00_0005,
        local_port: 0x0050,
        remote_addr: 0x0A00_0001,
        remote_port: 0xC000,
    };
    assert_ne!(id.table_key(), swapped.table_key());
}
