//! Connection identifiers.

use vstd::arithmetic::div_mod::lemma_fundamental_div_mod_converse;
use vstd::prelude::*;

verus! {

/// The 4-tuple that names one TCP connection. Addresses are IPv4 addresses
/// as big-endian integers (`10.0.0.5` is `0x0A00_0005`).
#[derive(Debug, Clone, Copy, Hash, PartialEq, Eq, Structural)]
pub struct TcpConnectionId {
    pub local_addr: u32,
    pub local_port: u16,
    pub remote_addr: u32,
    pub remote_port: u16,
}

impl TcpConnectionId {
    /// The identifier packed into one integer: the four fields side by side.
    pub open spec fn key_spec(self) -> u128 {
        (self.local_addr as int * 0x1_0000_0000_0000_0000 + self.local_port as int * 0x1_0000_0000_0000
            + self.remote_addr as int * 0x1_0000 + self.remote_port as int) as u128
    }

    /// The key under which the connection table files this identifier.
    pub fn table_key(&self) -> (k: u128)
        ensures
            k == self.key_spec(),
    {
        let la: u128 = self.local_addr as u128;
        let lp: u128 = self.local_port as u128;
        let ra: u128 = self.remote_addr as u128;
        let rp: u128 = self.remote_port as u128;
        la * 0x1_0000_0000_0000_0000u128 + lp * 0x1_0000_0000_0000u128 + ra * 0x1_0000u128 + rp
    }

    /// Two identifiers share a key only if they are the same identifier.
    pub proof fn lemma_key_injective(a: TcpConnectionId, b: TcpConnectionId)
        ensures
            a.key_spec() == b.key_spec() <==> a == b,
    {
        let ka: int = a.local_addr as int * 0x1_0000_0000_0000_0000 + a.local_port as int
            * 0x1_0000_0000_0000
            + a.remote_addr as int * 0x1_0000 + a.remote_port as int;
        let kb: int = b.local_addr as int * 0x1_0000_0000_0000_0000 + b.local_port as int
            * 0x1_0000_0000_0000
            + b.remote_addr as int * 0x1_0000 + b.remote_port as int;
        assert(a.key_spec() == ka);
        assert(b.key_spec() == kb);
        let (a1, b1): (int, int) = (
            a.local_addr as int * 0x1_0000_0000_0000 + a.local_port as int * 0x1_0000_0000
                + a.remote_addr as int,
            b.local_addr as int * 0x1_0000_0000_0000 + b.local_port as int * 0x1_0000_0000
                + b.remote_addr as int,
        );
        let (a2, b2): (int, int) = (
            a.local_addr as int * 0x1_0000 + a.local_port as int,
            b.local_addr as int * 0x1_0000 + b.local_port as int,
        );
        lemma_fundamental_div_mod_converse(ka, 0x1_0000, a1, a.remote_port as int);
        lemma_fundamental_div_mod_converse(kb, 0x1_0000, b1, b.remote_port as int);
        lemma_fundamental_div_mod_converse(a1, 0x1_0000_0000, a2, a.remote_addr as int);
        lemma_fundamental_div_mod_converse(b1, 0x1_0000_0000, b2, b.remote_addr as int);
        lemma_fundamental_div_mod_converse(a2, 0x1_0000, a.local_addr as int, a.local_port as int);
        lemma_fundamental_div_mod_converse(b2, 0x1_0000, b.local_addr as int, b.local_port as int);
    }
}

} // verus!
