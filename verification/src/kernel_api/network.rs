//! Network records exchanged through system calls.

use vstd::prelude::*;

verus! {

/// The status of a socket.
#[derive(Clone, Copy, Debug, PartialEq, Eq)]
pub struct SocketStatus {
    pub is_active: bool,
    pub is_listening: bool,
    pub can_send: bool,
    pub can_recv: bool,
}

/// An IPv4 address (in big-endian order) and a port.
#[derive(Clone, Copy, Debug, PartialEq, Eq)]
pub struct IpAddr {
    pub ip: u32,
    pub port: u16,
}

/// The big-endian integer of four octets.
pub open spec fn ipv4_be(a: u8, b: u8, c: u8, d: u8) -> int {
    a as int * 0x100_0000 + b as int * 0x1_0000 + c as int * 0x100 + d as int
}

impl IpAddr {
    /// The address `ip1.ip2.ip3.ip4` with port `port`.
    pub fn new(octets: (u8, u8, u8, u8), port: u16) -> (r: IpAddr)
        ensures
            r.ip == ipv4_be(octets.0, octets.1, octets.2, octets.3),
            r.port == port,
    {
        let (ip1, ip2, ip3, ip4) = octets;
        let ip = ((ip1 as u32) << 24) | ((ip2 as u32) << 16) | ((ip3 as u32) << 8) | (ip4 as u32);
        assert(ip == ip1 as u32 * 0x100_0000 + ip2 as u32 * 0x1_0000 + ip3 as u32 * 0x100 + ip4 as u32)
            by (bit_vector)
            requires
                ip == ((ip1 as u32) << 24) | ((ip2 as u32) << 16) | ((ip3 as u32) << 8) | (ip4 as u32),
        ;
        IpAddr { ip, port }
    }

    /// The four octets of the address, most significant first.
    pub fn octets(&self) -> (r: (u8, u8, u8, u8))
        ensures
            ipv4_be(r.0, r.1, r.2, r.3) == self.ip,
    {
        let ip = self.ip;
        let a = (ip >> 24) as u8;
        let b = ((ip >> 16) & 0xff) as u8;
        let c = ((ip >> 8) & 0xff) as u8;
        let d = (ip & 0xff) as u8;
        assert(a as u32 * 0x100_0000 + b as u32 * 0x1_0000 + c as u32 * 0x100 + d as u32 == ip)
            by (bit_vector)
            requires
                a == (ip >> 24) as u8,
                b == ((ip >> 16) & 0xff) as u8,
                c == ((ip >> 8) & 0xff) as u8,
                d == (ip & 0xff) as u8,
        ;
        (a, b, c, d)
    }
}

} // verus!
