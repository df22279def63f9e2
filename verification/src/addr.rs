//! Socket addresses of the two address families, held as plain integers.

use vstd::prelude::*;

verus! {

/// An IPv4 address with a port.
#[derive(Clone, Copy, Debug, PartialEq, Eq, Structural)]
pub struct SocketAddrV4 {
    /// The address as a 32-bit number, first octet highest.
    pub ip: u32,
    /// The port.
    pub port: u16,
}

/// An IPv6 address with a port, flow information and scope.
#[derive(Clone, Copy, Debug, PartialEq, Eq, Structural)]
pub struct SocketAddrV6 {
    /// The address as a 128-bit number, first segment highest.
    pub ip: u128,
    /// The port.
    pub port: u16,
    /// The flow information of the address.
    pub flowinfo: u32,
    /// The scope that the address is valid in.
    pub scope_id: u32,
}

/// A socket address of either family.
#[derive(Clone, Copy, Debug, PartialEq, Eq, Structural)]
pub enum SocketAddr {
    /// An IPv4 socket address.
    V4(SocketAddrV4),
    /// An IPv6 socket address.
    V6(SocketAddrV6),
}

/// The 32-bit number of the address `o[0].o[1].o[2].o[3]`.
pub open spec fn ipv4_bits(o: Seq<u8>) -> int {
    ((o[0] * 256 + o[1]) * 256 + o[2]) * 256 + o[3]
}

/// The 128-bit number of the address whose eight segments are `s`.
pub open spec fn ipv6_bits(s: Seq<u16>) -> int {
    ((((((s[0] * 65536 + s[1]) * 65536 + s[2]) * 65536 + s[3]) * 65536 + s[4]) * 65536 + s[5])
        * 65536 + s[6]) * 65536 + s[7]
}

/// Whether `ip` is an IPv4-mapped IPv6 address, `::ffff:a.b.c.d`: eighty
/// zero bits, sixteen one bits, then the IPv4 address.
pub open spec fn is_ipv4_mapped(ip: u128) -> bool {
    ip / 0x1_0000_0000 == 0xffff
}

/// The IPv4 address that the low 32 bits of `ip` hold.
pub open spec fn embedded_ipv4(ip: u128) -> u32 {
    (ip % 0x1_0000_0000) as u32
}

impl SocketAddrV4 {
    /// The address with the given four octets and port.
    pub fn new(octets: [u8; 4], port: u16) -> (a: SocketAddrV4)
        ensures
            a.ip == ipv4_bits(octets@),
            a.port == port,
    {
        let b0: u32 = octets[0] as u32;
        let b1: u32 = octets[1] as u32;
        let b2: u32 = octets[2] as u32;
        let b3: u32 = octets[3] as u32;
        SocketAddrV4 { ip: ((b0 * 256 + b1) * 256 + b2) * 256 + b3, port }
    }
}

impl SocketAddrV6 {
    /// The address with the given eight segments and port, without flow
    /// information or scope.
    pub fn new(segments: [u16; 8], port: u16) -> (a: SocketAddrV6)
        ensures
            a.ip == ipv6_bits(segments@),
            a.port == port,
            a.flowinfo == 0,
            a.scope_id == 0,
    {
        let s0: u128 = segments[0] as u128;
        let s1: u128 = segments[1] as u128;
        let s2: u128 = segments[2] as u128;
        let s3: u128 = segments[3] as u128;
        let s4: u128 = segments[4] as u128;
        let s5: u128 = segments[5] as u128;
        let s6: u128 = segments[6] as u128;
        let s7: u128 = segments[7] as u128;
        let high: u128 = ((s0 * 65536 + s1) * 65536 + s2) * 65536 + s3;
        let ip: u128 = (((high * 65536 + s4) * 65536 + s5) * 65536 + s6) * 65536 + s7;
        SocketAddrV6 { ip, port, flowinfo: 0, scope_id: 0 }
    }

    /// The IPv4 socket address that this one stands for, where its address
    /// is IPv4-mapped: the embedded address with the same port.
    pub fn to_ipv4_mapped(&self) -> (r: Option<SocketAddrV4>)
        ensures
            r == if is_ipv4_mapped(self.ip) {
                Some(SocketAddrV4 { ip: embedded_ipv4(self.ip), port: self.port })
            } else {
                None::<SocketAddrV4>
            },
    {
        let ip: u128 = self.ip;
        assert(ip >> 32 == ip / 0x1_0000_0000) by (bit_vector);
        assert(ip & 0xffff_ffff == ip % 0x1_0000_0000) by (bit_vector);
        if ip >> 32 == 0xffff {
            let low: u128 = ip & 0xffff_ffff;
            Some(SocketAddrV4 { ip: low as u32, port: self.port })
        } else {
            None
        }
    }
}

} // verus!
