//! Peer identity: the address tuple of a connection.

use vstd::prelude::*;

verus! {

/// An IP address, held as one integer in network byte order.
#[derive(Clone, Copy, Debug, PartialEq, Eq, Hash, Structural)]
pub enum IpAddress {
    /// The four octets of an IPv4 address, first octet in the high byte.
    V4(u32),
    /// The sixteen octets of an IPv6 address, first octet in the high byte.
    V6(u128),
}

/// Identity of a peer: its IP address and port.
///
/// Two keys are equal exactly when both the IP address and the port are
/// equal. A key is never mutated after it has been made.
#[derive(Clone, Copy, Debug, PartialEq, Eq, Hash, Structural)]
pub struct AddressKey {
    ip: IpAddress,
    port: u16,
}

impl AddressKey {
    /// The IP address of the key, in specifications.
    pub closed spec fn spec_ip(&self) -> IpAddress {
        self.ip
    }

    /// The port of the key, in specifications.
    pub closed spec fn spec_port(&self) -> u16 {
        self.port
    }

    /// The key of the peer at `ip` and `port`.
    pub fn new(ip: IpAddress, port: u16) -> (key: AddressKey)
        ensures
            key.spec_ip() == ip,
            key.spec_port() == port,
    {
        AddressKey { ip, port }
    }

    /// The key of the IPv4 peer `a.b.c.d` at `port`.
    pub fn v4(a: u8, b: u8, c: u8, d: u8, port: u16) -> (key: AddressKey)
        ensures
            key.spec_ip() == IpAddress::V4(spec_pack_v4(a, b, c, d)),
            key.spec_port() == port,
    {
        let high: u32 = (a as u32) * 0x100_0000u32 + (b as u32) * 0x1_0000u32;
        let low: u32 = (c as u32) * 0x100u32 + (d as u32);
        AddressKey { ip: IpAddress::V4(high + low), port }
    }

    /// The IP address of the key.
    #[verifier::when_used_as_spec(spec_ip)]
    pub fn ip(&self) -> (ip: IpAddress)
        ensures
            ip == self.spec_ip(),
    {
        self.ip
    }

    /// The port of the key.
    #[verifier::when_used_as_spec(spec_port)]
    pub fn port(&self) -> (port: u16)
        ensures
            port == self.spec_port(),
    {
        self.port
    }

    /// Whether two keys name the same peer.
    pub fn same_peer(&self, other: &AddressKey) -> (same: bool)
        ensures
            same == (*self == *other),
            same == (self.spec_ip() == other.spec_ip() && self.spec_port() == other.spec_port()),
    {
        *self == *other
    }
}

/// The integer that holds the octets `a.b.c.d`, first octet in the high byte.
pub open spec fn spec_pack_v4(a: u8, b: u8, c: u8, d: u8) -> u32 {
    (a as int * 0x100_0000 + b as int * 0x1_0000 + c as int * 0x100 + d as int) as u32
}

/// Keys are equal exactly when their IP address and their port are equal.
pub proof fn lemma_key_equality(a: AddressKey, b: AddressKey)
    ensures
        (a == b) <==> (a.spec_ip() == b.spec_ip() && a.spec_port() == b.spec_port()),
{
}

} // verus!
