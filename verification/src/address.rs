use vstd::prelude::*;

verus! {

/// A socket address as it appears on the wire and in the registry: an internet
/// address of either family together with a port.
///
/// An IPv4 address is held as its four octets `a.b.c.d`, an IPv6 address as its
/// 128 bits in network order. The IPv6 variant carries the flow label and the
/// scope identifier too, so that two addresses are equal exactly when every
/// component is equal.
#[derive(Clone, Copy, Debug, PartialEq, Eq, Structural)]
pub enum SocketAddress {
    V4 { a: u8, b: u8, c: u8, d: u8, port: u16 },
    V6 { ip: u128, port: u16, flowinfo: u32, scope_id: u32 },
}

impl SocketAddress {
    /// The address `0.0.0.0:0`, as a mathematical value.
    pub open spec fn spec_unspecified() -> SocketAddress {
        SocketAddress::V4 { a: 0, b: 0, c: 0, d: 0, port: 0 }
    }

    /// The address `0.0.0.0:0`, which stands for "no address".
    #[verifier::when_used_as_spec(spec_unspecified)]
    pub fn unspecified() -> (addr: SocketAddress)
        ensures
            addr == Self::spec_unspecified(),
    {
        SocketAddress::V4 { a: 0, b: 0, c: 0, d: 0, port: 0 }
    }

    /// The IPv4 address `a.b.c.d` with the given port.
    pub fn v4(a: u8, b: u8, c: u8, d: u8, port: u16) -> (addr: SocketAddress)
        ensures
            addr == (SocketAddress::V4 { a, b, c, d, port }),
    {
        SocketAddress::V4 { a, b, c, d, port }
    }

    /// Whether the address belongs to the IPv4 family.
    pub fn is_ipv4(&self) -> (b: bool)
        ensures
            b == (self is V4),
    {
        match self {
            SocketAddress::V4 { .. } => true,
            SocketAddress::V6 { .. } => false,
        }
    }
}

} // verus!
