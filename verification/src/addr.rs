use vstd::prelude::*;

verus! {

/// An IP address, IPv4 as a 32-bit and IPv6 as a 128-bit big-endian number.
#[derive(Clone, Copy, Debug, PartialEq, Eq, Structural)]
pub enum IpAddress {
    V4(u32),
    V6(u128),
}

/// A socket address: an IP address with a port (and, for IPv6, the flow
/// information and scope identifier that take part in its equality).
#[allow(inconsistent_fields)]
#[derive(Clone, Copy, Debug, PartialEq, Eq, Structural)]
pub enum Endpoint {
    V4 { ip: u32, port: u16 },
    V6 { ip: u128, port: u16, flowinfo: u32, scope_id: u32 },
}

/// A hashable image of an `Endpoint` made of integers only:
/// (is IPv6, address, port, flow information, scope identifier).
pub type ConnKey = (bool, u128, u16, u32, u32);

impl IpAddress {
    /// The unspecified address (`0.0.0.0` or `::`) of the same family.
    pub open spec fn spec_unspecified(self) -> IpAddress {
        match self {
            IpAddress::V4(_) => IpAddress::V4(0),
            IpAddress::V6(_) => IpAddress::V6(0),
        }
    }

    /// The unspecified address of this address's family, to which a fresh
    /// outgoing socket is bound.
    pub fn unspecified(&self) -> (r: IpAddress)
        ensures
            r == self.spec_unspecified(),
    {
        match self {
            IpAddress::V4(_) => IpAddress::V4(0),
            IpAddress::V6(_) => IpAddress::V6(0),
        }
    }
}

impl Endpoint {
    pub open spec fn spec_ip(self) -> IpAddress {
        match self {
            Endpoint::V4 { ip, .. } => IpAddress::V4(ip),
            Endpoint::V6 { ip, .. } => IpAddress::V6(ip),
        }
    }

    pub open spec fn spec_port(self) -> u16 {
        match self {
            Endpoint::V4 { port, .. } => port,
            Endpoint::V6 { port, .. } => port,
        }
    }

    pub open spec fn spec_key(self) -> ConnKey {
        match self {
            Endpoint::V4 { ip, port } => (false, ip as u128, port, 0u32, 0u32),
            Endpoint::V6 { ip, port, flowinfo, scope_id } => (true, ip, port, flowinfo, scope_id),
        }
    }

    /// The endpoint of `ip` and `port`; an IPv6 one gets flow information
    /// and scope identifier 0.
    pub open spec fn spec_new(ip: IpAddress, port: u16) -> Endpoint {
        match ip {
            IpAddress::V4(a) => Endpoint::V4 { ip: a, port },
            IpAddress::V6(a) => Endpoint::V6 { ip: a, port, flowinfo: 0, scope_id: 0 },
        }
    }

    pub fn new(ip: IpAddress, port: u16) -> (r: Endpoint)
        ensures
            r == Self::spec_new(ip, port),
    {
        match ip {
            IpAddress::V4(a) => Endpoint::V4 { ip: a, port },
            IpAddress::V6(a) => Endpoint::V6 { ip: a, port, flowinfo: 0, scope_id: 0 },
        }
    }

    pub fn ip(&self) -> (r: IpAddress)
        ensures
            r == self.spec_ip(),
    {
        match self {
            Endpoint::V4 { ip, .. } => IpAddress::V4(*ip),
            Endpoint::V6 { ip, .. } => IpAddress::V6(*ip),
        }
    }

    pub fn port(&self) -> (r: u16)
        ensures
            r == self.spec_port(),
    {
        match self {
            Endpoint::V4 { port, .. } => *port,
            Endpoint::V6 { port, .. } => *port,
        }
    }

    /// The key under which a connection from this endpoint is kept.
    pub fn key(&self) -> (r: ConnKey)
        ensures
            r == self.spec_key(),
    {
        match self {
            Endpoint::V4 { ip, port } => (false, *ip as u128, *port, 0u32, 0u32),
            Endpoint::V6 { ip, port, flowinfo, scope_id } => (true, *ip, *port, *flowinfo, *scope_id),
        }
    }
}

/// Distinct endpoints have distinct keys.
pub proof fn lemma_key_injective(a: Endpoint, b: Endpoint)
    ensures
        a.spec_key() == b.spec_key() <==> a == b,
{
}

} // verus!
