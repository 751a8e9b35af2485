//! Network addresses as plain values.
use crate::bytes::same_array;
use vstd::prelude::*;

verus! {

/// An IP address by its octets.
#[derive(Clone, Copy, Debug, PartialEq, Eq, Hash)]
pub enum IpAddr {
    V4([u8; 4]),
    V6([u8; 16]),
}

impl IpAddr {
    /// Whether two addresses are the same.
    pub fn same(&self, other: &Self) -> (r: bool)
        ensures
            r == (*self == *other),
    {
        match (self, other) {
            (IpAddr::V4(a), IpAddr::V4(b)) => same_array(a, b),
            (IpAddr::V6(a), IpAddr::V6(b)) => same_array(a, b),
            _ => false,
        }
    }
}

impl IpAddr {
    /// Whether the address is an IPv4 address.
    pub fn is_ipv4(&self) -> (r: bool)
        ensures
            r == (*self is V4),
    {
        matches!(self, IpAddr::V4(_))
    }

    /// `0.0.0.0` or `::`.
    pub fn is_unspecified(&self) -> (r: bool)
        ensures
            r == unspecified(*self),
    {
        match self {
            IpAddr::V4(octets) => octets[0] == 0 && octets[1] == 0 && octets[2] == 0 && octets[3]
                == 0,
            IpAddr::V6(octets) => {
                let mut i: usize = 0;
                while i < 16
                    invariant
                        i <= 16,
                        *self == IpAddr::V6(*octets),
                        forall|k: int| 0 <= k < i ==> octets@[k] == 0,
                    decreases 16 - i,
                {
                    if octets[i] != 0 {
                        proof {
                            let ip = *self;
                            assert(ip->V6_0@[i as int] != 0);
                        }
                        return false;
                    }
                    i += 1;
                }
                true
            },
        }
    }

    /// `169.254.0.0/16` or `fe80::/10`.
    pub fn is_link_local(&self) -> (r: bool)
        ensures
            r == link_local(*self),
    {
        match self {
            IpAddr::V4(octets) => octets[0] == 169 && octets[1] == 254,
            IpAddr::V6(octets) => octets[0] == 0xfe && octets[1] >= 0x80 && octets[1] < 0xc0,
        }
    }

    /// `127.0.0.0/8` or `::1`.
    pub fn is_loopback(&self) -> (r: bool)
        ensures
            r == loopback(*self),
    {
        match self {
            IpAddr::V4(octets) => octets[0] == 127,
            IpAddr::V6(octets) => {
                let mut i: usize = 0;
                while i < 15
                    invariant
                        i <= 15,
                        *self == IpAddr::V6(*octets),
                        forall|k: int| 0 <= k < i ==> octets@[k] == 0,
                    decreases 15 - i,
                {
                    if octets[i] != 0 {
                        return false;
                    }
                    i += 1;
                }
                octets[15] == 1
            },
        }
    }
}

/// `0.0.0.0` or `::`.
pub open spec fn unspecified(ip: IpAddr) -> bool {
    match ip {
        IpAddr::V4(octets) => forall|k: int| 0 <= k < 4 ==> octets@[k] == 0,
        IpAddr::V6(octets) => forall|k: int| 0 <= k < 16 ==> octets@[k] == 0,
    }
}

/// `169.254.0.0/16` or `fe80::/10`.
pub open spec fn link_local(ip: IpAddr) -> bool {
    match ip {
        IpAddr::V4(octets) => octets@[0] == 169 && octets@[1] == 254,
        IpAddr::V6(octets) => octets@[0] == 0xfe && 0x80 <= octets@[1] < 0xc0,
    }
}

/// `127.0.0.0/8` or `::1`.
pub open spec fn loopback(ip: IpAddr) -> bool {
    match ip {
        IpAddr::V4(octets) => octets@[0] == 127,
        IpAddr::V6(octets) => octets@[15] == 1 && forall|k: int|
            0 <= k < 15 ==> octets@[k] == 0,
    }
}

/// A transport address.  `flowinfo` and `scope_id` belong to IPv6 and are zero
/// for IPv4.
#[derive(Clone, Copy, Debug, PartialEq, Eq, Hash)]
pub struct SocketAddr {
    pub ip: IpAddr,
    pub port: u16,
    pub flowinfo: u32,
    pub scope_id: u32,
}

impl SocketAddr {
    /// Whether two addresses are the same.
    pub fn same(&self, other: &Self) -> (r: bool)
        ensures
            r == (*self == *other),
    {
        self.ip.same(&other.ip) && self.port == other.port && self.flowinfo == other.flowinfo
            && self.scope_id == other.scope_id
    }
}

/// The address with no flow label and no scope.
pub open spec fn plain_addr(ip: IpAddr, port: u16) -> SocketAddr {
    SocketAddr { ip, port, flowinfo: 0, scope_id: 0 }
}

impl SocketAddr {
    /// The address with no flow label and no scope.
    pub fn new(ip: IpAddr, port: u16) -> (r: SocketAddr)
        ensures
            r == plain_addr(ip, port),
    {
        SocketAddr { ip, port, flowinfo: 0, scope_id: 0 }
    }
}

} // verus!
