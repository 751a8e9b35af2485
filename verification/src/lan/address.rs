//! Which addresses a LAN endpoint talks to.
use super::LanError;
use crate::net::{link_local, loopback, plain_addr, IpAddr, SocketAddr};
use crate::text::same_text;
use vstd::prelude::*;
use vstd::string::*;

verus! {

/// Binding is an explicit local-network consent.  No wildcard interface and no
/// remote address that was merely discovered is accepted.
#[derive(Clone, Copy, Debug)]
pub enum LanBinding {
    LoopbackDevelopment(SocketAddr),
    Interface(SocketAddr),
}

impl Default for LanBinding {
    fn default() -> (r: Self)
        ensures
            r matches LanBinding::LoopbackDevelopment(addr) && addr.ip matches IpAddr::V4(octets)
                && octets@ == seq![127u8, 0u8, 0u8, 1u8] && addr == plain_addr(addr.ip, 0),
    {
        let octets = [127u8, 0, 0, 1];
        assert(octets@ =~= seq![127u8, 0u8, 0u8, 1u8]);
        LanBinding::LoopbackDevelopment(SocketAddr::new(IpAddr::V4(octets), 0))
    }
}

/// One interface of the host.
#[derive(Debug)]
pub struct Interface {
    pub name: String,
    pub ip: IpAddr,
    pub mask: IpAddr,
    pub index: Option<u32>,
    /// The interface is a point-to-point link.
    pub is_p2p: bool,
}

/// Where a LAN endpoint is bound, and the interface it was consented to: its name,
/// its mask and its index.  Without one the endpoint is bound to loopback.
#[derive(Debug)]
pub struct AddressPolicy {
    pub bind: SocketAddr,
    pub interface: Option<(String, IpAddr, Option<u32>)>,
}

/// An address that only local hosts have: private or link-local IPv4, unique-local
/// or link-local IPv6.
pub open spec fn local_only(ip: IpAddr) -> bool {
    link_local(ip) || match ip {
        IpAddr::V4(o) => o@[0] == 10 || (o@[0] == 172 && 16 <= o@[1] < 32) || (o@[0] == 192
            && o@[1] == 168),
        IpAddr::V6(o) => o@[0] == 0xfc || o@[0] == 0xfd,
    }
}

/// Whether an address is one that only local hosts have.
pub fn local_unicast(ip: &IpAddr) -> (r: bool)
    ensures
        r == local_only(*ip),
{
    ip.is_link_local() || match ip {
        IpAddr::V4(o) => o[0] == 10 || (o[0] == 172 && o[1] >= 16 && o[1] < 32) || (o[0] == 192
            && o[1] == 168),
        IpAddr::V6(o) => o[0] == 0xfc || o[0] == 0xfd,
    }
}

/// An octet whose ones all precede its zeros.
pub open spec fn mask_octet(octet: u8) -> bool {
    octet == 0 || octet == 0x80 || octet == 0xc0 || octet == 0xe0 || octet == 0xf0 || octet == 0xf8
        || octet == 0xfc || octet == 0xfe || octet == 0xff
}

/// A mask whose ones all precede its zeros, with at least one of them.
pub open spec fn contiguous(mask: Seq<u8>) -> bool {
    &&& mask.len() > 0
    &&& mask[0] != 0
    &&& forall|i: int| 0 <= i < mask.len() ==> mask_octet(#[trigger] mask[i])
    &&& forall|i: int, j: int|
        0 <= i < j < mask.len() && #[trigger] mask[i] != 0xff ==> #[trigger] mask[j] == 0
}

fn is_contiguous(mask: &[u8]) -> (r: bool)
    ensures
        r == contiguous(mask@),
{
    if mask.len() == 0 || mask[0] == 0 {
        return false;
    }
    let mut ended: Option<usize> = None;
    let mut i: usize = 0;
    while i < mask.len()
        invariant
            i <= mask.len(),
            mask@.len() > 0,
            mask@[0] != 0,
            forall|k: int| 0 <= k < i ==> mask_octet(#[trigger] mask@[k]),
            forall|k: int, j: int|
                0 <= k < j < i && #[trigger] mask@[k] != 0xff ==> #[trigger] mask@[j] == 0,
            match ended {
                Some(at) => at < i && mask@[at as int] != 0xff,
                None => forall|k: int| 0 <= k < i ==> #[trigger] mask@[k] == 0xff,
            },
        decreases mask.len() - i,
    {
        let octet: u8 = mask[i];
        let ordered = octet == 0 || octet == 0x80 || octet == 0xc0 || octet == 0xe0 || octet
            == 0xf0 || octet == 0xf8 || octet == 0xfc || octet == 0xfe || octet == 0xff;
        if !ordered {
            assert(!mask_octet(mask@[i as int]));
            return false;
        }
        if ended.is_some() && octet != 0 {
            assert(mask@[ended->0 as int] != 0xff && mask@[i as int] != 0);
            return false;
        }
        if ended.is_none() && octet != 0xff {
            ended = Some(i);
        }
        i += 1;
    }
    true
}

/// The octets of an address.
pub open spec fn octets_of(ip: IpAddr) -> Seq<u8> {
    match ip {
        IpAddr::V4(o) => o@,
        IpAddr::V6(o) => o@,
    }
}

/// Whether two addresses agree in the part that a mask covers.
pub open spec fn same_network(local: Seq<u8>, remote: Seq<u8>, mask: Seq<u8>) -> bool {
    forall|i: int|
        0 <= i < local.len() ==> #[trigger] local[i] & mask[i] == remote[i] & mask[i]
}

/// Whether an address is the first of a network, which names the network itself.
pub open spec fn is_network(local: Seq<u8>, remote: Seq<u8>, mask: Seq<u8>) -> bool {
    forall|i: int| 0 <= i < local.len() ==> remote[i] == #[trigger] local[i] & mask[i]
}

/// Whether an address is the last of a network, which all its hosts answer to.
pub open spec fn is_broadcast(local: Seq<u8>, remote: Seq<u8>, mask: Seq<u8>) -> bool {
    forall|i: int| 0 <= i < local.len() ==> remote[i] == #[trigger] local[i] | !mask[i]
}

fn in_same_network(local: &[u8], remote: &[u8], mask: &[u8]) -> (r: bool)
    requires
        local@.len() == remote@.len() == mask@.len(),
    ensures
        r == same_network(local@, remote@, mask@),
{
    let mut i: usize = 0;
    while i < local.len()
        invariant
            i <= local.len(),
            local@.len() == remote@.len() == mask@.len(),
            forall|k: int|
                0 <= k < i ==> #[trigger] local@[k] & mask@[k] == remote@[k] & mask@[k],
        decreases local.len() - i,
    {
        if local[i] & mask[i] != remote[i] & mask[i] {
            assert(local@[i as int] & mask@[i as int] != remote@[i as int] & mask@[i as int]);
            return false;
        }
        i += 1;
    }
    true
}

fn names_network(local: &[u8], remote: &[u8], mask: &[u8]) -> (r: bool)
    requires
        local@.len() == remote@.len() == mask@.len(),
    ensures
        r == is_network(local@, remote@, mask@),
{
    let mut i: usize = 0;
    while i < local.len()
        invariant
            i <= local.len(),
            local@.len() == remote@.len() == mask@.len(),
            forall|k: int| 0 <= k < i ==> remote@[k] == #[trigger] local@[k] & mask@[k],
        decreases local.len() - i,
    {
        if remote[i] != local[i] & mask[i] {
            assert(remote@[i as int] != local@[i as int] & mask@[i as int]);
            return false;
        }
        i += 1;
    }
    true
}

fn names_everyone(local: &[u8], remote: &[u8], mask: &[u8]) -> (r: bool)
    requires
        local@.len() == remote@.len() == mask@.len(),
    ensures
        r == is_broadcast(local@, remote@, mask@),
{
    let mut i: usize = 0;
    while i < local.len()
        invariant
            i <= local.len(),
            local@.len() == remote@.len() == mask@.len(),
            forall|k: int| 0 <= k < i ==> remote@[k] == #[trigger] local@[k] | !mask@[k],
        decreases local.len() - i,
    {
        if remote[i] != local[i] | !mask[i] {
            assert(remote@[i as int] != local@[i as int] | !mask@[i as int]);
            return false;
        }
        i += 1;
    }
    true
}

/// Whether an interface carries the address that is bound.
pub open spec fn carries(interface: Interface, bind: SocketAddr) -> bool {
    interface.ip == bind.ip && !interface.is_p2p
}

/// The place of the first interface that carries an address.
pub open spec fn first_carrier(interfaces: Seq<Interface>, bind: SocketAddr, i: int) -> bool {
    &&& 0 <= i < interfaces.len()
    &&& carries(interfaces[i], bind)
    &&& forall|k: int| 0 <= k < i ==> !carries(#[trigger] interfaces[k], bind)
}

/// Whether the scope and flow label of an address fit the interface: a link-local
/// IPv6 address names its interface, and no other address names one.
pub open spec fn scope_fits(bind: SocketAddr, index: Option<u32>) -> bool {
    bind.ip is V6 ==> bind.flowinfo == 0 && if link_local(bind.ip) {
        bind.scope_id != 0 && index == Some(bind.scope_id)
    } else {
        bind.scope_id == 0
    }
}

/// Whether a binding is accepted on a host with these interfaces, and the place of
/// its interface.
pub open spec fn binding_accepted(
    binding: LanBinding,
    interfaces: Seq<Interface>,
    at: Option<int>,
) -> bool {
    match (binding, at) {
        (LanBinding::LoopbackDevelopment(bind), None) => loopback(bind.ip),
        (LanBinding::Interface(bind), Some(i)) => local_only(bind.ip) && first_carrier(
            interfaces,
            bind,
            i,
        ) && contiguous(octets_of(interfaces[i].mask)) && scope_fits(bind, interfaces[i].index),
        _ => false,
    }
}

/// The address of a binding.
pub open spec fn bound_to(binding: LanBinding) -> SocketAddr {
    match binding {
        LanBinding::LoopbackDevelopment(bind) => bind,
        LanBinding::Interface(bind) => bind,
    }
}

/// Whether a policy is the one for a binding.
pub open spec fn policy_for(
    policy: AddressPolicy,
    binding: LanBinding,
    interfaces: Seq<Interface>,
    at: Option<int>,
) -> bool {
    &&& policy.bind == bound_to(binding)
    &&& match at {
        None => policy.interface is None,
        Some(i) => policy.interface matches Some((name, mask, index)) && name@
            == interfaces[i].name@ && mask == interfaces[i].mask && index == interfaces[i].index,
    }
}

/// Whether a policy lets datagrams to and from an address pass.
pub open spec fn permitted(policy: AddressPolicy, addr: SocketAddr) -> bool {
    &&& addr.port != 0
    &&& (addr.ip is V4) == (policy.bind.ip is V4)
    &&& match policy.interface {
        None => loopback(addr.ip),
        Some((_, mask, _)) => local_only(addr.ip) && match (policy.bind.ip, addr.ip, mask) {
            (IpAddr::V4(local), IpAddr::V4(remote), IpAddr::V4(mask)) => same_network(
                local@,
                remote@,
                mask@,
            ) && !is_network(local@, remote@, mask@) && !is_broadcast(local@, remote@, mask@),
            (IpAddr::V6(local), IpAddr::V6(remote), IpAddr::V6(mask)) => same_network(
                local@,
                remote@,
                mask@,
            ) && addr.scope_id == policy.bind.scope_id && addr.flowinfo == 0,
            _ => false,
        },
    }
}

/// Whether an interface is still the one that was consented to.
pub open spec fn unchanged(policy: AddressPolicy, interface: Interface) -> bool {
    policy.interface matches Some((name, mask, index)) && interface.name@ == name@ && interface.ip
        == policy.bind.ip && interface.mask == mask && interface.index == index
}

impl AddressPolicy {
    /// The policy for a binding, on a host with these interfaces.
    pub fn new(binding: LanBinding, interfaces: &Vec<Interface>) -> (r: Result<Self, LanError>)
        ensures
            match r {
                Ok(policy) => exists|at: Option<int>| #[trigger]
                    binding_accepted(binding, interfaces@, at) && policy_for(
                        policy,
                        binding,
                        interfaces@,
                        at,
                    ),
                Err(error) => error == LanError::Address && forall|at: Option<int>|
                    !#[trigger] binding_accepted(binding, interfaces@, at),
            },
    {
        match binding {
            LanBinding::LoopbackDevelopment(bind) => {
                if bind.ip.is_loopback() {
                    assert(binding_accepted(binding, interfaces@, None));
                    Ok(AddressPolicy { bind, interface: None })
                } else {
                    Err(LanError::Address)
                }
            },
            LanBinding::Interface(bind) => {
                if !local_unicast(&bind.ip) {
                    return Err(LanError::Address);
                }
                let mut i: usize = 0;
                while i < interfaces.len() && !(interfaces[i].ip.same(&bind.ip)
                    && !interfaces[i].is_p2p)
                    invariant
                        i <= interfaces.len(),
                        forall|k: int| 0 <= k < i ==> !carries(#[trigger] interfaces@[k], bind),
                    decreases interfaces.len() - i,
                {
                    i += 1;
                }
                if i == interfaces.len() {
                    return Err(LanError::Address);
                }
                proof {
                    assert(first_carrier(interfaces@, bind, i as int));
                    assert forall|at: Option<int>| #[trigger]
                        binding_accepted(binding, interfaces@, at) implies at == Some(i as int) by {
                        let k = at->0;
                        assert(first_carrier(interfaces@, bind, k));
                        if k < i {
                            assert(!carries(interfaces@[k], bind));
                        } else if i < k {
                            assert(!carries(interfaces@[i as int], bind));
                        }
                    }
                }
                let contiguous = match &interfaces[i].mask {
                    IpAddr::V4(mask) => is_contiguous(mask),
                    IpAddr::V6(mask) => is_contiguous(mask),
                };
                let index = interfaces[i].index;
                let named = match index {
                    Some(index) => index == bind.scope_id,
                    None => false,
                };
                let fits = bind.ip.is_ipv4() || (bind.flowinfo == 0 && if bind.ip.is_link_local() {
                    bind.scope_id != 0 && named
                } else {
                    bind.scope_id == 0
                });
                if !contiguous || !fits {
                    return Err(LanError::Address);
                }
                assert(binding_accepted(binding, interfaces@, Some(i as int)));
                Ok(
                    AddressPolicy {
                        bind,
                        interface: Some((interfaces[i].name.clone(), interfaces[i].mask, index)),
                    },
                )
            },
        }
    }

    /// Whether datagrams to and from an address pass.
    pub fn permits(&self, addr: SocketAddr) -> (r: bool)
        ensures
            r == permitted(*self, addr),
    {
        if addr.port == 0 || addr.ip.is_ipv4() != self.bind.ip.is_ipv4() {
            return false;
        }
        match &self.interface {
            None => addr.ip.is_loopback(),
            Some((_, mask, _)) => {
                if !local_unicast(&addr.ip) {
                    return false;
                }
                match (&self.bind.ip, &addr.ip, mask) {
                    (IpAddr::V4(local), IpAddr::V4(remote), IpAddr::V4(mask)) => in_same_network(
                        local,
                        remote,
                        mask,
                    ) && !names_network(local, remote, mask) && !names_everyone(
                        local,
                        remote,
                        mask,
                    ),
                    (IpAddr::V6(local), IpAddr::V6(remote), IpAddr::V6(mask)) => in_same_network(
                        local,
                        remote,
                        mask,
                    ) && addr.scope_id == self.bind.scope_id && addr.flowinfo == 0,
                    _ => false,
                }
            },
        }
    }

    /// Whether the interface that was consented to is still there; loopback always
    /// is.
    pub fn still_present(&self, interfaces: &Vec<Interface>) -> (r: bool)
        ensures
            r == (self.interface is None || exists|i: int|
                0 <= i < interfaces@.len() && unchanged(*self, #[trigger] interfaces@[i])),
    {
        match &self.interface {
            None => true,
            Some((name, mask, index)) => {
                let mut i: usize = 0;
                while i < interfaces.len()
                    invariant
                        i <= interfaces.len(),
                        self.interface matches Some((n, m, x)) && n@ == name@ && m == *mask && x
                            == *index,
                        forall|k: int| 0 <= k < i ==> !unchanged(*self, #[trigger] interfaces@[k]),
                    decreases interfaces.len() - i,
                {
                    let interface = &interfaces[i];
                    let same_index = match (&interface.index, index) {
                        (Some(a), Some(b)) => *a == *b,
                        (None, None) => true,
                        _ => false,
                    };
                    if same_text(interface.name.as_str(), name.as_str()) && interface.ip.same(
                        &self.bind.ip,
                    ) && interface.mask.same(mask) && same_index {
                        assert(unchanged(*self, interfaces@[i as int]));
                        return true;
                    }
                    i += 1;
                }
                false
            },
        }
    }
}

/// Nothing outside the consent passes: on loopback only loopback, on an interface
/// only local addresses of its own network.
pub proof fn law_nothing_leaves_the_consent(policy: AddressPolicy, addr: SocketAddr)
    requires
        permitted(policy, addr),
    ensures
        policy.interface is None ==> loopback(addr.ip),
        policy.interface matches Some((_, mask, _)) ==> local_only(addr.ip) && same_network(
            octets_of(policy.bind.ip),
            octets_of(addr.ip),
            octets_of(mask),
        ),
        (addr.ip is V4) == (policy.bind.ip is V4),
{
}

} // verus!
