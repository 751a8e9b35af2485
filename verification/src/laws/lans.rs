//! What holds of LAN consent and admission.
use crate::card::{card_parse, self_signed, unmapped};
use crate::crypto::sha256_digest;
use crate::id::NodeId;
use crate::lan::address::{
    binding_accepted, carries, contiguous, first_carrier, is_broadcast, is_network, local_only,
    mask_octet, octets_of, permitted, policy_for, same_network, unchanged, AddressPolicy, Interface,
    LanBinding,
};
use crate::lan::admission::{
    admission, admitted, attaching, card_floor, counted, in_force, kept_of, lan_card, latest,
    lease_of, leased_as, leases_ended, living_by, new_lease, orphaned, still_open, with_lease,
    without_connection, AdmissionView, CardCheckpoint, Clock, LeaseView,
};
use crate::lan::session::{allowance, card_expiry, consent_ended, names_target};
use crate::lan::{LanError, LAN_ALPN, LAN_PAIRING_ALPN, READY};
use crate::net::{link_local, loopback, IpAddr, SocketAddr};
use crate::session::later;
use vstd::prelude::*;

verus! {

// ---------------------------------------------------------------------------
// Addresses
// ---------------------------------------------------------------------------
/// The first two octets of an address as one number.
pub open spec fn leading(octets: Seq<u8>) -> int {
    octets[0] * 256 + octets[1]
}

/// The local addresses are `10/8`, `172.16/12`, `192.168/16` and `169.254/16`, and
/// `fc00::/7` and `fe80::/10`; loopback is `127/8` and `::1` and none of them.
pub proof fn law_the_local_networks(ip: IpAddr)
    ensures
        match ip {
            IpAddr::V4(octets) => {
                let n = leading(octets@);
                &&& local_only(ip) <==> 0x0a00 <= n <= 0x0aff || 0xac10 <= n <= 0xac1f || n == 0xc0a8
                    || n == 0xa9fe
                &&& link_local(ip) <==> n == 0xa9fe
                &&& loopback(ip) <==> 0x7f00 <= n <= 0x7fff
            },
            IpAddr::V6(octets) => {
                let n = leading(octets@);
                &&& local_only(ip) <==> 0xfc00 <= n <= 0xfdff || 0xfe80 <= n <= 0xfebf
                &&& link_local(ip) <==> 0xfe80 <= n <= 0xfebf
                &&& loopback(ip) <==> octets@ == seq![
                    0u8, 0u8, 0u8, 0u8, 0u8, 0u8, 0u8, 0u8, 0u8, 0u8, 0u8, 0u8, 0u8, 0u8, 0u8, 1u8,
                ]
            },
        },
        !(local_only(ip) && loopback(ip)),
{
    if let IpAddr::V6(octets) = ip {
        let one = seq![
            0u8, 0u8, 0u8, 0u8, 0u8, 0u8, 0u8, 0u8, 0u8, 0u8, 0u8, 0u8, 0u8, 0u8, 0u8, 1u8,
        ];
        assert(one[0] == 0);
        if loopback(ip) {
            assert(octets@ =~= one);
        }
    }
}

/// A mask is a run of ones and then zeros: no bit is set after one that is not, and the
/// first octet is not empty.
pub proof fn law_a_mask_is_a_run_of_ones(mask: Seq<u8>, m: u8)
    ensures
        mask_octet(m) <==> ((m & 0x7f) << 1u8) & !m == 0,
        contiguous(mask) <==> {
            &&& mask.len() > 0
            &&& mask[0] >= 0x80
            &&& forall|i: int| 0 <= i < mask.len() ==> mask_octet(#[trigger] mask[i])
            &&& forall|i: int| 0 < i < mask.len() && #[trigger] mask[i] != 0 ==> mask[i - 1] == 0xff
        },
{
    assert(((m & 0x7f) << 1u8) & !m == 0 <==> m == 0 || m == 0x80 || m == 0xc0 || m == 0xe0 || m == 0xf0
        || m == 0xf8 || m == 0xfc || m == 0xfe || m == 0xff) by (bit_vector);
    if contiguous(mask) {
        assert(mask_octet(mask[0]));
        assert forall|i: int| 0 < i < mask.len() && #[trigger] mask[i] != 0 implies mask[i - 1]
            == 0xff by {
            if mask[i - 1] != 0xff {
                assert(mask[i] == 0);
            }
        }
    }
    if mask.len() > 0 && mask[0] >= 0x80 && (forall|i: int|
        0 <= i < mask.len() ==> mask_octet(#[trigger] mask[i])) && (forall|i: int|
        0 < i < mask.len() && #[trigger] mask[i] != 0 ==> mask[i - 1] == 0xff) {
        assert forall|i: int, j: int|
            0 <= i < j < mask.len() && #[trigger] mask[i] != 0xff implies #[trigger] mask[j]
            == 0 by {
            lemma_zeros_follow(mask, i, j);
        }
    }
}

proof fn lemma_zeros_follow(mask: Seq<u8>, i: int, j: int)
    requires
        0 <= i < j < mask.len(),
        mask[i] != 0xff,
        forall|k: int| 0 < k < mask.len() && #[trigger] mask[k] != 0 ==> mask[k - 1] == 0xff,
    ensures
        mask[j] == 0,
    decreases j - i,
{
    if i + 1 < j {
        lemma_zeros_follow(mask, i, j - 1);
        assert(mask[j - 1] == 0);
    }
    if mask[j] != 0 {
        assert(mask[j - 1] == 0xff);
    }
}

/// The bits that two octets differ in under a mask.
pub open spec fn differing(a: u8, b: u8, mask: u8) -> u8 {
    (a ^ b) & mask
}

/// On an IPv4 interface an address passes exactly if it has a port, is local, differs from
/// the bound one only in the host part, and its host part is neither all zeros nor all
/// ones.
pub proof fn law_an_ipv4_interface_passes_its_hosts(
    policy: AddressPolicy,
    addr: SocketAddr,
    local: [u8; 4],
    remote: [u8; 4],
    mask: [u8; 4],
)
    requires
        policy.bind.ip == IpAddr::V4(local),
        addr.ip == IpAddr::V4(remote),
        policy.interface matches Some((_, covered, _)) && covered == IpAddr::V4(mask),
    ensures
        permitted(policy, addr) <==> {
            &&& addr.port > 0
            &&& local_only(addr.ip)
            &&& forall|i: int|
                0 <= i < 4 ==> differing(local@[i], remote@[i], #[trigger] mask@[i]) == 0
            &&& exists|i: int| 0 <= i < 4 && remote@[i] & !(#[trigger] mask@[i]) != 0
            &&& exists|i: int| 0 <= i < 4 && remote@[i] | #[trigger] mask@[i] != 0xff
        },
{
    assert forall|i: int| 0 <= i < 4 implies {
        &&& local@[i] & mask@[i] == remote@[i] & mask@[i] <==> differing(
            local@[i],
            remote@[i],
            #[trigger] mask@[i],
        ) == 0
        &&& remote@[i] == local@[i] & mask@[i] <==> differing(local@[i], remote@[i], mask@[i]) == 0
            && remote@[i] & !mask@[i] == 0
        &&& remote@[i] == local@[i] | !mask@[i] <==> differing(local@[i], remote@[i], mask@[i]) == 0
            && remote@[i] | mask@[i] == 0xff
    } by {
        let l = local@[i];
        let r = remote@[i];
        let m = mask@[i];
        assert((l & m == r & m) <==> ((l ^ r) & m == 0)) by (bit_vector);
        assert((r == l & m) <==> ((l ^ r) & m == 0 && r & !m == 0)) by (bit_vector);
        assert((l ^ r) & m == 0 && r | m == 0xff ==> r == l | !m) by (bit_vector);
        assert(r == l | !m && (l ^ r) & m == 0 ==> r | m == 0xff) by (bit_vector);
        assert(r == l | !m ==> (l ^ r) & m == 0) by (bit_vector);
    }
    let same = forall|i: int| 0 <= i < 4 ==> differing(local@[i], remote@[i], #[trigger] mask@[i]) == 0;
    assert(same_network(local@, remote@, mask@) <==> same) by {
        if same_network(local@, remote@, mask@) {
            assert forall|i: int| 0 <= i < 4 implies differing(
                local@[i],
                remote@[i],
                #[trigger] mask@[i],
            ) == 0 by {
                assert(local@[i] & mask@[i] == remote@[i] & mask@[i]);
            }
        }
        if same {
            assert forall|i: int| 0 <= i < 4 implies #[trigger] local@[i] & mask@[i] == remote@[i]
                & mask@[i] by {
                assert(differing(local@[i], remote@[i], mask@[i]) == 0);
            }
        }
    }
    if same {
        if exists|i: int| 0 <= i < 4 && remote@[i] & !(#[trigger] mask@[i]) != 0 {
            let i = choose|i: int| 0 <= i < 4 && remote@[i] & !(#[trigger] mask@[i]) != 0;
            assert(remote@[i] != local@[i] & mask@[i]);
            assert(!is_network(local@, remote@, mask@));
        } else {
            assert forall|i: int| 0 <= i < local@.len() implies remote@[i] == #[trigger] local@[i]
                & mask@[i] by {
                assert(remote@[i] & !mask@[i] == 0);
            }
            assert(is_network(local@, remote@, mask@));
        }
        if exists|i: int| 0 <= i < 4 && remote@[i] | #[trigger] mask@[i] != 0xff {
            let i = choose|i: int| 0 <= i < 4 && remote@[i] | #[trigger] mask@[i] != 0xff;
            assert(remote@[i] != local@[i] | !mask@[i]);
            assert(!is_broadcast(local@, remote@, mask@));
        } else {
            assert forall|i: int| 0 <= i < local@.len() implies remote@[i] == #[trigger] local@[i]
                | !mask@[i] by {
                assert(remote@[i] | mask@[i] == 0xff);
            }
            assert(is_broadcast(local@, remote@, mask@));
        }
    }
}

/// On an IPv6 interface an address passes exactly if it has a port, is local, differs from
/// the bound one only in the host part, and has the bound scope and no flow label.
pub proof fn law_an_ipv6_interface_passes_its_hosts(
    policy: AddressPolicy,
    addr: SocketAddr,
    local: [u8; 16],
    remote: [u8; 16],
    mask: [u8; 16],
)
    requires
        policy.bind.ip == IpAddr::V6(local),
        addr.ip == IpAddr::V6(remote),
        policy.interface matches Some((_, covered, _)) && covered == IpAddr::V6(mask),
    ensures
        permitted(policy, addr) <==> {
            &&& addr.port > 0
            &&& local_only(addr.ip)
            &&& addr.scope_id == policy.bind.scope_id
            &&& addr.flowinfo == 0
            &&& forall|i: int|
                0 <= i < 16 ==> differing(local@[i], remote@[i], #[trigger] mask@[i]) == 0
        },
{
    assert forall|i: int| 0 <= i < 16 implies {
        local@[i] & mask@[i] == remote@[i] & mask@[i] <==> differing(
            local@[i],
            remote@[i],
            #[trigger] mask@[i],
        ) == 0
    } by {
        let l = local@[i];
        let r = remote@[i];
        let m = mask@[i];
        assert((l & m == r & m) <==> ((l ^ r) & m == 0)) by (bit_vector);
    }
    let same = forall|i: int|
        0 <= i < 16 ==> differing(local@[i], remote@[i], #[trigger] mask@[i]) == 0;
    if same_network(local@, remote@, mask@) {
        assert forall|i: int| 0 <= i < 16 implies differing(
            local@[i],
            remote@[i],
            #[trigger] mask@[i],
        ) == 0 by {
            assert(local@[i] & mask@[i] == remote@[i] & mask@[i]);
        }
    }
    if same {
        assert forall|i: int| 0 <= i < local@.len() implies #[trigger] local@[i] & mask@[i]
            == remote@[i] & mask@[i] by {
            assert(differing(local@[i], remote@[i], mask@[i]) == 0);
        }
    }
}

/// Without an interface exactly the loopback addresses of the bound family pass, and no
/// address of another family passes anywhere.
pub proof fn law_loopback_passes_loopback(policy: AddressPolicy, addr: SocketAddr)
    ensures
        policy.interface is None ==> (permitted(policy, addr) <==> addr.port > 0 && loopback(
            addr.ip,
        ) && (addr.ip is V4 <==> policy.bind.ip is V4)),
        addr.ip is V4 != policy.bind.ip is V4 ==> !permitted(policy, addr),
{
}

/// Development loopback is bound exactly to loopback addresses; no interface is consented
/// to by it.
pub proof fn law_loopback_is_bound_to_loopback(
    bind: SocketAddr,
    interfaces: Seq<Interface>,
    at: Option<int>,
    policy: AddressPolicy,
)
    ensures
        binding_accepted(LanBinding::LoopbackDevelopment(bind), interfaces, at) <==> at is None
            && loopback(bind.ip),
        policy_for(policy, LanBinding::LoopbackDevelopment(bind), interfaces, None) <==> policy.bind
            == bind && policy.interface is None,
{
}

/// An interface is bound by an address of its own: the first that has the address and is no
/// point-to-point link.  Its mask is a run of ones; an IPv6 address has no flow label, and
/// names the interface exactly if it is link-local.  The policy keeps the interface's name,
/// mask and index.
pub proof fn law_an_interface_is_bound_by_its_address(
    bind: SocketAddr,
    interfaces: Seq<Interface>,
    i: int,
    policy: AddressPolicy,
)
    requires
        0 <= i < interfaces.len(),
    ensures
        !binding_accepted(LanBinding::Interface(bind), interfaces, None),
        binding_accepted(LanBinding::Interface(bind), interfaces, Some(i)) <==> {
            &&& local_only(bind.ip)
            &&& interfaces[i].ip == bind.ip
            &&& !interfaces[i].is_p2p
            &&& forall|k: int|
                0 <= k < i ==> (#[trigger] interfaces[k]).ip != bind.ip || interfaces[k].is_p2p
            &&& contiguous(octets_of(interfaces[i].mask))
            &&& bind.ip is V6 ==> bind.flowinfo == 0
            &&& bind.ip is V6 && !link_local(bind.ip) ==> bind.scope_id == 0
            &&& bind.ip is V6 && link_local(bind.ip) ==> bind.scope_id != 0 && interfaces[i].index
                == Some(bind.scope_id)
        },
        policy_for(policy, LanBinding::Interface(bind), interfaces, Some(i)) <==> {
            &&& policy.bind == bind
            &&& policy.interface matches Some((name, mask, index)) && name@ == interfaces[i].name@
                && mask == interfaces[i].mask && index == interfaces[i].index
        },
{
    if forall|k: int|
        0 <= k < i ==> (#[trigger] interfaces[k]).ip != bind.ip || interfaces[k].is_p2p {
        assert forall|k: int| 0 <= k < i implies !carries(#[trigger] interfaces[k], bind) by {}
    }
    if first_carrier(interfaces, bind, i) {
        assert forall|k: int| 0 <= k < i implies (#[trigger] interfaces[k]).ip != bind.ip
            || interfaces[k].is_p2p by {
            assert(!carries(interfaces[k], bind));
        }
    }
}

/// A policy for an interface still stands exactly as long as name, address, mask and index
/// are what they were.
pub proof fn law_a_changed_interface_ends_the_consent(
    policy: AddressPolicy,
    bind: SocketAddr,
    interfaces: Seq<Interface>,
    i: int,
    seen: Interface,
)
    requires
        0 <= i < interfaces.len(),
        interfaces[i].ip == bind.ip,
        policy_for(policy, LanBinding::Interface(bind), interfaces, Some(i)),
    ensures
        unchanged(policy, interfaces[i]),
        unchanged(policy, seen) <==> seen.name@ == interfaces[i].name@ && seen.ip == interfaces[i].ip
            && seen.mask == interfaces[i].mask && seen.index == interfaces[i].index,
{
}

/// A card names a target by any of its addresses, whether plain or mapped into IPv6, with
/// the same port.
pub proof fn law_a_named_target_is_found(addrs: Seq<SocketAddr>, target: SocketAddr, i: int)
    ensures
        names_target(Seq::empty(), target) == false,
        0 <= i < addrs.len() && unmapped(addrs[i]).ip == target.ip && addrs[i].port == target.port
            ==> names_target(addrs, target),
        names_target(addrs, target) ==> exists|k: int|
            0 <= k < addrs.len() && unmapped(#[trigger] addrs[k]).ip == target.ip && addrs[k].port
                == target.port,
{
    if names_target(addrs, target) {
        let k = choose|k: int|
            0 <= k < addrs.len() && unmapped(#[trigger] addrs[k]).ip == target.ip && unmapped(
                addrs[k],
            ).port == target.port;
        assert(unmapped(addrs[k]).ip == target.ip && addrs[k].port == target.port);
    }
}

// ---------------------------------------------------------------------------
// Sessions
// ---------------------------------------------------------------------------
/// Consent stands exactly while the endpoint is active, the lease is valid and the deadline
/// lies ahead.
pub proof fn law_consent_stands_until_it_ends(
    active: bool,
    valid: bool,
    deadline: Option<u64>,
    now: u64,
)
    ensures
        !consent_ended(active, valid, deadline, now) <==> active && valid && (deadline is Some
            ==> now < deadline->0),
{
}

/// As many bytes pass as are wanted and left; none is refused until nothing is left.
pub proof fn law_an_allowance_is_what_is_left(left: u64, wanted: usize)
    ensures
        allowance(left, wanted) is None <==> left == 0 && wanted > 0,
        allowance(left, wanted) matches Some(n) ==> n == (if wanted <= left {
            wanted as int
        } else {
            left as int
        }),
{
}

/// A local card lives as many whole seconds as it was given, a second to seven days, and no
/// longer than the window; without a serial or with a window that is over there is none.
pub proof fn law_a_local_card_lives_within_its_window(
    lifetime: u64,
    serial: u64,
    issued: u64,
    window: Option<u64>,
)
    requires
        issued + 604_800 <= u64::MAX,
    ensures
        ({
            let r = card_expiry(lifetime, serial, issued, window);
            let fits = 1_000 <= lifetime < 604_801_000 && serial > 0;
            let shut = window is Some && window->0 <= issued;
            &&& !fits ==> r == Err::<u64, _>(LanError::Lifetime)
            &&& fits && shut ==> r == Err::<u64, _>(LanError::Admission)
            &&& fits && !shut ==> {
                &&& r is Ok
                &&& r->Ok_0 > issued
                &&& window is Some ==> r->Ok_0 <= window->0
                &&& 1_000 * (r->Ok_0 - issued) <= lifetime
                &&& window is None || r->Ok_0 < window->0 ==> lifetime < 1_000 * (r->Ok_0 - issued)
                    + 1_000
            }
        }),
{
}

/// The greeting and the protocol names are those words, byte for byte.
pub proof fn law_the_words_of_the_protocol(i: int)
    ensures
        0 <= i < 14 ==> READY@[i] as int == "FSL-LAN-READY\u{1}"@[i] as int,
        0 <= i < 19 ==> LAN_ALPN@[i] as int == "fsl-lan-candidate/0"@[i] as int,
        0 <= i < 24 ==> LAN_PAIRING_ALPN@[i] as int == "fsl-lan-pair-candidate/0"@[i] as int,
{
    reveal_strlit("FSL-LAN-READY\u{1}");
    reveal_strlit("fsl-lan-candidate/0");
    reveal_strlit("fsl-lan-pair-candidate/0");
}

// ---------------------------------------------------------------------------
// Cards and checkpoints
// ---------------------------------------------------------------------------
/// A peer's card is accepted exactly if it is whole, signed by the peer, current, and either
/// the very card that was kept or one with a higher serial.
pub proof fn law_a_peer_card_is_current(
    expected: NodeId,
    raw: Seq<u8>,
    kept: Option<CardCheckpoint>,
    now: u64,
)
    ensures
        lan_card(expected, raw, kept, now) is Some <==> {
            &&& 126 <= raw.len() <= 4096
            &&& card_parse(raw) is Ok
            &&& self_signed(raw)
            &&& ({
                let card = card_parse(raw)->Ok_0;
                &&& card.node_id == expected
                &&& card.issued_at <= now + 300
                &&& now < card.expires_at
                &&& card.issued_at < card.expires_at <= card.issued_at + 604_800
                &&& card.serial > 0
                &&& kept is Some ==> kept->0.serial > 0 && if kept->0.sha256@ == sha256_digest(raw) {
                    card.serial == kept->0.serial
                } else {
                    card.serial > kept->0.serial
                }
            })
        },
        lan_card(expected, raw, kept, now) matches Some(card) ==> card_parse(raw) == Ok::<
            _,
            crate::card::RuleViolation,
        >(card),
        kept is None ==> card_floor(kept, sha256_digest(raw)) == 0,
{
}

/// Of two checkpoints the one with the higher serial counts, whichever side it is on; two
/// different ones with one serial are a fault.
pub proof fn law_the_higher_serial_counts(
    a: CardCheckpoint,
    b: CardCheckpoint,
    one: Option<CardCheckpoint>,
)
    ensures
        latest(one, None) == Ok::<_, LanError>(one),
        latest(None, one) == Ok::<_, LanError>(one),
        a.serial < b.serial ==> latest(Some(a), Some(b)) == Ok::<_, LanError>(Some(b)),
        a.serial < b.serial ==> latest(Some(b), Some(a)) == Ok::<_, LanError>(Some(b)),
        latest(Some(a), Some(a)) == Ok::<_, LanError>(Some(a)),
        a.serial == b.serial && a != b ==> latest(Some(a), Some(b)) == Err::<
            Option<CardCheckpoint>,
            _,
        >(LanError::Card),
{
}

// ---------------------------------------------------------------------------
// Leases
// ---------------------------------------------------------------------------
/// A new lease is in force exactly until its card expires, its longest life is over or the
/// card's remaining seconds have passed.
pub proof fn law_a_lease_lasts_its_time(
    id: u64,
    expires_at: u64,
    max_lifetime: u64,
    clock: Clock,
    then: Clock,
)
    requires
        clock.unix < expires_at,
        1_000 * (expires_at - clock.unix) <= u64::MAX,
        clock.now + max_lifetime <= u64::MAX,
        clock.now + 1_000 * (expires_at - clock.unix) <= u64::MAX,
    ensures
        in_force(new_lease(id, expires_at, max_lifetime, clock), then) <==> {
            &&& then.unix < expires_at
            &&& then.now < clock.now + max_lifetime
            &&& then.now < clock.now + 1_000 * (expires_at - clock.unix)
        },
        new_lease(id, expires_at, max_lifetime, clock).id == id,
        new_lease(id, expires_at, max_lifetime, clock).expires_at == expires_at,
        new_lease(id, expires_at, max_lifetime, clock).connections == Seq::<u64>::empty(),
{
}

/// A revoked lease is never in force again, and one whose card has expired never began.
pub proof fn law_an_ended_lease_is_not_in_force(
    lease: LeaseView,
    id: u64,
    expires_at: u64,
    max_lifetime: u64,
    clock: Clock,
    then: Clock,
)
    ensures
        !lease.active ==> !in_force(lease, then),
        expires_at <= clock.unix && clock.now <= then.now ==> !in_force(
            new_lease(id, expires_at, max_lifetime, clock),
            then,
        ),
{
}

/// The connections that stay are those that satisfy the rule, in their order.
pub proof fn law_connections_stay_in_order(connections: Seq<u64>, open: Seq<u64>, id: u64)
    ensures
        still_open(connections, open) == connections.filter(|c: u64| open.contains(c)),
        without_connection(connections, id) == connections.filter(|c: u64| c != id),
        !without_connection(connections, id).contains(id),
    decreases connections.len(),
{
    reveal(Seq::filter);
    if connections.len() > 0 {
        law_connections_stay_in_order(connections.drop_last(), open, id);
        let rest = without_connection(connections.drop_last(), id);
        if without_connection(connections, id).contains(id) {
            let all = without_connection(connections, id);
            let k = choose|k: int| 0 <= k < all.len() && all[k] == id;
            if k < rest.len() {
                assert(rest[k] == id);
            }
        }
    }
}

/// A connection that replaces the others joins every lease in force: it is the only one
/// then, and those that were open are closed.
pub proof fn law_a_replacing_connection_is_alone(
    lease: LeaseView,
    connection: u64,
    open: Seq<u64>,
    clock: Clock,
)
    ensures
        ({
            let (after, outcome) = attaching(lease, connection, true, open, clock);
            &&& in_force(lease, clock) ==> {
                &&& outcome is Ok
                &&& outcome->Ok_0 == lease.connections.filter(|c: u64| open.contains(c))
                &&& after.connections == seq![connection]
            }
            &&& !in_force(lease, clock) ==> outcome == Err::<Seq<u64>, _>(LanError::Admission)
                && after == lease
            &&& after.id == lease.id && after.active == lease.active && after.expires_at
                == lease.expires_at && after.deadline == lease.deadline
        }),
{
    law_connections_stay_in_order(lease.connections, open, connection);
    assert(Seq::<u64>::empty().push(connection) =~= seq![connection]);
}

/// A connection that joins the others leaves them in place; up to eight live by one lease,
/// and the ones that have closed do not count.
pub proof fn law_eight_connections_share_a_lease(
    lease: LeaseView,
    connection: u64,
    open: Seq<u64>,
    clock: Clock,
)
    ensures
        ({
            let (after, outcome) = attaching(lease, connection, false, open, clock);
            let living = lease.connections.filter(|c: u64| open.contains(c));
            &&& in_force(lease, clock) && living.len() < 8 ==> outcome == Ok::<_, LanError>(
                Seq::<u64>::empty(),
            ) && after.connections == living.push(connection)
            &&& in_force(lease, clock) && living.len() >= 8 ==> outcome == Err::<Seq<u64>, _>(
                LanError::Capacity,
            ) && after.connections == living
            &&& !in_force(lease, clock) ==> outcome == Err::<Seq<u64>, _>(LanError::Admission)
                && after == lease
            &&& after.id == lease.id && after.active == lease.active && after.expires_at
                == lease.expires_at && after.deadline == lease.deadline
        }),
{
    law_connections_stay_in_order(lease.connections, open, connection);
}

// ---------------------------------------------------------------------------
// The book
// ---------------------------------------------------------------------------
/// A peer that is known is admitted whenever its card is accepted; a new one as long as
/// fewer than two hundred and fifty-six are known.
pub proof fn law_who_is_admitted(
    book: AdmissionView,
    peer: NodeId,
    raw: Seq<u8>,
    saved: Option<CardCheckpoint>,
    clock: Clock,
)
    ensures
        ({
            let r = admission(book, peer, raw, saved, clock);
            let known = book.records.contains_key(peer);
            let kept = if known {
                Some(book.records[peer].checkpoint)
            } else {
                None
            };
            let torn = kept is Some && saved is Some && kept->0.serial == saved->0.serial && kept
                != saved;
            let floor = if kept is None || (saved is Some && saved->0.serial >= kept->0.serial) {
                saved
            } else {
                kept
            };
            let full = !known && book.records.dom().len() >= 256;
            &&& full ==> r == Err::<crate::card::CardView, _>(LanError::Capacity)
            &&& !full && torn ==> r == Err::<crate::card::CardView, _>(LanError::Card)
            &&& !full && !torn ==> match lan_card(peer, raw, floor, clock.unix) {
                Some(card) => r == Ok::<_, LanError>(card),
                None => r == Err::<crate::card::CardView, _>(LanError::Card),
            }
            &&& kept_of(book, peer) == kept
        }),
{
}

/// An admission gives the peer a lease of its own for at most seven days and leaves every
/// other peer as it was; no two admissions in a row have the same lease or generation.
pub proof fn law_an_admission_is_of_one_peer(
    book: AdmissionView,
    peer: NodeId,
    other: NodeId,
    checkpoint: CardCheckpoint,
    expires_at: u64,
    clock: Clock,
    then: Clock,
)
    requires
        clock.unix < expires_at,
        clock.now + 604_800_000 <= u64::MAX,
        clock.now + 1_000 * (expires_at - clock.unix) <= u64::MAX,
    ensures
        ({
            let after = admitted(book, peer, checkpoint, expires_at, clock);
            &&& kept_of(after, peer) == Some(checkpoint)
            &&& lease_of(after, peer) is Some
            &&& lease_of(after, peer)->0.id == book.next_lease
            &&& lease_of(after, peer)->0.connections.len() == 0
            &&& in_force(lease_of(after, peer)->0, then) <==> then.unix < expires_at && then.now
                < clock.now + 604_800_000 && then.now < clock.now + 1_000 * (expires_at
                - clock.unix)
            &&& other != peer ==> kept_of(after, other) == kept_of(book, other) && lease_of(
                after,
                other,
            ) == lease_of(book, other) && (after.records.contains_key(other)
                <==> book.records.contains_key(other))
            &&& after.next_lease != book.next_lease
            &&& after.generation != book.generation
            &&& book.next_lease < u64::MAX ==> after.next_lease == book.next_lease + 1
            &&& book.generation < u64::MAX ==> after.generation == book.generation + 1
        }),
{
}

/// A number advances by one and starts again after the last.
pub proof fn law_numbers_advance(n: u64)
    ensures
        counted(n) as int == (n + 1) % 0x1_0000_0000_0000_0000,
{
}

/// What changes a lease leaves the peer's checkpoint, the other peers, the generation and
/// the numbering as they were.
pub proof fn law_a_lease_changes_alone(
    book: AdmissionView,
    peer: NodeId,
    other: NodeId,
    lease: Option<LeaseView>,
    id: u64,
)
    requires
        book.records.contains_key(peer),
    ensures
        ({
            let after = with_lease(book, peer, lease);
            &&& lease_of(after, peer) == lease
            &&& kept_of(after, peer) == kept_of(book, peer)
            &&& other != peer ==> kept_of(after, other) == kept_of(book, other) && lease_of(
                after,
                other,
            ) == lease_of(book, other)
            &&& after.records.dom() =~= book.records.dom()
            &&& after.generation == book.generation
            &&& after.next_lease == book.next_lease
            &&& leased_as(after, peer, id) <==> lease is Some && lease->0.id == id
        }),
{
}

/// When leases end, exactly the connections that lived by them are closed; a lease in force
/// stays unless all are revoked, and every checkpoint stays.
pub proof fn law_leases_end_with_their_connections(
    book: AdmissionView,
    peer: NodeId,
    connection: u64,
    all: bool,
    clock: Clock,
)
    ensures
        ({
            let after = leases_ended(book, all, clock);
            let held = lease_of(book, peer);
            let over = held is Some && (all || !held->0.active || held->0.expires_at <= clock.unix
                || held->0.deadline <= clock.now);
            &&& over ==> lease_of(after, peer) is None
            &&& !over ==> lease_of(after, peer) == held
            &&& kept_of(after, peer) == kept_of(book, peer)
            &&& after.records.contains_key(peer) == book.records.contains_key(peer)
            &&& after.next_lease == book.next_lease
            &&& after.generation == book.generation
            &&& orphaned(book, peer, connection, all, clock) <==> over
                && held->0.connections.contains(connection)
            &&& living_by(held) == if held is Some {
                held->0.connections
            } else {
                Seq::empty()
            }
        }),
{
}

/// Time never wraps: the end of a wait is the time it takes, or the last time there is.
pub proof fn law_waits_end_later(now: u64, wait: u64)
    ensures
        now <= later(now, wait),
        now + wait <= u64::MAX ==> later(now, wait) - now == wait,
        now + wait > u64::MAX ==> later(now, wait) == u64::MAX,
{
}

} // verus!
