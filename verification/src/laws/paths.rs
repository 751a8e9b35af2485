//! Candidates, probes, proofs and routes.
use crate::card::{mapped_octets, mapped_v4, unmapped};
use crate::id::NodeId;
use crate::net::{link_local, loopback, unspecified, IpAddr, SocketAddr};
use crate::path_socket::{
    are_targets, bounded, datagram_heard, direct_dropped, is_home, is_target, key_registered,
    key_unregistered, learned_kept, offered, offered_candidates, peer_of, pending_kept, pinged,
    probe_counts, probe_heard, probe_order, probe_outcome, reflected, reflection_heard, routed,
    session_begun, session_ended, session_of, synthetic, usable, with_peer, Heard, KeyId, Nonce,
    PathsView, PeerView, Pending, ProbeKey, Proven, Route,
};
use crate::session::{candidates_body, control_reads, law_candidates_survive_the_wire, Control};
use crate::wire::{reflect_reply_bytes, seals, SealedProbe};
use vstd::prelude::*;

verus! {

/// Whether an IPv6 address carries an IPv4 address: ten zero octets, two of `0xff`, and
/// the four octets.
pub open spec fn carries_v4(wide: Seq<u8>, narrow: Seq<u8>) -> bool {
    &&& wide.len() == 16
    &&& narrow.len() == 4
    &&& forall|k: int| 0 <= k < 10 ==> wide[k] == 0
    &&& wide[10] == 0xff && wide[11] == 0xff
    &&& forall|k: int| 0 <= k < 4 ==> wide[12 + k] == narrow[k]
}

/// Whether `plain` is the address that `wire` stands for: an IPv4 address that travels
/// inside an IPv6 one comes out, any other address is itself.
pub open spec fn stands_for(wire: SocketAddr, plain: SocketAddr) -> bool {
    match wire.ip {
        IpAddr::V6(wide) => if exists|narrow: Seq<u8>| carries_v4(wide@, narrow) {
            &&& plain.ip matches IpAddr::V4(narrow) && carries_v4(wide@, narrow@)
            &&& plain.port == wire.port
            &&& plain.flowinfo == 0
            &&& plain.scope_id == 0
        } else {
            plain == wire
        },
        IpAddr::V4(_) => plain == wire,
    }
}

/// The address that a wire address stands for is unique, and taking the mapping off
/// finds it.
pub proof fn law_unmapping_finds_the_address(wire: SocketAddr, plain: SocketAddr)
    ensures
        stands_for(wire, plain) <==> plain == unmapped(wire),
{
    if let IpAddr::V6(wide) = wire.ip {
        if mapped_v4(wide@) is Some {
            let zeros = Seq::new(10, |i: int| 0u8);
            let inner = [wide[12], wide[13], wide[14], wide[15]];
            assert forall|k: int| 0 <= k < 10 implies wide@[k] == 0 by {
                assert(wide@.subrange(0, 10)[k] == zeros[k]);
            }
            assert(carries_v4(wide@, inner@));
            if stands_for(wire, plain) {
                assert(plain.ip->V4_0@ =~= inner@);
                assert(plain.ip->V4_0 =~= inner);
            }
        } else if exists|narrow: Seq<u8>| carries_v4(wide@, narrow) {
            assert(wide@.subrange(0, 10) =~= Seq::new(10, |i: int| 0u8));
        }
    }
}

proof fn lemma_usable_push(local: SocketAddr, list: Seq<SocketAddr>, addr: SocketAddr)
    ensures
        usable(local, list.push(addr)) == if (local.ip is V4) == (unmapped(addr).ip is V4) {
            usable(local, list).push(unmapped(addr))
        } else {
            usable(local, list)
        },
{
    assert(list.push(addr).drop_last() =~= list);
}

/// Of one candidate, the socket keeps the address it stands for, exactly if that is of
/// the socket's own family.
pub proof fn law_a_usable_candidate_is_kept(
    local: SocketAddr,
    wire: SocketAddr,
    plain: SocketAddr,
)
    requires
        stands_for(wire, plain),
    ensures
        usable(local, seq![wire]) == if (local.ip is V4) == (plain.ip is V4) {
            seq![plain]
        } else {
            Seq::<SocketAddr>::empty()
        },
{
    law_unmapping_finds_the_address(wire, plain);
    assert(seq![wire] =~= Seq::<SocketAddr>::empty().push(wire));
    lemma_usable_push(local, Seq::empty(), wire);
    assert(usable(local, Seq::empty()) =~= Seq::<SocketAddr>::empty());
    assert(Seq::<SocketAddr>::empty().push(plain) =~= seq![plain]);
}

/// Each candidate is judged by itself, and the order is kept: what is kept of two lists
/// one after the other is what is kept of each, one after the other.
pub proof fn law_candidates_are_judged_one_by_one(
    local: SocketAddr,
    first: Seq<SocketAddr>,
    second: Seq<SocketAddr>,
)
    ensures
        usable(local, first + second) == usable(local, first) + usable(local, second),
    decreases second.len(),
{
    if second.len() == 0 {
        assert(first + second =~= first);
        assert(usable(local, second) =~= Seq::<SocketAddr>::empty());
        assert(usable(local, first) + usable(local, second) =~= usable(local, first));
    } else {
        let front = second.drop_last();
        law_candidates_are_judged_one_by_one(local, first, front);
        assert(first + second =~= (first + front).push(second.last()));
        assert(second =~= front.push(second.last()));
        lemma_usable_push(local, first + front, second.last());
        lemma_usable_push(local, front, second.last());
        assert(usable(local, first + second) =~= usable(local, first) + usable(local, second));
    }
}

/// Whether some candidate of a list stands for an address.
pub open spec fn comes_of(list: Seq<SocketAddr>, addr: SocketAddr) -> bool {
    exists|j: int| 0 <= j < list.len() && stands_for(#[trigger] list[j], addr)
}

/// A candidate is among those kept exactly if the address it stands for is of the
/// socket's family, and nothing else is kept.
pub proof fn law_exactly_the_usable_candidates_are_kept(
    local: SocketAddr,
    list: Seq<SocketAddr>,
    i: int,
    plain: SocketAddr,
)
    requires
        0 <= i < list.len(),
        stands_for(list[i], plain),
    ensures
        usable(local, list).contains(plain) <==> (local.ip is V4) == (plain.ip is V4),
        forall|k: int|
            0 <= k < usable(local, list).len() ==> comes_of(
                list,
                #[trigger] usable(local, list)[k],
            ),
        forall|k: int|
            0 <= k < usable(local, list).len() ==> (local.ip is V4) == ((#[trigger] usable(
                local,
                list,
            )[k]).ip is V4),
    decreases list.len(),
{
    let front = list.drop_last();
    let last = list.last();
    let kept = usable(local, list);
    let before = usable(local, front);
    lemma_usable_push(local, front, last);
    assert(list =~= front.push(last));
    law_unmapping_finds_the_address(last, unmapped(last));
    law_unmapping_finds_the_address(list[i], plain);
    if front.len() > 0 {
        law_unmapping_finds_the_address(front[0], unmapped(front[0]));
        law_exactly_the_usable_candidates_are_kept(local, front, 0, unmapped(front[0]));
    }
    assert forall|k: int| 0 <= k < kept.len() implies comes_of(list, #[trigger] kept[k]) by {
        if k < before.len() {
            assert(kept[k] == before[k]);
            assert(comes_of(front, before[k]));
            let j = choose|j: int|
                0 <= j < front.len() && stands_for(#[trigger] front[j], before[k]);
            assert(list[j] == front[j]);
        } else {
            assert(stands_for(list[list.len() - 1], kept[k]));
        }
    }
    assert forall|k: int| 0 <= k < kept.len() implies (local.ip is V4) == ((#[trigger] kept[k]).ip
        is V4) by {
        if k < before.len() {
            assert(kept[k] == before[k]);
        }
    }
    if (local.ip is V4) == (plain.ip is V4) {
        if i == list.len() - 1 {
            assert(kept[before.len() as int] == plain);
        } else {
            assert(front[i] == list[i]);
            law_exactly_the_usable_candidates_are_kept(local, front, i, plain);
            let k = choose|k: int| 0 <= k < before.len() && before[k] == plain;
            assert(kept[k] == plain);
        }
    } else if kept.contains(plain) {
        let k = choose|k: int| 0 <= k < kept.len() && kept[k] == plain;
        assert((local.ip is V4) == (kept[k].ip is V4));
    }
}

/// A list of IPv4 addresses that one side sends is the list that the other side probes
/// from an IPv4 socket: the same addresses in the same order, and nothing else.
pub proof fn law_listed_addresses_are_probed(
    addrs: Seq<SocketAddr>,
    control: Option<Control>,
    local: SocketAddr,
)
    requires
        addrs.len() <= 227,
        forall|i: int|
            0 <= i < addrs.len() ==> (#[trigger] addrs[i]).ip is V4 && addrs[i].flowinfo == 0
                && addrs[i].scope_id == 0,
        local.ip is V4,
        control_reads(candidates_body(addrs), control),
    ensures
        control matches Some(Control::Candidates(list)) && usable(local, list@) == addrs,
{
    law_candidates_survive_the_wire(addrs, control);
    let list = control->0->Candidates_0@;
    assert forall|i: int| 0 <= i < addrs.len() implies unmapped(#[trigger] list[i]) == addrs[i] by {
        let wide = list[i].ip->V6_0;
        let narrow = addrs[i].ip->V4_0;
        assert(wide@ =~= mapped_octets(addrs[i].ip));
        assert(carries_v4(wide@, narrow@));
        assert(stands_for(list[i], addrs[i]));
        law_unmapping_finds_the_address(list[i], addrs[i]);
    }
    lemma_usable_all(local, list, addrs);
}

proof fn lemma_usable_all(local: SocketAddr, list: Seq<SocketAddr>, plain: Seq<SocketAddr>)
    requires
        list.len() == plain.len(),
        local.ip is V4,
        forall|i: int|
            0 <= i < list.len() ==> unmapped(#[trigger] list[i]) == plain[i] && plain[i].ip is V4,
    ensures
        usable(local, list) == plain,
    decreases list.len(),
{
    if list.len() > 0 {
        let front = list.drop_last();
        assert forall|i: int| 0 <= i < front.len() implies unmapped(#[trigger] front[i])
            == plain.drop_last()[i] && plain.drop_last()[i].ip is V4 by {
            assert(front[i] == list[i]);
        }
        lemma_usable_all(local, front, plain.drop_last());
        lemma_usable_push(local, front, list.last());
        assert(list =~= front.push(list.last()));
        assert(list[list.len() - 1] == list.last());
        assert(plain =~= plain.drop_last().push(plain.last()));
    } else {
        assert(plain =~= Seq::<SocketAddr>::empty());
    }
}

/// A datagram to a known peer goes to the address that the peer proved within the last
/// fifteen seconds, and through the relay otherwise; one for nobody known is dropped,
/// and one above 1350 bytes is refused.
pub proof fn law_a_datagram_follows_the_proof(
    paths: PathsView,
    peer: NodeId,
    destination: SocketAddr,
    length: usize,
    now: u64,
)
    ensures
        length > 1350 ==> routed(paths, destination, length, now) == Route::TooLarge,
        length <= 1350 && !paths.by_synthetic.contains_key(destination) ==> routed(
            paths,
            destination,
            length,
            now,
        ) == Route::Nobody,
        length <= 1350 && paths.by_synthetic.contains_key(destination)
            && paths.by_synthetic[destination] == peer && paths.peers.contains_key(peer) ==> {
            let route = routed(paths, destination, length, now);
            match paths.peers[peer].direct {
                Some(proven) => if now < proven.proved_at + 15_000 {
                    route == Route::Direct(proven.addr)
                } else {
                    route == Route::Relay(peer)
                },
                None => route == Route::Relay(peer),
            }
        },
{
}

/// A ping of this side and the pong to it prove the address that the pong came from:
/// for fifteen seconds datagrams to the peer go there, and datagrams from there are the
/// peer's.
pub proof fn law_a_pong_proves_the_path(
    paths: PathsView,
    peer: NodeId,
    target: SocketAddr,
    nonce: Nonce,
    sent: u64,
    from: SocketAddr,
    heard: u64,
    length: usize,
    later: u64,
)
    requires
        paths.by_synthetic.contains_key(synthetic(peer)),
        paths.by_synthetic[synthetic(peer)] == peer,
        length <= 1350,
        heard <= later,
    ensures
        ({
            let asked = with_peer(
                paths,
                peer,
                pinged(peer_of(paths, peer), target, nonce, sent),
            );
            let proved = probe_heard(asked, peer, 2, nonce, from, heard);
            &&& proved.peers.contains_key(peer)
            &&& proved.peers[peer].direct == Some(Proven { addr: from, proved_at: heard })
            &&& !proved.peers[peer].pending.contains_key(nonce)
            &&& proved.by_direct.contains_key(from)
            &&& proved.by_direct[from] == peer
            &&& routed(proved, synthetic(peer), length, later) == if later < heard + 15_000 {
                Route::Direct(from)
            } else {
                Route::Relay(peer)
            }
            &&& forall|other: NodeId|
                other != peer ==> proved.peers.contains_key(other) == paths.peers.contains_key(
                    other,
                ) && (#[trigger] proved.peers[other]) == paths.peers[other]
        }),
{
}

/// A pong to a nonce that this side did not issue to the peer changes nothing.
pub proof fn law_a_pong_to_nothing_proves_nothing(
    paths: PathsView,
    peer: NodeId,
    nonce: Nonce,
    from: SocketAddr,
    now: u64,
)
    requires
        !paths.peers.contains_key(peer) || !paths.peers[peer].pending.contains_key(nonce),
    ensures
        probe_heard(paths, peer, 2, nonce, from, now) == paths,
{
}

/// A ping is answered at most once a second for each address it comes from, and the
/// first one is; it is probed back unless this side has a fresh proof of the address or
/// pinged it within the last second.
pub proof fn law_a_ping_is_answered_and_probed_back(
    paths: PathsView,
    peer: NodeId,
    nonce: Nonce,
    from: SocketAddr,
    now: u64,
)
    requires
        paths.peers.contains_key(peer),
        paths.peers[peer].last_pong.contains_key(from) ==> paths.peers[peer].last_pong[from]
            <= now,
        paths.peers[peer].last_ping.contains_key(from) ==> paths.peers[peer].last_ping[from]
            <= now,
        paths.peers[peer].direct is Some ==> paths.peers[peer].direct->0.proved_at <= now,
    ensures
        ({
            let known = paths.peers[peer];
            let order = probe_order(paths, peer, 1, from, now);
            let after = probe_heard(paths, peer, 1, nonce, from, now);
            &&& order.answer <==> !known.last_pong.contains_key(from) || now
                - known.last_pong[from] >= 1_000
            &&& order.answer ==> after.peers[peer].last_pong.contains_key(from)
                && after.peers[peer].last_pong[from] == now
            &&& !order.answer ==> after.peers[peer].last_pong == known.last_pong
            &&& order.probe_back <==> !(known.direct matches Some(proven) && proven.addr == from
                && now - proven.proved_at < 15_000) && !(known.last_ping.contains_key(from) && now
                - known.last_ping[from] < 1_000)
            &&& after.peers[peer].direct == known.direct
            &&& after.peers[peer].pending == known.pending
            &&& after.by_direct == paths.by_direct
        }),
{
}

/// Only a ping asks for anything, and a probe of an unknown kind changes nothing.
pub proof fn law_only_a_ping_is_answered(
    paths: PathsView,
    peer: NodeId,
    kind: u8,
    nonce: Nonce,
    from: SocketAddr,
    now: u64,
)
    requires
        kind != 1,
    ensures
        !probe_order(paths, peer, kind, from, now).answer,
        !probe_order(paths, peer, kind, from, now).probe_back,
        kind != 2 ==> probe_heard(paths, peer, kind, nonce, from, now) == paths,
{
}

/// An address that a valid ping came from is probed with the peer's own list for ten
/// seconds, and no longer unless the peer lists it; every address of the list is probed.
pub proof fn law_an_address_that_pinged_is_probed(
    paths: PathsView,
    peer: NodeId,
    nonce: Nonce,
    from: SocketAddr,
    heard: u64,
    now: u64,
    targets: Seq<SocketAddr>,
)
    requires
        paths.peers.contains_key(peer),
        heard <= now,
        are_targets(
            probe_heard(paths, peer, 1, nonce, from, heard).peers[peer],
            now,
            targets,
        ),
    ensures
        paths.peers[peer].candidates.contains(from) || now - heard < 10_000 <==> targets.contains(
            from,
        ),
        targets.len() >= paths.peers[peer].candidates.len(),
        forall|i: int|
            0 <= i < paths.peers[peer].candidates.len() ==> targets[i]
                == #[trigger] paths.peers[peer].candidates[i],
        forall|i: int, j: int|
            paths.peers[peer].candidates.len() <= i < j < targets.len() ==> #[trigger] targets[i]
                != #[trigger] targets[j],
{
    let known = probe_heard(paths, peer, 1, nonce, from, heard).peers[peer];
    assert(targets.contains(from) <==> is_target(known, from, now));
    assert(known.candidates == paths.peers[peer].candidates);
    assert(known.candidates =~= targets.take(known.candidates.len() as int));
    assert forall|i: int| 0 <= i < known.candidates.len() implies targets[i]
        == #[trigger] known.candidates[i] by {
        assert(targets.take(known.candidates.len() as int)[i] == targets[i]);
    }
}

/// A round forgets what is too old: a ping of five seconds, a learnt address of ten; and
/// nothing else.
pub proof fn law_a_round_forgets_the_old(
    pending: Map<Nonce, Pending>,
    learned: Map<SocketAddr, u64>,
    nonce: Nonce,
    addr: SocketAddr,
    now: u64,
)
    requires
        pending.contains_key(nonce) ==> pending[nonce].sent <= now,
        learned.contains_key(addr) ==> learned[addr] <= now,
    ensures
        pending_kept(pending, now).contains_key(nonce) <==> pending.contains_key(nonce) && now
            - pending[nonce].sent < 5_000,
        pending_kept(pending, now).contains_key(nonce) ==> pending_kept(pending, now)[nonce]
            == pending[nonce],
        learned_kept(learned, now).contains_key(addr) <==> learned.contains_key(addr) && now
            - learned[addr] < 10_000,
        learned_kept(learned, now).contains_key(addr) ==> learned_kept(learned, now)[addr]
            == learned[addr],
{
}

/// A session's key is found by its id from its registration on, in place of the one the
/// session had before; after it is forgotten nothing is.
pub proof fn law_a_session_is_found_by_its_key(paths: PathsView, peer: NodeId, key: ProbeKey)
    ensures
        session_of(key_registered(paths, peer, key), key.id) == Some((peer, key)),
        session_of(key_unregistered(key_registered(paths, peer, key), key.id), key.id) is None,
        key_unregistered(key_registered(paths, peer, key), key.id).peers[peer].probe_key is None,
        forall|other: KeyId|
            other != key.id && (paths.peers.contains_key(peer) ==> (paths.peers[peer].probe_key
                matches Some(previous) ==> previous.id != other)) && paths.by_key_id.contains_key(
                other,
            ) && paths.by_key_id[other] != peer ==> #[trigger] session_of(
                key_registered(paths, peer, key),
                other,
            ) == session_of(paths, other),
{
}

/// A probe leads to what its session's peer is owed: nothing for a key id that no live
/// session has, and nothing for a probe that did not open.
pub proof fn law_a_probe_needs_its_session(
    paths: PathsView,
    id: KeyId,
    opened: Option<(u8, Nonce)>,
    from: SocketAddr,
    now: u64,
)
    ensures
        session_of(paths, id) is None || opened is None ==> probe_outcome(
            paths,
            id,
            opened,
            from,
            now,
        ) == (paths, Heard::Silence),
        session_of(paths, id) is Some && opened is Some ==> {
            let peer = (session_of(paths, id)->0).0;
            let (kind, nonce) = opened->0;
            let (after, heard) = probe_outcome(paths, id, opened, from, now);
            &&& after == probe_heard(paths, peer, kind, nonce, from, now)
            &&& heard == Heard::Probe {
                peer,
                key_id: id,
                nonce,
                order: probe_order(paths, peer, kind, from, now),
            }
        },
{
}

/// What comes in on the direct socket and is no probe and no reflector reply belongs to
/// the peer that proved the address, and changes nothing.
pub proof fn law_a_datagram_belongs_to_the_prover(
    before: PathsView,
    after: PathsView,
    data: Seq<u8>,
    from: SocketAddr,
    now: u64,
    r: Heard,
)
    requires
        datagram_heard(before, after, data, from, now, r),
        data.len() != 45,
        data.len() != 39,
    ensures
        after == before,
        before.by_direct.contains_key(from) ==> r == Heard::From(before.by_direct[from]),
        !before.by_direct.contains_key(from) ==> r == Heard::Silence,
{
}

/// A probe that a live session sealed is heard, whoever brings it.
pub proof fn law_a_sealed_probe_is_heard(
    before: PathsView,
    after: PathsView,
    data: Seq<u8>,
    from: SocketAddr,
    now: u64,
    r: Heard,
    peer: NodeId,
    key: ProbeKey,
    probe: SealedProbe,
)
    requires
        datagram_heard(before, after, data, from, now, r),
        crate::wire::sealed_shaped(data),
        session_of(before, KeyId(probe.key_id)) == Some((peer, key)),
        seals(data, key.key@, probe),
    ensures
        r matches Heard::Probe { peer: found, key_id, nonce, order } && found == peer
            && key_id.0 == probe.key_id && nonce.0 == probe.nonce && order == probe_order(
            before,
            peer,
            probe.kind,
            from,
            now,
        ) && after == probe_heard(before, peer, probe.kind, Nonce(probe.nonce), from, now),
{
    assert(probe_counts(before, data, probe));
    if let Heard::Probe { .. } = r {
        let other = choose|other: SealedProbe| #[trigger]
            probe_counts(before, data, other) && (after, r) == probe_outcome(
                before,
                KeyId(other.key_id),
                Some((other.kind, Nonce(other.nonce))),
                from,
                now,
            );
        crate::wire::law_sealed_body_is_injective(probe, other);
    }
}

/// A reply of the reflector that echoes the outstanding nonce tells this node its own
/// address, as the address it stands for; any other reply changes nothing, and the same
/// reply counts once.
pub proof fn law_a_reflection_is_taken_once(
    before: PathsView,
    after: PathsView,
    again: PathsView,
    nonce: [u8; 16],
    observed: SocketAddr,
    plain: SocketAddr,
    data: Seq<u8>,
)
    requires
        observed.ip is V6,
        observed.flowinfo == 0,
        observed.scope_id == 0,
        stands_for(observed, plain),
        data == reflect_reply_bytes(nonce@, mapped_octets(observed.ip), observed.port),
        reflection_heard(before, after, data),
        reflection_heard(after, again, data),
    ensures
        before.reflector_nonce == Some(Nonce(nonce)) ==> after.reflexive == Some(plain)
            && after.reflector_nonce is None,
        before.reflector_nonce != Some(Nonce(nonce)) ==> after == before,
        again == after,
        after.peers == before.peers,
        after.by_direct == before.by_direct,
{
    law_unmapping_finds_the_address(observed, plain);
    assert forall|other: [u8; 16], seen: SocketAddr| #[trigger]
        reflected(before, data, other, seen) implies other == nonce && seen == observed by {
        lemma_reply_parts(data, nonce, observed, other, seen);
    }
    assert forall|other: [u8; 16], seen: SocketAddr| #[trigger]
        reflected(after, data, other, seen) implies other == nonce by {
        lemma_reply_parts(data, nonce, observed, other, seen);
    }
    if before.reflector_nonce == Some(Nonce(nonce)) {
        assert(reflected(before, data, nonce, observed));
    }
}

proof fn lemma_reply_parts(
    data: Seq<u8>,
    nonce: [u8; 16],
    observed: SocketAddr,
    other: [u8; 16],
    seen: SocketAddr,
)
    requires
        observed.ip is V6,
        seen.ip is V6,
        observed.flowinfo == 0 && observed.scope_id == 0 && seen.flowinfo == 0 && seen.scope_id
            == 0,
        data == reflect_reply_bytes(nonce@, mapped_octets(observed.ip), observed.port),
        data == reflect_reply_bytes(other@, mapped_octets(seen.ip), seen.port),
    ensures
        other == nonce,
        seen == observed,
{
    crate::bytes::lemma_pow256_values();
    crate::bytes::lemma_be_round_trip(observed.port as nat, 2);
    crate::bytes::lemma_be_round_trip(seen.port as nat, 2);
    assert(data.subrange(5, 21) =~= nonce@);
    assert(data.subrange(5, 21) =~= other@);
    assert(nonce =~= other);
    assert(data.subrange(21, 37) =~= observed.ip->V6_0@);
    assert(data.subrange(21, 37) =~= seen.ip->V6_0@);
    assert(observed.ip->V6_0 =~= seen.ip->V6_0);
    assert(data.subrange(37, 39) =~= crate::bytes::be_bytes(observed.port as nat, 2));
    assert(data.subrange(37, 39) =~= crate::bytes::be_bytes(seen.port as nat, 2));
}

/// A forgotten direct path puts the peer on the relay, and what comes from the address
/// is nobody's any more; the other peers keep theirs.
pub proof fn law_a_forgotten_path_is_relayed(
    paths: PathsView,
    peer: NodeId,
    other: NodeId,
    length: usize,
    now: u64,
)
    requires
        paths.peers.contains_key(peer),
        paths.by_synthetic.contains_key(synthetic(peer)),
        paths.by_synthetic[synthetic(peer)] == peer,
        length <= 1350,
        other != peer,
    ensures
        ({
            let after = direct_dropped(paths, peer);
            &&& routed(after, synthetic(peer), length, now) == Route::Relay(peer)
            &&& after.peers[peer].direct is None
            &&& paths.peers[peer].direct matches Some(proven) ==> !after.by_direct.contains_key(
                proven.addr,
            )
            &&& after.peers[peer].candidates == paths.peers[peer].candidates
            &&& after.peers[peer].probe_key == paths.peers[peer].probe_key
            &&& after.peers[other] == paths.peers[other]
        }),
{
}

/// A session takes the next number, leaves nothing of the one before, and its end leaves
/// nothing of it: no proof, no key, no candidates.  A session that was superseded ends
/// without a trace.
pub proof fn law_sessions_follow_each_other(
    paths: PathsView,
    peer: NodeId,
    other: NodeId,
    stale: u64,
)
    requires
        paths.next_session < u64::MAX,
        stale != paths.next_session,
        other != peer,
    ensures
        ({
            let begun = session_begun(paths, peer);
            let ended = session_ended(begun, peer, paths.next_session);
            &&& begun.peers.contains_key(peer)
            &&& begun.peers[peer].session == Some(paths.next_session)
            &&& begun.next_session == paths.next_session + 1
            &&& begun.peers[peer].direct is None
            &&& begun.peers[peer].probe_key is None
            &&& begun.peers[peer].candidates.len() == 0
            &&& begun.peers[peer].pending == Map::<Nonce, Pending>::empty()
            &&& paths.peers.contains_key(peer) ==> {
                &&& begun.peers[peer].driver == paths.peers[peer].driver
                &&& begun.peers[peer].updates == paths.peers[peer].updates
                &&& paths.peers[peer].direct matches Some(proven)
                    ==> !begun.by_direct.contains_key(proven.addr)
                &&& paths.peers[peer].probe_key matches Some(key)
                    ==> !begun.by_key_id.contains_key(key.id)
            }
            &&& begun.peers[other] == paths.peers[other]
            &&& session_ended(begun, peer, stale) == begun
            &&& ended.peers[peer].session is None
            &&& ended.peers[peer].direct is None
            &&& ended.peers[peer].probe_key is None
        }),
{
}

/// A session that ends takes its proof and its key with it.
pub proof fn law_an_ended_session_leaves_nothing(paths: PathsView, peer: NodeId, session: u64)
    requires
        paths.peers.contains_key(peer),
        paths.peers[peer].session == Some(session),
    ensures
        ({
            let ended = session_ended(paths, peer, session);
            &&& ended.peers[peer].session is None
            &&& ended.peers[peer].direct is None
            &&& ended.peers[peer].probe_key is None
            &&& ended.peers[peer].candidates.len() == 0
            &&& ended.peers[peer].driver == paths.peers[peer].driver
            &&& ended.peers[peer].updates == paths.peers[peer].updates
            &&& paths.peers[peer].direct matches Some(proven) ==> !ended.by_direct.contains_key(
                proven.addr,
            )
            &&& paths.peers[peer].probe_key matches Some(key) ==> !ended.by_key_id.contains_key(
                key.id,
            )
            &&& ended.by_synthetic == paths.by_synthetic
        }),
{
}

/// The addresses of this side: the one it is bound to, or with a wildcard every address
/// of the host with the bound port, in order; and at the end what the reflector saw,
/// unless it is there already.
pub proof fn law_this_side_offers_its_addresses(
    paths: PathsView,
    addresses: Seq<IpAddr>,
    i: int,
)
    requires
        0 <= i < addresses.len(),
    ensures
        ({
            let all = offered_candidates(paths, addresses);
            let n: nat = if unspecified(paths.udp_local.ip) {
                addresses.len()
            } else {
                1
            };
            &&& unspecified(paths.udp_local.ip) ==> all[i].ip == addresses[i] && all[i].port
                == paths.udp_local.port && all[i].flowinfo == 0 && all[i].scope_id == 0
            &&& !unspecified(paths.udp_local.ip) ==> all[0] == paths.udp_local
            &&& n <= all.len() <= n + 1
            &&& all.len() == n + 1 ==> paths.reflexive == Some(all[n as int]) && !all.take(
                n as int,
            ).contains(all[n as int])
            &&& paths.reflexive matches Some(seen) ==> all.contains(seen)
        }),
{
    let all = offered_candidates(paths, addresses);
    let bound = crate::path_socket::bound_candidates(paths.udp_local, addresses);
    if let Some(seen) = paths.reflexive {
        if !bound.contains(seen) {
            assert(all[bound.len() as int] == seen);
            assert(all.take(bound.len() as int) =~= bound);
        }
    }
}

/// An interface address is offered exactly if it is of the family and neither loopback
/// nor unspecified nor link-local; the address of the default route comes first; and
/// nothing is offered twice.
pub proof fn law_offers_are_exact(
    v4: bool,
    route: Option<IpAddr>,
    interfaces: Seq<IpAddr>,
    ip: IpAddr,
)
    ensures
        ({
            let all = offered(v4, route, interfaces);
            let routed = route is Some && (route->0 is V4) == v4;
            &&& all.contains(ip) <==> routed && ip == route->0 || interfaces.contains(ip) && (ip
                is V4) == v4 && !loopback(ip) && !unspecified(ip) && !link_local(ip)
            &&& routed ==> all.len() > 0 && all[0] == route->0
            &&& forall|i: int, j: int|
                0 <= i < j < all.len() ==> #[trigger] all[i] != #[trigger] all[j]
            &&& bounded(all).len() == if all.len() < 7 {
                all.len()
            } else {
                7
            }
            &&& bounded(all).is_prefix_of(all)
        }),
    decreases interfaces.len(),
{
    let all = offered(v4, route, interfaces);
    assert(all.take(all.len() as int) =~= all);
    assert(bounded(all) =~= all.take(bounded(all).len() as int));
    if interfaces.len() > 0 {
        let front = interfaces.drop_last();
        let before = offered(v4, route, front);
        law_offers_are_exact(v4, route, front, ip);
        law_offers_are_exact(v4, route, front, interfaces.last());
        if interfaces.contains(ip) && !front.contains(ip) {
            let k = choose|k: int| 0 <= k < interfaces.len() && interfaces[k] == ip;
            if k < front.len() {
                assert(front[k] == ip);
            }
        }
        if front.contains(ip) {
            let k = choose|k: int| 0 <= k < front.len() && front[k] == ip;
            assert(interfaces[k] == ip);
        }
        assert(interfaces[interfaces.len() - 1] == interfaces.last());
        if all.len() > before.len() {
            assert(all[before.len() as int] == interfaces.last());
            if before.contains(ip) {
                let k = choose|k: int| 0 <= k < before.len() && before[k] == ip;
                assert(all[k] == ip);
            }
            assert forall|i: int, j: int| 0 <= i < j < all.len() implies #[trigger] all[i]
                != #[trigger] all[j] by {
                if j == before.len() {
                    assert(before[i] == all[i]);
                    assert(before.contains(before[i]));
                } else {
                    assert(before[i] == all[i] && before[j] == all[j]);
                }
            }
        }
    } else {
        if all.contains(ip) {
        }
        if route is Some && (route->0 is V4) == v4 {
            assert(all[0] == route->0);
        }
    }
}

// ---------------------------------------------------------------------------
// What stays
// ---------------------------------------------------------------------------
/// Whether two states agree on everything that is not of `peer`, but for the indices of
/// proofs and keys.
pub open spec fn same_elsewhere(a: PathsView, b: PathsView, peer: NodeId) -> bool {
    &&& a.node_id == b.node_id
    &&& a.udp_local == b.udp_local
    &&& a.by_synthetic == b.by_synthetic
    &&& a.reflexive == b.reflexive
    &&& a.reflector_nonce == b.reflector_nonce
    &&& forall|other: NodeId|
        other != peer ==> #[trigger] a.peers.contains_key(other) == b.peers.contains_key(other)
            && a.peers[other] == b.peers[other]
}

/// Whether two states of a peer agree on what is the session's own: its number and its
/// driver, its key, and what the peer listed.
pub open spec fn same_session(a: PeerView, b: PeerView) -> bool {
    &&& a.session == b.session
    &&& a.driver == b.driver
    &&& a.probe_key == b.probe_key
    &&& a.candidates == b.candidates
    &&& a.updates == b.updates
}

/// A pong uses up its own nonce and no other, makes its address a proof in place of a
/// guess, and leaves everything else.
pub proof fn law_a_pong_changes_the_proof_alone(
    paths: PathsView,
    peer: NodeId,
    nonce: Nonce,
    other: Nonce,
    from: SocketAddr,
    elsewhere: SocketAddr,
    now: u64,
)
    requires
        paths.peers.contains_key(peer),
        paths.peers[peer].pending.contains_key(nonce),
        other != nonce,
        elsewhere != from,
    ensures
        ({
            let known = paths.peers[peer];
            let after = probe_heard(paths, peer, 2, nonce, from, now);
            let then = after.peers[peer];
            &&& same_elsewhere(after, paths, peer)
            &&& same_session(then, known)
            &&& then.last_ping == known.last_ping
            &&& then.last_pong == known.last_pong
            &&& !then.pending.contains_key(nonce)
            &&& then.pending.contains_key(other) == known.pending.contains_key(other)
            &&& known.pending.contains_key(other) ==> then.pending[other] == known.pending[other]
            &&& !then.learned.contains_key(from)
            &&& then.learned.contains_key(elsewhere) == known.learned.contains_key(elsewhere)
            &&& known.learned.contains_key(elsewhere) ==> then.learned[elsewhere]
                == known.learned[elsewhere]
            &&& after.by_direct.contains_key(elsewhere) == paths.by_direct.contains_key(elsewhere)
            &&& paths.by_direct.contains_key(elsewhere) ==> after.by_direct[elsewhere]
                == paths.by_direct[elsewhere]
            &&& after.by_key_id == paths.by_key_id
            &&& after.next_session == paths.next_session
        }),
{
}

/// A ping makes its address known for a while, unless the peer lists it anyway, and
/// leaves everything else but the time of the answer.
pub proof fn law_a_ping_makes_its_address_known(
    paths: PathsView,
    peer: NodeId,
    nonce: Nonce,
    from: SocketAddr,
    elsewhere: SocketAddr,
    now: u64,
)
    requires
        paths.peers.contains_key(peer),
        elsewhere != from,
    ensures
        ({
            let known = paths.peers[peer];
            let after = probe_heard(paths, peer, 1, nonce, from, now);
            let then = after.peers[peer];
            &&& same_elsewhere(after, paths, peer)
            &&& same_session(then, known)
            &&& then.direct == known.direct
            &&& then.pending == known.pending
            &&& then.last_ping == known.last_ping
            &&& known.candidates.contains(from) ==> then.learned == known.learned
            &&& !known.candidates.contains(from) ==> then.learned.contains_key(from)
                && then.learned[from] == now
            &&& then.learned.contains_key(elsewhere) == known.learned.contains_key(elsewhere)
            &&& known.learned.contains_key(elsewhere) ==> then.learned[elsewhere]
                == known.learned[elsewhere]
            &&& then.last_pong.contains_key(elsewhere) == known.last_pong.contains_key(elsewhere)
            &&& known.last_pong.contains_key(elsewhere) ==> then.last_pong[elsewhere]
                == known.last_pong[elsewhere]
            &&& after.by_direct == paths.by_direct
            &&& after.by_key_id == paths.by_key_id
            &&& after.next_session == paths.next_session
        }),
{
}

/// A ping that is sent is outstanding under its nonce, to its address, from its time; the
/// others stay.
pub proof fn law_a_sent_ping_is_outstanding(
    known: PeerView,
    addr: SocketAddr,
    elsewhere: SocketAddr,
    nonce: Nonce,
    other: Nonce,
    now: u64,
)
    requires
        other != nonce,
        elsewhere != addr,
    ensures
        ({
            let then = pinged(known, addr, nonce, now);
            &&& then.pending.contains_key(nonce)
            &&& then.pending[nonce].addr == addr
            &&& then.pending[nonce].sent == now
            &&& then.pending.contains_key(other) == known.pending.contains_key(other)
            &&& known.pending.contains_key(other) ==> then.pending[other] == known.pending[other]
            &&& then.last_ping.contains_key(addr) && then.last_ping[addr] == now
            &&& then.last_ping.contains_key(elsewhere) == known.last_ping.contains_key(elsewhere)
            &&& known.last_ping.contains_key(elsewhere) ==> then.last_ping[elsewhere]
                == known.last_ping[elsewhere]
            &&& same_session(then, known)
            &&& then.direct == known.direct
            &&& then.learned == known.learned
            &&& then.last_pong == known.last_pong
        }),
{
}

/// A forgotten path takes the proof of the peer away and nothing else; without a proof
/// there is nothing to forget.
pub proof fn law_a_forgotten_path_takes_the_proof_alone(
    paths: PathsView,
    peer: NodeId,
    elsewhere: SocketAddr,
)
    requires
        paths.peers.contains_key(peer),
        paths.peers[peer].direct is Some ==> paths.peers[peer].direct->0.addr != elsewhere,
    ensures
        ({
            let known = paths.peers[peer];
            let after = direct_dropped(paths, peer);
            let then = after.peers[peer];
            &&& known.direct is None ==> after == paths
            &&& same_elsewhere(after, paths, peer)
            &&& same_session(then, known)
            &&& then.pending == known.pending
            &&& then.learned == known.learned
            &&& then.last_ping == known.last_ping
            &&& then.last_pong == known.last_pong
            &&& after.by_direct.contains_key(elsewhere) == paths.by_direct.contains_key(elsewhere)
            &&& paths.by_direct.contains_key(elsewhere) ==> after.by_direct[elsewhere]
                == paths.by_direct[elsewhere]
            &&& after.by_key_id == paths.by_key_id
            &&& after.next_session == paths.next_session
        }),
{
}

/// A key is registered for its peer and nobody else; it takes the place of the peer's
/// earlier one.  Forgetting it takes it from the peer alone, and an unknown key is not
/// forgotten.
pub proof fn law_a_key_belongs_to_its_peer(
    paths: PathsView,
    peer: NodeId,
    key: ProbeKey,
    other: KeyId,
)
    requires
        paths.peers.contains_key(peer),
        other != key.id,
    ensures
        ({
            let known = paths.peers[peer];
            let after = key_registered(paths, peer, key);
            let gone = key_unregistered(after, key.id);
            let earlier = known.probe_key is Some && known.probe_key->0.id == other;
            &&& same_elsewhere(after, paths, peer)
            &&& after.peers[peer] == (PeerView { probe_key: Some(key), ..known })
            &&& after.by_key_id.contains_key(key.id) && after.by_key_id[key.id] == peer
            &&& earlier ==> !after.by_key_id.contains_key(other)
            &&& !earlier ==> after.by_key_id.contains_key(other) == paths.by_key_id.contains_key(
                other,
            ) && (paths.by_key_id.contains_key(other) ==> after.by_key_id[other]
                == paths.by_key_id[other])
            &&& after.by_direct == paths.by_direct
            &&& after.next_session == paths.next_session
            &&& same_elsewhere(gone, paths, peer)
            &&& gone.peers[peer] == (PeerView { probe_key: None, ..known })
            &&& !gone.by_key_id.contains_key(key.id)
            &&& gone.by_key_id.contains_key(other) == after.by_key_id.contains_key(other)
            &&& gone.by_direct == paths.by_direct
            &&& !paths.by_key_id.contains_key(other) ==> key_unregistered(paths, other) == paths
        }),
{
}

/// A new session starts with nothing but the peer's driver and count, and takes nothing
/// from anybody else.
pub proof fn law_a_new_session_inherits_nothing(
    paths: PathsView,
    peer: NodeId,
    elsewhere: SocketAddr,
    other: KeyId,
)
    requires
        paths.peers.contains_key(peer),
        paths.peers[peer].direct is Some ==> paths.peers[peer].direct->0.addr != elsewhere,
        paths.peers[peer].probe_key is Some ==> paths.peers[peer].probe_key->0.id != other,
    ensures
        ({
            let after = session_begun(paths, peer);
            let then = after.peers[peer];
            &&& same_elsewhere(after, paths, peer)
            &&& then.learned == Map::<SocketAddr, u64>::empty()
            &&& then.last_ping == Map::<SocketAddr, u64>::empty()
            &&& then.last_pong == Map::<SocketAddr, u64>::empty()
            &&& then.pending == Map::<Nonce, Pending>::empty()
            &&& after.by_direct.contains_key(elsewhere) == paths.by_direct.contains_key(elsewhere)
            &&& paths.by_direct.contains_key(elsewhere) ==> after.by_direct[elsewhere]
                == paths.by_direct[elsewhere]
            &&& after.by_key_id.contains_key(other) == paths.by_key_id.contains_key(other)
            &&& paths.by_key_id.contains_key(other) ==> after.by_key_id[other]
                == paths.by_key_id[other]
            &&& after.next_session as int == (paths.next_session + 1) % 0x1_0000_0000_0000_0000
        }),
{
}

/// Home is `127.0.0.1` in one family and `::1` in the other.
pub proof fn law_where_home_is(ip: IpAddr, v4: bool)
    requires
        is_home(ip, v4),
    ensures
        ip is V4 == v4,
        ip matches IpAddr::V4(octets) ==> octets@ == seq![127u8, 0u8, 0u8, 1u8],
        ip matches IpAddr::V6(octets) ==> octets@[15] == 1 && forall|k: int|
            0 <= k < 15 ==> octets@[k] == 0,
        loopback(ip),
{
}

} // verus!
