//! The path socket: which peer an address belongs to, what has been proved of it,
//! and where a datagram goes.
use crate::bytes::{bytes_eq, same_array};
use crate::card::{mapped_octets, unmap_ipv6, unmapped};
use crate::crypto::fill_random;
use crate::id::{synthetic_octets, NodeId, SYNTHETIC_PORT};
use crate::net::{link_local, loopback, plain_addr, unspecified, IpAddr, SocketAddr};
use crate::table::{has_key, lemma_pair_in_map, place, Key, Table};
use crate::wire::{
    parse_reflect_reply, reflect_reply_bytes, reflect_request, reflect_request_bytes, sealed_body,
    sealed_shaped, seals, SealedProbe, MAX_DATAGRAM, PROBE_PING, PROBE_PONG, REFLECT_MAGIC,
    REFLECT_REPLY_BYTES,
};
use vstd::prelude::*;
use vstd::slice::slice_subrange;

verus! {

/// A direct path counts as usable only while its proof is this fresh, in
/// milliseconds.
pub const DIRECT_FRESH: u64 = 15_000;

/// A direct address and when it was proved, in milliseconds.
#[derive(Clone, Copy, Debug)]
pub struct Proven {
    pub addr: SocketAddr,
    pub proved_at: u64,
}

/// How long ago `then` was.
pub open spec fn elapsed(then: u64, now: u64) -> int {
    if now >= then {
        now - then
    } else {
        0
    }
}

/// How long ago `then` was.
pub fn since(then: u64, now: u64) -> (r: u64)
    ensures
        r == elapsed(then, now),
{
    if now >= then {
        now - then
    } else {
        0
    }
}

/// Whether a proof is fresh enough to send by.
pub open spec fn fresh(proven: Option<Proven>, now: u64) -> bool {
    proven matches Some(proven) && elapsed(proven.proved_at, now) < DIRECT_FRESH
}

/// Whether a proof is fresh enough to send by.
pub fn is_fresh(proven: &Option<Proven>, now: u64) -> (r: bool)
    ensures
        r == fresh(*proven, now),
{
    match proven {
        Some(proven) => since(proven.proved_at, now) < DIRECT_FRESH,
        None => false,
    }
}

/// A probe whose pong has not arrived within this is forgotten, in milliseconds.
pub const PROBE_TIMEOUT: u64 = 5_000;

/// At most one probe back per address per interval, so that two peers cannot get
/// into a ping storm; in milliseconds.
pub const COUNTER_PROBE_INTERVAL: u64 = 1_000;

/// At most one pong per source address per interval, so that a replayed ping is a
/// nuisance and not a reflector; in milliseconds.
pub const PONG_INTERVAL: u64 = 1_000;

/// An address learnt from a valid ping is probed for this long, in milliseconds;
/// if it does not prove it is forgotten.
pub const LEARNED_TTL: u64 = 10_000;

/// The bytes of a probe key id.
pub const PROBE_ID_BYTES: usize = 8;

/// The bytes of a probe key.
pub const PROBE_KEY_BYTES: usize = 32;

/// At most this many local addresses are offered: a peer probes every entry.
pub const MAX_LOCAL_CANDIDATES: usize = 8;

/// The number a probe carries.
#[derive(Clone, Copy, Debug, PartialEq, Eq)]
pub struct Nonce(pub [u8; 16]);

impl Nonce {
    /// Whether two nonces are the same.
    pub fn same(&self, other: &Self) -> (r: bool)
        ensures
            r == (*self == *other),
    {
        same_array(&self.0, &other.0)
    }
}

impl Key for Nonce {
    fn same(&self, other: &Self) -> (r: bool) {
        Nonce::same(self, other)
    }
}

/// The name of a session's probe key.
#[derive(Clone, Copy, Debug, PartialEq, Eq)]
pub struct KeyId(pub [u8; 8]);

impl KeyId {
    /// Whether two key ids are the same.
    pub fn same(&self, other: &Self) -> (r: bool)
        ensures
            r == (*self == *other),
    {
        same_array(&self.0, &other.0)
    }
}

impl Key for KeyId {
    fn same(&self, other: &Self) -> (r: bool) {
        KeyId::same(self, other)
    }
}

/// A session's probe key and its id: both ends exported the same bytes, so a probe
/// under it authenticates the live session and names nobody.
#[derive(Clone, Copy)]
pub struct ProbeKey {
    pub id: KeyId,
    pub key: [u8; 32],
}

/// A ping this side issued.
#[derive(Clone, Copy, Debug)]
pub struct Pending {
    pub addr: SocketAddr,
    pub sent: u64,
}

struct Peer {
    candidates: Vec<SocketAddr>,
    updates: u32,
    pending: Table<Nonce, Pending>,
    last_ping: Table<SocketAddr, u64>,
    last_pong: Table<SocketAddr, u64>,
    learned: Table<SocketAddr, u64>,
    probe_key: Option<ProbeKey>,
    direct: Option<Proven>,
    session: Option<u64>,
    driver: u64,
}

/// What is known of one peer.
#[verifier::ext_equal]
pub struct PeerView {
    /// The addresses the peer listed.
    pub candidates: Seq<SocketAddr>,
    /// How many lists the peer has sent.
    pub updates: u32,
    /// The nonces this side issued, with the address probed and when.
    pub pending: Map<Nonce, Pending>,
    /// When this side last pinged each address.
    pub last_ping: Map<SocketAddr, u64>,
    /// When this side last answered a ping from each address.
    pub last_pong: Map<SocketAddr, u64>,
    /// Addresses that a valid ping arrived from and that the peer did not list.
    pub learned: Map<SocketAddr, u64>,
    pub probe_key: Option<ProbeKey>,
    pub direct: Option<Proven>,
    /// The session that owns this state.
    pub session: Option<u64>,
    /// The relay driver that reaches the peer.
    pub driver: u64,
}

impl View for Peer {
    type V = PeerView;

    closed spec fn view(&self) -> PeerView {
        PeerView {
            candidates: self.candidates@,
            updates: self.updates,
            pending: self.pending.map(),
            last_ping: self.last_ping.map(),
            last_pong: self.last_pong.map(),
            learned: self.learned.map(),
            probe_key: self.probe_key,
            direct: self.direct,
            session: self.session,
            driver: self.driver,
        }
    }
}

impl Peer {
    spec fn well_formed(self) -> bool {
        &&& self.pending.well_formed()
        &&& self.last_ping.well_formed()
        &&& self.last_pong.well_formed()
        &&& self.learned.well_formed()
    }

    fn unknown() -> (r: Self)
        ensures
            r.well_formed(),
            r@ == unknown_peer(),
    {
        let r = Peer {
            candidates: Vec::new(),
            updates: 0,
            pending: Table::new(),
            last_ping: Table::new(),
            last_pong: Table::new(),
            learned: Table::new(),
            probe_key: None,
            direct: None,
            session: None,
            driver: 0,
        };
        assert(r@ =~= unknown_peer());
        r
    }
}

/// A peer of whom nothing is known.
pub open spec fn unknown_peer() -> PeerView {
    PeerView {
        candidates: Seq::empty(),
        updates: 0,
        pending: Map::empty(),
        last_ping: Map::empty(),
        last_pong: Map::empty(),
        learned: Map::empty(),
        probe_key: None,
        direct: None,
        session: None,
        driver: 0,
    }
}

/// Everything the path socket knows.
pub struct Paths {
    node_id: NodeId,
    udp_local: SocketAddr,
    peers: Table<NodeId, Peer>,
    by_synthetic: Table<SocketAddr, NodeId>,
    by_direct: Table<SocketAddr, NodeId>,
    by_key_id: Table<KeyId, NodeId>,
    reflexive: Option<SocketAddr>,
    reflector_nonce: Option<Nonce>,
    next_session: u64,
}

/// Everything the path socket knows, as mathematics.
#[verifier::ext_equal]
pub struct PathsView {
    pub node_id: NodeId,
    pub udp_local: SocketAddr,
    pub peers: Map<NodeId, PeerView>,
    /// The peer behind each synthetic address.
    pub by_synthetic: Map<SocketAddr, NodeId>,
    /// The peer that proved each direct address.
    pub by_direct: Map<SocketAddr, NodeId>,
    /// The peer whose session a probe key belongs to.
    pub by_key_id: Map<KeyId, NodeId>,
    /// What the reflector saw.
    pub reflexive: Option<SocketAddr>,
    /// The nonce of the outstanding reflector request.
    pub reflector_nonce: Option<Nonce>,
    pub next_session: u64,
}

/// Whether `addr` is the synthetic address of `id`.
pub open spec fn is_synthetic(addr: SocketAddr, id: NodeId) -> bool {
    &&& addr.ip matches IpAddr::V6(octets) && octets@ == synthetic_octets(id.0@)
    &&& addr.port == SYNTHETIC_PORT
    &&& addr.flowinfo == 0
    &&& addr.scope_id == 0
}

/// The synthetic address of a node.
pub open spec fn synthetic(id: NodeId) -> SocketAddr {
    choose|addr: SocketAddr| is_synthetic(addr, id)
}

proof fn lemma_synthetic(addr: SocketAddr, id: NodeId)
    requires
        is_synthetic(addr, id),
    ensures
        addr == synthetic(id),
{
    let other = synthetic(id);
    assert(is_synthetic(other, id));
    match (addr.ip, other.ip) {
        (IpAddr::V6(a), IpAddr::V6(b)) => {
            assert(a =~= b);
        },
        _ => {},
    }
}

/// What is known of a peer, nothing if it is new.
pub open spec fn peer_of(paths: PathsView, peer: NodeId) -> PeerView {
    if paths.peers.contains_key(peer) {
        paths.peers[peer]
    } else {
        unknown_peer()
    }
}

/// The paths with something else known of a peer.
pub open spec fn with_peer(paths: PathsView, peer: NodeId, known: PeerView) -> PathsView {
    PathsView { peers: paths.peers.insert(peer, known), ..paths }
}

/// Whether a socket bound to `local` can address `addr`: one family per socket.
pub open spec fn reaches(local: SocketAddr, addr: SocketAddr) -> bool {
    (local.ip is V4) == (addr.ip is V4)
}

/// The usable addresses of a candidate list, in order.
pub open spec fn usable(local: SocketAddr, candidates: Seq<SocketAddr>) -> Seq<SocketAddr>
    decreases candidates.len(),
{
    if candidates.len() == 0 {
        Seq::empty()
    } else {
        let rest = usable(local, candidates.drop_last());
        let addr = unmapped(candidates.last());
        if reaches(local, addr) {
            rest.push(addr)
        } else {
            rest
        }
    }
}

/// The paths after a direct path was forgotten.
pub open spec fn direct_dropped(paths: PathsView, peer: NodeId) -> PathsView {
    match peer_of(paths, peer).direct {
        Some(proven) => PathsView {
            by_direct: paths.by_direct.remove(proven.addr),
            ..with_peer(paths, peer, PeerView { direct: None, ..peer_of(paths, peer) })
        },
        None => paths,
    }
}

/// The paths after a session got its probe key.
pub open spec fn key_registered(paths: PathsView, peer: NodeId, key: ProbeKey) -> PathsView {
    let before = match peer_of(paths, peer).probe_key {
        Some(previous) => paths.by_key_id.remove(previous.id),
        None => paths.by_key_id,
    };
    PathsView {
        by_key_id: before.insert(key.id, peer),
        ..with_peer(paths, peer, PeerView { probe_key: Some(key), ..peer_of(paths, peer) })
    }
}

/// The live session that a key id names: its peer and its key.
pub open spec fn session_of(paths: PathsView, id: KeyId) -> Option<(NodeId, ProbeKey)> {
    if paths.by_key_id.contains_key(id) && paths.peers.contains_key(paths.by_key_id[id]) {
        match paths.peers[paths.by_key_id[id]].probe_key {
            Some(key) => Some((paths.by_key_id[id], key)),
            None => None,
        }
    } else {
        None
    }
}

/// The paths after a probe key was forgotten.
pub open spec fn key_unregistered(paths: PathsView, id: KeyId) -> PathsView {
    if !paths.by_key_id.contains_key(id) {
        paths
    } else {
        let peer = paths.by_key_id[id];
        let left = PathsView { by_key_id: paths.by_key_id.remove(id), ..paths };
        if paths.peers.contains_key(peer) && (paths.peers[peer].probe_key matches Some(key)
            && key.id == id) {
            with_peer(left, peer, PeerView { probe_key: None, ..paths.peers[peer] })
        } else {
            left
        }
    }
}

/// The learnt addresses that are still probed.
pub open spec fn learned_kept(learned: Map<SocketAddr, u64>, now: u64) -> Map<SocketAddr, u64> {
    Map::new(
        |addr: SocketAddr| learned.contains_key(addr) && elapsed(learned[addr], now) < LEARNED_TTL,
        |addr: SocketAddr| learned[addr],
    )
}

/// The nonces whose pong may still arrive.
pub open spec fn pending_kept(pending: Map<Nonce, Pending>, now: u64) -> Map<Nonce, Pending> {
    Map::new(
        |nonce: Nonce| pending.contains_key(nonce) && elapsed(pending[nonce].sent, now)
            < PROBE_TIMEOUT,
        |nonce: Nonce| pending[nonce],
    )
}

/// Whether `addr` is pinged by the next round.
pub open spec fn is_target(peer: PeerView, addr: SocketAddr, now: u64) -> bool {
    peer.candidates.contains(addr) || learned_kept(peer.learned, now).contains_key(addr)
}

/// Whether `targets` are the addresses of the next round: the peer's own list
/// first, then each learnt address that it did not list.
pub open spec fn are_targets(peer: PeerView, now: u64, targets: Seq<SocketAddr>) -> bool {
    &&& peer.candidates.is_prefix_of(targets)
    &&& forall|addr: SocketAddr| targets.contains(addr) <==> is_target(peer, addr, now)
    &&& forall|i: int, j: int|
        0 <= i < j < targets.len() && j >= peer.candidates.len() ==> #[trigger] targets[i]
            != #[trigger] targets[j]
}

/// The peer after a ping was issued.
pub open spec fn pinged(peer: PeerView, addr: SocketAddr, nonce: Nonce, now: u64) -> PeerView {
    PeerView {
        pending: peer.pending.insert(nonce, Pending { addr, sent: now }),
        last_ping: peer.last_ping.insert(addr, now),
        ..peer
    }
}

/// Whether a ping from `from` is answered: one pong per address per interval.
pub open spec fn answers(peer: PeerView, from: SocketAddr, now: u64) -> bool {
    peer.last_pong.contains_key(from) ==> elapsed(peer.last_pong[from], now) >= PONG_INTERVAL
}

/// Whether a ping from `from` is probed back: until this side has its own fresh
/// proof, at most once per interval.
pub open spec fn probes_back(peer: PeerView, from: SocketAddr, now: u64) -> bool {
    &&& !(fresh(peer.direct, now) && peer.direct->0.addr == from)
    &&& peer.last_ping.contains_key(from) ==> elapsed(peer.last_ping[from], now)
        >= COUNTER_PROBE_INTERVAL
}

/// The peer after a valid ping arrived.
pub open spec fn ping_heard(peer: PeerView, from: SocketAddr, now: u64) -> PeerView {
    PeerView {
        last_pong: if answers(peer, from, now) {
            peer.last_pong.insert(from, now)
        } else {
            peer.last_pong
        },
        learned: if peer.candidates.contains(from) {
            peer.learned
        } else {
            peer.learned.insert(from, now)
        },
        ..peer
    }
}

/// The paths after a valid pong arrived: an address is proved only for a nonce
/// that this side issued, and only once.
pub open spec fn pong_heard(
    paths: PathsView,
    peer: NodeId,
    nonce: Nonce,
    from: SocketAddr,
    now: u64,
) -> PathsView {
    let known = peer_of(paths, peer);
    if paths.peers.contains_key(peer) && known.pending.contains_key(nonce) {
        PathsView {
            by_direct: paths.by_direct.insert(from, peer),
            ..with_peer(
                paths,
                peer,
                PeerView {
                    pending: known.pending.remove(nonce),
                    direct: Some(Proven { addr: from, proved_at: now }),
                    learned: known.learned.remove(from),
                    ..known
                },
            )
        }
    } else {
        paths
    }
}

/// The paths after a probe arrived under the session key of `peer`; one of another
/// kind is ignored.
pub open spec fn probe_heard(
    paths: PathsView,
    peer: NodeId,
    kind: u8,
    nonce: Nonce,
    from: SocketAddr,
    now: u64,
) -> PathsView {
    if kind == PROBE_PING {
        with_peer(paths, peer, ping_heard(peer_of(paths, peer), from, now))
    } else if kind == PROBE_PONG {
        pong_heard(paths, peer, nonce, from, now)
    } else {
        paths
    }
}

/// What to do about such a probe: only a ping asks for anything.
pub open spec fn probe_order(
    paths: PathsView,
    peer: NodeId,
    kind: u8,
    from: SocketAddr,
    now: u64,
) -> PingOrder {
    PingOrder {
        answer: kind == PROBE_PING && answers(peer_of(paths, peer), from, now),
        probe_back: kind == PROBE_PING && probes_back(peer_of(paths, peer), from, now),
    }
}

/// Whether a datagram has the shape of a reflector reply.
pub open spec fn reply_shaped(data: Seq<u8>) -> bool {
    data.len() == REFLECT_REPLY_BYTES && data.subrange(0, 4) == REFLECT_MAGIC@
}

/// Whether a datagram carries a probe that counts: it names a live session and is
/// sealed under the key of that session.
pub open spec fn probe_counts(paths: PathsView, data: Seq<u8>, probe: SealedProbe) -> bool {
    session_of(paths, KeyId(probe.key_id)) matches Some((_, key)) && seals(data, key.key@, probe)
}

/// What a probe that names a session leads to: nothing unless the session lives and the
/// probe opened under its key.
pub open spec fn probe_outcome(
    paths: PathsView,
    id: KeyId,
    opened: Option<(u8, Nonce)>,
    from: SocketAddr,
    now: u64,
) -> (PathsView, Heard) {
    match (session_of(paths, id), opened) {
        (Some((peer, _)), Some((kind, nonce))) => (
            probe_heard(paths, peer, kind, nonce, from, now),
            Heard::Probe {
                peer,
                key_id: id,
                nonce,
                order: probe_order(paths, peer, kind, from, now),
            },
        ),
        _ => (paths, Heard::Silence),
    }
}

/// Whether `after` is what a reflector reply leaves: it counts only if it echoes the
/// nonce of the outstanding request.
pub open spec fn reflection_heard(before: PathsView, after: PathsView, data: Seq<u8>) -> bool {
    if exists|nonce: [u8; 16], observed: SocketAddr| reflected(before, data, nonce, observed) {
        exists|nonce: [u8; 16], observed: SocketAddr|
            reflected(before, data, nonce, observed) && after == (PathsView {
                reflexive: Some(unmapped(observed)),
                reflector_nonce: None,
                ..before
            })
    } else {
        after == before
    }
}

/// Whether `after` and `r` are what a datagram from `from` leads to.
pub open spec fn datagram_heard(
    before: PathsView,
    after: PathsView,
    data: Seq<u8>,
    from: SocketAddr,
    now: u64,
    r: Heard,
) -> bool {
    if sealed_shaped(data) {
        match r {
            Heard::Probe { .. } => exists|probe: SealedProbe| #[trigger]
                probe_counts(before, data, probe) && (after, r) == probe_outcome(
                    before,
                    KeyId(probe.key_id),
                    Some((probe.kind, Nonce(probe.nonce))),
                    from,
                    now,
                ),
            Heard::Silence => after == before && forall|probe: SealedProbe|
                !#[trigger] probe_counts(before, data, probe),
            Heard::From(_) => false,
        }
    } else if reply_shaped(data) {
        r == Heard::Silence && reflection_heard(before, after, data)
    } else {
        after == before && r == if before.by_direct.contains_key(from) {
            Heard::From(before.by_direct[from])
        } else {
            Heard::Silence
        }
    }
}

/// The paths after a session with `peer` began: a new session inherits no path
/// state, so a proof of a socket that is gone does not carry its packets.
pub open spec fn session_begun(paths: PathsView, peer: NodeId) -> PathsView {
    let cleared = session_cleared(paths, peer);
    PathsView {
        next_session: if paths.next_session == u64::MAX {
            0
        } else {
            (paths.next_session + 1) as u64
        },
        ..with_peer(
            cleared,
            peer,
            PeerView { session: Some(paths.next_session), ..peer_of(cleared, peer) },
        )
    }
}

/// The paths without the session state of `peer`.
pub open spec fn session_cleared(paths: PathsView, peer: NodeId) -> PathsView {
    let known = peer_of(paths, peer);
    PathsView {
        by_direct: match known.direct {
            Some(proven) => paths.by_direct.remove(proven.addr),
            None => paths.by_direct,
        },
        by_key_id: match known.probe_key {
            Some(key) => paths.by_key_id.remove(key.id),
            None => paths.by_key_id,
        },
        ..with_peer(
            paths,
            peer,
            PeerView { updates: known.updates, driver: known.driver, ..unknown_peer() },
        )
    }
}

/// The paths after a session ended; an older session ends without a trace.
pub open spec fn session_ended(paths: PathsView, peer: NodeId, session: u64) -> PathsView {
    if peer_of(paths, peer).session == Some(session) {
        session_cleared(paths, peer)
    } else {
        paths
    }
}

impl View for Paths {
    type V = PathsView;

    closed spec fn view(&self) -> PathsView {
        PathsView {
            node_id: self.node_id,
            udp_local: self.udp_local,
            peers: self.peers.map().map_values(|peer: Peer| peer@),
            by_synthetic: self.by_synthetic.map(),
            by_direct: self.by_direct.map(),
            by_key_id: self.by_key_id.map(),
            reflexive: self.reflexive,
            reflector_nonce: self.reflector_nonce,
            next_session: self.next_session,
        }
    }
}

/// Forget the learnt addresses that are too old.
fn prune_learnt(learned: &mut Table<SocketAddr, u64>, now: u64)
    requires
        old(learned).well_formed(),
    ensures
        final(learned).well_formed(),
        final(learned).map() == learned_kept(old(learned).map(), now),
{
    let ghost before = learned.map();
    let mut i: usize = 0;
    while i < learned.len()
        invariant
            learned.well_formed(),
            i <= learned.pairs().len(),
            learned.map().submap_of(before),
            forall|addr: SocketAddr|
                learned_kept(before, now).contains_key(addr) ==> #[trigger] learned.map().contains_key(
                    addr,
                ),
            forall|k: int|
                0 <= k < i ==> elapsed((#[trigger] learned.pairs()[k]).1, now) < LEARNED_TTL,
        decreases learned.pairs().len() - i,
    {
        let stale = since(*learned.at(i).1, now) >= LEARNED_TTL;
        proof {
            lemma_pair_in_map(learned.pairs(), i as int);
        }
        if stale {
            let _ = learned.remove_at(i);
        } else {
            i += 1;
        }
    }
    proof {
        let after = learned.map();
        assert forall|addr: SocketAddr| after.contains_key(addr) implies #[trigger] learned_kept(
            before,
            now,
        ).contains_key(addr) by {
            let k = place(learned.pairs(), addr);
            assert(has_key(learned.pairs(), addr));
            lemma_pair_in_map(learned.pairs(), k);
        }
        assert(after =~= learned_kept(before, now));
    }
}

/// Forget the nonces whose pong did not arrive in time.
fn prune_pending(pending: &mut Table<Nonce, Pending>, now: u64)
    requires
        old(pending).well_formed(),
    ensures
        final(pending).well_formed(),
        final(pending).map() == pending_kept(old(pending).map(), now),
{
    let ghost before = pending.map();
    let mut i: usize = 0;
    while i < pending.len()
        invariant
            pending.well_formed(),
            i <= pending.pairs().len(),
            pending.map().submap_of(before),
            forall|nonce: Nonce|
                pending_kept(before, now).contains_key(nonce)
                    ==> #[trigger] pending.map().contains_key(nonce),
            forall|k: int|
                0 <= k < i ==> elapsed((#[trigger] pending.pairs()[k]).1.sent, now)
                    < PROBE_TIMEOUT,
        decreases pending.pairs().len() - i,
    {
        let stale = since(pending.at(i).1.sent, now) >= PROBE_TIMEOUT;
        proof {
            lemma_pair_in_map(pending.pairs(), i as int);
        }
        if stale {
            let _ = pending.remove_at(i);
        } else {
            i += 1;
        }
    }
    proof {
        let after = pending.map();
        assert forall|nonce: Nonce| after.contains_key(nonce) implies #[trigger] pending_kept(
            before,
            now,
        ).contains_key(nonce) by {
            let k = place(pending.pairs(), nonce);
            assert(has_key(pending.pairs(), nonce));
            lemma_pair_in_map(pending.pairs(), k);
        }
        assert(after =~= pending_kept(before, now));
    }
}

/// Whether an address is in a list.
fn lists(list: &Vec<SocketAddr>, addr: &SocketAddr) -> (r: bool)
    ensures
        r == list@.contains(*addr),
{
    let mut i: usize = 0;
    while i < list.len()
        invariant
            i <= list.len(),
            forall|k: int| 0 <= k < i ==> list@[k] != *addr,
        decreases list.len() - i,
    {
        if list[i].same(addr) {
            assert(list@[i as int] == *addr);
            return true;
        }
        i += 1;
    }
    false
}

/// A copy of a list of addresses.
fn copy_addrs(list: &Vec<SocketAddr>) -> (r: Vec<SocketAddr>)
    ensures
        r@ == list@,
{
    let mut out: Vec<SocketAddr> = Vec::new();
    let mut i: usize = 0;
    while i < list.len()
        invariant
            i <= list.len(),
            out@ == list@.take(i as int),
        decreases list.len() - i,
    {
        out.push(list[i]);
        i += 1;
        assert(out@ =~= list@.take(i as int));
    }
    assert(list@.take(list@.len() as int) =~= list@);
    out
}

/// What to do about a valid ping.
#[derive(Clone, Copy, Debug, PartialEq, Eq, Structural)]
pub struct PingOrder {
    /// Send a pong with the ping's nonce.
    pub answer: bool,
    /// Ping the address back.
    pub probe_back: bool,
}

/// A ping to send.
#[derive(Clone, Copy)]
pub struct Ping {
    pub key: ProbeKey,
    pub nonce: Nonce,
    pub addr: SocketAddr,
}

impl Ping {
    /// The ping on the wire, sealed under the session's key.
    pub fn wire(&self) -> (r: [u8; 45])
        ensures
            seals(
                r@,
                self.key.key@,
                SealedProbe { kind: PROBE_PING, key_id: self.key.id.0, nonce: self.nonce.0 },
            ),
    {
        let probe = SealedProbe {
            kind: PROBE_PING,
            key_id: self.key.id.0,
            nonce: self.nonce.0,
        };
        probe.seal(&self.key.key)
    }
}

/// What a datagram on the direct socket was.
#[derive(Clone, Copy, Debug)]
pub enum Heard {
    /// A probe of a live session, and what to do about it.
    Probe { peer: NodeId, key_id: KeyId, nonce: Nonce, order: PingOrder },
    /// A datagram from the peer that proved the address it came from.
    From(NodeId),
    /// Nothing to act on: a reflector reply, a probe that counts for nothing, or a
    /// datagram from an address that nobody proved.
    Silence,
}

/// Where a datagram goes.
#[derive(Clone, Copy, Debug)]
pub enum Route {
    /// It exceeds the relay's bound.
    TooLarge,
    /// It is addressed to nobody known, and is dropped.
    Nobody,
    /// To a proved address.
    Direct(SocketAddr),
    /// Through the relay.
    Relay(NodeId),
}

impl Paths {
    /// The tables have no repeated keys.
    pub closed spec fn well_formed(self) -> bool {
        &&& self.peers.well_formed()
        &&& self.by_synthetic.well_formed()
        &&& self.by_direct.well_formed()
        &&& self.by_key_id.well_formed()
        &&& forall|peer: NodeId|
            self.peers.map().contains_key(peer) ==> (#[trigger] self.peers.map()[peer]).well_formed()
    }

    /// A path socket that knows nobody.
    pub fn new(node_id: NodeId, udp_local: SocketAddr) -> (r: Self)
        ensures
            r.well_formed(),
            r@ == (PathsView {
                node_id,
                udp_local,
                peers: Map::empty(),
                by_synthetic: Map::empty(),
                by_direct: Map::empty(),
                by_key_id: Map::empty(),
                reflexive: None,
                reflector_nonce: None,
                next_session: 0,
            }),
    {
        let r = Paths {
            node_id,
            udp_local,
            peers: Table::new(),
            by_synthetic: Table::new(),
            by_direct: Table::new(),
            by_key_id: Table::new(),
            reflexive: None,
            reflector_nonce: None,
            next_session: 0,
        };
        assert(r@.peers =~= Map::empty());
        r
    }

    /// Take what is known of a peer out, to change it and put it back.
    fn take_peer(&mut self, peer: NodeId) -> (r: Peer)
        requires
            old(self).well_formed(),
        ensures
            final(self).well_formed(),
            final(self)@ == (PathsView { peers: old(self)@.peers.remove(peer), ..old(self)@ }),
            r.well_formed(),
            r@ == peer_of(old(self)@, peer),
    {
        let found = self.peers.remove(&peer);
        assert(self@.peers =~= old(self)@.peers.remove(peer));
        match found {
            Some(known) => known,
            None => Peer::unknown(),
        }
    }

    fn put_peer(&mut self, peer: NodeId, known: Peer)
        requires
            old(self).well_formed(),
            known.well_formed(),
        ensures
            final(self).well_formed(),
            final(self)@ == with_peer(old(self)@, peer, known@),
    {
        let _ = self.peers.insert(peer, known);
        assert(self@.peers =~= old(self)@.peers.insert(peer, known@));
    }

    /// This node.
    pub fn node_id(&self) -> (r: NodeId)
        ensures
            r == self@.node_id,
    {
        self.node_id
    }

    /// The address of the direct socket.
    pub fn udp_local(&self) -> (r: SocketAddr)
        ensures
            r == self@.udp_local,
    {
        self.udp_local
    }

    /// Make a peer routable.
    pub fn register_peer(&mut self, peer: NodeId)
        requires
            old(self).well_formed(),
        ensures
            final(self).well_formed(),
            final(self)@ == (PathsView {
                by_synthetic: old(self)@.by_synthetic.insert(synthetic(peer), peer),
                ..with_peer(old(self)@, peer, peer_of(old(self)@, peer))
            }),
    {
        let known = self.take_peer(peer);
        self.put_peer(peer, known);
        let addr = peer.synthetic_addr();
        proof {
            lemma_synthetic(addr, peer);
        }
        let _ = self.by_synthetic.insert(addr, peer);
        proof {
            assert(self@.peers =~= old(self)@.peers.insert(peer, peer_of(old(self)@, peer)));
        }
    }

    /// The peer behind a synthetic address.
    pub fn peer_for_synthetic(&self, addr: SocketAddr) -> (r: Option<NodeId>)
        requires
            self.well_formed(),
        ensures
            match r {
                Some(peer) => self@.by_synthetic.contains_key(addr) && self@.by_synthetic[addr]
                    == peer,
                None => !self@.by_synthetic.contains_key(addr),
            },
    {
        match self.by_synthetic.get(&addr) {
            Some(peer) => Some(*peer),
            None => None,
        }
    }

    /// Whether this socket can address `addr`.
    pub fn can_reach(&self, addr: SocketAddr) -> (r: bool)
        ensures
            r == reaches(self@.udp_local, addr),
    {
        self.udp_local.ip.is_ipv4() == addr.ip.is_ipv4()
    }

    /// The candidates that a peer sent: those that this socket can address, with
    /// mapped addresses as the IPv4 addresses they stand for.
    pub fn set_peer_candidates(&mut self, peer: NodeId, candidates: Vec<SocketAddr>)
        requires
            old(self).well_formed(),
        ensures
            final(self).well_formed(),
            ({
                let known = peer_of(old(self)@, peer);
                final(self)@ == with_peer(
                    old(self)@,
                    peer,
                    PeerView {
                        candidates: usable(old(self)@.udp_local, candidates@),
                        updates: if known.updates == u32::MAX {
                            0
                        } else {
                            (known.updates + 1) as u32
                        },
                        ..known
                    },
                )
            }),
    {
        let mut kept: Vec<SocketAddr> = Vec::new();
        let mut i: usize = 0;
        while i < candidates.len()
            invariant
                i <= candidates.len(),
                kept@ == usable(self@.udp_local, candidates@.take(i as int)),
            decreases candidates.len() - i,
        {
            let addr = unmap_ipv6(candidates[i]);
            let reachable = self.can_reach(addr);
            proof {
                assert(candidates@.take(i + 1).drop_last() =~= candidates@.take(i as int));
            }
            if reachable {
                kept.push(addr);
            }
            i += 1;
        }
        assert(candidates@.take(i as int) =~= candidates@);
        let mut known = self.take_peer(peer);
        known.candidates = kept;
        known.updates = known.updates.wrapping_add(1);
        self.put_peer(peer, known);
        proof {
            let was = peer_of(old(self)@, peer);
            let now_known = PeerView {
                candidates: usable(old(self)@.udp_local, candidates@),
                updates: if was.updates == u32::MAX {
                    0
                } else {
                    (was.updates + 1) as u32
                },
                ..was
            };
            assert(known@ =~= now_known);
            assert(self@ =~= with_peer(old(self)@, peer, now_known));
        }
    }

    /// How many candidate lists a peer has sent: one for the first exchange and
    /// one for each announcement.
    pub fn candidate_updates(&self, peer: NodeId) -> (r: u32)
        requires
            self.well_formed(),
        ensures
            r == peer_of(self@, peer).updates,
    {
        match self.peers.get(&peer) {
            Some(known) => known.updates,
            None => 0,
        }
    }

    /// The candidates of a peer.
    pub fn peer_candidates(&self, peer: NodeId) -> (r: Vec<SocketAddr>)
        requires
            self.well_formed(),
        ensures
            r@ == peer_of(self@, peer).candidates,
    {
        match self.peers.get(&peer) {
            Some(known) => copy_addrs(&known.candidates),
            None => Vec::new(),
        }
    }

    /// The direct proof of a peer, fresh or not.
    pub fn proven_direct(&self, peer: NodeId) -> (r: Option<Proven>)
        requires
            self.well_formed(),
        ensures
            r == peer_of(self@, peer).direct,
    {
        match self.peers.get(&peer) {
            Some(known) => known.direct,
            None => None,
        }
    }

    /// Forget the direct path, which puts the peer back on the relay.
    pub fn drop_direct(&mut self, peer: NodeId)
        requires
            old(self).well_formed(),
        ensures
            final(self).well_formed(),
            final(self)@ == direct_dropped(old(self)@, peer),
    {
        if let Some(proven) = self.proven_direct(peer) {
            let mut known = self.take_peer(peer);
            known.direct = None;
            self.put_peer(peer, known);
            let _ = self.by_direct.remove(&proven.addr);
            proof {
                assert(known@ =~= (PeerView { direct: None, ..peer_of(old(self)@, peer) }));
                assert(self@ =~= direct_dropped(old(self)@, peer));
            }
        }
    }

    /// Give a session its probe key.  Until this is done the peer is neither
    /// probed nor answered.
    pub fn register_probe_key(&mut self, peer: NodeId, key: ProbeKey)
        requires
            old(self).well_formed(),
        ensures
            final(self).well_formed(),
            final(self)@ == key_registered(old(self)@, peer, key),
    {
        let mut known = self.take_peer(peer);
        if let Some(previous) = known.probe_key {
            let _ = self.by_key_id.remove(&previous.id);
        }
        known.probe_key = Some(key);
        self.put_peer(peer, known);
        let _ = self.by_key_id.insert(key.id, peer);
        proof {
            assert(known@ =~= (PeerView { probe_key: Some(key), ..peer_of(old(self)@, peer) }));
            assert(self@ =~= key_registered(old(self)@, peer, key));
        }
    }

    /// Forget a session's probe key when the session ends, so that nothing under
    /// it is answered again.
    pub fn unregister_probe_key(&mut self, id: KeyId)
        requires
            old(self).well_formed(),
        ensures
            final(self).well_formed(),
            final(self)@ == key_unregistered(old(self)@, id),
    {
        if let Some(peer) = self.by_key_id.remove(&id) {
            let ghost left = self@;
            let owned = match self.peers.get(&peer) {
                Some(known) => match known.probe_key {
                    Some(key) => key.id.same(&id),
                    None => false,
                },
                None => false,
            };
            if owned {
                let mut known = self.take_peer(peer);
                known.probe_key = None;
                self.put_peer(peer, known);
                proof {
                    assert(known@ =~= (PeerView { probe_key: None, ..peer_of(left, peer) }));
                    assert(self@ =~= with_peer(left, peer, known@));
                }
            }
        }
    }

    /// The session that a probe key belongs to, and the key.
    pub fn probe_session(&self, id: KeyId) -> (r: Option<(NodeId, ProbeKey)>)
        requires
            self.well_formed(),
        ensures
            r == session_of(self@, id),
    {
        match self.by_key_id.get(&id) {
            Some(peer) => match self.peers.get(peer) {
                Some(known) => match known.probe_key {
                    Some(key) => Some((*peer, key)),
                    None => None,
                },
                None => None,
            },
            None => None,
        }
    }

    /// Every address that the next round pings.
    pub fn probe_targets(&self, peer: NodeId, now: u64) -> (r: Vec<SocketAddr>)
        requires
            self.well_formed(),
        ensures
            are_targets(peer_of(self@, peer), now, r@),
    {
        let ghost view = peer_of(self@, peer);
        let known = match self.peers.get(&peer) {
            Some(known) => known,
            None => {
                let r: Vec<SocketAddr> = Vec::new();
                assert(view.candidates =~= r@.take(0));
                return r;
            },
        };
        let mut out = copy_addrs(&known.candidates);
        let ghost listed = out@;
        assert(listed =~= out@.take(listed.len() as int));
        let mut i: usize = 0;
        while i < known.learned.len()
            invariant
                known.learned.well_formed(),
                known@ == view,
                i <= known.learned.pairs().len(),
                listed == view.candidates,
                listed.len() <= out@.len(),
                listed == out@.take(listed.len() as int),
                forall|addr: SocketAddr|
                    out@.contains(addr) ==> #[trigger] is_target(view, addr, now),
                forall|addr: SocketAddr|
                    listed.contains(addr) ==> #[trigger] out@.contains(addr),
                forall|k: int|
                    0 <= k < i && elapsed((#[trigger] known.learned.pairs()[k]).1, now)
                        < LEARNED_TTL ==> out@.contains(known.learned.pairs()[k].0),
                forall|a: int, b: int|
                    0 <= a < b < out@.len() && b >= listed.len() ==> #[trigger] out@[a]
                        != #[trigger] out@[b],
            decreases known.learned.pairs().len() - i,
        {
            let (addr, seen) = known.learned.at(i);
            let ghost before = out@;
            proof {
                lemma_pair_in_map(known.learned.pairs(), i as int);
            }
            if since(*seen, now) < LEARNED_TTL && !lists(&out, addr) {
                out.push(*addr);
                proof {
                    assert(out@.take(listed.len() as int) =~= before.take(listed.len() as int));
                    assert(out@[before.len() as int] == *addr);
                    assert forall|a: SocketAddr| before.contains(a) implies #[trigger] out@.contains(
                        a,
                    ) by {
                        let k = choose|k: int| 0 <= k < before.len() && before[k] == a;
                        assert(out@[k] == a);
                    }
                    assert forall|a: SocketAddr| out@.contains(a) implies #[trigger] is_target(
                        view,
                        a,
                        now,
                    ) by {
                        let k = choose|k: int| 0 <= k < out@.len() && out@[k] == a;
                        if k < before.len() {
                            assert(before[k] == a);
                            assert(before.contains(a));
                        }
                    }
                    assert forall|a: int, b: int|
                        0 <= a < b < out@.len() && b >= listed.len() implies #[trigger] out@[a]
                        != #[trigger] out@[b] by {
                        if b == before.len() {
                            assert(before[a] == out@[a]);
                            assert(before.contains(before[a]));
                        } else {
                            assert(before[a] == out@[a] && before[b] == out@[b]);
                        }
                    }
                }
            }
            i += 1;
        }
        proof {
            assert forall|addr: SocketAddr| is_target(view, addr, now) implies #[trigger] out@.contains(
                addr,
            ) by {
                if !listed.contains(addr) {
                    let k = place(known.learned.pairs(), addr);
                    assert(has_key(known.learned.pairs(), addr));
                    lemma_pair_in_map(known.learned.pairs(), k);
                }
            }
        }
        out
    }

    /// Forget learnt addresses that are too old.  A replayed ping therefore buys
    /// its sender at most ten seconds of probes.
    pub fn prune_learned(&mut self, peer: NodeId, now: u64)
        requires
            old(self).well_formed(),
        ensures
            final(self).well_formed(),
            final(self)@ == if old(self)@.peers.contains_key(peer) {
                with_peer(
                    old(self)@,
                    peer,
                    PeerView {
                        learned: learned_kept(peer_of(old(self)@, peer).learned, now),
                        ..peer_of(old(self)@, peer)
                    },
                )
            } else {
                old(self)@
            },
    {
        if self.peers.contains(&peer) {
            let mut known = self.take_peer(peer);
            prune_learnt(&mut known.learned, now);
            self.put_peer(peer, known);
            proof {
                let wanted = PeerView {
                    learned: learned_kept(peer_of(old(self)@, peer).learned, now),
                    ..peer_of(old(self)@, peer)
                };
                assert(known@ =~= wanted);
                assert(self@ =~= with_peer(old(self)@, peer, wanted));
            }
        }
    }

    /// Start a round: what is too old is forgotten, and the addresses to ping are
    /// handed out.
    pub fn begin_round(&mut self, peer: NodeId, now: u64) -> (r: Vec<SocketAddr>)
        requires
            old(self).well_formed(),
        ensures
            final(self).well_formed(),
            ({
                let known = peer_of(old(self)@, peer);
                let pruned = PeerView {
                    pending: pending_kept(known.pending, now),
                    learned: learned_kept(known.learned, now),
                    ..known
                };
                &&& final(self)@ == with_peer(old(self)@, peer, pruned)
                &&& are_targets(pruned, now, r@)
            }),
    {
        let mut known = self.take_peer(peer);
        prune_pending(&mut known.pending, now);
        prune_learnt(&mut known.learned, now);
        self.put_peer(peer, known);
        proof {
            let was = peer_of(old(self)@, peer);
            let pruned = PeerView {
                pending: pending_kept(was.pending, now),
                learned: learned_kept(was.learned, now),
                ..was
            };
            assert(known@ =~= pruned);
            assert(self@ =~= with_peer(old(self)@, peer, pruned));
        }
        self.probe_targets(peer, now)
    }

    /// Issue a ping under a given nonce.  Without a session key there is no session
    /// and nothing to prove.
    pub fn issue_ping(&mut self, peer: NodeId, addr: SocketAddr, nonce: Nonce, now: u64) -> (r:
        Option<Ping>)
        requires
            old(self).well_formed(),
        ensures
            final(self).well_formed(),
            match peer_of(old(self)@, peer).probe_key {
                Some(key) => r == Some(Ping { key, nonce, addr }) && final(self)@ == with_peer(
                    old(self)@,
                    peer,
                    pinged(peer_of(old(self)@, peer), addr, nonce, now),
                ),
                None => r is None && final(self)@ == with_peer(
                    old(self)@,
                    peer,
                    peer_of(old(self)@, peer),
                ),
            },
    {
        let mut known = self.take_peer(peer);
        let r = match known.probe_key {
            Some(key) => {
                let _ = known.pending.insert(nonce, Pending { addr, sent: now });
                let _ = known.last_ping.insert(addr, now);
                assert(known@ =~= pinged(peer_of(old(self)@, peer), addr, nonce, now));
                Some(Ping { key, nonce, addr })
            },
            None => None,
        };
        self.put_peer(peer, known);
        assert(self@ =~= with_peer(old(self)@, peer, known@));
        r
    }

    /// Issue a ping under a fresh nonce.
    pub fn send_ping(&mut self, peer: NodeId, addr: SocketAddr, now: u64) -> (r: Option<Ping>)
        requires
            old(self).well_formed(),
        ensures
            final(self).well_formed(),
            r is Some <==> peer_of(old(self)@, peer).probe_key is Some,
            r matches Some(ping) ==> Some(ping.key) == peer_of(old(self)@, peer).probe_key
                && ping.addr == addr && final(self)@ == with_peer(
                old(self)@,
                peer,
                pinged(peer_of(old(self)@, peer), addr, ping.nonce, now),
            ),
            r is None ==> final(self)@ == with_peer(
                old(self)@,
                peer,
                peer_of(old(self)@, peer),
            ),
    {
        let mut bytes = [0u8; 16];
        fill_random(&mut bytes);
        self.issue_ping(peer, addr, Nonce(bytes), now)
    }

    /// A ping arrived from `from` under the session key of `peer`.
    pub fn hear_ping(&mut self, peer: NodeId, from: SocketAddr, now: u64) -> (r: PingOrder)
        requires
            old(self).well_formed(),
        ensures
            final(self).well_formed(),
            ({
                let known = peer_of(old(self)@, peer);
                &&& r.answer == answers(known, from, now)
                &&& r.probe_back == probes_back(known, from, now)
                &&& final(self)@ == with_peer(old(self)@, peer, ping_heard(known, from, now))
            }),
    {
        let mut known = self.take_peer(peer);
        let answer = match known.last_pong.get(&from) {
            Some(sent) => since(*sent, now) >= PONG_INTERVAL,
            None => true,
        };
        let proved = is_fresh(&known.direct, now) && match known.direct {
            Some(proven) => proven.addr.same(&from),
            None => false,
        };
        let recent = match known.last_ping.get(&from) {
            Some(sent) => since(*sent, now) < COUNTER_PROBE_INTERVAL,
            None => false,
        };
        if answer {
            let _ = known.last_pong.insert(from, now);
        }
        if !lists(&known.candidates, &from) {
            let _ = known.learned.insert(from, now);
        }
        self.put_peer(peer, known);
        proof {
            assert(known@ =~= ping_heard(peer_of(old(self)@, peer), from, now));
            assert(self@ =~= with_peer(old(self)@, peer, known@));
        }
        PingOrder { answer, probe_back: !proved && !recent }
    }

    /// A pong arrived from `from` under the session key of `peer`.
    pub fn hear_pong(&mut self, peer: NodeId, nonce: Nonce, from: SocketAddr, now: u64)
        requires
            old(self).well_formed(),
        ensures
            final(self).well_formed(),
            final(self)@ == pong_heard(old(self)@, peer, nonce, from, now),
    {
        let issued = match self.peers.get(&peer) {
            Some(known) => known.pending.contains(&nonce),
            None => false,
        };
        if issued {
            let mut known = self.take_peer(peer);
            let _ = known.pending.remove(&nonce);
            let _ = known.learned.remove(&from);
            known.direct = Some(Proven { addr: from, proved_at: now });
            self.put_peer(peer, known);
            let _ = self.by_direct.insert(from, peer);
            proof {
                let was = peer_of(old(self)@, peer);
                assert(known@ =~= (PeerView {
                    pending: was.pending.remove(nonce),
                    direct: Some(Proven { addr: from, proved_at: now }),
                    learned: was.learned.remove(from),
                    ..was
                }));
                assert(self@ =~= pong_heard(old(self)@, peer, nonce, from, now));
            }
        }
    }

    /// A probe that opened under the session key of `peer`; one of another kind is
    /// ignored.
    pub fn handle_probe(
        &mut self,
        peer: NodeId,
        kind: u8,
        nonce: Nonce,
        from: SocketAddr,
        now: u64,
    ) -> (r: PingOrder)
        requires
            old(self).well_formed(),
        ensures
            final(self).well_formed(),
            final(self)@ == probe_heard(old(self)@, peer, kind, nonce, from, now),
            r == probe_order(old(self)@, peer, kind, from, now),
    {
        if kind == PROBE_PING {
            return self.hear_ping(peer, from, now);
        }
        if kind == PROBE_PONG {
            self.hear_pong(peer, nonce, from, now);
        }
        PingOrder { answer: false, probe_back: false }
    }

    /// A session with `peer` begins: its id, and the id of the session it takes the
    /// place of.
    pub fn begin_session(&mut self, peer: NodeId) -> (r: (u64, Option<u64>))
        requires
            old(self).well_formed(),
        ensures
            final(self).well_formed(),
            final(self)@ == session_begun(old(self)@, peer),
            r.0 == old(self)@.next_session,
            r.1 == peer_of(old(self)@, peer).session,
    {
        let session: u64 = self.next_session;
        let superseded = match self.peers.get(&peer) {
            Some(known) => known.session,
            None => None,
        };
        self.clear_session(peer);
        let ghost cleared = self@;
        let mut known = self.take_peer(peer);
        known.session = Some(session);
        self.put_peer(peer, known);
        self.next_session = self.next_session.wrapping_add(1);
        proof {
            assert(known@ =~= (PeerView { session: Some(session), ..peer_of(cleared, peer) }));
            assert(self@ =~= session_begun(old(self)@, peer));
        }
        (session, superseded)
    }

    fn clear_session(&mut self, peer: NodeId)
        requires
            old(self).well_formed(),
        ensures
            final(self).well_formed(),
            final(self)@ == session_cleared(old(self)@, peer),
    {
        let known = self.take_peer(peer);
        if let Some(proven) = known.direct {
            let _ = self.by_direct.remove(&proven.addr);
        }
        if let Some(key) = known.probe_key {
            let _ = self.by_key_id.remove(&key.id);
        }
        let mut fresh_peer = Peer::unknown();
        fresh_peer.updates = known.updates;
        fresh_peer.driver = known.driver;
        self.put_peer(peer, fresh_peer);
        proof {
            assert(fresh_peer@ =~= (PeerView {
                updates: known@.updates,
                driver: known@.driver,
                ..unknown_peer()
            }));
            assert(self@ =~= session_cleared(old(self)@, peer));
        }
    }

    /// A session ends; the state of a newer one stays.
    pub fn end_session(&mut self, peer: NodeId, session: u64)
        requires
            old(self).well_formed(),
        ensures
            final(self).well_formed(),
            final(self)@ == session_ended(old(self)@, peer, session),
    {
        let current = match self.peers.get(&peer) {
            Some(known) => match known.session {
                Some(id) => id == session,
                None => false,
            },
            None => false,
        };
        if current {
            self.clear_session(peer);
        }
    }

    /// The relay driver that reaches a peer; 0 is the home driver.
    pub fn driver_of(&self, peer: NodeId) -> (r: u64)
        requires
            self.well_formed(),
        ensures
            r == peer_of(self@, peer).driver,
    {
        match self.peers.get(&peer) {
            Some(known) => known.driver,
            None => 0,
        }
    }

    /// Reach a peer through a driver from now on.
    pub fn set_driver(&mut self, peer: NodeId, driver: u64)
        requires
            old(self).well_formed(),
        ensures
            final(self).well_formed(),
            final(self)@ == with_peer(
                old(self)@,
                peer,
                PeerView { driver, ..peer_of(old(self)@, peer) },
            ),
    {
        let mut known = self.take_peer(peer);
        known.driver = driver;
        self.put_peer(peer, known);
        proof {
            assert(known@ =~= (PeerView { driver, ..peer_of(old(self)@, peer) }));
            assert(self@ =~= with_peer(old(self)@, peer, known@));
        }
    }

    /// Reach `to` the way `from` is reached: a first-contact route hands its relay
    /// to the identity behind it.
    pub fn copy_relay_route(&mut self, from: NodeId, to: NodeId)
        requires
            old(self).well_formed(),
        ensures
            final(self).well_formed(),
            final(self)@ == with_peer(
                old(self)@,
                to,
                PeerView {
                    driver: peer_of(old(self)@, from).driver,
                    ..peer_of(old(self)@, to)
                },
            ),
    {
        let driver: u64 = self.driver_of(from);
        self.set_driver(to, driver);
    }

    /// A datagram came through a relay: the peer becomes routable and is answered
    /// on the driver it arrived on.  What comes back is the address the datagram is
    /// delivered from.
    pub fn relay_inbound(&mut self, source: NodeId, driver: u64) -> (r: SocketAddr)
        requires
            old(self).well_formed(),
        ensures
            final(self).well_formed(),
            r == synthetic(source),
            final(self)@ == (PathsView {
                by_synthetic: old(self)@.by_synthetic.insert(synthetic(source), source),
                ..with_peer(
                    old(self)@,
                    source,
                    PeerView { driver, ..peer_of(old(self)@, source) },
                )
            }),
    {
        self.register_peer(source);
        self.set_driver(source, driver);
        let addr = source.synthetic_addr();
        proof {
            lemma_synthetic(addr, source);
            let wanted = PeerView { driver, ..peer_of(old(self)@, source) };
            assert(self@.peers =~= old(self)@.peers.insert(source, wanted));
        }
        addr
    }

    /// The peer that proved an address; a datagram from any other is dropped.
    pub fn direct_inbound(&self, from: SocketAddr) -> (r: Option<NodeId>)
        requires
            self.well_formed(),
        ensures
            match r {
                Some(peer) => self@.by_direct.contains_key(from) && self@.by_direct[from] == peer,
                None => !self@.by_direct.contains_key(from),
            },
    {
        match self.by_direct.get(&from) {
            Some(peer) => Some(*peer),
            None => None,
        }
    }

    /// A probe that names a session by its key id arrived from `from`; `opened` is its
    /// kind and nonce where it opened under the key of that session.  Anything else is
    /// silence.
    pub fn hear_probe(
        &mut self,
        id: KeyId,
        opened: Option<(u8, Nonce)>,
        from: SocketAddr,
        now: u64,
    ) -> (r: Heard)
        requires
            old(self).well_formed(),
        ensures
            final(self).well_formed(),
            (final(self)@, r) == probe_outcome(old(self)@, id, opened, from, now),
    {
        match (self.probe_session(id), opened) {
            (Some((peer, _)), Some((kind, nonce))) => {
                let order = self.handle_probe(peer, kind, nonce, from, now);
                Heard::Probe { peer, key_id: id, nonce, order }
            },
            _ => Heard::Silence,
        }
    }

    /// The pong that answers a ping of a session, as long as the session lives.
    pub fn pong(&self, id: KeyId, nonce: Nonce) -> (r: Option<[u8; 45]>)
        requires
            self.well_formed(),
        ensures
            r is Some <==> session_of(self@, id) is Some,
            r matches Some(wire) ==> seals(
                wire@,
                (session_of(self@, id)->0).1.key@,
                SealedProbe { kind: PROBE_PONG, key_id: id.0, nonce: nonce.0 },
            ),
    {
        match self.probe_session(id) {
            Some((_, key)) => Some(
                SealedProbe { kind: PROBE_PONG, key_id: id.0, nonce: nonce.0 }.seal(&key.key),
            ),
            None => None,
        }
    }

    /// Take a datagram on the direct socket in.  A probe counts only if it names a live
    /// session and opens under its key, a reflector reply only if this node asked, and
    /// anything else only from an address that a peer has proved.
    pub fn hear_datagram(&mut self, data: &[u8], source: SocketAddr, now: u64) -> (r: Heard)
        requires
            old(self).well_formed(),
        ensures
            final(self).well_formed(),
            datagram_heard(old(self)@, final(self)@, data@, unmapped(source), now, r),
    {
        let from = unmap_ipv6(source);
        if let Some(named) = SealedProbe::peek_key_id(data) {
            let id = KeyId(named);
            let session = self.probe_session(id);
            let found = match &session {
                Some((_, key)) => SealedProbe::open(data, &key.key),
                None => None,
            };
            let opened = match &found {
                Some(probe) => Some((probe.kind, Nonce(probe.nonce))),
                None => None,
            };
            proof {
                assert forall|probe: SealedProbe, key: Seq<u8>| #[trigger]
                    seals(data@, key, probe) implies probe.key_id == named by {
                    assert(data@.subrange(0, 29).subrange(5, 13) =~= data@.subrange(5, 13));
                    assert(sealed_body(probe).subrange(5, 13) =~= probe.key_id@);
                    assert(probe.key_id =~= named);
                }
                if let Some(probe) = found {
                    assert(probe_counts(self@, data@, probe));
                }
            }
            return self.hear_probe(id, opened, from, now);
        }
        if data.len() == REFLECT_REPLY_BYTES && bytes_eq(
            slice_subrange(data, 0, 4),
            &REFLECT_MAGIC,
        ) {
            self.hear_reflection(data);
            return Heard::Silence;
        }
        match self.direct_inbound(from) {
            Some(peer) => Heard::From(peer),
            None => Heard::Silence,
        }
    }

    /// Where a datagram of `length` bytes to a synthetic address goes: to the proved
    /// address while the proof is fresh, else through the relay.
    pub fn route(&self, destination: SocketAddr, length: usize, now: u64) -> (r: Route)
        requires
            self.well_formed(),
        ensures
            r == routed(self@, destination, length, now),
    {
        if length > MAX_DATAGRAM {
            return Route::TooLarge;
        }
        match self.peer_for_synthetic(destination) {
            None => Route::Nobody,
            Some(peer) => {
                let proven = self.proven_direct(peer);
                if is_fresh(&proven, now) {
                    match proven {
                        Some(proven) => Route::Direct(proven.addr),
                        None => Route::Relay(peer),
                    }
                } else {
                    Route::Relay(peer)
                }
            },
        }
    }

    /// Ask the reflector under a fresh nonce: the request to send.
    pub fn query_reflector(&mut self) -> (r: [u8; 21])
        requires
            old(self).well_formed(),
        ensures
            final(self).well_formed(),
            final(self)@.reflector_nonce matches Some(nonce) && r@ == reflect_request_bytes(
                nonce.0@,
            ),
            final(self)@ == (PathsView {
                reflector_nonce: final(self)@.reflector_nonce,
                ..old(self)@
            }),
    {
        let mut bytes = [0u8; 16];
        fill_random(&mut bytes);
        self.await_reflection(Nonce(bytes));
        reflect_request(&bytes)
    }

    /// Only a reply that echoes `nonce` counts from now on.
    pub fn await_reflection(&mut self, nonce: Nonce)
        requires
            old(self).well_formed(),
        ensures
            final(self).well_formed(),
            final(self)@ == (PathsView { reflector_nonce: Some(nonce), ..old(self)@ }),
    {
        self.reflector_nonce = Some(nonce);
    }

    /// Take a reflector reply in.  Only the reply to this node's own outstanding
    /// request counts; anything else could plant a false address.
    pub fn hear_reflection(&mut self, data: &[u8])
        requires
            old(self).well_formed(),
        ensures
            final(self).well_formed(),
            reflection_heard(old(self)@, final(self)@, data@),
    {
        if let Some((nonce, observed)) = parse_reflect_reply(data) {
            let matched = match &self.reflector_nonce {
                Some(expected) => expected.same(&Nonce(nonce)),
                None => false,
            };
            proof {
                if !matched {
                    assert forall|other: [u8; 16], seen: SocketAddr|
                        !reflected(self@, data@, other, seen) by {
                        if reflected(self@, data@, other, seen) {
                            let a = reflect_reply_bytes(
                                nonce@,
                                mapped_octets(observed.ip),
                                observed.port,
                            );
                            let b = reflect_reply_bytes(
                                other@,
                                mapped_octets(seen.ip),
                                seen.port,
                            );
                            assert(a.subrange(5, 21) =~= nonce@);
                            assert(b.subrange(5, 21) =~= other@);
                            assert(nonce =~= other);
                        }
                    }
                }
            }
            if matched {
                assert(reflected(self@, data@, nonce, observed));
                self.reflector_nonce = None;
                self.reflexive = Some(unmap_ipv6(observed));
            }
        }
    }

    /// What the reflector saw.
    pub fn reflexive(&self) -> (r: Option<SocketAddr>)
        ensures
            r == self@.reflexive,
    {
        self.reflexive
    }

    /// The candidates of this side: the bound address, or every given address when
    /// the socket is bound to none, and then what the reflector saw.
    pub fn local_candidates(&self, addresses: &Vec<IpAddr>) -> (r: Vec<SocketAddr>)
        ensures
            r@ == offered_candidates(self@, addresses@),
    {
        let mut out: Vec<SocketAddr> = Vec::new();
        if self.udp_local.ip.is_unspecified() {
            let port: u16 = self.udp_local.port;
            let mut i: usize = 0;
            while i < addresses.len()
                invariant
                    i <= addresses.len(),
                    out@.len() == i,
                    forall|k: int|
                        0 <= k < i ==> out@[k] == plain_addr(addresses@[k], port),
                decreases addresses.len() - i,
            {
                out.push(SocketAddr::new(addresses[i], port));
                i += 1;
            }
        } else {
            out.push(self.udp_local);
        }
        assert(out@ =~= bound_candidates(self@.udp_local, addresses@));
        if let Some(addr) = self.reflexive {
            if !lists(&out, &addr) {
                out.push(addr);
            }
        }
        out
    }
}

/// Whether `data` is the reply to the outstanding request.
pub open spec fn reflected(
    paths: PathsView,
    data: Seq<u8>,
    nonce: [u8; 16],
    observed: SocketAddr,
) -> bool {
    &&& paths.reflector_nonce == Some(Nonce(nonce))
    &&& data == reflect_reply_bytes(nonce@, mapped_octets(observed.ip), observed.port)
    &&& observed.ip is V6
    &&& observed.flowinfo == 0
    &&& observed.scope_id == 0
}

/// Where a datagram goes.
pub open spec fn routed(
    paths: PathsView,
    destination: SocketAddr,
    length: usize,
    now: u64,
) -> Route {
    if length > MAX_DATAGRAM {
        Route::TooLarge
    } else if !paths.by_synthetic.contains_key(destination) {
        Route::Nobody
    } else {
        let peer = paths.by_synthetic[destination];
        let direct = peer_of(paths, peer).direct;
        if fresh(direct, now) {
            Route::Direct(direct->0.addr)
        } else {
            Route::Relay(peer)
        }
    }
}

/// The candidates of a socket without a reflector.
pub open spec fn bound_candidates(local: SocketAddr, addresses: Seq<IpAddr>) -> Seq<SocketAddr> {
    if unspecified(local.ip) {
        addresses.map_values(|ip: IpAddr| plain_addr(ip, local.port))
    } else {
        seq![local]
    }
}

/// The candidates of this side.
pub open spec fn offered_candidates(paths: PathsView, addresses: Seq<IpAddr>) -> Seq<SocketAddr> {
    let bound = bound_candidates(paths.udp_local, addresses);
    match paths.reflexive {
        Some(addr) if !bound.contains(addr) => bound.push(addr),
        _ => bound,
    }
}

// ---------------------------------------------------------------------------
// Local addresses
// ---------------------------------------------------------------------------
/// Whether an interface address is worth offering to a peer of the given family.
/// A link-local address is not: IPv6 needs a scope that the wire cannot carry, and
/// IPv4 means that no address was assigned.
pub open spec fn offerable(ip: IpAddr, v4: bool) -> bool {
    (ip is V4) == v4 && !loopback(ip) && !unspecified(ip) && !link_local(ip)
}

/// The addresses before the bound: the address of the default route, if it is of
/// the family, then each interface address that is worth offering, once each.
pub open spec fn offered(v4: bool, routed: Option<IpAddr>, interfaces: Seq<IpAddr>) -> Seq<IpAddr>
    decreases interfaces.len(),
{
    if interfaces.len() == 0 {
        match routed {
            Some(ip) if (ip is V4) == v4 => seq![ip],
            _ => Seq::empty(),
        }
    } else {
        let before = offered(v4, routed, interfaces.drop_last());
        let ip = interfaces.last();
        if offerable(ip, v4) && !before.contains(ip) {
            before.push(ip)
        } else {
            before
        }
    }
}

/// The loopback address of a family.
pub open spec fn home_octets(v4: bool) -> Seq<u8> {
    if v4 {
        seq![127u8, 0u8, 0u8, 1u8]
    } else {
        Seq::new(15, |i: int| 0u8).push(1u8)
    }
}

/// Whether `ip` is the loopback address of a family.
pub open spec fn is_home(ip: IpAddr, v4: bool) -> bool {
    match ip {
        IpAddr::V4(octets) => v4 && octets@ == home_octets(true),
        IpAddr::V6(octets) => !v4 && octets@ == home_octets(false),
    }
}

/// The first addresses of a list, up to the bound that leaves room for loopback.
pub open spec fn bounded(list: Seq<IpAddr>) -> Seq<IpAddr> {
    if list.len() <= MAX_LOCAL_CANDIDATES - 1 {
        list
    } else {
        list.take(MAX_LOCAL_CANDIDATES - 1)
    }
}

fn holds(list: &Vec<IpAddr>, ip: &IpAddr) -> (r: bool)
    ensures
        r == list@.contains(*ip),
{
    let mut i: usize = 0;
    while i < list.len()
        invariant
            i <= list.len(),
            forall|k: int| 0 <= k < i ==> list@[k] != *ip,
        decreases list.len() - i,
    {
        if list[i].same(ip) {
            assert(list@[i as int] == *ip);
            return true;
        }
        i += 1;
    }
    false
}

/// Every address that a peer might reach this host on: the address of the default
/// route first, then every other interface of the family, loopback last so that a
/// peer on the same host still works.
pub fn local_addresses(v4: bool, routed: Option<IpAddr>, interfaces: &Vec<IpAddr>) -> (r: Vec<
    IpAddr,
>)
    ensures
        r@.len() <= MAX_LOCAL_CANDIDATES,
        ({
            let first = bounded(offered(v4, routed, interfaces@));
            exists|home: IpAddr| #[trigger]
                is_home(home, v4) && r@ == (if first.contains(home) {
                    first
                } else {
                    first.push(home)
                })
        }),
{
    let mut out: Vec<IpAddr> = Vec::new();
    if let Some(ip) = routed {
        if ip.is_ipv4() == v4 {
            out.push(ip);
        }
    }
    let mut i: usize = 0;
    assert(interfaces@.take(0) =~= Seq::<IpAddr>::empty());
    assert(out@ =~= offered(v4, routed, interfaces@.take(0)));
    while i < interfaces.len()
        invariant
            i <= interfaces.len(),
            out@ == offered(v4, routed, interfaces@.take(i as int)),
        decreases interfaces.len() - i,
    {
        let ip = interfaces[i];
        assert(interfaces@.take(i + 1).drop_last() =~= interfaces@.take(i as int));
        if ip.is_ipv4() == v4 && !ip.is_loopback() && !ip.is_unspecified() && !ip.is_link_local()
            && !holds(&out, &ip) {
            out.push(ip);
        }
        i += 1;
    }
    assert(interfaces@.take(i as int) =~= interfaces@);
    if out.len() > MAX_LOCAL_CANDIDATES - 1 {
        out.truncate(MAX_LOCAL_CANDIDATES - 1);
    }
    assert(out@ =~= bounded(offered(v4, routed, interfaces@)));
    let home = if v4 {
        let octets = [127u8, 0, 0, 1];
        assert(octets@ =~= home_octets(true));
        IpAddr::V4(octets)
    } else {
        let octets = [0u8, 0, 0, 0, 0, 0, 0, 0, 0, 0, 0, 0, 0, 0, 0, 1];
        assert(octets@ =~= home_octets(false));
        IpAddr::V6(octets)
    };
    assert(is_home(home, v4));
    if !holds(&out, &home) {
        out.push(home);
    }
    out
}

/// Every address that is offered is of one family, and none is link-local but the
/// one the default route uses.
pub proof fn law_offers_are_of_one_family(v4: bool, routed: Option<IpAddr>, interfaces: Seq<IpAddr>)
    ensures
        forall|i: int|
            0 <= i < offered(v4, routed, interfaces).len() ==> {
                let ip = #[trigger] offered(v4, routed, interfaces)[i];
                &&& (ip is V4) == v4
                &&& Some(ip) == routed || offerable(ip, v4)
            },
    decreases interfaces.len(),
{
    if interfaces.len() > 0 {
        law_offers_are_of_one_family(v4, routed, interfaces.drop_last());
    }
}

/// Every interface address that is worth offering is offered, up to the bound.
pub proof fn law_every_routable_address_is_offered(
    v4: bool,
    routed: Option<IpAddr>,
    interfaces: Seq<IpAddr>,
    ip: IpAddr,
)
    requires
        interfaces.contains(ip),
        offerable(ip, v4),
    ensures
        offered(v4, routed, interfaces).contains(ip),
        offered(v4, routed, interfaces).len() <= MAX_LOCAL_CANDIDATES - 1 ==> bounded(
            offered(v4, routed, interfaces),
        ).contains(ip),
    decreases interfaces.len(),
{
    let before = offered(v4, routed, interfaces.drop_last());
    let all = offered(v4, routed, interfaces);
    let at = choose|k: int| 0 <= k < interfaces.len() && interfaces[k] == ip;
    if interfaces.last() == ip {
        if !before.contains(ip) {
            assert(all[before.len() as int] == ip);
        }
    } else {
        assert(interfaces.drop_last()[at] == ip);
        law_every_routable_address_is_offered(v4, routed, interfaces.drop_last(), ip);
        let k = choose|k: int| 0 <= k < before.len() && before[k] == ip;
        assert(all[k] == ip);
    }
}

// ---------------------------------------------------------------------------
// What holds of every path socket
// ---------------------------------------------------------------------------
/// Only an answer to a nonce that this side issued proves an address, and a nonce
/// proves once: the same pong again changes nothing.
pub proof fn law_a_pong_proves_once(
    paths: PathsView,
    peer: NodeId,
    nonce: Nonce,
    from: SocketAddr,
    again: SocketAddr,
    now: u64,
    later: u64,
)
    ensures
        ({
            let after = pong_heard(paths, peer, nonce, from, now);
            &&& !peer_of(paths, peer).pending.contains_key(nonce) ==> after == paths
            &&& pong_heard(after, peer, nonce, again, later) == after
        }),
{
}

/// A replayed ping is answered once per interval: for a second after an answer the
/// same address gets no other.
pub proof fn law_a_replayed_ping_is_answered_once(
    peer: PeerView,
    from: SocketAddr,
    now: u64,
    later: u64,
)
    requires
        answers(peer, from, now),
        now <= later,
        later - now < PONG_INTERVAL,
    ensures
        !answers(ping_heard(peer, from, now), from, later),
{
}

/// An address that was learnt from a ping and does not prove is forgotten: once
/// its time has passed it is no target, unless the peer lists it.
pub proof fn law_a_learnt_address_expires(
    peer: PeerView,
    from: SocketAddr,
    now: u64,
    later: u64,
)
    requires
        !peer.candidates.contains(from),
        now <= later,
    ensures
        now == later ==> is_target(ping_heard(peer, from, now), from, later),
        later - now >= LEARNED_TTL ==> !is_target(ping_heard(peer, from, now), from, later),
{
}

/// A datagram that is no probe of a live session, that answers no request of this node
/// and that comes from an address nobody proved leaves no trace.
pub proof fn law_a_stranger_leaves_no_trace(
    before: PathsView,
    after: PathsView,
    data: Seq<u8>,
    from: SocketAddr,
    now: u64,
    r: Heard,
)
    requires
        datagram_heard(before, after, data, from, now, r),
        forall|probe: SealedProbe| !#[trigger] probe_counts(before, data, probe),
        forall|nonce: [u8; 16], observed: SocketAddr| !reflected(before, data, nonce, observed),
        !before.by_direct.contains_key(from),
    ensures
        after == before,
        r == Heard::Silence,
{
}

/// Once a session's probe key is forgotten, or the session is superseded or has ended,
/// nothing that names its key counts, however it is sealed: a replayed ping earns
/// nothing.
pub proof fn law_an_ended_session_is_not_answered(
    paths: PathsView,
    peer: NodeId,
    key: ProbeKey,
    session: u64,
    data: Seq<u8>,
    probe: SealedProbe,
)
    requires
        peer_of(paths, peer).probe_key == Some(key),
        peer_of(paths, peer).session == Some(session),
        probe.key_id == key.id.0,
    ensures
        !probe_counts(key_unregistered(paths, key.id), data, probe),
        !probe_counts(session_begun(paths, peer), data, probe),
        !probe_counts(session_ended(paths, peer, session), data, probe),
        forall|next: ProbeKey|
            next.id != key.id ==> !probe_counts(
                #[trigger] key_registered(paths, peer, next),
                data,
                probe,
            ),
{
}

/// A new session starts with clean path state: nothing of an earlier session, not
/// even a fresh proof, routes its packets.
pub proof fn law_a_session_starts_clean(paths: PathsView, peer: NodeId, length: usize, now: u64)
    requires
        paths.by_synthetic.contains_key(synthetic(peer)),
        paths.by_synthetic[synthetic(peer)] == peer,
        length <= MAX_DATAGRAM,
    ensures
        routed(session_begun(paths, peer), synthetic(peer), length, now) == Route::Relay(peer),
        peer_of(session_begun(paths, peer), peer).probe_key is None,
        peer_of(session_begun(paths, peer), peer).candidates.len() == 0,
        peer_of(session_begun(paths, peer), peer).pending == Map::<Nonce, Pending>::empty(),
{
}

/// A session that was superseded takes nothing with it when it ends.
pub proof fn law_an_old_session_ends_without_a_trace(
    paths: PathsView,
    peer: NodeId,
    session: u64,
)
    requires
        peer_of(paths, peer).session == Some(session),
        paths.next_session != session,
    ensures
        session_ended(session_begun(paths, peer), peer, session) == session_begun(paths, peer),
{
}

} // verus!
