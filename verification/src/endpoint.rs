//! The endpoint: what it signs, whom it dials, and whom it accepts.
use crate::card::{
    card_signature, claim_fault, hint_views, self_signed, signed_card, udp_value, Card, CardView,
    Hint, HintView, VerifyContext, HINT_RELAY, HINT_UDP, MAX_HINTS, MAX_LIFETIME_SECONDS,
};
use crate::crypto::neutral_nonce;
use crate::id::{NodeId, TransportKey};
use crate::net::{IpAddr, SocketAddr};
use crate::path::FailReason;
use crate::relay_client::{RelaySpec, RelayStatus, RelayStatusView};
use crate::rendezvous_book::{
    bumped, pruned, BookView, LiveView, PairingRegistration, RendezvousPeer, TagBook,
};
use crate::text::write_text;
use vstd::prelude::*;
use vstd::string::*;
use vstd::utf8::*;

verus! {

/// Cap the MTU so that a QUIC packet always fits the relay's frame bound.
pub const MAX_MTU: u16 = 1350;

/// The protocol of pinned sessions: `fsl/0`.
pub const ALPN: [u8; 5] = [0x66, 0x73, 0x6c, 0x2f, 0x30];

/// The protocol of a bounded first-contact session: `fsl-pair/0`.
pub const PAIRING_ALPN: [u8; 10] = [
    0x66, 0x73, 0x6c, 0x2d, 0x70, 0x61, 0x69, 0x72, 0x2f, 0x30,
];

/// The longest first-contact registration, in milliseconds.
pub const MAX_PAIRING_LIFETIME: u64 = 600_000;

/// The longest first-contact session, in milliseconds.
pub const MAX_PAIRING_SESSION_LIFETIME: u64 = 60_000;

/// What a stream may buffer.
pub const STREAM_RECEIVE_WINDOW: u64 = 0x10_0000;

/// What a connection may buffer.
pub const CONNECTION_RECEIVE_WINDOW: u64 = 0x40_0000;

/// Why a first-contact registration is refused.
#[derive(Clone, Copy, Debug, PartialEq, Eq, Structural)]
pub enum PairingError {
    TagModeRequired,
    Lifetime,
}

/// The words for a refusal.
pub open spec fn pairing_words(error: PairingError) -> Seq<char> {
    match error {
        PairingError::TagModeRequired => "pairing rendezvous requires tag mode"@,
        PairingError::Lifetime => "pairing registration lifetime must be between 1s and 600s"@,
    }
}

impl PairingError {
    /// The words for this refusal.
    pub fn words(&self) -> (r: &'static str)
        ensures
            r@ == pairing_words(*self),
    {
        match self {
            PairingError::TagModeRequired => "pairing rendezvous requires tag mode",
            PairingError::Lifetime => "pairing registration lifetime must be between 1s and 600s",
        }
    }
}

impl core::fmt::Display for PairingError {
    fn fmt(&self, f: &mut core::fmt::Formatter<'_>) -> core::fmt::Result {
        write_text(f, self.words())
    }
}

/// How an endpoint is set up.  Times are milliseconds.
#[derive(Clone, Debug)]
pub struct EndpointConfig {
    pub key: TransportKey,
    /// The highest card serial this key has already signed; `None` is for a new
    /// key.
    pub serial_seed: Option<u64>,
    pub relays: Vec<RelaySpec>,
    /// Owner consent for direct paths.
    pub allow_direct: bool,
    /// Where direct paths and probes are bound.
    pub bind: SocketAddr,
    pub reflector: Option<SocketAddr>,
    /// How often the interfaces are polled for a change; zero disables the poll.
    pub net_poll: u64,
    /// How long to settle on the relay before the first probing round.
    pub probe_delay: u64,
    /// The longest wait for a relay welcome.
    pub rendezvous_timeout: u64,
    /// Tag-mode material for each peer; `None` is identity mode.
    pub rendezvous: Option<Vec<(NodeId, RendezvousPeer)>>,
}

impl EndpointConfig {
    /// The defaults for a key: no relays, direct paths allowed, any address and
    /// port, identity mode.
    pub fn new(key: TransportKey) -> (r: Self)
        ensures
            r.key == key,
            r.serial_seed is None,
            r.relays@.len() == 0,
            r.allow_direct,
            r.bind.ip matches IpAddr::V4(octets) && octets@ == seq![0u8, 0u8, 0u8, 0u8],
            r.bind.port == 0,
            r.bind.flowinfo == 0,
            r.bind.scope_id == 0,
            r.reflector is None,
            r.net_poll == 5_000,
            r.probe_delay == 0,
            r.rendezvous_timeout == 30_000,
            r.rendezvous is None,
    {
        let any = [0u8, 0, 0, 0];
        assert(any@ =~= seq![0u8, 0u8, 0u8, 0u8]);
        EndpointConfig {
            key,
            serial_seed: None,
            relays: Vec::new(),
            allow_direct: true,
            bind: SocketAddr::new(IpAddr::V4(any), 0),
            reflector: None,
            net_poll: 5_000,
            probe_delay: 0,
            rendezvous_timeout: 30_000,
            rendezvous: None,
        }
    }
}

// ---------------------------------------------------------------------------
// Cards
// ---------------------------------------------------------------------------
/// The last card serial that was signed.
#[derive(Debug)]
pub struct SerialRatchet {
    last: u64,
}

/// The serial after `last`: above it, and no less than the clock.
pub open spec fn next_serial(last: u64, now: u64) -> u64 {
    let above = if last == u64::MAX {
        u64::MAX
    } else {
        (last + 1) as u64
    };
    if above >= now {
        above
    } else {
        now
    }
}

impl SerialRatchet {
    /// The last serial.
    pub closed spec fn spec_last(self) -> u64 {
        self.last
    }

    /// Start from what the key has signed and from the clock, whichever is higher;
    /// `None` when no serial is left.
    pub fn open(serial_seed: Option<u64>, now: u64) -> (r: Option<Self>)
        ensures
            r is None <==> serial_seed == Some(u64::MAX),
            r matches Some(ratchet) ==> ratchet.spec_last() >= now && (match serial_seed {
                Some(seed) => ratchet.spec_last() >= seed && (ratchet.spec_last() == seed
                    || ratchet.spec_last() == now),
                None => ratchet.spec_last() == now,
            }),
    {
        let seed: u64 = match serial_seed {
            Some(seed) => seed,
            None => 0,
        };
        if seed == u64::MAX {
            return None;
        }
        Some(
            SerialRatchet {
                last: if seed >= now {
                    seed
                } else {
                    now
                },
            },
        )
    }

    /// The next serial: increasing across clock movement and restarts.
    pub fn next(&mut self, now: u64) -> (r: u64)
        ensures
            r == next_serial(old(self).spec_last(), now),
            final(self).spec_last() == r,
    {
        let above: u64 = if self.last == u64::MAX {
            u64::MAX
        } else {
            self.last + 1
        };
        self.last = if above >= now {
            above
        } else {
            now
        };
        self.last
    }
}

/// Serials increase strictly until the last one.
pub proof fn law_serials_increase(last: u64, now: u64)
    requires
        last < u64::MAX,
    ensures
        next_serial(last, now) > last,
        next_serial(last, now) >= now,
{
}

/// The hints for the endpoint's own relays, in order.
pub open spec fn relay_hints(relays: Seq<RelaySpec>) -> Seq<HintView> {
    relays.map_values(
        |relay: RelaySpec| HintView { kind: HINT_RELAY, value: encode_utf8(relay.url@) },
    )
}

/// The hints for the endpoint's own addresses, in order.
pub open spec fn udp_hints(addrs: Seq<SocketAddr>) -> Seq<HintView> {
    addrs.map_values(|addr: SocketAddr| HintView { kind: HINT_UDP, value: udp_value(addr) })
}

/// The first `bound` hints.
pub open spec fn first_hints(hints: Seq<HintView>, bound: int) -> Seq<HintView> {
    if hints.len() <= bound {
        hints
    } else {
        hints.take(bound)
    }
}

/// The hints of a card: the caller's own are kept, and the endpoint's relays and
/// then its addresses fill the space that remains.
pub open spec fn chosen_hints(
    relays: Seq<RelaySpec>,
    addrs: Seq<SocketAddr>,
    allow_direct: bool,
    extra: Seq<HintView>,
) -> Seq<HintView> {
    let kept = first_hints(extra, MAX_HINTS as int);
    let own = if allow_direct {
        relay_hints(relays) + udp_hints(addrs)
    } else {
        relay_hints(relays)
    };
    first_hints(own, MAX_HINTS - kept.len()) + kept
}

/// The lifetime of a card: at least a second, at most seven days.
pub open spec fn card_lifetime(ttl: u64) -> u64 {
    if ttl < 1 {
        1
    } else if ttl > MAX_LIFETIME_SECONDS {
        MAX_LIFETIME_SECONDS
    } else {
        ttl
    }
}

fn truncate_hints(hints: &mut Vec<Hint>, bound: usize)
    ensures
        hint_views(final(hints)@) == first_hints(hint_views(old(hints)@), bound as int),
{
    if hints.len() > bound {
        hints.truncate(bound);
    }
    assert(hint_views(hints@) =~= first_hints(hint_views(old(hints)@), bound as int));
}

/// The hints of a card.
pub fn card_hints(
    relays: &Vec<RelaySpec>,
    addrs: &Vec<SocketAddr>,
    allow_direct: bool,
    extra: Vec<Hint>,
) -> (r: Vec<Hint>)
    ensures
        hint_views(r@) == chosen_hints(relays@, addrs@, allow_direct, hint_views(extra@)),
        r@.len() <= MAX_HINTS,
{
    let mut hints: Vec<Hint> = Vec::new();
    let mut i: usize = 0;
    while i < relays.len()
        invariant
            i <= relays.len(),
            hint_views(hints@) == relay_hints(relays@).take(i as int),
        decreases relays.len() - i,
    {
        let ghost before = hint_views(hints@);
        let hint = Hint::relay(relays[i].url.as_str());
        hints.push(hint);
        proof {
            assert(hint@ == relay_hints(relays@)[i as int]);
            assert(hint_views(hints@) =~= before.push(hint@));
            assert(relay_hints(relays@).take(i + 1) =~= before.push(hint@));
        }
        i += 1;
    }
    assert(relay_hints(relays@).take(i as int) =~= relay_hints(relays@));
    if allow_direct {
        let ghost base = hint_views(hints@);
        let mut j: usize = 0;
        assert(hint_views(hints@) =~= base + udp_hints(addrs@).take(0));
        while j < addrs.len()
            invariant
                j <= addrs.len(),
                hint_views(hints@) == base + udp_hints(addrs@).take(j as int),
            decreases addrs.len() - j,
        {
            let ghost before = hint_views(hints@);
            let hint = Hint::udp(addrs[j]);
            hints.push(hint);
            proof {
                assert(hint@ == udp_hints(addrs@)[j as int]);
                assert(hint_views(hints@) =~= before.push(hint@));
                assert(hint_views(hints@) =~= base + udp_hints(addrs@).take(j + 1));
            }
            j += 1;
        }
        assert(udp_hints(addrs@).take(j as int) =~= udp_hints(addrs@));
    }
    let mut extra = extra;
    truncate_hints(&mut extra, MAX_HINTS);
    let ghost kept = hint_views(extra@);
    assert(kept.len() == extra@.len());
    truncate_hints(&mut hints, MAX_HINTS - extra.len());
    let ghost own = hint_views(hints@);
    assert(own.len() == hints@.len());
    hints.append(&mut extra);
    assert(hint_views(hints@) =~= own + kept);
    hints
}

/// The card that is signed at `now`, after a card with serial `last`.
pub open spec fn next_card(
    seed: Seq<u8>,
    node_id: NodeId,
    hints: Seq<HintView>,
    ttl: u64,
    last: u64,
    now: u64,
) -> CardView {
    signed_card(
        seed,
        node_id,
        now,
        (now + card_lifetime(ttl)) as u64,
        next_serial(last, now),
        hints,
    )
}

/// Sign a fresh card.  Address hints appear only with owner consent, and the
/// caller's extra hints are not crowded out.  The caller keeps the serial before
/// it hands the card on.
pub fn sign_card(
    key: &TransportKey,
    ratchet: &mut SerialRatchet,
    hints: Vec<Hint>,
    ttl: u64,
    now: u64,
) -> (r: Card)
    requires
        now + card_lifetime(ttl) <= u64::MAX,
    ensures
        r.well_formed(),
        r@ == next_card(
            key.spec_seed(),
            key.id(),
            hint_views(hints@),
            ttl,
            old(ratchet).spec_last(),
            now,
        ),
        final(ratchet).spec_last() == r@.serial,
        !neutral_nonce(card_signature(r@.raw)) ==> self_signed(r@.raw),
{
    let lifetime: u64 = if ttl < 1 {
        1
    } else if ttl > MAX_LIFETIME_SECONDS {
        MAX_LIFETIME_SECONDS
    } else {
        ttl
    };
    let serial: u64 = ratchet.next(now);
    Card::sign(key, now, now + lifetime, serial, hints)
}

/// A peer that holds the previous card accepts the next one at the time it is
/// signed, as far as its dates, its serial and its identity go.
pub proof fn law_next_card_is_accepted(
    seed: Seq<u8>,
    node_id: NodeId,
    hints: Seq<HintView>,
    ttl: u64,
    last: u64,
    now: u64,
)
    requires
        last < u64::MAX,
        now + card_lifetime(ttl) <= u64::MAX,
    ensures
        claim_fault(
            next_card(seed, node_id, hints, ttl, last, now),
            VerifyContext { now, highest_seen_serial: last, expected_node_id: Some(node_id) },
            true,
        ) is None,
{
}

/// The caller's hints, the first sixteen of them where there are more, end the card
/// whatever the endpoint would add; and a card has at most sixteen hints.
pub proof fn law_extra_hints_survive(
    relays: Seq<RelaySpec>,
    addrs: Seq<SocketAddr>,
    allow_direct: bool,
    extra: Seq<HintView>,
)
    ensures
        ({
            let all = chosen_hints(relays, addrs, allow_direct, extra);
            let kept: int = if extra.len() < MAX_HINTS {
                extra.len() as int
            } else {
                MAX_HINTS as int
            };
            &&& kept <= all.len() <= MAX_HINTS
            &&& all.skip(all.len() - kept) == extra.take(kept)
        }),
{
    let all = chosen_hints(relays, addrs, allow_direct, extra);
    let kept: int = if extra.len() < MAX_HINTS {
        extra.len() as int
    } else {
        MAX_HINTS as int
    };
    assert(all.skip(all.len() - kept) =~= extra.take(kept));
}

// ---------------------------------------------------------------------------
// First contact
// ---------------------------------------------------------------------------
/// What a registration of `lifetime` milliseconds is told.
pub open spec fn pairing_fault(tag_mode: bool, lifetime: u64) -> Option<PairingError> {
    if lifetime < 1_000 || lifetime > MAX_PAIRING_LIFETIME {
        Some(PairingError::Lifetime)
    } else if !tag_mode {
        Some(PairingError::TagModeRequired)
    } else {
        None
    }
}

/// When a registration ends: whole seconds from now, or the end of time.
pub open spec fn pairing_expiry(now_unix: u64, lifetime: u64) -> u64 {
    if now_unix + lifetime / 1_000 > u64::MAX {
        u64::MAX
    } else {
        (now_unix + lifetime / 1_000) as u64
    }
}

/// Whether a first-contact registration is allowed, and when it ends.
pub fn pairing_expires(tag_mode: bool, lifetime: u64, now_unix: u64) -> (r: Result<
    u64,
    PairingError,
>)
    ensures
        match r {
            Ok(expires_at) => pairing_fault(tag_mode, lifetime) is None && expires_at
                == pairing_expiry(now_unix, lifetime),
            Err(error) => pairing_fault(tag_mode, lifetime) == Some(error),
        },
{
    if lifetime < 1_000 || lifetime > MAX_PAIRING_LIFETIME {
        return Err(PairingError::Lifetime);
    }
    if !tag_mode {
        return Err(PairingError::TagModeRequired);
    }
    Ok(pairing_end(now_unix, lifetime))
}

/// When a first contact that starts now and lasts `lifetime` milliseconds ends.
pub fn pairing_end(now_unix: u64, lifetime: u64) -> (r: u64)
    ensures
        r == pairing_expiry(now_unix, lifetime),
{
    let seconds: u64 = lifetime / 1_000;
    if now_unix > u64::MAX - seconds {
        u64::MAX
    } else {
        now_unix + seconds
    }
}

/// The exported secret takes over the routing of a first-contact session: without
/// one the relay is at fault, without an active admission the rendezvous is.
pub fn promote_pairing_route(
    book: &mut TagBook,
    route: NodeId,
    exported: Option<[u8; 16]>,
    generation: u64,
    now_unix: u64,
) -> (r: Result<u64, FailReason>)
    requires
        old(book).well_formed(),
    ensures
        final(book).well_formed(),
        match exported {
            None => r == Err::<u64, _>(FailReason::Relay) && final(book)@ == old(book)@,
            Some(secret) => {
                let active = pruned(old(book)@, now_unix);
                if active.pairing.contains_key(route) {
                    r == Ok::<_, FailReason>(generation) && final(book)@ == bumped(
                        BookView {
                            live: old(book)@.live.insert(
                                route,
                                LiveView { secret: secret@, generation },
                            ),
                            ..active
                        },
                    )
                } else {
                    r == Err::<u64, _>(FailReason::Rendezvous) && final(book)@ == active
                }
            },
        },
{
    match exported {
        None => Err(FailReason::Relay),
        Some(secret) => {
            if book.promote_pairing(route, secret, generation, now_unix) {
                Ok(generation)
            } else {
                Err(FailReason::Rendezvous)
            }
        },
    }
}

/// The one application stream of a first-contact session.
#[derive(Clone, Copy, Debug, PartialEq, Eq, Structural)]
pub struct OneStream {
    pub used: bool,
}

impl OneStream {
    /// No stream was taken.
    pub fn new() -> (r: Self)
        ensures
            !r.used,
    {
        OneStream { used: false }
    }

    /// Take the stream; the second time there is none.
    pub fn take(&mut self) -> (r: bool)
        ensures
            r == !old(self).used,
            final(self).used,
    {
        let first = !self.used;
        self.used = true;
        first
    }
}

// ---------------------------------------------------------------------------
// Dialling
// ---------------------------------------------------------------------------
/// What a relay status means for a dial.
pub open spec fn rendezvous_outcome(status: RelayStatusView) -> Option<Result<
    Seq<char>,
    FailReason,
>> {
    match status {
        RelayStatusView::Up(url) => Some(Ok(url)),
        RelayStatusView::Superseded => Some(Err(FailReason::Superseded)),
        RelayStatusView::Failed => Some(Err(FailReason::Relay)),
        _ => None,
    }
}

/// Whether a dial can go on, has failed, or waits for the relay.
pub fn rendezvous(status: &RelayStatus) -> (r: Option<Result<String, FailReason>>)
    ensures
        match (r, rendezvous_outcome(status@)) {
            (Some(Ok(url)), Some(Ok(text))) => url@ == text,
            (Some(Err(a)), Some(Err(b))) => a == b,
            (None, None) => true,
            _ => false,
        },
{
    match status {
        RelayStatus::Up(url) => Some(Ok(url.clone())),
        RelayStatus::Superseded => Some(Err(FailReason::Superseded)),
        RelayStatus::Failed => Some(Err(FailReason::Relay)),
        _ => None,
    }
}

/// Why a wait that gave up failed, by the status it ended with.
pub fn rendezvous_lost(status: &RelayStatus) -> (r: FailReason)
    ensures
        r == if status@ is Superseded {
            FailReason::Superseded
        } else {
            FailReason::Relay
        },
{
    match status {
        RelayStatus::Superseded => FailReason::Superseded,
        _ => FailReason::Relay,
    }
}

/// Why a dial to `peer` is refused before it starts: a node does not dial itself,
/// and in tag mode it has nothing to dial a stranger by.
pub fn connect_refusal(own: NodeId, peer: NodeId, known: Option<bool>) -> (r: Option<FailReason>)
    ensures
        r == if peer == own {
            Some(FailReason::Identity)
        } else if known == Some(false) {
            Some(FailReason::Rendezvous)
        } else {
            None
        },
{
    if peer.same(&own) {
        return Some(FailReason::Identity);
    }
    match known {
        Some(known) => if known {
            None
        } else {
            Some(FailReason::Rendezvous)
        },
        None => None,
    }
}

/// Why a first-contact dial is refused before it starts: the registration must be of
/// this endpoint's book, which is what `ours` tells, and active in it, and its route is
/// not this node.
pub fn pairing_refusal(
    own: NodeId,
    peer: NodeId,
    registration: &PairingRegistration,
    ours: bool,
    book: &mut TagBook,
    now_unix: u64,
) -> (r: Option<FailReason>)
    requires
        old(book).well_formed(),
    ensures
        final(book).well_formed(),
        r == if peer == own {
            Some(FailReason::Identity)
        } else if !ours || now_unix >= registration.spec_expires_at() || registration.spec_route()
            == own || !pruned(old(book)@, now_unix).pairing.contains_key(registration.spec_route()) {
            Some(FailReason::Rendezvous)
        } else {
            None
        },
        final(book)@ == if peer != own && ours && now_unix < registration.spec_expires_at() {
            pruned(old(book)@, now_unix)
        } else {
            old(book)@
        },
{
    if peer.same(&own) {
        return Some(FailReason::Identity);
    }
    if !ours || !registration.is_active(book, now_unix) || registration.route().same(&own) {
        return Some(FailReason::Rendezvous);
    }
    None
}

/// How a QUIC handshake failed.
#[derive(Clone, Copy, Debug, PartialEq, Eq, Structural)]
pub enum HandshakeFault {
    TimedOut,
    /// A transport error with this code.
    Transport(u64),
    Other,
}

/// Why a handshake failed: TLS alerts arrive as codes `0x100` to `0x1ff`.
pub open spec fn handshake_reason(fault: HandshakeFault) -> FailReason {
    match fault {
        HandshakeFault::TimedOut => FailReason::Timeout,
        HandshakeFault::Transport(code) => if 0x100 <= code <= 0x1ff {
            FailReason::Identity
        } else {
            FailReason::Relay
        },
        HandshakeFault::Other => FailReason::Relay,
    }
}

/// Why a handshake failed.
pub fn classify(fault: HandshakeFault) -> (r: FailReason)
    ensures
        r == handshake_reason(fault),
{
    match fault {
        HandshakeFault::TimedOut => FailReason::Timeout,
        HandshakeFault::Transport(code) => if code >= 0x100 && code <= 0x1ff {
            FailReason::Identity
        } else {
            FailReason::Relay
        },
        HandshakeFault::Other => FailReason::Relay,
    }
}

// ---------------------------------------------------------------------------
// Accepting
// ---------------------------------------------------------------------------
/// How an inbound connection is served.
#[derive(Clone, Copy, Debug)]
pub enum AcceptPlan {
    /// Nobody is known behind its address.
    Refuse,
    /// A first-contact session: the client's key is provisional.
    Pairing(NodeId),
    /// The client must present this identity.
    Pinned(NodeId),
}

/// How an inbound connection is served: by the route behind its address, and by
/// whether the route is an active first-contact admission.
pub fn accept_plan(route: Option<NodeId>, pairing: bool) -> (r: AcceptPlan)
    ensures
        r == match route {
            None => AcceptPlan::Refuse,
            Some(route) => if pairing {
                AcceptPlan::Pairing(route)
            } else {
                AcceptPlan::Pinned(route)
            },
        },
{
    match route {
        None => AcceptPlan::Refuse,
        Some(route) => if pairing {
            AcceptPlan::Pairing(route)
        } else {
            AcceptPlan::Pinned(route)
        },
    }
}

/// What becomes of a connection whose handshake is complete.
#[derive(Clone, Copy, Debug)]
pub enum AcceptVerdict {
    /// It is closed and the endpoint goes on accepting.
    Close,
    /// It is closed and the accept fails: the certificate names another node.
    Mismatch,
    /// A pinned session with this node.
    Pinned(NodeId),
    /// A bounded first-contact session with this key.
    Provisional(NodeId),
}

/// What becomes of a connection, by the identity its handshake presented.
pub open spec fn accepted(
    own: NodeId,
    plan: AcceptPlan,
    presented: Option<NodeId>,
) -> AcceptVerdict {
    match (plan, presented) {
        (AcceptPlan::Pairing(_), Some(node)) => if node == own {
            AcceptVerdict::Close
        } else {
            AcceptVerdict::Provisional(node)
        },
        (AcceptPlan::Pinned(route), Some(node)) => if node == route {
            AcceptVerdict::Pinned(node)
        } else {
            AcceptVerdict::Mismatch
        },
        _ => AcceptVerdict::Close,
    }
}

/// What becomes of a connection, by the identity its handshake presented.
pub fn accept_verdict(own: NodeId, plan: AcceptPlan, presented: Option<NodeId>) -> (r:
    AcceptVerdict)
    ensures
        r == accepted(own, plan, presented),
{
    match (plan, presented) {
        (AcceptPlan::Pairing(_), Some(node)) => if node.same(&own) {
            AcceptVerdict::Close
        } else {
            AcceptVerdict::Provisional(node)
        },
        (AcceptPlan::Pinned(route), Some(node)) => if node.same(&route) {
            AcceptVerdict::Pinned(node)
        } else {
            AcceptVerdict::Mismatch
        },
        _ => AcceptVerdict::Close,
    }
}

/// A pinned session is with the node behind the address the packets came from, and
/// a first-contact session does not become one.
pub proof fn law_a_pinned_session_is_with_its_route(
    own: NodeId,
    plan: AcceptPlan,
    presented: Option<NodeId>,
)
    ensures
        accepted(own, plan, presented) matches AcceptVerdict::Pinned(node) ==> plan
            == AcceptPlan::Pinned(node) && presented == Some(node),
        plan is Pairing ==> accepted(own, plan, presented) !is Pinned,
        accepted(own, plan, presented) matches AcceptVerdict::Provisional(node) ==> node != own,
{
}

} // verus!
