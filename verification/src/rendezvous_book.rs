//! The endpoint's side of tag-mode rendezvous.
//!
//! The shell computes the ECDH x-coordinates from the pair's cards and keys and
//! hands them over as opaque bytes.  From that material the book derives, per
//! relay host, the tags to register (previous, current and next epoch, so clock
//! skew in either direction cannot drop a pair at an epoch boundary), the tag to
//! send with, and the peer an inbound tag belongs to.
use crate::bytes::{
    be_bytes, be_value, bytes_eq, lemma_be_round_trip, lemma_pow256_values, to_be64, write_at,
};
use crate::crypto::{fill_random, wipe};
use crate::id::NodeId;
use crate::rendezvous::{
    derive_pairing_tag, derive_tag, epoch_index, pair_ikm, pairing_ikm, tag_bytes, Tag, TagCase,
    EPOCH_SECONDS,
};
use crate::table::{has_key, lemma_map_len, lemma_pair_in_map, place, Key, Table};
use crate::text::{decimal, write_text};
use vstd::prelude::*;
use vstd::set_lib::{lemma_len_subset, lemma_len_union};
use vstd::string::*;
use vstd::utf8::*;

verus! {

/// One pair's rendezvous material, as computed by the shell from the current
/// cards.  `eph_x` is 32 zero bytes for `TagCase::Neither`.
#[derive(Clone, Copy, Debug)]
pub struct RendezvousPeer {
    pub case: TagCase,
    pub static_x: [u8; 32],
    pub eph_x: [u8; 32],
}

/// Bound on cached send tags: a roster of pairs times a few epochs.  Past it the
/// cache is simply cleared and refilled.
pub const SEND_CACHE_CAP: usize = 4096;

/// How often a fresh route is drawn before the draws give way to numbered routes.
const MAX_ROUTE_DRAWS: u32 = 64;

/// What a cached send tag is for.
#[derive(Clone, Copy)]
pub struct SendKey {
    pub peer: NodeId,
    pub epoch: u64,
}

impl Key for SendKey {
    fn same(&self, other: &Self) -> (r: bool) {
        self.peer.same(&other.peer) && self.epoch == other.epoch
    }
}

struct PairingRoute {
    secret: [u8; 16],
    expires_at: u64,
}

struct LiveRoute {
    secret: [u8; 16],
    generation: u64,
}

/// A first-contact route: its secret and when it ends.
pub struct PairingView {
    pub secret: Seq<u8>,
    pub expires_at: u64,
}

/// The route of a completed first-contact session: its exported secret and the
/// session it belongs to.
pub struct LiveView {
    pub secret: Seq<u8>,
    pub generation: u64,
}

/// A book as mathematics.
#[verifier::ext_equal]
pub struct BookView {
    /// Pairs by peer.
    pub peers: Map<NodeId, RendezvousPeer>,
    /// Short-lived first-contact routes by local route.
    pub pairing: Map<NodeId, PairingView>,
    /// Routes of completed first-contact sessions.
    pub live: Map<NodeId, LiveView>,
    /// Moves on every change.
    pub version: u64,
    /// The relay host that the cached send tags are for.
    pub host: Seq<char>,
    /// Send tags by peer and epoch.
    pub cached: Map<SendKey, Tag>,
}

/// A live pairing-tag registration.  The product keeps its own copy of the secret
/// for the end-to-end request proof; this handle never exposes it.
pub struct PairingRegistration {
    route: NodeId,
    expires_at: u64,
}

impl core::fmt::Debug for PairingRegistration {
    fn fmt(&self, f: &mut core::fmt::Formatter<'_>) -> core::fmt::Result {
        let text = "PairingRegistration { route: \"redacted\", expires_at: ".to_owned().concat(
            decimal(self.expires_at).as_str(),
        ).concat(" }");
        write_text(f, text.as_str())
    }
}

impl PairingRegistration {
    /// The local routing key.
    pub closed spec fn spec_route(self) -> NodeId {
        self.route
    }

    /// When the registration ends.
    pub closed spec fn spec_expires_at(self) -> u64 {
        self.expires_at
    }

    /// When the registration ends.
    pub fn expires_at(&self) -> (r: u64)
        ensures
            r == self.spec_expires_at(),
    {
        self.expires_at
    }

    /// The local routing key, which is never a claimed identity.
    pub fn route(&self) -> (r: NodeId)
        ensures
            r == self.spec_route(),
    {
        self.route
    }

    /// Whether the registration is inside its lifetime and still in `book`.
    pub fn is_active(&self, book: &mut TagBook, now_unix: u64) -> (r: bool)
        requires
            old(book).well_formed(),
        ensures
            final(book).well_formed(),
            r == (now_unix < self.spec_expires_at() && pruned(
                old(book)@,
                now_unix,
            ).pairing.contains_key(self.spec_route())),
            final(book)@ == if now_unix < self.spec_expires_at() {
                pruned(old(book)@, now_unix)
            } else {
                old(book)@
            },
    {
        now_unix < self.expires_at && book.pairing_active(self.route, now_unix)
    }
}

/// The input keying material of a pair.
pub open spec fn peer_ikm(material: RendezvousPeer) -> Seq<u8> {
    pair_ikm(material.case, material.static_x@, material.eph_x@)
}

/// What one material of the book is.
enum Material<'a> {
    Pair(&'a RendezvousPeer),
    Secret(&'a [u8; 16]),
}

impl<'a> Material<'a> {
    spec fn ikm(self) -> Seq<u8> {
        match self {
            Material::Pair(peer) => peer_ikm(*peer),
            Material::Secret(secret) => pairing_ikm(secret@),
        }
    }

    fn tag(&self, relay_host: &str, epoch: u64) -> (r: Tag)
        ensures
            r.0@ == tag_bytes(self.ikm(), relay_host.spec_bytes(), epoch),
    {
        match self {
            Material::Pair(peer) => derive_tag(
                peer.case,
                &peer.static_x,
                &peer.eph_x,
                relay_host,
                epoch,
            ),
            Material::Secret(secret) => derive_pairing_tag(secret, relay_host, epoch),
        }
    }
}

/// The registration window: previous, current and next epoch.
pub open spec fn epoch_window(now_unix: u64) -> Seq<u64> {
    let current = now_unix / EPOCH_SECONDS;
    if current == 0 {
        seq![current, (current + 1) as u64]
    } else {
        seq![(current - 1) as u64, current, (current + 1) as u64]
    }
}

/// The change counter moves and the cached send tags go.
pub open spec fn bumped(book: BookView) -> BookView {
    BookView {
        version: if book.version == u64::MAX {
            0
        } else {
            (book.version + 1) as u64
        },
        cached: Map::empty(),
        ..book
    }
}

/// Whether a first-contact route has ended.
pub open spec fn route_ended(book: BookView, route: NodeId, now_unix: u64) -> bool {
    book.pairing.contains_key(route) && book.pairing[route].expires_at <= now_unix
}

/// The book without the first-contact routes that have ended.
pub open spec fn pruned(book: BookView, now_unix: u64) -> BookView {
    if exists|route: NodeId| route_ended(book, route, now_unix) {
        bumped(
            BookView {
                pairing: Map::new(
                    |route: NodeId|
                        book.pairing.contains_key(route) && !route_ended(book, route, now_unix),
                    |route: NodeId| book.pairing[route],
                ),
                ..book
            },
        )
    } else {
        book
    }
}

/// Whether `ikm` is keying material that the book holds for `node`.
pub open spec fn holds_ikm(book: BookView, node: NodeId, ikm: Seq<u8>) -> bool {
    ||| book.peers.contains_key(node) && ikm == peer_ikm(book.peers[node])
    ||| book.pairing.contains_key(node) && ikm == pairing_ikm(book.pairing[node].secret)
    ||| book.live.contains_key(node) && ikm == pairing_ikm(book.live[node].secret)
}

/// Whether a tag is one of `ikm`'s within the window.
pub open spec fn tag_within(ikm: Seq<u8>, tag: Tag, relay_host: Seq<u8>, now_unix: u64) -> bool {
    exists|i: int|
        0 <= i < epoch_window(now_unix).len() && tag.0@ == tag_bytes(
            ikm,
            relay_host,
            #[trigger] epoch_window(now_unix)[i],
        )
}

/// Whether a tag belongs to `node` within the window.
pub open spec fn owns_tag(
    book: BookView,
    node: NodeId,
    tag: Tag,
    relay_host: Seq<u8>,
    now_unix: u64,
) -> bool {
    exists|ikm: Seq<u8>|
        #[trigger] holds_ikm(book, node, ikm) && tag_within(ikm, tag, relay_host, now_unix)
}

/// The keying material for a datagram to `node`: a completed first-contact session
/// before an admission, an admission before a pair.
pub open spec fn send_ikm(book: BookView, node: NodeId) -> Option<Seq<u8>> {
    if book.live.contains_key(node) {
        Some(pairing_ikm(book.live[node].secret))
    } else if book.pairing.contains_key(node) {
        Some(pairing_ikm(book.pairing[node].secret))
    } else if book.peers.contains_key(node) {
        Some(peer_ikm(book.peers[node]))
    } else {
        None
    }
}

/// The book with its cache turned to a relay host.
pub open spec fn facing(book: BookView, relay_host: Seq<char>) -> BookView {
    if book.host == relay_host {
        book
    } else {
        BookView { host: relay_host, cached: Map::empty(), ..book }
    }
}

/// The book after a tag was cached.
pub open spec fn caching(book: BookView, node: NodeId, epoch: u64, tag: Tag) -> BookView {
    let kept = if book.cached.dom().len() >= SEND_CACHE_CAP {
        Map::empty()
    } else {
        book.cached
    };
    BookView { cached: kept.insert(SendKey { peer: node, epoch }, tag), ..book }
}

/// Every cached tag is the one that would be derived.
pub open spec fn cache_sound(book: BookView) -> bool {
    forall|key: SendKey| #[trigger]
        book.cached.contains_key(key) ==> send_ikm(book, key.peer) is Some && book.cached[key].0@
            == tag_bytes(send_ikm(book, key.peer)->0, encode_utf8(book.host), key.epoch)
}

/// The material of every pair and route, and the tags derived from it.
pub struct TagBook {
    peers: Table<NodeId, RendezvousPeer>,
    /// Short-lived first-contact routes.  Their random local route IDs are never
    /// sent on the relay wire and are not authenticated identities.
    pairing: Table<NodeId, PairingRoute>,
    live: Table<NodeId, LiveRoute>,
    /// Bumped on every change, so the relay pump re-registers at once.
    version: u64,
    /// Send tags for the relay host the session is on, so a datagram costs a
    /// lookup rather than a derivation.  Cleared whenever the material changes or
    /// the session moves to another relay.
    host: String,
    cached: Table<SendKey, Tag>,
}

impl View for TagBook {
    type V = BookView;

    closed spec fn view(&self) -> BookView {
        BookView {
            peers: self.peers.map(),
            pairing: pairing_views(self.pairing.map()),
            live: live_views(self.live.map()),
            version: self.version,
            host: self.host@,
            cached: self.cached.map(),
        }
    }
}

spec fn pairing_views(routes: Map<NodeId, PairingRoute>) -> Map<NodeId, PairingView> {
    routes.map_values(
        |route: PairingRoute|
            PairingView { secret: route.secret@, expires_at: route.expires_at },
    )
}

spec fn live_views(routes: Map<NodeId, LiveRoute>) -> Map<NodeId, LiveView> {
    routes.map_values(
        |route: LiveRoute| LiveView { secret: route.secret@, generation: route.generation },
    )
}

impl TagBook {
    /// No key occurs twice, the cache is sound and within its bound.
    pub closed spec fn well_formed(self) -> bool {
        &&& self.peers.well_formed()
        &&& self.pairing.well_formed()
        &&& self.live.well_formed()
        &&& self.cached.well_formed()
        &&& cache_sound(self@)
        &&& self.cached.map().dom().finite()
        &&& self.cached.map().dom().len() <= SEND_CACHE_CAP
    }

    /// The cache of a well-formed book never answers anything but what would be
    /// derived, and stays within its bound.
    pub proof fn law_cache_is_sound(self)
        requires
            self.well_formed(),
        ensures
            cache_sound(self@),
            self@.cached.dom().len() <= SEND_CACHE_CAP,
    {
    }

    /// A book with nothing in it.
    pub fn empty() -> (r: Self)
        ensures
            r.well_formed(),
            r@ == (BookView {
                peers: Map::empty(),
                pairing: Map::empty(),
                live: Map::empty(),
                version: 0,
                host: Seq::empty(),
                cached: Map::empty(),
            }),
    {
        let r = TagBook {
            peers: Table::new(),
            pairing: Table::new(),
            live: Table::new(),
            version: 0,
            host: String::new(),
            cached: Table::new(),
        };
        proof {
            assert(r@.pairing =~= Map::empty());
            assert(r@.live =~= Map::empty());
        }
        r
    }

    /// A book with these pairs; a later pair replaces an earlier one of the same
    /// peer.
    pub fn new(peers: Vec<(NodeId, RendezvousPeer)>) -> (r: Self)
        ensures
            r.well_formed(),
            r@ == (BookView {
                peers: pairs_of(peers@),
                pairing: Map::empty(),
                live: Map::empty(),
                version: 0,
                host: Seq::empty(),
                cached: Map::empty(),
            }),
    {
        let mut book = TagBook::empty();
        let mut i: usize = 0;
        assert(peers@.subrange(0, 0) =~= Seq::empty());
        while i < peers.len()
            invariant
                i <= peers.len(),
                book.well_formed(),
                book@ == (BookView {
                    peers: pairs_of(peers@.subrange(0, i as int)),
                    pairing: Map::empty(),
                    live: Map::empty(),
                    version: 0,
                    host: Seq::empty(),
                    cached: Map::empty(),
                }),
            decreases peers.len() - i,
        {
            let (peer, material) = peers[i];
            proof {
                let next = peers@.subrange(0, i + 1);
                assert(next.drop_last() =~= peers@.subrange(0, i as int));
                assert(next.last() == (peer, material));
            }
            let _ = book.peers.insert(peer, material);
            proof {
                assert(book@.pairing =~= Map::empty());
                assert(book@.live =~= Map::empty());
            }
            i += 1;
        }
        assert(peers@.subrange(0, peers@.len() as int) =~= peers@);
        book
    }

    fn bump(&mut self)
        requires
            old(self).peers.well_formed(),
            old(self).pairing.well_formed(),
            old(self).live.well_formed(),
        ensures
            final(self).well_formed(),
            final(self)@ == bumped(old(self)@),
    {
        self.version = self.version.wrapping_add(1);
        self.cached = Table::new();
    }

    /// Replace one pair's material, e.g. after a card rotation.  The relay
    /// registration follows; the three-epoch window covers the seam.
    pub fn upsert(&mut self, peer: NodeId, material: RendezvousPeer)
        requires
            old(self).well_formed(),
        ensures
            final(self).well_formed(),
            final(self)@ == bumped(
                BookView { peers: old(self)@.peers.insert(peer, material), ..old(self)@ },
            ),
    {
        let _ = self.peers.insert(peer, material);
        self.bump();
    }

    /// Forget one pair.
    pub fn remove(&mut self, peer: NodeId)
        requires
            old(self).well_formed(),
        ensures
            final(self).well_formed(),
            final(self)@ == bumped(
                BookView { peers: old(self)@.peers.remove(peer), ..old(self)@ },
            ),
    {
        let _ = self.peers.remove(&peer);
        self.bump();
    }

    /// Add a first-contact route under a drawn routing key, unless the key is
    /// taken.
    pub fn register_pairing_as(
        &mut self,
        route: NodeId,
        secret: [u8; 16],
        expires_at: u64,
    ) -> (r: Option<PairingRegistration>)
        requires
            old(self).well_formed(),
        ensures
            final(self).well_formed(),
            r is Some <==> !route_taken(old(self)@, route),
            r is None ==> final(self)@ == old(self)@,
            r matches Some(registration) ==> registration.spec_route() == route
                && registration.spec_expires_at() == expires_at && final(self)@ == registered(
                old(self)@,
                route,
                secret@,
                expires_at,
            ),
    {
        if self.peers.contains(&route) || self.pairing.contains(&route) || self.live.contains(
            &route,
        ) {
            return None;
        }
        let _ = self.pairing.insert(route, PairingRoute { secret, expires_at });
        proof {
            assert(self@.pairing =~= old(self)@.pairing.insert(
                route,
                PairingView { secret: secret@, expires_at },
            ));
        }
        self.bump();
        Some(PairingRegistration { route, expires_at })
    }

    /// Add a first-contact route under the first free one of the keys that
    /// `numbered_route` makes of a draw.  The book is finite, so there is one.
    pub fn register_pairing_numbered(
        &mut self,
        drawn: [u8; 32],
        secret: [u8; 16],
        expires_at: u64,
    ) -> (r: PairingRegistration)
        requires
            old(self).well_formed(),
        ensures
            final(self).well_formed(),
            !route_taken(old(self)@, r.spec_route()),
            r.spec_expires_at() == expires_at,
            final(self)@ == registered(old(self)@, r.spec_route(), secret@, expires_at),
            exists|number: nat| #[trigger]
                numbered(drawn@, number) == r.spec_route().0@ && forall|earlier: nat|
                    earlier < number ==> #[trigger] numbered_taken(old(self)@, drawn@, earlier),
    {
        let peers: usize = self.peers.len();
        let pairing: usize = self.pairing.len();
        let live: usize = self.live.len();
        let ghost held: int = peers + pairing + live;
        let ghost mut tried: Seq<NodeId> = Seq::empty();
        let mut number: u128 = 0;
        proof {
            assert(self@.pairing.dom() =~= self.pairing.map().dom());
            assert(self@.live.dom() =~= self.live.map().dom());
        }
        loop
            invariant
                self.well_formed(),
                self@ == old(self)@,
                self@.peers.dom().finite(),
                self@.pairing.dom().finite(),
                self@.live.dom().finite(),
                held == self@.peers.dom().len() + self@.pairing.dom().len()
                    + self@.live.dom().len(),
                held <= 3 * usize::MAX,
                tried.len() == number,
                number <= held,
                forall|i: int|
                    0 <= i < tried.len() ==> (#[trigger] tried[i]).0@ == numbered(
                        drawn@,
                        i as nat,
                    ) && route_taken(self@, tried[i]),
            decreases held - number,
        {
            let route = numbered_route(drawn, number);
            match self.register_pairing_as(route, secret, expires_at) {
                Some(registration) => {
                    proof {
                        assert(numbered(drawn@, number as nat) == registration.spec_route().0@);
                        assert forall|earlier: nat| earlier < number implies #[trigger]
                            numbered_taken(old(self)@, drawn@, earlier) by {
                            assert(tried[earlier as int].0@ == numbered(drawn@, earlier));
                        }
                    }
                    return registration;
                },
                None => {},
            }
            proof {
                tried = tried.push(route);
                lemma_tried_within(self@, drawn@, tried);
            }
            number += 1;
        }
    }

    /// Add one short-lived first-contact route under a random local routing key
    /// that nothing else in the book uses.  A taken key is drawn again, and a book
    /// that every draw fell into is searched for a free key, so a registration always
    /// comes out.
    pub fn register_pairing(&mut self, secret: [u8; 16], expires_at: u64) -> (r:
        PairingRegistration)
        requires
            old(self).well_formed(),
        ensures
            final(self).well_formed(),
            !route_taken(old(self)@, r.spec_route()),
            r.spec_expires_at() == expires_at,
            final(self)@ == registered(old(self)@, r.spec_route(), secret@, expires_at),
    {
        let mut drawn = [0u8; 32];
        let mut draws: u32 = 0;
        while draws < MAX_ROUTE_DRAWS
            invariant
                self.well_formed(),
                self@ == old(self)@,
            decreases MAX_ROUTE_DRAWS - draws,
        {
            fill_random(&mut drawn);
            match self.register_pairing_as(NodeId(drawn), secret, expires_at) {
                Some(registration) => return registration,
                None => {},
            }
            draws += 1;
        }
        self.register_pairing_numbered(drawn, secret, expires_at)
    }

    /// Remove a first-contact route and erase its secret.
    pub fn remove_pairing(&mut self, route: NodeId) -> (r: bool)
        requires
            old(self).well_formed(),
        ensures
            final(self).well_formed(),
            r == old(self)@.pairing.contains_key(route),
            final(self)@ == if r {
                bumped(BookView { pairing: old(self)@.pairing.remove(route), ..old(self)@ })
            } else {
                old(self)@
            },
    {
        match self.pairing.remove(&route) {
            Some(mut gone) => {
                wipe(&mut gone.secret);
                proof {
                    assert(self@.pairing =~= old(self)@.pairing.remove(route));
                }
                self.bump();
                true
            },
            None => {
                proof {
                    assert(self@.pairing =~= old(self)@.pairing);
                }
                false
            },
        }
    }

    /// Give up a registration: what dropping its handle does.
    pub fn release(&mut self, registration: PairingRegistration) -> (r: bool)
        requires
            old(self).well_formed(),
        ensures
            final(self).well_formed(),
            r == old(self)@.pairing.contains_key(registration.spec_route()),
            final(self)@ == if r {
                bumped(
                    BookView {
                        pairing: old(self)@.pairing.remove(registration.spec_route()),
                        ..old(self)@
                    },
                )
            } else {
                old(self)@
            },
    {
        self.remove_pairing(registration.route)
    }

    /// Switch a completed first-contact session from its admission secret to
    /// exported material, as long as the admission is still active.
    pub fn promote_pairing(
        &mut self,
        route: NodeId,
        secret: [u8; 16],
        generation: u64,
        now_unix: u64,
    ) -> (r: bool)
        requires
            old(self).well_formed(),
        ensures
            final(self).well_formed(),
            r == pruned(old(self)@, now_unix).pairing.contains_key(route),
            final(self)@ == if r {
                bumped(
                    BookView {
                        live: old(self)@.live.insert(
                            route,
                            LiveView { secret: secret@, generation },
                        ),
                        ..pruned(old(self)@, now_unix)
                    },
                )
            } else {
                pruned(old(self)@, now_unix)
            },
    {
        if !self.pairing_active(route, now_unix) {
            return false;
        }
        let ghost before = self@;
        let _ = self.live.insert(route, LiveRoute { secret, generation });
        proof {
            assert(self@.live =~= before.live.insert(
                route,
                LiveView { secret: secret@, generation },
            ));
        }
        self.bump();
        true
    }

    /// Forget the route of a completed first-contact session, unless a newer
    /// session has taken it over.
    pub fn remove_live_pairing(&mut self, route: NodeId, generation: u64) -> (r: bool)
        requires
            old(self).well_formed(),
        ensures
            final(self).well_formed(),
            r == (old(self)@.live.contains_key(route) && old(self)@.live[route].generation
                == generation),
            final(self)@ == if r {
                bumped(BookView { live: old(self)@.live.remove(route), ..old(self)@ })
            } else {
                old(self)@
            },
    {
        let ours = match self.live.get(&route) {
            Some(live) => live.generation == generation,
            None => false,
        };
        if !ours {
            return false;
        }
        if let Some(mut gone) = self.live.remove(&route) {
            wipe(&mut gone.secret);
        }
        proof {
            assert(self@.live =~= old(self)@.live.remove(route));
        }
        self.bump();
        true
    }

    fn prune_expired(&mut self, now_unix: u64)
        requires
            old(self).well_formed(),
        ensures
            final(self).well_formed(),
            final(self)@ == pruned(old(self)@, now_unix),
    {
        let ghost before = self@;
        let mut changed = false;
        let mut i: usize = 0;
        while i < self.pairing.len()
            invariant
                i <= self.pairing.pairs().len(),
                self.peers.well_formed(),
                self.pairing.well_formed(),
                self.live.well_formed(),
                self.peers == old(self).peers,
                self.live == old(self).live,
                self.version == old(self).version,
                self.host == old(self).host,
                self.cached == old(self).cached,
                before == old(self)@,
                !changed ==> self.pairing == old(self).pairing,
                changed ==> exists|route: NodeId| route_ended(before, route, now_unix),
                forall|k: int|
                    0 <= k < i ==> (#[trigger] self.pairing.pairs()[k]).1.expires_at > now_unix,
                forall|route: NodeId| #[trigger]
                    self.pairing.map().contains_key(route) ==> before.pairing.contains_key(route)
                        && pairing_views(self.pairing.map())[route] == before.pairing[route],
                forall|route: NodeId|
                    before.pairing.contains_key(route) && !#[trigger] route_ended(
                        before,
                        route,
                        now_unix,
                    ) ==> self.pairing.map().contains_key(route),
            decreases self.pairing.pairs().len() - i,
        {
            let (route, entry) = self.pairing.at(i);
            let ended = entry.expires_at <= now_unix;
            let ghost key = *route;
            proof {
                lemma_pair_in_map(self.pairing.pairs(), i as int);
            }
            if ended {
                proof {
                    assert(route_ended(before, key, now_unix));
                }
                let mut gone = self.pairing.remove_at(i);
                wipe(&mut gone.1.secret);
                changed = true;
            } else {
                i += 1;
            }
        }
        proof {
            assert forall|route: NodeId| #[trigger]
                self.pairing.map().contains_key(route) implies !route_ended(
                before,
                route,
                now_unix,
            ) by {
                let k = place(self.pairing.pairs(), route);
                assert(has_key(self.pairing.pairs(), route));
                lemma_pair_in_map(self.pairing.pairs(), k);
            }
        }
        if changed {
            let ghost middle = self@;
            self.bump();
            proof {
                assert(middle.pairing =~= pruned(before, now_unix).pairing);
            }
        } else {
            proof {
                assert forall|route: NodeId| !route_ended(before, route, now_unix) by {
                    if route_ended(before, route, now_unix) {
                        assert(self.pairing.map().contains_key(route));
                    }
                }
            }
        }
    }

    /// Whether a first-contact route is registered and inside its lifetime.
    pub fn pairing_active(&mut self, route: NodeId, now_unix: u64) -> (r: bool)
        requires
            old(self).well_formed(),
        ensures
            final(self).well_formed(),
            final(self)@ == pruned(old(self)@, now_unix),
            r == final(self)@.pairing.contains_key(route),
    {
        self.prune_expired(now_unix);
        self.pairing.contains(&route)
    }

    /// How many first-contact routes are inside their lifetime.
    pub fn pairing_count(&mut self, now_unix: u64) -> (r: usize)
        requires
            old(self).well_formed(),
        ensures
            final(self).well_formed(),
            final(self)@ == pruned(old(self)@, now_unix),
            r == final(self)@.pairing.dom().len(),
    {
        self.prune_expired(now_unix);
        proof {
            assert(self@.pairing.dom() =~= self.pairing.map().dom());
        }
        self.pairing.len()
    }

    /// How many send tags are cached right now.
    pub fn cache_len(&self) -> (r: usize)
        requires
            self.well_formed(),
        ensures
            r == self@.cached.dom().len(),
    {
        self.cached.len()
    }

    /// The change counter; the relay pump re-registers when it moves.
    pub fn version(&self) -> (r: u64)
        ensures
            r == self@.version,
    {
        self.version
    }

    /// Whether there is nothing to register.
    pub fn is_empty(&self) -> (r: bool)
        requires
            self.well_formed(),
        ensures
            r == (self@.peers.dom().len() == 0 && self@.pairing.dom().len() == 0
                && self@.live.dom().len() == 0),
    {
        proof {
            assert(self@.pairing.dom() =~= self.pairing.map().dom());
            assert(self@.live.dom() =~= self.live.map().dom());
        }
        self.peers.len() == 0 && self.pairing.len() == 0 && self.live.len() == 0
    }

    /// Whether this book can derive an outbound rendezvous tag for a pair.
    /// Callers use this before starting a session so a missing pairing cannot
    /// become a silent wait for a relay welcome.
    pub fn contains(&self, peer: NodeId) -> (r: bool)
        requires
            self.well_formed(),
        ensures
            r == self@.peers.contains_key(peer),
    {
        self.peers.contains(&peer)
    }

    fn window(now_unix: u64) -> (r: Vec<u64>)
        ensures
            r@ == epoch_window(now_unix),
    {
        let current: u64 = epoch_index(now_unix);
        let mut epochs: Vec<u64> = Vec::new();
        if current > 0 {
            epochs.push(current - 1);
        }
        epochs.push(current);
        epochs.push(current + 1);
        assert(epochs@ =~= epoch_window(now_unix));
        epochs
    }

    /// The keying material of every entry: pairs, then admissions, then completed
    /// sessions.
    spec fn all_ikms(self) -> Seq<Seq<u8>> {
        Seq::new(self.peers.pairs().len(), |i: int| peer_ikm(self.peers.pairs()[i].1))
            + Seq::new(
            self.pairing.pairs().len(),
            |i: int| pairing_ikm(self.pairing.pairs()[i].1.secret@),
        ) + Seq::new(
            self.live.pairs().len(),
            |i: int| pairing_ikm(self.live.pairs()[i].1.secret@),
        )
    }

    /// A tag belongs to some node exactly when some entry's material yields it.
    proof fn lemma_all_ikms(self, tag: Tag, relay_host: Seq<u8>, now_unix: u64)
        requires
            self.well_formed(),
        ensures
            (exists|node: NodeId| owns_tag(self@, node, tag, relay_host, now_unix)) == (exists|
                i: int,
            |
                0 <= i < self.all_ikms().len() && tag_within(
                    #[trigger] self.all_ikms()[i],
                    tag,
                    relay_host,
                    now_unix,
                )),
    {
        let a = self.peers.pairs();
        let b = self.pairing.pairs();
        let c = self.live.pairs();
        let all = self.all_ikms();
        if exists|node: NodeId| owns_tag(self@, node, tag, relay_host, now_unix) {
            let node = choose|node: NodeId| owns_tag(self@, node, tag, relay_host, now_unix);
            let ikm = choose|ikm: Seq<u8>| #[trigger]
                holds_ikm(self@, node, ikm) && tag_within(ikm, tag, relay_host, now_unix);
            if self@.peers.contains_key(node) && ikm == peer_ikm(self@.peers[node]) {
                let i = place(a, node);
                assert(has_key(a, node));
                lemma_pair_in_map(a, i);
                assert(all[i] == ikm);
            } else if self@.pairing.contains_key(node) && ikm == pairing_ikm(
                self@.pairing[node].secret,
            ) {
                let i = place(b, node);
                assert(has_key(b, node));
                lemma_pair_in_map(b, i);
                assert(all[a.len() + i] == ikm);
            } else {
                let i = place(c, node);
                assert(has_key(c, node));
                lemma_pair_in_map(c, i);
                assert(all[a.len() + b.len() + i] == ikm);
            }
        }
        if exists|i: int|
            0 <= i < all.len() && tag_within(#[trigger] all[i], tag, relay_host, now_unix) {
            let i = choose|i: int|
                0 <= i < all.len() && tag_within(#[trigger] all[i], tag, relay_host, now_unix);
            if i < a.len() {
                lemma_pair_in_map(a, i);
                assert(holds_ikm(self@, a[i].0, all[i]));
                assert(owns_tag(self@, a[i].0, tag, relay_host, now_unix));
            } else if i < a.len() + b.len() {
                let k = i - a.len();
                lemma_pair_in_map(b, k);
                assert(holds_ikm(self@, b[k].0, all[i]));
                assert(owns_tag(self@, b[k].0, tag, relay_host, now_unix));
            } else {
                let k = i - a.len() - b.len();
                lemma_pair_in_map(c, k);
                assert(holds_ikm(self@, c[k].0, all[i]));
                assert(owns_tag(self@, c[k].0, tag, relay_host, now_unix));
            }
        }
    }

    /// Every tag this endpoint registers with `relay_host` right now: three epochs
    /// per entry, two in the first hour of time.
    pub fn registration(&mut self, relay_host: &str, now_unix: u64) -> (r: Vec<Tag>)
        requires
            old(self).well_formed(),
        ensures
            final(self).well_formed(),
            final(self)@ == pruned(old(self)@, now_unix),
            r@.len() == entry_count(final(self)@) * epoch_window(now_unix).len(),
            registers(final(self)@, r@, relay_host.spec_bytes(), now_unix),
    {
        self.prune_expired(now_unix);
        let epochs = Self::window(now_unix);
        let ghost host = relay_host.spec_bytes();
        let ghost all = self.all_ikms();
        let ghost n1 = self.peers.pairs().len() as int;
        let ghost n2 = self.pairing.pairs().len() as int;
        let mut tags: Vec<Tag> = Vec::new();
        let mut i: usize = 0;
        while i < self.peers.len()
            invariant
                i <= self.peers.pairs().len(),
                self.well_formed(),
                host == relay_host.spec_bytes(),
                all == self.all_ikms(),
                epochs@ == epoch_window(now_unix),
                listed(tags@, all, i as int, host, now_unix),
            decreases self.peers.pairs().len() - i,
        {
            let material = Material::Pair(self.peers.at(i).1);
            let ghost before = tags@;
            push_window(&mut tags, &material, relay_host, &epochs);
            proof {
                lemma_listed_step(before, tags@, all, i as int, host, now_unix);
            }
            i += 1;
        }
        let mut i: usize = 0;
        while i < self.pairing.len()
            invariant
                i <= self.pairing.pairs().len(),
                n1 == self.peers.pairs().len(),
                self.well_formed(),
                host == relay_host.spec_bytes(),
                all == self.all_ikms(),
                epochs@ == epoch_window(now_unix),
                listed(tags@, all, n1 + i, host, now_unix),
            decreases self.pairing.pairs().len() - i,
        {
            let material = Material::Secret(&self.pairing.at(i).1.secret);
            let ghost before = tags@;
            push_window(&mut tags, &material, relay_host, &epochs);
            proof {
                lemma_listed_step(before, tags@, all, n1 + i, host, now_unix);
            }
            i += 1;
        }
        let mut i: usize = 0;
        while i < self.live.len()
            invariant
                i <= self.live.pairs().len(),
                n1 == self.peers.pairs().len(),
                n2 == self.pairing.pairs().len(),
                self.well_formed(),
                host == relay_host.spec_bytes(),
                all == self.all_ikms(),
                epochs@ == epoch_window(now_unix),
                listed(tags@, all, n1 + n2 + i, host, now_unix),
            decreases self.live.pairs().len() - i,
        {
            let material = Material::Secret(&self.live.at(i).1.secret);
            let ghost before = tags@;
            push_window(&mut tags, &material, relay_host, &epochs);
            proof {
                lemma_listed_step(before, tags@, all, n1 + n2 + i, host, now_unix);
            }
            i += 1;
        }
        proof {
            lemma_map_len(self.peers.pairs());
            lemma_map_len(self.pairing.pairs());
            lemma_map_len(self.live.pairs());
            assert(self@.pairing.dom() =~= self.pairing.map().dom());
            assert(self@.live.dom() =~= self.live.map().dom());
            assert(entry_count(self@) == all.len());
            assert forall|tag: Tag| tags@.contains(tag) == exists|node: NodeId|
                owns_tag(self@, node, tag, host, now_unix) by {
                self.lemma_all_ikms(tag, host, now_unix);
            }
        }
        tags
    }

    /// The current-epoch tag for an outbound datagram to `peer`.  Derived once per
    /// peer, relay and epoch and served from the cache after that.
    pub fn tag_for_send(&mut self, peer: NodeId, relay_host: &str, now_unix: u64) -> (r: Option<
        Tag,
    >)
        requires
            old(self).well_formed(),
        ensures
            final(self).well_formed(),
            ({
                let book = facing(pruned(old(self)@, now_unix), relay_host@);
                let epoch = (now_unix / EPOCH_SECONDS) as u64;
                &&& r is Some <==> send_ikm(book, peer) is Some
                &&& r matches Some(tag) ==> tag.0@ == tag_bytes(
                    send_ikm(book, peer)->0,
                    relay_host.spec_bytes(),
                    epoch,
                )
                &&& final(self)@ == if r is None || book.cached.contains_key(
                    SendKey { peer, epoch },
                ) {
                    book
                } else {
                    caching(book, peer, epoch, r->0)
                }
            }),
    {
        self.prune_expired(now_unix);
        let epoch: u64 = epoch_index(now_unix);
        let key = SendKey { peer, epoch };
        proof {
            encode_utf8_decode_utf8(self.host@);
            encode_utf8_decode_utf8(relay_host@);
        }
        let same_host = bytes_eq(self.host.as_str().as_bytes(), relay_host.as_bytes());
        if !same_host {
            // A failover moved the session to another relay: every tag changes
            // with the host, so the cache starts again.
            self.host = relay_host.to_owned();
            self.cached = Table::new();
        }
        let ghost book = facing(pruned(old(self)@, now_unix), relay_host@);
        proof {
            assert(self@ =~= book);
        }
        if let Some(tag) = self.cached.get(&key) {
            return Some(*tag);
        }
        let tag = match self.live.get(&peer) {
            Some(live) => derive_pairing_tag(&live.secret, relay_host, epoch),
            None => match self.pairing.get(&peer) {
                Some(route) => derive_pairing_tag(&route.secret, relay_host, epoch),
                None => match self.peers.get(&peer) {
                    Some(material) => derive_tag(
                        material.case,
                        &material.static_x,
                        &material.eph_x,
                        relay_host,
                        epoch,
                    ),
                    None => {
                        return None;
                    },
                },
            },
        };
        if self.cached.len() >= SEND_CACHE_CAP {
            self.cached = Table::new();
        }
        let _ = self.cached.insert(key, tag);
        proof {
            assert(self@ =~= caching(book, peer, epoch, tag));
            assert(cache_sound(self@));
        }
        Some(tag)
    }

    /// Attribute an inbound tag to its pair, over the same window the
    /// registration covers.  `None` for a tag this endpoint never registered,
    /// which the caller drops.  A pair is found before a first-contact route.
    pub fn resolve(&mut self, tag: &Tag, relay_host: &str, now_unix: u64) -> (r: Option<NodeId>)
        requires
            old(self).well_formed(),
        ensures
            final(self).well_formed(),
            final(self)@ == pruned(old(self)@, now_unix),
            resolves(final(self)@, *tag, relay_host.spec_bytes(), now_unix, r),
    {
        self.prune_expired(now_unix);
        let epochs = Self::window(now_unix);
        let ghost host = relay_host.spec_bytes();
        let ghost all = self.all_ikms();
        let ghost n1 = self.peers.pairs().len() as int;
        let ghost n2 = self.pairing.pairs().len() as int;
        let mut i: usize = 0;
        while i < self.peers.len()
            invariant
                i <= self.peers.pairs().len(),
                self.well_formed(),
                self@ == pruned(old(self)@, now_unix),
                host == relay_host.spec_bytes(),
                all == self.all_ikms(),
                epochs@ == epoch_window(now_unix),
                forall|k: int| 0 <= k < i ==> !tag_within(#[trigger] all[k], *tag, host, now_unix),
            decreases self.peers.pairs().len() - i,
        {
            let (node, peer) = self.peers.at(i);
            if matches_window(&Material::Pair(peer), tag, relay_host, &epochs, now_unix) {
                proof {
                    lemma_pair_in_map(self.peers.pairs(), i as int);
                    assert(all[i as int] == peer_ikm(*peer));
                    assert(holds_ikm(self@, *node, all[i as int]));
                    assert(pair_owns(self@, *node, *tag, host, now_unix));
                }
                return Some(*node);
            }
            assert(all[i as int] == peer_ikm(*peer));
            i += 1;
        }
        proof {
            assert forall|node: NodeId| !pair_owns(self@, node, *tag, host, now_unix) by {
                if pair_owns(self@, node, *tag, host, now_unix) {
                    let k = place(self.peers.pairs(), node);
                    assert(has_key(self.peers.pairs(), node));
                    lemma_pair_in_map(self.peers.pairs(), k);
                    assert(all[k] == peer_ikm(self@.peers[node]));
                }
            }
        }
        let mut i: usize = 0;
        while i < self.pairing.len()
            invariant
                i <= self.pairing.pairs().len(),
                n1 == self.peers.pairs().len(),
                self.well_formed(),
                self@ == pruned(old(self)@, now_unix),
                host == relay_host.spec_bytes(),
                all == self.all_ikms(),
                epochs@ == epoch_window(now_unix),
                forall|node: NodeId| !pair_owns(self@, node, *tag, host, now_unix),
                forall|k: int|
                    0 <= k < n1 + i ==> !tag_within(#[trigger] all[k], *tag, host, now_unix),
            decreases self.pairing.pairs().len() - i,
        {
            let (node, route) = self.pairing.at(i);
            if matches_window(&Material::Secret(&route.secret), tag, relay_host, &epochs, now_unix) {
                proof {
                    lemma_pair_in_map(self.pairing.pairs(), i as int);
                    assert(all[n1 + i] == pairing_ikm(route.secret@));
                    assert(holds_ikm(self@, *node, all[n1 + i]));
                }
                return Some(*node);
            }
            assert(all[n1 + i] == pairing_ikm(route.secret@));
            i += 1;
        }
        let mut i: usize = 0;
        while i < self.live.len()
            invariant
                i <= self.live.pairs().len(),
                n1 == self.peers.pairs().len(),
                n2 == self.pairing.pairs().len(),
                self.well_formed(),
                self@ == pruned(old(self)@, now_unix),
                host == relay_host.spec_bytes(),
                all == self.all_ikms(),
                epochs@ == epoch_window(now_unix),
                forall|node: NodeId| !pair_owns(self@, node, *tag, host, now_unix),
                forall|k: int|
                    0 <= k < n1 + n2 + i ==> !tag_within(#[trigger] all[k], *tag, host, now_unix),
            decreases self.live.pairs().len() - i,
        {
            let (node, route) = self.live.at(i);
            if matches_window(&Material::Secret(&route.secret), tag, relay_host, &epochs, now_unix) {
                proof {
                    lemma_pair_in_map(self.live.pairs(), i as int);
                    assert(all[n1 + n2 + i] == pairing_ikm(route.secret@));
                    assert(holds_ikm(self@, *node, all[n1 + n2 + i]));
                }
                return Some(*node);
            }
            assert(all[n1 + n2 + i] == pairing_ikm(route.secret@));
            i += 1;
        }
        proof {
            self.lemma_all_ikms(*tag, host, now_unix);
            assert forall|node: NodeId| !owns_tag(self@, node, *tag, host, now_unix) by {}
        }
        None
    }
}

/// How many pairs and routes a book holds.
pub open spec fn entry_count(book: BookView) -> nat {
    book.peers.dom().len() + book.pairing.dom().len() + book.live.dom().len()
}

/// Whether a tag belongs to the pair of `node` within the window.
pub open spec fn pair_owns(
    book: BookView,
    node: NodeId,
    tag: Tag,
    relay_host: Seq<u8>,
    now_unix: u64,
) -> bool {
    book.peers.contains_key(node) && tag_within(
        peer_ikm(book.peers[node]),
        tag,
        relay_host,
        now_unix,
    )
}

/// The tags of the first `upto` materials over the window, and nothing else.
spec fn listed(
    tags: Seq<Tag>,
    all: Seq<Seq<u8>>,
    upto: int,
    relay_host: Seq<u8>,
    now_unix: u64,
) -> bool {
    &&& tags.len() == upto * epoch_window(now_unix).len()
    &&& forall|tag: Tag|
        tags.contains(tag) <==> exists|i: int|
            0 <= i < upto && tag_within(#[trigger] all[i], tag, relay_host, now_unix)
}

proof fn lemma_listed_step(
    before: Seq<Tag>,
    after: Seq<Tag>,
    all: Seq<Seq<u8>>,
    upto: int,
    relay_host: Seq<u8>,
    now_unix: u64,
)
    requires
        0 <= upto < all.len(),
        listed(before, all, upto, relay_host, now_unix),
        windowed(before, after, all[upto], relay_host, now_unix),
    ensures
        listed(after, all, upto + 1, relay_host, now_unix),
{
    let w = epoch_window(now_unix);
    assert((upto + 1) * w.len() == upto * w.len() + w.len()) by (nonlinear_arith);
    assert forall|tag: Tag| after.contains(tag) == exists|i: int|
        0 <= i < upto + 1 && tag_within(#[trigger] all[i], tag, relay_host, now_unix) by {
        if after.contains(tag) {
            let j = choose|j: int| 0 <= j < after.len() && after[j] == tag;
            if j < before.len() {
                assert(before[j] == tag);
                assert(before.contains(tag));
            } else {
                assert(after[before.len() + (j - before.len())].0@ == tag_bytes(
                    all[upto],
                    relay_host,
                    w[j - before.len()],
                ));
                assert(tag_within(all[upto], tag, relay_host, now_unix));
            }
        }
        if exists|i: int|
            0 <= i < upto + 1 && tag_within(#[trigger] all[i], tag, relay_host, now_unix) {
            let i = choose|i: int|
                0 <= i < upto + 1 && tag_within(#[trigger] all[i], tag, relay_host, now_unix);
            if i < upto {
                assert(before.contains(tag));
                let j = choose|j: int| 0 <= j < before.len() && before[j] == tag;
                assert(after[j] == tag);
            } else {
                let e = choose|e: int|
                    0 <= e < w.len() && tag.0@ == tag_bytes(all[upto], relay_host, #[trigger] w[e]);
                let found = after[before.len() + e];
                assert(found.0@ == tag.0@);
                assert(found.0 =~= tag.0);
                assert(found == tag);
            }
        }
    }
}

/// `after` is `before` followed by one tag of `ikm` for each epoch of the window.
spec fn windowed(
    before: Seq<Tag>,
    after: Seq<Tag>,
    ikm: Seq<u8>,
    relay_host: Seq<u8>,
    now_unix: u64,
) -> bool {
    let w = epoch_window(now_unix);
    &&& after.len() == before.len() + w.len()
    &&& forall|j: int| 0 <= j < before.len() ==> #[trigger] after[j] == before[j]
    &&& forall|e: int|
        0 <= e < w.len() ==> after[before.len() + e].0@ == tag_bytes(
            ikm,
            relay_host,
            #[trigger] w[e],
        )
}

fn push_window(tags: &mut Vec<Tag>, material: &Material, relay_host: &str, epochs: &Vec<u64>)
    ensures
        final(tags)@.len() == old(tags)@.len() + epochs@.len(),
        forall|j: int| 0 <= j < old(tags)@.len() ==> #[trigger] final(tags)@[j] == old(tags)@[j],
        forall|e: int|
            0 <= e < epochs@.len() ==> final(tags)@[old(tags)@.len() + e].0@ == tag_bytes(
                material.ikm(),
                relay_host.spec_bytes(),
                #[trigger] epochs@[e],
            ),
{
    let ghost before = tags@;
    let mut e: usize = 0;
    while e < epochs.len()
        invariant
            e <= epochs.len(),
            before == old(tags)@,
            tags@.len() == before.len() + e,
            forall|j: int| 0 <= j < before.len() ==> #[trigger] tags@[j] == before[j],
            forall|k: int|
                0 <= k < e ==> tags@[before.len() + k].0@ == tag_bytes(
                    material.ikm(),
                    relay_host.spec_bytes(),
                    #[trigger] epochs@[k],
                ),
        decreases epochs.len() - e,
    {
        tags.push(material.tag(relay_host, epochs[e]));
        e += 1;
    }
}

fn matches_window(
    material: &Material,
    tag: &Tag,
    relay_host: &str,
    epochs: &Vec<u64>,
    now_unix: u64,
) -> (r: bool)
    requires
        epochs@ == epoch_window(now_unix),
    ensures
        r == tag_within(material.ikm(), *tag, relay_host.spec_bytes(), now_unix),
{
    let mut e: usize = 0;
    while e < epochs.len()
        invariant
            e <= epochs.len(),
            epochs@ == epoch_window(now_unix),
            forall|k: int|
                0 <= k < e ==> tag.0@ != tag_bytes(
                    material.ikm(),
                    relay_host.spec_bytes(),
                    #[trigger] epochs@[k],
                ),
        decreases epochs.len() - e,
    {
        let candidate = material.tag(relay_host, epochs[e]);
        if candidate.same(tag) {
            proof {
                assert(epoch_window(now_unix)[e as int] == epochs@[e as int]);
            }
            return true;
        }
        proof {
            if candidate.0@ == tag.0@ {
                assert(candidate.0 =~= tag.0);
            }
        }
        e += 1;
    }
    false
}

/// The map that a list of pairs makes, later ones replacing earlier ones.
pub open spec fn pairs_of(peers: Seq<(NodeId, RendezvousPeer)>) -> Map<NodeId, RendezvousPeer>
    decreases peers.len(),
{
    if peers.len() == 0 {
        Map::empty()
    } else {
        pairs_of(peers.drop_last()).insert(peers.last().0, peers.last().1)
    }
}

/// Whether a routing key is in use.
pub open spec fn route_taken(book: BookView, route: NodeId) -> bool {
    book.peers.contains_key(route) || book.pairing.contains_key(route) || book.live.contains_key(
        route,
    )
}

/// The bytes of a draw's routing key of this number: the number in its first half,
/// as two words, most significant first, and the draw in the other.
pub open spec fn numbered(drawn: Seq<u8>, number: nat) -> Seq<u8> {
    be_bytes(number / 0x1_0000_0000_0000_0000, 8) + be_bytes(
        number % 0x1_0000_0000_0000_0000,
        8,
    ) + drawn.subrange(16, 32)
}

/// Whether the draw's routing key of this number is taken.
pub open spec fn numbered_taken(book: BookView, drawn: Seq<u8>, number: nat) -> bool {
    exists|route: NodeId| #[trigger] route_taken(book, route) && route.0@ == numbered(drawn, number)
}

/// The routing key that a draw and a number make.
fn numbered_route(drawn: [u8; 32], number: u128) -> (r: NodeId)
    ensures
        r.0@ == numbered(drawn@, number as nat),
{
    let high: u64 = (number / 0x1_0000_0000_0000_0000) as u64;
    let low: u64 = (number % 0x1_0000_0000_0000_0000) as u64;
    let mut out = drawn;
    write_at(&mut out, 0, &to_be64(high));
    write_at(&mut out, 8, &to_be64(low));
    assert(out@ =~= numbered(drawn@, number as nat));
    NodeId(out)
}

/// Two numbers make two keys.
proof fn lemma_numbered_distinct(drawn: Seq<u8>, a: nat, b: nat)
    requires
        drawn.len() == 32,
        a != b,
        a <= u128::MAX,
        b <= u128::MAX,
    ensures
        numbered(drawn, a) != numbered(drawn, b),
{
    let word: nat = 0x1_0000_0000_0000_0000;
    lemma_pow256_values();
    lemma_be_round_trip(a / word, 8);
    lemma_be_round_trip(a % word, 8);
    lemma_be_round_trip(b / word, 8);
    lemma_be_round_trip(b % word, 8);
    let left = numbered(drawn, a);
    let right = numbered(drawn, b);
    assert(left.subrange(0, 8) =~= be_bytes(a / word, 8));
    assert(left.subrange(8, 16) =~= be_bytes(a % word, 8));
    assert(right.subrange(0, 8) =~= be_bytes(b / word, 8));
    assert(right.subrange(8, 16) =~= be_bytes(b % word, 8));
    assert(be_value(left.subrange(0, 8)) == a / word);
    assert(be_value(left.subrange(8, 16)) == a % word);
}

/// Numbered keys that are all taken are no more than the book holds.
proof fn lemma_tried_within(book: BookView, drawn: Seq<u8>, tried: Seq<NodeId>)
    requires
        drawn.len() == 32,
        tried.len() <= u128::MAX,
        book.peers.dom().finite(),
        book.pairing.dom().finite(),
        book.live.dom().finite(),
        forall|i: int|
            0 <= i < tried.len() ==> (#[trigger] tried[i]).0@ == numbered(drawn, i as nat)
                && route_taken(book, tried[i]),
    ensures
        tried.len() <= book.peers.dom().len() + book.pairing.dom().len() + book.live.dom().len(),
{
    assert forall|i: int, j: int| 0 <= i < tried.len() && 0 <= j < tried.len() && i != j implies
        tried[i] != tried[j] by {
        lemma_numbered_distinct(drawn, i as nat, j as nat);
    }
    let routes = book.peers.dom().union(book.pairing.dom());
    let all = routes.union(book.live.dom());
    assert(tried.to_set().subset_of(all));
    tried.unique_seq_to_set();
    lemma_len_union(book.peers.dom(), book.pairing.dom());
    lemma_len_union(routes, book.live.dom());
    lemma_len_subset(tried.to_set(), all);
}

/// The book after a first-contact registration.
pub open spec fn registered(
    book: BookView,
    route: NodeId,
    secret: Seq<u8>,
    expires_at: u64,
) -> BookView {
    bumped(
        BookView {
            pairing: book.pairing.insert(route, PairingView { secret, expires_at }),
            ..book
        },
    )
}

/// Whether `tags` are all the tags of the book within the window, and no others.
pub open spec fn registers(
    book: BookView,
    tags: Seq<Tag>,
    relay_host: Seq<u8>,
    now_unix: u64,
) -> bool {
    forall|tag: Tag|
        tags.contains(tag) <==> exists|node: NodeId|
            owns_tag(book, node, tag, relay_host, now_unix)
}

/// Whether a tag is attributed to `found`: to an owner of it, to a pair before a
/// first-contact route, and to nobody only if nobody owns it.
pub open spec fn resolves(
    book: BookView,
    tag: Tag,
    relay_host: Seq<u8>,
    now_unix: u64,
    found: Option<NodeId>,
) -> bool {
    &&& found matches Some(node) ==> owns_tag(book, node, tag, relay_host, now_unix)
    &&& found is None ==> forall|node: NodeId| !owns_tag(book, node, tag, relay_host, now_unix)
    &&& (exists|node: NodeId| pair_owns(book, node, tag, relay_host, now_unix)) ==> found is Some
        && pair_owns(book, found->0, tag, relay_host, now_unix)
}

/// What is sent with a pair's tag is attributed to an owner of that tag: a tag
/// for sending is one that the book resolves, at the same time and on the same
/// relay.
pub proof fn law_sent_tag_resolves(book: BookView, peer: NodeId, tag: Tag, host: Seq<u8>, now: u64)
    requires
        send_ikm(book, peer) is Some,
        tag.0@ == tag_bytes(send_ikm(book, peer)->0, host, (now / EPOCH_SECONDS) as u64),
    ensures
        owns_tag(book, peer, tag, host, now),
{
    let ikm = send_ikm(book, peer)->0;
    let w = epoch_window(now);
    let current = (now / EPOCH_SECONDS) as u64;
    let i: int = if current == 0 {
        0
    } else {
        1
    };
    assert(w[i] == current);
    assert(holds_ikm(book, peer, ikm));
    assert(tag_within(ikm, tag, host, now));
}

/// A tag that was sent in this epoch, the one before or the one after is one that the
/// book resolves, on the same relay.
pub proof fn law_sent_tag_resolves_across_epochs(
    book: BookView,
    peer: NodeId,
    tag: Tag,
    host: Seq<u8>,
    sent: u64,
    now: u64,
)
    requires
        send_ikm(book, peer) is Some,
        tag.0@ == tag_bytes(send_ikm(book, peer)->0, host, (sent / EPOCH_SECONDS) as u64),
        sent / EPOCH_SECONDS <= now / EPOCH_SECONDS + 1,
        now / EPOCH_SECONDS <= sent / EPOCH_SECONDS + 1,
    ensures
        owns_tag(book, peer, tag, host, now),
{
    let ikm = send_ikm(book, peer)->0;
    let w = epoch_window(now);
    let epoch = (sent / EPOCH_SECONDS) as u64;
    let current = (now / EPOCH_SECONDS) as u64;
    let i: int = if current == 0 {
        epoch as int
    } else {
        epoch - current + 1
    };
    assert(w[i] == epoch);
    assert(holds_ikm(book, peer, ikm));
    assert(tag_within(ikm, tag, host, now));
}

/// Sending and receiving agree within the window: of a book that still holds the
/// material it sent with, a tag sent in this epoch or an adjacent one is registered and
/// is attributed, to the peer it was sent to where nobody else owns the tag.
pub proof fn law_send_resolve_round_trip(
    book: BookView,
    peer: NodeId,
    tag: Tag,
    host: Seq<u8>,
    sent: u64,
    now: u64,
    found: Option<NodeId>,
    tags: Seq<Tag>,
)
    requires
        send_ikm(book, peer) is Some,
        send_ikm(pruned(book, now), peer) == send_ikm(book, peer),
        tag.0@ == tag_bytes(send_ikm(book, peer)->0, host, (sent / EPOCH_SECONDS) as u64),
        sent / EPOCH_SECONDS <= now / EPOCH_SECONDS + 1,
        now / EPOCH_SECONDS <= sent / EPOCH_SECONDS + 1,
        resolves(pruned(book, now), tag, host, now, found),
        registers(pruned(book, now), tags, host, now),
    ensures
        tags.contains(tag),
        found is Some,
        (forall|other: NodeId|
            other != peer ==> !owns_tag(pruned(book, now), other, tag, host, now)) ==> found
            == Some(peer),
{
    law_sent_tag_resolves_across_epochs(pruned(book, now), peer, tag, host, sent, now);
}

/// A tag is attributed to somebody exactly if it is registered: any other tag is
/// nobody's.
pub proof fn law_only_registered_tags_resolve(
    book: BookView,
    tag: Tag,
    host: Seq<u8>,
    now: u64,
    found: Option<NodeId>,
    tags: Seq<Tag>,
)
    requires
        resolves(book, tag, host, now, found),
        registers(book, tags, host, now),
    ensures
        found is Some <==> tags.contains(tag),
{
}

/// Two ends whose clocks differ by less than an hour still meet: the epoch one
/// end sends in lies in the window that the other registers.
pub proof fn law_window_tolerates_skew(sender_now: u64, receiver_now: u64)
    requires
        sender_now <= receiver_now + EPOCH_SECONDS,
        receiver_now <= sender_now + EPOCH_SECONDS,
    ensures
        epoch_window(receiver_now).contains((sender_now / EPOCH_SECONDS) as u64),
{
    let w = epoch_window(receiver_now);
    let sent = (sender_now / EPOCH_SECONDS) as u64;
    let current = (receiver_now / EPOCH_SECONDS) as u64;
    if current == 0 {
        if sent == current {
            assert(w[0] == sent);
        } else {
            assert(w[1] == sent);
        }
    } else if sent + 1 == current {
        assert(w[0] == sent);
    } else if sent == current {
        assert(w[1] == sent);
    } else {
        assert(w[2] == sent);
    }
}

} // verus!
