//! Who is admitted: cards that are current and were not replayed, and leases that
//! end.
use super::{LanError, MAX_CONNECTIONS};
use crate::bytes::same_array;
use crate::card::{
    card_verdict, self_signed, Card, CardView, VerifyContext, MAX_CARD_BYTES, MAX_LIFETIME_SECONDS,
    MIN_CARD_BYTES,
};
use crate::crypto::{sha256, sha256_digest};
use crate::id::NodeId;
use crate::session::later;
use crate::table::{has_key, Table};
use vstd::prelude::*;

verus! {

/// How many peers a LAN endpoint remembers.
pub const MAX_ADMITTED_PEERS: usize = 256;

/// The two clocks a lease is held to: wall-clock seconds and milliseconds that do
/// not jump.
#[derive(Clone, Copy, Debug, PartialEq, Eq, Structural)]
pub struct Clock {
    pub unix: u64,
    pub now: u64,
}

/// What is kept of the last accepted card of a peer.  The exact current card may be
/// presented again; conflicting and older cards are refused.
#[derive(Clone, Copy, Debug, PartialEq, Eq)]
pub struct CardCheckpoint {
    pub serial: u64,
    pub sha256: [u8; 32],
}

impl CardCheckpoint {
    /// Whether two checkpoints are the same.
    fn same(&self, other: &Self) -> (r: bool)
        ensures
            r == (*self == *other),
    {
        self.serial == other.serial && same_array(&self.sha256, &other.sha256)
    }
}

/// The serial that a card must exceed: the one that was kept, or the one before it
/// when it is the same card again.
pub open spec fn card_floor(kept: Option<CardCheckpoint>, digest: Seq<u8>) -> u64 {
    match kept {
        None => 0,
        Some(kept) => if kept.sha256@ == digest && kept.serial > 0 {
            (kept.serial - 1) as u64
        } else {
            kept.serial
        },
    }
}

/// The card that these bytes are, if it is accepted from `expected` at `now` after
/// what was kept.
pub open spec fn lan_card(
    expected: NodeId,
    raw: Seq<u8>,
    kept: Option<CardCheckpoint>,
    now: u64,
) -> Option<CardView> {
    let digest = sha256_digest(raw);
    let ctx = VerifyContext {
        now,
        highest_seen_serial: card_floor(kept, digest),
        expected_node_id: Some(expected),
    };
    if raw.len() < MIN_CARD_BYTES || raw.len() > MAX_CARD_BYTES || (kept matches Some(kept)
        && kept.serial == 0) {
        None
    } else {
        match card_verdict(raw, ctx, self_signed(raw)) {
            Err(_) => None,
            Ok(card) => if kept matches Some(kept) && kept.sha256@ == digest && kept.serial
                != card.serial {
                None
            } else {
                Some(card)
            },
        }
    }
}

/// Verify a card of a peer against what was kept of its last one.
pub fn verify_card(expected: NodeId, raw: &[u8], kept: Option<CardCheckpoint>, now: u64) -> (r:
    Result<(Card, CardCheckpoint), LanError>)
    ensures
        match r {
            Ok((card, checkpoint)) => lan_card(expected, raw@, kept, now) == Some(card@)
                && card.well_formed() && card@.raw == raw@ && checkpoint.serial == card@.serial
                && checkpoint.sha256@ == sha256_digest(raw@),
            Err(error) => error == LanError::Card && lan_card(expected, raw@, kept, now) is None,
        },
{
    let unusable = match kept {
        Some(kept) => kept.serial == 0,
        None => false,
    };
    if raw.len() < MIN_CARD_BYTES || raw.len() > MAX_CARD_BYTES || unusable {
        return Err(LanError::Card);
    }
    let digest = sha256(raw);
    let floor: u64 = match kept {
        None => 0,
        Some(kept) => {
            let same = same_array(&kept.sha256, &digest);
            proof {
                if kept.sha256@ == digest@ {
                    assert(kept.sha256 =~= digest);
                }
            }
            if same {
                kept.serial - 1
            } else {
                kept.serial
            }
        },
    };
    let ctx = VerifyContext::new(now).expecting(expected).after_serial(floor);
    match Card::verify(raw, &ctx) {
        Err(_) => Err(LanError::Card),
        Ok(card) => {
            let serial: u64 = card.serial_number();
            let changed = match kept {
                Some(kept) => {
                    proof {
                        if kept.sha256@ == digest@ {
                            assert(kept.sha256 =~= digest);
                        }
                    }
                    same_array(&kept.sha256, &digest) && kept.serial != serial
                },
                None => false,
            };
            if changed {
                return Err(LanError::Card);
            }
            Ok((card, CardCheckpoint { serial, sha256: digest }))
        },
    }
}

/// Verify a card of a peer; what comes back is kept before the peer is admitted or
/// dialled.
pub fn verify_peer_card(
    expected: NodeId,
    raw: &[u8],
    saved: Option<CardCheckpoint>,
    now: u64,
) -> (r: Result<CardCheckpoint, LanError>)
    ensures
        match r {
            Ok(checkpoint) => lan_card(expected, raw@, saved, now) matches Some(card)
                && checkpoint.serial == card.serial && checkpoint.sha256@ == sha256_digest(raw@),
            Err(error) => error == LanError::Card && lan_card(expected, raw@, saved, now) is None,
        },
{
    match verify_card(expected, raw, saved, now) {
        Ok((_, checkpoint)) => Ok(checkpoint),
        Err(error) => Err(error),
    }
}

/// A card that was accepted once is accepted again after its own checkpoint, as
/// long as its dates allow, and no other card with its serial or a lower one is.
pub proof fn law_checkpoints_ratchet(
    expected: NodeId,
    raw: Seq<u8>,
    other: Seq<u8>,
    saved: Option<CardCheckpoint>,
    kept: CardCheckpoint,
    now: u64,
)
    requires
        lan_card(expected, raw, saved, now) matches Some(card) && kept.serial == card.serial
            && kept.sha256@ == sha256_digest(raw),
    ensures
        kept.serial > 0,
        lan_card(expected, raw, Some(kept), now) == lan_card(expected, raw, saved, now),
        sha256_digest(other) != sha256_digest(raw) ==> (lan_card(
            expected,
            other,
            Some(kept),
            now,
        ) matches Some(card) ==> card.serial > kept.serial),
{
}

// ---------------------------------------------------------------------------
// Leases
// ---------------------------------------------------------------------------
/// An admission in force: it ends with its card, at its deadline, or when it is
/// revoked.
#[derive(Debug)]
pub struct Lease {
    id: u64,
    active: bool,
    expires_at: u64,
    deadline: u64,
    connections: Vec<u64>,
}

/// A lease as mathematics.
#[verifier::ext_equal]
pub struct LeaseView {
    pub id: u64,
    pub active: bool,
    pub expires_at: u64,
    pub deadline: u64,
    /// The connections that live by it.
    pub connections: Seq<u64>,
}

impl View for Lease {
    type V = LeaseView;

    closed spec fn view(&self) -> LeaseView {
        LeaseView {
            id: self.id,
            active: self.active,
            expires_at: self.expires_at,
            deadline: self.deadline,
            connections: self.connections@,
        }
    }
}

/// The milliseconds until a wall-clock time.
pub open spec fn until(expires_at: u64, unix: u64) -> u64 {
    if expires_at <= unix {
        0
    } else if (expires_at - unix) * 1_000 > u64::MAX {
        u64::MAX
    } else {
        ((expires_at - unix) * 1_000) as u64
    }
}

/// A new lease: it ends with the card or after `max_lifetime` milliseconds,
/// whichever is first.
pub open spec fn new_lease(id: u64, expires_at: u64, max_lifetime: u64, clock: Clock) -> LeaseView {
    let left = until(expires_at, clock.unix);
    LeaseView {
        id,
        active: true,
        expires_at,
        deadline: later(
            clock.now,
            if max_lifetime <= left {
                max_lifetime
            } else {
                left
            },
        ),
        connections: Seq::empty(),
    }
}

/// Whether a lease is in force.
pub open spec fn in_force(lease: LeaseView, clock: Clock) -> bool {
    lease.active && clock.unix < lease.expires_at && clock.now < lease.deadline
}

/// The connections that are still open, in order.
pub open spec fn still_open(connections: Seq<u64>, open: Seq<u64>) -> Seq<u64>
    decreases connections.len(),
{
    if connections.len() == 0 {
        Seq::empty()
    } else {
        let rest = still_open(connections.drop_last(), open);
        if open.contains(connections.last()) {
            rest.push(connections.last())
        } else {
            rest
        }
    }
}

/// The connections without one of them.
pub open spec fn without_connection(connections: Seq<u64>, id: u64) -> Seq<u64>
    decreases connections.len(),
{
    if connections.len() == 0 {
        Seq::empty()
    } else {
        let rest = without_connection(connections.drop_last(), id);
        if connections.last() != id {
            rest.push(connections.last())
        } else {
            rest
        }
    }
}

/// What became of a connection that asked for a lease.
#[derive(Debug)]
pub enum Attached {
    /// It lives by the lease now; these older ones are closed.
    Joined(Vec<u64>),
    /// It is closed.
    Refused(LanError),
}

/// The lease after a connection asked for it, and the connections it replaces or
/// the reason it is refused.
pub open spec fn attaching(
    lease: LeaseView,
    connection: u64,
    replace: bool,
    open: Seq<u64>,
    clock: Clock,
) -> (LeaseView, Result<Seq<u64>, LanError>) {
    let alive = still_open(lease.connections, open);
    let kept = if replace {
        Seq::empty()
    } else {
        alive
    };
    let closed = if replace {
        alive
    } else {
        Seq::empty()
    };
    if !in_force(lease, clock) {
        (lease, Err(LanError::Admission))
    } else if kept.len() >= MAX_CONNECTIONS {
        (LeaseView { connections: kept, ..lease }, Err(LanError::Capacity))
    } else {
        (LeaseView { connections: kept.push(connection), ..lease }, Ok(closed))
    }
}

fn among(list: &Vec<u64>, id: u64) -> (r: bool)
    ensures
        r == list@.contains(id),
{
    let mut i: usize = 0;
    while i < list.len()
        invariant
            i <= list.len(),
            forall|k: int| 0 <= k < i ==> list@[k] != id,
        decreases list.len() - i,
    {
        if list[i] == id {
            assert(list@[i as int] == id);
            return true;
        }
        i += 1;
    }
    false
}

impl Lease {
    /// A new lease.
    pub fn new(id: u64, expires_at: u64, max_lifetime: u64, clock: Clock) -> (r: Self)
        ensures
            r@ == new_lease(id, expires_at, max_lifetime, clock),
    {
        let left: u64 = if expires_at <= clock.unix {
            0
        } else if expires_at - clock.unix > u64::MAX / 1_000 {
            u64::MAX
        } else {
            (expires_at - clock.unix) * 1_000
        };
        let wait: u64 = if max_lifetime <= left {
            max_lifetime
        } else {
            left
        };
        let deadline: u64 = if clock.now <= u64::MAX - wait {
            clock.now + wait
        } else {
            u64::MAX
        };
        Lease { id, active: true, expires_at, deadline, connections: Vec::new() }
    }

    /// Whether the lease is in force.
    pub fn valid(&self, clock: Clock) -> (r: bool)
        ensures
            r == in_force(self@, clock),
    {
        self.active && clock.unix < self.expires_at && clock.now < self.deadline
    }

    /// The id of the lease.
    pub fn id(&self) -> (r: u64)
        ensures
            r == self@.id,
    {
        self.id
    }

    /// When the card behind the lease expires.
    pub fn expires_at(&self) -> (r: u64)
        ensures
            r == self@.expires_at,
    {
        self.expires_at
    }

    /// When the lease ends at the latest, in milliseconds.
    pub fn deadline(&self) -> (r: u64)
        ensures
            r == self@.deadline,
    {
        self.deadline
    }

    /// End the lease; the connections that come back are closed.
    pub fn revoke(&mut self) -> (r: Vec<u64>)
        ensures
            r@ == old(self)@.connections,
            final(self)@ == (LeaseView {
                active: false,
                connections: Seq::empty(),
                ..old(self)@
            }),
    {
        let mut gone: Vec<u64> = Vec::new();
        core::mem::swap(&mut gone, &mut self.connections);
        self.active = false;
        gone
    }

    /// A connection asks to live by the lease.  `open` are the connections that have
    /// not closed.
    pub fn attach(&mut self, connection: u64, replace: bool, open: &Vec<u64>, clock: Clock) -> (r:
        Attached)
        ensures
            ({
                let (after, outcome) = attaching(old(self)@, connection, replace, open@, clock);
                &&& final(self)@ == after
                &&& match (r, outcome) {
                    (Attached::Joined(closed), Ok(gone)) => closed@ == gone,
                    (Attached::Refused(error), Err(fault)) => error == fault,
                    _ => false,
                }
            }),
    {
        if !self.valid(clock) {
            return Attached::Refused(LanError::Admission);
        }
        let mut alive: Vec<u64> = Vec::new();
        let mut i: usize = 0;
        while i < self.connections.len()
            invariant
                i <= self.connections.len(),
                alive@ == still_open(self.connections@.take(i as int), open@),
            decreases self.connections.len() - i,
        {
            let id: u64 = self.connections[i];
            assert(self.connections@.take(i + 1).drop_last() =~= self.connections@.take(i as int));
            if among(open, id) {
                alive.push(id);
            }
            i += 1;
        }
        assert(self.connections@.take(i as int) =~= self.connections@);
        let mut closed: Vec<u64> = Vec::new();
        if replace {
            core::mem::swap(&mut closed, &mut alive);
        }
        if alive.len() >= MAX_CONNECTIONS {
            self.connections = alive;
            return Attached::Refused(LanError::Capacity);
        }
        alive.push(connection);
        self.connections = alive;
        Attached::Joined(closed)
    }

    /// A connection lives by the lease no more.
    pub fn detach(&mut self, connection: u64)
        ensures
            final(self)@ == (LeaseView {
                connections: without_connection(old(self)@.connections, connection),
                ..old(self)@
            }),
    {
        let mut left: Vec<u64> = Vec::new();
        let mut i: usize = 0;
        while i < self.connections.len()
            invariant
                i <= self.connections.len(),
                self@ == old(self)@,
                left@ == without_connection(self.connections@.take(i as int), connection),
            decreases self.connections.len() - i,
        {
            let id: u64 = self.connections[i];
            assert(self.connections@.take(i + 1).drop_last() =~= self.connections@.take(i as int));
            if id != connection {
                left.push(id);
            }
            i += 1;
        }
        assert(self.connections@.take(i as int) =~= self.connections@);
        self.connections = left;
    }
}

// ---------------------------------------------------------------------------
// The book
// ---------------------------------------------------------------------------
struct Record {
    checkpoint: CardCheckpoint,
    lease: Option<Lease>,
}

/// What the book holds of a peer.
#[verifier::ext_equal]
pub struct RecordView {
    pub checkpoint: CardCheckpoint,
    pub lease: Option<LeaseView>,
}

spec fn record_view(record: Record) -> RecordView {
    RecordView {
        checkpoint: record.checkpoint,
        lease: match record.lease {
            Some(lease) => Some(lease@),
            None => None,
        },
    }
}

/// The admitted peers of a LAN endpoint.
pub struct Book {
    records: Table<NodeId, Record>,
    generation: u64,
    next_lease: u64,
}

/// The admitted peers, as mathematics.
#[verifier::ext_equal]
pub struct AdmissionView {
    pub records: Map<NodeId, RecordView>,
    /// Advances whenever an admission changes.
    pub generation: u64,
    pub next_lease: u64,
}

impl View for Book {
    type V = AdmissionView;

    closed spec fn view(&self) -> AdmissionView {
        AdmissionView {
            records: self.records.map().map_values(|record: Record| record_view(record)),
            generation: self.generation,
            next_lease: self.next_lease,
        }
    }
}

/// The number after this one, or zero after the last.
pub open spec fn counted(n: u64) -> u64 {
    if n == u64::MAX {
        0
    } else {
        (n + 1) as u64
    }
}

/// The later of two checkpoints; two that disagree about one serial are a fault.
pub open spec fn latest(
    current: Option<CardCheckpoint>,
    saved: Option<CardCheckpoint>,
) -> Result<Option<CardCheckpoint>, LanError> {
    match (current, saved) {
        (Some(a), Some(b)) => if a.serial == b.serial && a != b {
            Err(LanError::Card)
        } else if a.serial > b.serial {
            Ok(Some(a))
        } else {
            Ok(Some(b))
        },
        (Some(a), None) => Ok(Some(a)),
        (None, b) => Ok(b),
    }
}

fn latest_checkpoint(current: Option<CardCheckpoint>, saved: Option<CardCheckpoint>) -> (r: Result<
    Option<CardCheckpoint>,
    LanError,
>)
    ensures
        r == latest(current, saved),
{
    match (current, saved) {
        (Some(a), Some(b)) => if a.serial == b.serial && !a.same(&b) {
            Err(LanError::Card)
        } else if a.serial > b.serial {
            Ok(Some(a))
        } else {
            Ok(Some(b))
        },
        (Some(a), None) => Ok(Some(a)),
        (None, b) => Ok(b),
    }
}

/// What the book keeps of a peer's last card.
pub open spec fn kept_of(book: AdmissionView, peer: NodeId) -> Option<CardCheckpoint> {
    if book.records.contains_key(peer) {
        Some(book.records[peer].checkpoint)
    } else {
        None
    }
}

/// The lease of a peer.
pub open spec fn lease_of(book: AdmissionView, peer: NodeId) -> Option<LeaseView> {
    if book.records.contains_key(peer) {
        book.records[peer].lease
    } else {
        None
    }
}

/// The connections that live by a lease, if there is one.
pub open spec fn living_by(lease: Option<LeaseView>) -> Seq<u64> {
    match lease {
        Some(lease) => lease.connections,
        None => Seq::empty(),
    }
}

/// What an admission of `peer` is told, or the card it is admitted by.
pub open spec fn admission(
    book: AdmissionView,
    peer: NodeId,
    raw: Seq<u8>,
    saved: Option<CardCheckpoint>,
    clock: Clock,
) -> Result<CardView, LanError> {
    if !book.records.contains_key(peer) && book.records.dom().len() >= MAX_ADMITTED_PEERS {
        Err(LanError::Capacity)
    } else {
        match latest(kept_of(book, peer), saved) {
            Err(error) => Err(error),
            Ok(floor) => match lan_card(peer, raw, floor, clock.unix) {
                Some(card) => Ok(card),
                None => Err(LanError::Card),
            },
        }
    }
}

/// The book after a peer was admitted by a card.
pub open spec fn admitted(
    book: AdmissionView,
    peer: NodeId,
    checkpoint: CardCheckpoint,
    expires_at: u64,
    clock: Clock,
) -> AdmissionView {
    AdmissionView {
        records: book.records.insert(
            peer,
            RecordView {
                checkpoint,
                lease: Some(
                    new_lease(
                        book.next_lease,
                        expires_at,
                        (MAX_LIFETIME_SECONDS * 1_000) as u64,
                        clock,
                    ),
                ),
            },
        ),
        generation: counted(book.generation),
        next_lease: counted(book.next_lease),
    }
}

/// The book with another lease for a peer that it holds.
pub open spec fn with_lease(
    book: AdmissionView,
    peer: NodeId,
    lease: Option<LeaseView>,
) -> AdmissionView {
    AdmissionView {
        records: book.records.insert(peer, RecordView { lease, ..book.records[peer] }),
        ..book
    }
}

/// Kept while a peer remains admitted.  When it is released its streams end; an
/// older handle does not end a newer admission.
pub struct LanAdmission {
    pub peer: NodeId,
    pub checkpoint: CardCheckpoint,
    pub card: Card,
    pub lease: u64,
}

impl LanAdmission {
    /// The admitted peer.
    pub fn peer(&self) -> (r: NodeId)
        ensures
            r == self.peer,
    {
        self.peer
    }

    /// What is kept of the peer's card.
    pub fn checkpoint(&self) -> (r: &CardCheckpoint)
        ensures
            *r == self.checkpoint,
    {
        &self.checkpoint
    }
}

/// Whether a record's lease is `id`.
pub open spec fn leased_as(book: AdmissionView, peer: NodeId, id: u64) -> bool {
    lease_of(book, peer) matches Some(lease) && lease.id == id
}

/// Whether `after` and `r` are what an admission by a card leads to.
pub open spec fn let_in_by(
    before: AdmissionView,
    after: AdmissionView,
    peer: NodeId,
    raw: Seq<u8>,
    saved: Option<CardCheckpoint>,
    clock: Clock,
    r: Result<(LanAdmission, Vec<u64>), LanError>,
) -> bool {
    match (r, admission(before, peer, raw, saved, clock)) {
        (Ok((handle, closed)), Ok(card)) => {
            &&& handle.peer == peer
            &&& handle.card@ == card
            &&& handle.card.well_formed()
            &&& handle.checkpoint.serial == card.serial
            &&& handle.checkpoint.sha256@ == sha256_digest(raw)
            &&& handle.lease == before.next_lease
            &&& closed@ == living_by(lease_of(before, peer))
            &&& after == admitted(before, peer, handle.checkpoint, card.expires_at, clock)
        },
        (Err(error), Err(fault)) => error == fault && after == before,
        _ => false,
    }
}

impl Book {
    /// No peer occurs twice.
    pub closed spec fn well_formed(self) -> bool {
        self.records.well_formed()
    }

    /// Nobody is admitted.
    pub fn new() -> (r: Self)
        ensures
            r.well_formed(),
            r@ == (AdmissionView { records: Map::empty(), generation: 0, next_lease: 0 }),
    {
        let r = Book { records: Table::new(), generation: 0, next_lease: 0 };
        assert(r@.records =~= Map::empty());
        r
    }

    /// How often an admission has changed.
    pub fn generation(&self) -> (r: u64)
        ensures
            r == self@.generation,
    {
        self.generation
    }

    /// Admit a peer on an endpoint: the endpoint stands, and a node does not admit
    /// itself.
    pub fn admit_peer(
        &mut self,
        own: NodeId,
        standing: Result<(), LanError>,
        peer: NodeId,
        raw: &[u8],
        saved: Option<CardCheckpoint>,
        clock: Clock,
    ) -> (r: Result<(LanAdmission, Vec<u64>), LanError>)
        requires
            old(self).well_formed(),
        ensures
            final(self).well_formed(),
            match standing {
                Err(error) => r is Err && r->Err_0 == error && final(self)@ == old(self)@,
                Ok(()) => if peer == own {
                    r is Err && r->Err_0 == LanError::Identity && final(self)@ == old(self)@
                } else {
                    let_in_by(old(self)@, final(self)@, peer, raw@, saved, clock, r)
                },
            },
    {
        match standing {
            Err(error) => {
                return Err(error);
            },
            Ok(()) => {},
        }
        if peer.same(&own) {
            return Err(LanError::Identity);
        }
        self.let_in(peer, raw, saved, clock)
    }

    /// Admit a peer by its card.  The handle, and the connections of the admission
    /// it replaces, which are closed.
    pub fn let_in(
        &mut self,
        peer: NodeId,
        raw: &[u8],
        saved: Option<CardCheckpoint>,
        clock: Clock,
    ) -> (r: Result<(LanAdmission, Vec<u64>), LanError>)
        requires
            old(self).well_formed(),
        ensures
            final(self).well_formed(),
            let_in_by(old(self)@, final(self)@, peer, raw@, saved, clock, r),
    {
        let ghost before = self@;
        proof {
            assert(before.records.dom() =~= self.records.map().dom());
        }
        if !self.records.contains(&peer) && self.records.len() >= MAX_ADMITTED_PEERS {
            return Err(LanError::Capacity);
        }
        let current = match self.records.get(&peer) {
            Some(record) => Some(record.checkpoint),
            None => None,
        };
        let floor = match latest_checkpoint(current, saved) {
            Ok(floor) => floor,
            Err(error) => {
                return Err(error);
            },
        };
        let (card, checkpoint) = match verify_card(peer, raw, floor, clock.unix) {
            Ok(found) => found,
            Err(error) => {
                return Err(error);
            },
        };
        let lease_id: u64 = self.next_lease;
        let lease = Lease::new(lease_id, card.expiry(), MAX_LIFETIME_SECONDS * 1_000, clock);
        let record = Record { checkpoint, lease: Some(lease) };
        let ghost added = record_view(record);
        let previous = self.records.insert(peer, record);
        self.generation = self.generation.wrapping_add(1);
        self.next_lease = self.next_lease.wrapping_add(1);
        proof {
            assert(self@.records =~= before.records.insert(peer, added));
        }
        let closed = match previous {
            Some(mut record) => match record.lease {
                Some(mut lease) => lease.revoke(),
                None => Vec::new(),
            },
            None => Vec::new(),
        };
        Ok((LanAdmission { peer, checkpoint, card, lease: lease_id }, closed))
    }

    /// The lease of a peer, if one is in force.
    pub fn get(&self, peer: NodeId, clock: Clock) -> (r: Option<u64>)
        requires
            self.well_formed(),
        ensures
            match r {
                Some(id) => lease_of(self@, peer) matches Some(lease) && in_force(lease, clock)
                    && lease.id == id,
                None => !(lease_of(self@, peer) matches Some(lease) && in_force(lease, clock)),
            },
    {
        match self.records.get(&peer) {
            Some(record) => match &record.lease {
                Some(lease) => if lease.valid(clock) {
                    Some(lease.id())
                } else {
                    None
                },
                None => None,
            },
            None => None,
        }
    }

    /// Whether the lease of a handle is in force.
    pub fn holds(&self, peer: NodeId, lease: u64, clock: Clock) -> (r: bool)
        requires
            self.well_formed(),
        ensures
            r == (leased_as(self@, peer, lease) && in_force(lease_of(self@, peer)->0, clock)),
    {
        match self.get(peer, clock) {
            Some(id) => id == lease,
            None => false,
        }
    }

    /// When the lease of a handle ends, if the handle is the current one.
    pub fn deadline(&self, peer: NodeId, lease: u64) -> (r: Option<u64>)
        requires
            self.well_formed(),
        ensures
            r == if leased_as(self@, peer, lease) {
                Some(lease_of(self@, peer)->0.deadline)
            } else {
                None
            },
    {
        match self.records.get(&peer) {
            Some(record) => match &record.lease {
                Some(found) => if found.id() == lease {
                    Some(found.deadline())
                } else {
                    None
                },
                None => None,
            },
            None => None,
        }
    }

    fn take_record(&mut self, peer: NodeId, lease: u64) -> (r: Option<(CardCheckpoint, Lease)>)
        requires
            old(self).well_formed(),
        ensures
            final(self).well_formed(),
            match r {
                Some((checkpoint, found)) => leased_as(old(self)@, peer, lease) && Some(found@)
                    == lease_of(old(self)@, peer) && checkpoint
                    == old(self)@.records[peer].checkpoint && final(self)@ == (AdmissionView {
                    records: old(self)@.records.remove(peer),
                    ..old(self)@
                }),
                None => !leased_as(old(self)@, peer, lease) && final(self)@ == old(self)@,
            },
    {
        let owned = match self.records.get(&peer) {
            Some(record) => match &record.lease {
                Some(found) => found.id() == lease,
                None => false,
            },
            None => false,
        };
        if !owned {
            return None;
        }
        match self.records.remove(&peer) {
            Some(record) => {
                assert(self@.records =~= old(self)@.records.remove(peer));
                match record.lease {
                    Some(found) => Some((record.checkpoint, found)),
                    None => {
                        assert(false);
                        None
                    },
                }
            },
            None => {
                assert(false);
                None
            },
        }
    }

    fn put_record(&mut self, peer: NodeId, checkpoint: CardCheckpoint, lease: Lease)
        requires
            old(self).well_formed(),
        ensures
            final(self).well_formed(),
            final(self)@ == (AdmissionView {
                records: old(self)@.records.insert(
                    peer,
                    RecordView { checkpoint, lease: Some(lease@) },
                ),
                ..old(self)@
            }),
    {
        let record = Record { checkpoint, lease: Some(lease) };
        let ghost added = record_view(record);
        let _ = self.records.insert(peer, record);
        assert(self@.records =~= old(self)@.records.insert(peer, added));
    }

    /// Release a handle: its admission ends, and the connections that come back are
    /// closed.  A newer admission of the same peer stays.
    pub fn release(&mut self, peer: NodeId, lease: u64) -> (r: Vec<u64>)
        requires
            old(self).well_formed(),
        ensures
            final(self).well_formed(),
            if leased_as(old(self)@, peer, lease) {
                let held = lease_of(old(self)@, peer)->0;
                r@ == held.connections && final(self)@ == with_lease(
                    old(self)@,
                    peer,
                    Some(LeaseView { active: false, connections: Seq::empty(), ..held }),
                )
            } else {
                r@.len() == 0 && final(self)@ == old(self)@
            },
    {
        match self.take_record(peer, lease) {
            Some((checkpoint, mut found)) => {
                let closed = found.revoke();
                self.put_record(peer, checkpoint, found);
                proof {
                    let held = lease_of(old(self)@, peer)->0;
                    let ended = LeaseView { active: false, connections: Seq::empty(), ..held };
                    assert(self@ =~= with_lease(old(self)@, peer, Some(ended)));
                }
                closed
            },
            None => Vec::new(),
        }
    }

    /// A connection asks to live by the lease of a peer.
    pub fn attach(
        &mut self,
        peer: NodeId,
        lease: u64,
        connection: u64,
        open: &Vec<u64>,
        clock: Clock,
    ) -> (r: Attached)
        requires
            old(self).well_formed(),
        ensures
            final(self).well_formed(),
            if leased_as(old(self)@, peer, lease) {
                let (after, outcome) = attaching(
                    lease_of(old(self)@, peer)->0,
                    connection,
                    true,
                    open@,
                    clock,
                );
                &&& final(self)@ == with_lease(old(self)@, peer, Some(after))
                &&& match (r, outcome) {
                    (Attached::Joined(closed), Ok(gone)) => closed@ == gone,
                    (Attached::Refused(error), Err(fault)) => error == fault,
                    _ => false,
                }
            } else {
                r == Attached::Refused(LanError::Admission) && final(self)@ == old(self)@
            },
    {
        match self.take_record(peer, lease) {
            Some((checkpoint, mut found)) => {
                let outcome = found.attach(connection, true, open, clock);
                self.put_record(peer, checkpoint, found);
                assert(self@ =~= with_lease(old(self)@, peer, Some(found@)));
                outcome
            },
            None => Attached::Refused(LanError::Admission),
        }
    }

    /// A connection lives by the lease of a peer no more.
    pub fn detach(&mut self, peer: NodeId, lease: u64, connection: u64)
        requires
            old(self).well_formed(),
        ensures
            final(self).well_formed(),
            final(self)@ == if leased_as(old(self)@, peer, lease) {
                let held = lease_of(old(self)@, peer)->0;
                with_lease(
                    old(self)@,
                    peer,
                    Some(
                        LeaseView {
                            connections: without_connection(held.connections, connection),
                            ..held
                        },
                    ),
                )
            } else {
                old(self)@
            },
    {
        if let Some((checkpoint, mut found)) = self.take_record(peer, lease) {
            found.detach(connection);
            self.put_record(peer, checkpoint, found);
            assert(self@ =~= with_lease(old(self)@, peer, Some(found@)));
        }
    }
}

/// Whether the lease of a record ends: every lease, or one that is not in force.
pub open spec fn ends(record: RecordView, all: bool, clock: Clock) -> bool {
    record.lease matches Some(lease) && (all || !in_force(lease, clock))
}

/// A record after its lease ended, if it did.
pub open spec fn ended(record: RecordView, all: bool, clock: Clock) -> RecordView {
    if ends(record, all, clock) {
        RecordView { lease: None, ..record }
    } else {
        record
    }
}

/// Whether a connection lived by a lease of a peer that ends.
pub open spec fn orphaned(
    book: AdmissionView,
    peer: NodeId,
    connection: u64,
    all: bool,
    clock: Clock,
) -> bool {
    book.records.contains_key(peer) && ends(book.records[peer], all, clock) && living_by(
        book.records[peer].lease,
    ).contains(connection)
}

/// The book after leases ended.
pub open spec fn leases_ended(book: AdmissionView, all: bool, clock: Clock) -> AdmissionView {
    AdmissionView {
        records: book.records.map_values(|record: RecordView| ended(record, all, clock)),
        ..book
    }
}

fn append_ids(out: &mut Vec<u64>, more: &Vec<u64>)
    ensures
        final(out)@ == old(out)@ + more@,
{
    let mut i: usize = 0;
    while i < more.len()
        invariant
            i <= more.len(),
            out@ == old(out)@ + more@.take(i as int),
        decreases more.len() - i,
    {
        out.push(more[i]);
        i += 1;
        assert(out@ =~= old(out)@ + more@.take(i as int));
    }
    assert(more@.take(i as int) =~= more@);
}

impl Book {
    fn end_leases(&mut self, all: bool, clock: Clock) -> (r: Vec<u64>)
        requires
            old(self).well_formed(),
        ensures
            final(self).well_formed(),
            final(self)@ == leases_ended(old(self)@, all, clock),
            forall|connection: u64|
                r@.contains(connection) <==> exists|peer: NodeId|
                    orphaned(old(self)@, peer, connection, all, clock),
    {
        let ghost before = self@;
        let mut kept: Table<NodeId, Record> = Table::new();
        let mut gone: Vec<u64> = Vec::new();
        while self.records.len() > 0
            invariant
                self.records.well_formed(),
                kept.well_formed(),
                self@.generation == before.generation,
                self@.next_lease == before.next_lease,
                forall|peer: NodeId|
                    before.records.contains_key(peer) <==> self.records.map().contains_key(peer)
                        || kept.map().contains_key(peer),
                forall|peer: NodeId|
                    !(#[trigger] self.records.map().contains_key(peer) && kept.map().contains_key(
                        peer,
                    )),
                forall|peer: NodeId| #[trigger]
                    self.records.map().contains_key(peer) ==> record_view(
                        self.records.map()[peer],
                    ) == before.records[peer],
                forall|peer: NodeId| #[trigger]
                    kept.map().contains_key(peer) ==> record_view(kept.map()[peer]) == ended(
                        before.records[peer],
                        all,
                        clock,
                    ),
                forall|connection: u64|
                    gone@.contains(connection) <==> exists|peer: NodeId|
                        kept.map().contains_key(peer) && #[trigger] orphaned(
                            before,
                            peer,
                            connection,
                            all,
                            clock,
                        ),
            decreases self.records.pairs().len(),
        {
            let ghost kept_before = kept.map();
            let ghost gone_before = gone@;
            let (peer, mut record) = self.records.remove_at(0);
            let ghost was = before.records[peer];
            assert(record_view(record) == was);
            let over = match &record.lease {
                Some(lease) => all || !lease.valid(clock),
                None => false,
            };
            assert(over == ends(was, all, clock));
            if over {
                let mut lease: Option<Lease> = None;
                core::mem::swap(&mut lease, &mut record.lease);
                if let Some(mut found) = lease {
                    let closed = found.revoke();
                    assert(closed@ == living_by(was.lease));
                    append_ids(&mut gone, &closed);
                }
            }
            assert(record_view(record) == ended(was, all, clock));
            let _ = kept.insert(peer, record);
            proof {
                assert forall|connection: u64|
                    gone@.contains(connection) == exists|p: NodeId|
                        kept.map().contains_key(p) && #[trigger] orphaned(
                            before,
                            p,
                            connection,
                            all,
                            clock,
                        ) by {
                    if gone@.contains(connection) {
                        let k = choose|k: int| 0 <= k < gone@.len() && gone@[k] == connection;
                        if k < gone_before.len() {
                            assert(gone_before[k] == connection);
                            assert(gone_before.contains(connection));
                            let p = choose|p: NodeId|
                                kept_before.contains_key(p) && #[trigger] orphaned(
                                    before,
                                    p,
                                    connection,
                                    all,
                                    clock,
                                );
                            assert(kept.map().contains_key(p));
                        } else {
                            assert(living_by(was.lease)[k - gone_before.len()] == connection);
                            assert(orphaned(before, peer, connection, all, clock));
                            assert(kept.map().contains_key(peer));
                        }
                    }
                    if exists|p: NodeId|
                        kept.map().contains_key(p) && #[trigger] orphaned(
                            before,
                            p,
                            connection,
                            all,
                            clock,
                        ) {
                        let p = choose|p: NodeId|
                            kept.map().contains_key(p) && #[trigger] orphaned(
                                before,
                                p,
                                connection,
                                all,
                                clock,
                            );
                        if p == peer {
                            let lived = living_by(was.lease);
                            let k = choose|k: int| 0 <= k < lived.len() && lived[k] == connection;
                            assert(gone@[gone_before.len() + k] == connection);
                        } else {
                            assert(kept_before.contains_key(p));
                            assert(gone_before.contains(connection));
                            let k = choose|k: int|
                                0 <= k < gone_before.len() && gone_before[k] == connection;
                            assert(gone@[k] == connection);
                        }
                    }
                }
            }
        }
        proof {
            assert forall|peer: NodeId| !self.records.map().contains_key(peer) by {
                if self.records.map().contains_key(peer) {
                    assert(has_key(self.records.pairs(), peer));
                }
            }
        }
        self.records = kept;
        proof {
            assert(self@.records =~= leases_ended(before, all, clock).records);
            assert forall|connection: u64|
                gone@.contains(connection) == exists|peer: NodeId|
                    orphaned(before, peer, connection, all, clock) by {
                if exists|peer: NodeId| orphaned(before, peer, connection, all, clock) {
                    let p = choose|p: NodeId| orphaned(before, p, connection, all, clock);
                    assert(self.records.map().contains_key(p));
                }
            }
        }
        gone
    }

    /// End every admission; the connections that come back are closed.
    pub fn revoke_all(&mut self, clock: Clock) -> (r: Vec<u64>)
        requires
            old(self).well_formed(),
        ensures
            final(self).well_formed(),
            final(self)@ == (AdmissionView {
                generation: counted(old(self)@.generation),
                ..leases_ended(old(self)@, true, clock)
            }),
            forall|connection: u64|
                r@.contains(connection) <==> exists|peer: NodeId|
                    orphaned(old(self)@, peer, connection, true, clock),
    {
        let gone = self.end_leases(true, clock);
        self.generation = self.generation.wrapping_add(1);
        gone
    }

    /// End the admissions that are not in force any more; the connections that come
    /// back are closed.
    pub fn expire(&mut self, clock: Clock) -> (r: Vec<u64>)
        requires
            old(self).well_formed(),
        ensures
            final(self).well_formed(),
            final(self)@ == leases_ended(old(self)@, false, clock),
            forall|connection: u64|
                r@.contains(connection) <==> exists|peer: NodeId|
                    orphaned(old(self)@, peer, connection, false, clock),
    {
        self.end_leases(false, clock)
    }
}

/// After everything was revoked nobody is admitted, while what was kept of the
/// cards stays, so that an old card does not come back.
pub proof fn law_revocation_keeps_the_checkpoints(book: AdmissionView, peer: NodeId, clock: Clock)
    ensures
        lease_of(leases_ended(book, true, clock), peer) is None,
        kept_of(leases_ended(book, true, clock), peer) == kept_of(book, peer),
        lease_of(book, peer) matches Some(lease) && in_force(lease, clock) ==> lease_of(
            leases_ended(book, false, clock),
            peer,
        ) == lease_of(book, peer),
{
}

/// A peer that is admitted again is admitted by a serial that is no older, and the
/// handle of the earlier admission does not end the new one.
pub proof fn law_admissions_ratchet(
    book: AdmissionView,
    peer: NodeId,
    raw: Seq<u8>,
    saved: Option<CardCheckpoint>,
    clock: Clock,
)
    requires
        admission(book, peer, raw, saved, clock) is Ok,
        kept_of(book, peer) is Some,
    ensures
        admission(book, peer, raw, saved, clock)->Ok_0.serial >= kept_of(book, peer)->0.serial,
        admission(book, peer, raw, saved, clock)->Ok_0.expires_at > clock.unix,
        forall|old_id: u64, checkpoint: CardCheckpoint, expires_at: u64|
            old_id != book.next_lease ==> !#[trigger] leased_as(
                admitted(book, peer, checkpoint, expires_at, clock),
                peer,
                old_id,
            ),
{
}

} // verus!
