//! The outbound relay session: relay addresses, the driver that walks a relay
//! list with failover, and what a session does with each frame.
use crate::bytes::to_vec;
use crate::crypto::ed25519_signature;
use crate::id::{NodeId, TransportKey};
use crate::path::{copy_opt_text, opt_text};
use crate::path_socket::elapsed;
use crate::rendezvous::{epoch_index, tag_bytes, Tag, EPOCH_SECONDS};
use crate::rendezvous_book::{
    caching, entry_count, epoch_window, facing, owns_tag, pair_owns, pruned, send_ikm, BookView,
    SendKey, TagBook,
};
use crate::table::{has_key, keys_distinct, place};
use crate::text::{
    all_digits, ascii_lowered, chars_of, decimal, decimal_text, decimal_value, first_place,
    is_all_digits, last_place, lowercase, parse_decimal, same_text, slice_from, slice_to,
    starts_with, text_of, texts, unicode_lowercase,
};
use crate::wire::{
    frame_bytes, frame_valid, law_frame_encoding_is_injective, relay_auth_input, same_frame,
    sign_relay_auth, Frame, CLOSE_REASON_SUPERSEDED, MAX_QUEUED_FRAMES,
};
use vstd::prelude::*;
use vstd::string::*;
use vstd::utf8::*;

verus! {

/// One configured relay.
#[derive(Debug)]
pub struct RelaySpec {
    pub url: String,
    /// SHA-256 of the relay's DER leaf.
    pub cert_sha256: Option<String>,
    /// Accept any relay leaf.  Development only.
    pub insecure_tls: bool,
}

/// Why a relay address cannot be used.
#[derive(Clone, Copy, Debug, PartialEq, Eq, Structural)]
pub enum RelayUrlError {
    /// The address begins with neither `ws://` nor `wss://`.
    Scheme,
    /// The port is not a number of 16 bits.
    Port,
}

/// What a relay address names.
pub struct RelayUrl {
    pub tls: bool,
    pub host: Seq<char>,
    pub port: u16,
    pub path: Seq<char>,
}

/// The parts of an authority: a host and a port, or a host alone when nothing
/// follows the last colon but the scheme's port.
pub open spec fn authority_parts(tls: bool, authority: Seq<char>) -> Result<
    (Seq<char>, u16),
    RelayUrlError,
> {
    let default_port: u16 = if tls {
        443
    } else {
        80
    };
    match authority.index_of_last(':') {
        Some(at) => {
            let digits = authority.skip(at + 1);
            if at == 0 || !all_digits(digits) {
                Ok((authority, default_port))
            } else if digits.len() == 0 || decimal_value(digits) > 0xffff {
                Err(RelayUrlError::Port)
            } else {
                Ok((authority.take(at), decimal_value(digits) as u16))
            }
        },
        None => Ok((authority, default_port)),
    }
}

/// The parts of what follows the scheme, the host as it is written.
pub open spec fn rest_parts(tls: bool, rest: Seq<char>) -> Result<RelayUrl, RelayUrlError> {
    let authority = match rest.index_of_first('/') {
        Some(at) => rest.take(at),
        None => rest,
    };
    let path = match rest.index_of_first('/') {
        Some(at) => rest.skip(at),
        None => seq!['/'],
    };
    match authority_parts(tls, authority) {
        Ok((host, port)) => Ok(RelayUrl { tls, host, port, path }),
        Err(error) => Err(error),
    }
}

/// The parts of a relay address, the host as it is written.
pub open spec fn relay_url(url: Seq<char>) -> Result<RelayUrl, RelayUrlError> {
    if "wss://"@.is_prefix_of(url) {
        rest_parts(true, url.skip("wss://"@.len() as int))
    } else if "ws://"@.is_prefix_of(url) {
        rest_parts(false, url.skip("ws://"@.len() as int))
    } else {
        Err(RelayUrlError::Scheme)
    }
}

/// The host a node signs against: lowercase, without the port.
pub open spec fn relay_host(url: Seq<char>) -> Option<Seq<char>> {
    match relay_url(url) {
        Ok(parts) => Some(unicode_lowercase(parts.host)),
        Err(_) => None,
    }
}

fn split_authority(tls: bool, authority: &[char]) -> (r: Result<(String, u16), RelayUrlError>)
    ensures
        match (r, authority_parts(tls, authority@)) {
            (Ok(found), Ok(parts)) => found.0@ == parts.0 && found.1 == parts.1,
            (Err(a), Err(b)) => a == b,
            _ => false,
        },
{
    let default_port: u16 = if tls {
        443
    } else {
        80
    };
    if let Some(at) = last_place(authority, ':') {
        let digits = slice_from(authority, at + 1);
        if at > 0 && is_all_digits(digits) {
            return match parse_decimal(digits, 0xffff) {
                Some(port) => Ok((text_of(slice_to(authority, at)), port as u16)),
                None => Err(RelayUrlError::Port),
            };
        }
    }
    Ok((text_of(authority), default_port))
}

impl RelaySpec {
    /// A relay at `url`, verified against the bundled roots when it speaks TLS.
    pub fn plain(url: String) -> (r: Self)
        ensures
            r.url == url,
            r.cert_sha256 is None,
            !r.insecure_tls,
    {
        RelaySpec { url, cert_sha256: None, insecure_tls: false }
    }

    /// A relay whose leaf is pinned by fingerprint.
    pub fn pinned(url: String, cert_sha256: String) -> (r: Self)
        ensures
            r.url == url,
            r.cert_sha256 == Some(cert_sha256),
            !r.insecure_tls,
    {
        RelaySpec { url, cert_sha256: Some(cert_sha256), insecure_tls: false }
    }

    /// The parts of the address, the host as it is written.
    pub fn written_parts(&self) -> (r: Result<(bool, String, u16, String), RelayUrlError>)
        ensures
            match (r, relay_url(self.url@)) {
                (Ok(found), Ok(parts)) => found.0 == parts.tls && found.1@ == parts.host && found.2
                    == parts.port && found.3@ == parts.path,
                (Err(a), Err(b)) => a == b,
                _ => false,
            },
    {
        let url = chars_of(self.url.as_str());
        let tls = starts_with(&url, "wss://");
        if !tls && !starts_with(&url, "ws://") {
            return Err(RelayUrlError::Scheme);
        }
        let scheme = if tls {
            "wss://"
        } else {
            "ws://"
        };
        let rest = slice_from(&url, scheme.unicode_len());
        let (authority, path) = match first_place(rest, '/') {
            Some(at) => (slice_to(rest, at), text_of(slice_from(rest, at))),
            None => {
                let mut path = String::new();
                path.push('/');
                assert(path@ =~= seq!['/']);
                (rest, path)
            },
        };
        match split_authority(tls, authority) {
            Ok((host, port)) => Ok((tls, host, port, path)),
            Err(error) => Err(error),
        }
    }

    /// Whether TLS is spoken, the lowercase host, the port and the path.
    pub fn parts(&self) -> (r: Result<(bool, String, u16, String), RelayUrlError>)
        ensures
            match (r, relay_url(self.url@)) {
                (Ok(found), Ok(parts)) => found.0 == parts.tls && found.1@ == unicode_lowercase(
                    parts.host,
                ) && (is_ascii_chars(parts.host) ==> found.1@ == ascii_lowered(parts.host))
                    && found.2 == parts.port && found.3@ == parts.path,
                (Err(a), Err(b)) => a == b,
                _ => false,
            },
    {
        match self.written_parts() {
            Ok((tls, host, port, path)) => Ok((tls, lowercase(host.as_str()), port, path)),
            Err(error) => Err(error),
        }
    }

    /// The lowercase host a node signs against.  The port is not part of it.
    pub fn host(&self) -> (r: Result<String, RelayUrlError>)
        ensures
            match (r, relay_url(self.url@)) {
                (Ok(host), Ok(parts)) => host@ == unicode_lowercase(parts.host) && (is_ascii_chars(
                    parts.host,
                ) ==> host@ == ascii_lowered(parts.host)),
                (Err(a), Err(b)) => a == b,
                _ => false,
            },
            r is Ok <==> relay_host(self.url@) is Some,
            r matches Ok(host) ==> Some(host@) == relay_host(self.url@),
    {
        match self.parts() {
            Ok((_, host, _, _)) => Ok(host),
            Err(error) => Err(error),
        }
    }
}

impl Clone for RelaySpec {
    fn clone(&self) -> (r: Self)
        ensures
            r.url@ == self.url@,
            opt_text(r.cert_sha256) == opt_text(self.cert_sha256),
            r.insecure_tls == self.insecure_tls,
    {
        RelaySpec {
            url: self.url.clone(),
            cert_sha256: copy_opt_text(&self.cert_sha256),
            insecure_tls: self.insecure_tls,
        }
    }
}

/// The address the WebSocket request names: the parts of a relay address with
/// the port always written.
pub fn request_url(tls: bool, host: &str, port: u16, path: &str) -> (r: String)
    ensures
        r@ == (if tls {
            "wss"@
        } else {
            "ws"@
        }) + "://"@ + host@ + ":"@ + decimal_text(port as nat) + path@,
{
    let scheme = if tls {
        "wss"
    } else {
        "ws"
    };
    scheme.to_owned().concat("://").concat(host).concat(":").concat(
        decimal(port as u64).as_str(),
    ).concat(path)
}

// ---------------------------------------------------------------------------
// Status
// ---------------------------------------------------------------------------
/// Where a relay driver stands.
#[derive(Debug, PartialEq, Eq)]
pub enum RelayStatus {
    Connecting,
    Up(String),
    Reconnecting,
    /// An identity-mode driver lost its slot to a newer process and has stopped.
    /// Tag mode cannot attribute an eviction and reports `Reconnecting` instead.
    Superseded,
    /// The outage exceeded the session retry budget.  The driver keeps trying, so
    /// a later operation can connect; sessions which have failed do not resume.
    Failed,
}

/// A relay status as mathematics.
pub enum RelayStatusView {
    Connecting,
    Up(Seq<char>),
    Reconnecting,
    Superseded,
    Failed,
}

impl View for RelayStatus {
    type V = RelayStatusView;

    open spec fn view(&self) -> RelayStatusView {
        match self {
            RelayStatus::Connecting => RelayStatusView::Connecting,
            RelayStatus::Up(url) => RelayStatusView::Up(url@),
            RelayStatus::Reconnecting => RelayStatusView::Reconnecting,
            RelayStatus::Superseded => RelayStatusView::Superseded,
            RelayStatus::Failed => RelayStatusView::Failed,
        }
    }
}

impl Clone for RelayStatus {
    fn clone(&self) -> (r: Self)
        ensures
            r@ == self@,
    {
        match self {
            RelayStatus::Connecting => RelayStatus::Connecting,
            RelayStatus::Up(url) => RelayStatus::Up(url.clone()),
            RelayStatus::Reconnecting => RelayStatus::Reconnecting,
            RelayStatus::Superseded => RelayStatus::Superseded,
            RelayStatus::Failed => RelayStatus::Failed,
        }
    }
}

/// The relay a status names.
pub open spec fn up_url(status: RelayStatusView) -> Option<Seq<char>> {
    match status {
        RelayStatusView::Up(url) => Some(url),
        _ => None,
    }
}

/// What someone waiting for a relay learns from a status.
#[derive(Debug)]
pub enum WaitUp {
    Ready(String),
    GiveUp,
    Wait,
}

impl RelayStatus {
    /// Whether two statuses are the same.
    pub fn same(&self, other: &RelayStatus) -> (r: bool)
        ensures
            r == (self@ == other@),
    {
        match (self, other) {
            (RelayStatus::Connecting, RelayStatus::Connecting) => true,
            (RelayStatus::Up(a), RelayStatus::Up(b)) => same_text(a.as_str(), b.as_str()),
            (RelayStatus::Reconnecting, RelayStatus::Reconnecting) => true,
            (RelayStatus::Superseded, RelayStatus::Superseded) => true,
            (RelayStatus::Failed, RelayStatus::Failed) => true,
            _ => false,
        }
    }

    /// The relay the session is on.
    pub fn url(&self) -> (r: Option<String>)
        ensures
            opt_text(r) == up_url(self@),
    {
        match self {
            RelayStatus::Up(url) => Some(url.clone()),
            _ => None,
        }
    }

    /// Whether a wait for a relay is over, and how.
    pub fn wait_up(&self) -> (r: WaitUp)
        ensures
            r matches WaitUp::Ready(url) ==> self@ == RelayStatusView::Up(url@),
            r is Ready <==> self@ is Up,
            r is GiveUp <==> self@ is Superseded || self@ is Failed,
    {
        match self {
            RelayStatus::Up(url) => WaitUp::Ready(url.clone()),
            RelayStatus::Superseded | RelayStatus::Failed => WaitUp::GiveUp,
            _ => WaitUp::Wait,
        }
    }

    /// Take a new status, and say whether it is one: only a change is published.
    pub fn set_status(&mut self, next: RelayStatus) -> (changed: bool)
        ensures
            final(self)@ == next@,
            changed == (old(self)@ != next@),
    {
        let changed = !self.same(&next);
        *self = next;
        changed
    }
}

// ---------------------------------------------------------------------------
// Write readiness
// ---------------------------------------------------------------------------
/// Who waits for room in the send queue: one waker for each waiting id, so that
/// no waiter starves another.
#[derive(Debug)]
pub struct WriteReadiness<W> {
    wakers: Vec<(u64, W)>,
    next_id: u64,
}

/// The waiting list after `waker` took the place of `id`, or joined at the end.
pub open spec fn waiting<W>(wakers: Seq<(u64, W)>, id: u64, waker: W) -> Seq<(u64, W)> {
    if has_key(wakers, id) {
        wakers.update(place(wakers, id), (id, waker))
    } else {
        wakers.push((id, waker))
    }
}

/// The waiting list without `id`.
pub open spec fn not_waiting<W>(wakers: Seq<(u64, W)>, id: u64) -> Seq<(u64, W)> {
    if has_key(wakers, id) {
        wakers.remove(place(wakers, id))
    } else {
        wakers
    }
}

impl<W> View for WriteReadiness<W> {
    type V = Seq<(u64, W)>;

    closed spec fn view(&self) -> Seq<(u64, W)> {
        self.wakers@
    }
}

impl<W> Default for WriteReadiness<W> {
    fn default() -> (r: Self)
        ensures
            r.well_formed(),
            r@ == Seq::<(u64, W)>::empty(),
            r.spec_next_id() == 0,
    {
        WriteReadiness::new()
    }
}

impl<W> WriteReadiness<W> {
    /// The id the next waiter gets.
    pub closed spec fn spec_next_id(self) -> u64 {
        self.next_id
    }

    /// No id waits twice.
    pub open spec fn well_formed(self) -> bool {
        keys_distinct(self@)
    }

    /// Nobody waits.
    pub fn new() -> (r: Self)
        ensures
            r.well_formed(),
            r@ == Seq::<(u64, W)>::empty(),
            r.spec_next_id() == 0,
    {
        WriteReadiness { wakers: Vec::new(), next_id: 0 }
    }

    /// A fresh id.
    pub fn new_id(&mut self) -> (r: u64)
        ensures
            r == old(self).spec_next_id(),
            final(self)@ == old(self)@,
            final(self).spec_next_id() == if r == u64::MAX {
                0
            } else {
                r + 1
            },
    {
        let id: u64 = self.next_id;
        self.next_id = self.next_id.wrapping_add(1);
        id
    }

    fn find(&self, id: u64) -> (r: Option<usize>)
        requires
            self.well_formed(),
        ensures
            match r {
                Some(i) => i < self@.len() && has_key(self@, id) && i == place(self@, id),
                None => !has_key(self@, id),
            },
    {
        let mut i: usize = 0;
        while i < self.wakers.len()
            invariant
                i <= self.wakers.len(),
                self.well_formed(),
                forall|k: int| 0 <= k < i ==> (#[trigger] self@[k]).0 != id,
            decreases self.wakers.len() - i,
        {
            if self.wakers[i].0 == id {
                proof {
                    assert(self@[i as int].0 == id);
                    let at = place(self@, id);
                    assert(self@[at].0 == id);
                }
                return Some(i);
            }
            i += 1;
        }
        None
    }

    /// Wake `waker` for `id` when there is room; an id has one waker at a time.
    pub fn register(&mut self, id: u64, waker: W)
        requires
            old(self).well_formed(),
        ensures
            final(self).well_formed(),
            final(self)@ == waiting(old(self)@, id, waker),
            final(self).spec_next_id() == old(self).spec_next_id(),
    {
        match self.find(id) {
            Some(i) => {
                self.wakers.set(i, (id, waker));
            },
            None => {
                self.wakers.push((id, waker));
            },
        }
    }

    /// `id` waits no more.
    pub fn unregister(&mut self, id: u64)
        requires
            old(self).well_formed(),
        ensures
            final(self).well_formed(),
            final(self)@ == not_waiting(old(self)@, id),
            !has_key(final(self)@, id),
            final(self).spec_next_id() == old(self).spec_next_id(),
    {
        if let Some(i) = self.find(id) {
            let _ = self.wakers.remove(i);
            proof {
                let before = old(self)@;
                let after = self@;
                assert forall|k: int| 0 <= k < after.len() implies #[trigger] after[k]
                    == before[if k < i { k } else { k + 1 }] by {}
                assert(before[i as int].0 == id);
            }
        }
    }

    /// Everyone who waited, in the order of their arrival; nobody waits now.
    pub fn wake_all(&mut self) -> (r: Vec<W>)
        ensures
            final(self).well_formed(),
            final(self)@ == Seq::<(u64, W)>::empty(),
            final(self).spec_next_id() == old(self).spec_next_id(),
            r@ == old(self)@.map_values(|pair: (u64, W)| pair.1),
    {
        let mut woken: Vec<W> = Vec::new();
        while self.wakers.len() > 0
            invariant
                woken@.len() + self@.len() == old(self)@.len(),
                self@ == old(self)@.skip(woken@.len() as int),
                woken@ == old(self)@.take(woken@.len() as int).map_values(
                    |pair: (u64, W)| pair.1,
                ),
                self.spec_next_id() == old(self).spec_next_id(),
            decreases self@.len(),
        {
            let ghost done = woken@.len() as int;
            let (_, waker) = self.wakers.remove(0);
            woken.push(waker);
            proof {
                assert(self@ =~= old(self)@.skip(done + 1));
                assert(woken@ =~= old(self)@.take(done + 1).map_values(
                    |pair: (u64, W)| pair.1,
                ));
            }
        }
        proof {
            assert(self@ =~= Seq::<(u64, W)>::empty());
            assert(old(self)@.take(woken@.len() as int) =~= old(self)@);
        }
        woken
    }
}

// ---------------------------------------------------------------------------
// Sending
// ---------------------------------------------------------------------------
/// A datagram that a relay session delivered, and the driver it arrived on, so
/// that the peer is answered on the same relay.
#[derive(Debug)]
pub struct RelayInbound {
    pub source: NodeId,
    pub datagram: Vec<u8>,
    pub driver: u64,
}

/// What became of a datagram offered to the relay.
#[derive(Clone, Copy, Debug, PartialEq, Eq, Structural)]
pub enum QueueOutcome {
    Queued,
    /// The relay is up and the queue is full: the sender waits.
    WouldBlock,
    /// There is no relay session: the datagram is loss.
    Dropped,
}

/// What the queue said to a frame.
#[derive(Clone, Copy, Debug, PartialEq, Eq, Structural)]
pub enum Pushed {
    Accepted,
    Full,
    Closed,
}

/// What became of a frame, given what the queue said to it.
pub fn queue_outcome(pushed: Pushed, status: &RelayStatus) -> (r: QueueOutcome)
    ensures
        r == match pushed {
            Pushed::Accepted => QueueOutcome::Queued,
            Pushed::Full => if status@ is Up {
                QueueOutcome::WouldBlock
            } else {
                QueueOutcome::Dropped
            },
            Pushed::Closed => QueueOutcome::Dropped,
        },
{
    match pushed {
        Pushed::Accepted => QueueOutcome::Queued,
        Pushed::Full => match status {
            RelayStatus::Up(_) => QueueOutcome::WouldBlock,
            _ => QueueOutcome::Dropped,
        },
        Pushed::Closed => QueueOutcome::Dropped,
    }
}

/// The lowercase host of the relay a session is on, remembered with its address.
#[derive(Debug)]
pub struct HostMemo {
    memo: Option<(String, String)>,
}

impl HostMemo {
    /// What is remembered is the host of the address it is remembered with.
    pub closed spec fn well_formed(self) -> bool {
        self.memo matches Some((url, host)) ==> relay_host(url@) == Some(host@)
    }

    /// Nothing is remembered.
    pub fn new() -> (r: Self)
        ensures
            r.well_formed(),
    {
        HostMemo { memo: None }
    }

    /// The host of the relay the session is on: `None` when no session is up or
    /// the address has no host.
    pub fn current(&mut self, status: &RelayStatus) -> (r: Option<String>)
        requires
            old(self).well_formed(),
        ensures
            final(self).well_formed(),
            opt_text(r) == current_host(status@),
    {
        match status {
            RelayStatus::Up(url) => {
                if let Some((known, host)) = &self.memo {
                    if same_text(known.as_str(), url.as_str()) {
                        return Some(host.clone());
                    }
                }
                match RelaySpec::plain(url.clone()).host() {
                    Ok(host) => {
                        self.memo = Some((url.clone(), host.clone()));
                        Some(host)
                    },
                    Err(_) => None,
                }
            },
            _ => None,
        }
    }
}

/// The host of the relay a status names.
pub open spec fn current_host(status: RelayStatusView) -> Option<Seq<char>> {
    match status {
        RelayStatusView::Up(url) => relay_host(url),
        _ => None,
    }
}

/// The frame for a datagram in identity mode.
pub fn identity_frame(destination: NodeId, datagram: &[u8]) -> (r: Frame)
    ensures
        r matches Frame::Send { destination: d, datagram: bytes } && d == destination && bytes@
            == datagram@,
{
    Frame::Send { destination, datagram: to_vec(datagram) }
}

/// Whether `r` is the frame that carries a datagram to `peer` in tag mode, and
/// `after` the book that is left: the peer's identity does not go to the relay.
pub open spec fn tag_sent(
    before: BookView,
    after: BookView,
    status: RelayStatusView,
    peer: NodeId,
    datagram: Seq<u8>,
    now: u64,
    r: Option<Frame>,
) -> bool {
    match current_host(status) {
        None => r is None && after == before,
        Some(host) => {
            let book = facing(pruned(before, now), host);
            let epoch = (now / EPOCH_SECONDS) as u64;
            match send_ikm(book, peer) {
                None => r is None && after == book,
                Some(ikm) => {
                    &&& r matches Some(Frame::SendTag { tag, datagram: bytes })
                    &&& bytes@ == datagram
                    &&& tag.0@ == tag_bytes(ikm, encode_utf8(host), epoch)
                    &&& after == if book.cached.contains_key(SendKey { peer, epoch }) {
                        book
                    } else {
                        caching(book, peer, epoch, tag)
                    }
                },
            }
        },
    }
}

/// The frame for a datagram in tag mode.  The tag depends on the relay the
/// session is on, so nothing can be sent before a welcome names it.
pub fn tag_frame(
    book: &mut TagBook,
    memo: &mut HostMemo,
    status: &RelayStatus,
    peer: NodeId,
    datagram: &[u8],
    now_unix: u64,
) -> (r: Option<Frame>)
    requires
        old(book).well_formed(),
        old(memo).well_formed(),
    ensures
        final(book).well_formed(),
        final(memo).well_formed(),
        tag_sent(old(book)@, final(book)@, status@, peer, datagram@, now_unix, r),
{
    match memo.current(status) {
        None => None,
        Some(host) => match book.tag_for_send(peer, host.as_str(), now_unix) {
            None => None,
            Some(tag) => Some(Frame::SendTag { tag, datagram: to_vec(datagram) }),
        },
    }
}

// ---------------------------------------------------------------------------
// The pool of drivers
// ---------------------------------------------------------------------------
/// At most this many drivers beside the home driver; past it a peer's hints are
/// ignored and the home relay is used.
pub const MAX_EXTRA_DRIVERS: usize = 16;

/// Whether two lists of texts are the same.
pub fn same_texts(a: &Vec<String>, b: &Vec<String>) -> (r: bool)
    ensures
        r == (texts(a@) == texts(b@)),
{
    if a.len() != b.len() {
        assert(texts(a@).len() != texts(b@).len());
        return false;
    }
    let mut i: usize = 0;
    while i < a.len()
        invariant
            i <= a.len() == b.len(),
            forall|k: int| 0 <= k < i ==> texts(a@)[k] == texts(b@)[k],
        decreases a.len() - i,
    {
        if !same_text(a[i].as_str(), b[i].as_str()) {
            assert(texts(a@)[i as int] != texts(b@)[i as int]);
            return false;
        }
        i += 1;
    }
    assert(texts(a@) =~= texts(b@));
    true
}

/// Which driver serves a list of relays.
#[derive(Clone, Copy, Debug, PartialEq, Eq, Structural)]
pub enum DriverChoice {
    /// The driver over the endpoint's own relays.
    Home,
    /// A driver that already runs.
    Running(u64),
    /// A driver to start under this id.
    Start(u64),
}

/// The relay pool: the home driver, id 0, over the endpoint's own list, and one
/// driver for each distinct list that a peer names, started on demand.
#[derive(Debug)]
pub struct DriverPool {
    home: Vec<String>,
    extra: Vec<(Vec<String>, u64)>,
    stopped: bool,
}

/// A pool as mathematics.
#[verifier::ext_equal]
pub struct PoolView {
    pub home: Seq<Seq<char>>,
    pub extra: Seq<(Seq<Seq<char>>, u64)>,
    pub stopped: bool,
}

/// The id of the driver that walks `urls`.
pub open spec fn running(pool: PoolView, urls: Seq<Seq<char>>) -> Option<u64> {
    if has_key(pool.extra, urls) {
        Some(pool.extra[place(pool.extra, urls)].1)
    } else {
        None
    }
}

/// The driver for `urls`.
pub open spec fn driver_choice(pool: PoolView, urls: Seq<Seq<char>>) -> DriverChoice {
    if urls.len() == 0 || urls == pool.home || pool.stopped {
        DriverChoice::Home
    } else if running(pool, urls) is Some {
        DriverChoice::Running(running(pool, urls)->0)
    } else if pool.extra.len() >= MAX_EXTRA_DRIVERS {
        DriverChoice::Home
    } else {
        DriverChoice::Start((pool.extra.len() + 1) as u64)
    }
}

/// The pool after a choice.
pub open spec fn pool_after(pool: PoolView, urls: Seq<Seq<char>>) -> PoolView {
    match driver_choice(pool, urls) {
        DriverChoice::Start(id) => PoolView { extra: pool.extra.push((urls, id)), ..pool },
        _ => pool,
    }
}

impl View for DriverPool {
    type V = PoolView;

    closed spec fn view(&self) -> PoolView {
        PoolView {
            home: texts(self.home@),
            extra: self.extra@.map_values(|pair: (Vec<String>, u64)| (texts(pair.0@), pair.1)),
            stopped: self.stopped,
        }
    }
}

/// The bound on drivers holds, no list has two drivers, and the ids count up
/// from one.
pub open spec fn pool_sound(pool: PoolView) -> bool {
    &&& pool.extra.len() <= MAX_EXTRA_DRIVERS
    &&& keys_distinct(pool.extra)
    &&& forall|i: int| 0 <= i < pool.extra.len() ==> (#[trigger] pool.extra[i]).1 == i + 1
}

impl DriverPool {
    /// A pool with its home driver alone.
    pub fn new(home: Vec<String>) -> (r: Self)
        ensures
            pool_sound(r@),
            r@ == (PoolView { home: texts(home@), extra: Seq::empty(), stopped: false }),
    {
        let r = DriverPool { home, extra: Vec::new(), stopped: false };
        assert(r@.extra =~= Seq::empty());
        r
    }

    /// The driver over `urls`, recorded now if none runs yet.  An empty list, a
    /// list equal to the home list, and a list past the bound all have the home
    /// driver.
    pub fn driver_for(&mut self, urls: Vec<String>) -> (r: DriverChoice)
        requires
            pool_sound(old(self)@),
        ensures
            pool_sound(final(self)@),
            r == driver_choice(old(self)@, texts(urls@)),
            final(self)@ == pool_after(old(self)@, texts(urls@)),
    {
        if urls.len() == 0 || same_texts(&urls, &self.home) || self.stopped {
            return DriverChoice::Home;
        }
        let ghost wanted = texts(urls@);
        let mut i: usize = 0;
        while i < self.extra.len()
            invariant
                i <= self.extra.len(),
                self@ == old(self)@,
                pool_sound(self@),
                wanted == texts(urls@),
                wanted.len() > 0,
                wanted != self@.home,
                !self@.stopped,
                forall|k: int| 0 <= k < i ==> (#[trigger] self@.extra[k]).0 != wanted,
            decreases self.extra.len() - i,
        {
            assert(self@.extra[i as int] == (
                texts(self.extra@[i as int].0@),
                self.extra@[i as int].1,
            ));
            if same_texts(&self.extra[i].0, &urls) {
                let id: u64 = self.extra[i].1;
                proof {
                    let at = place(self@.extra, wanted);
                    assert(self@.extra[i as int].0 == wanted);
                    assert(has_key(self@.extra, wanted));
                    assert(self@.extra[at].0 == wanted);
                }
                return DriverChoice::Running(id);
            }
            i += 1;
        }
        assert(!has_key(self@.extra, wanted));
        if self.extra.len() >= MAX_EXTRA_DRIVERS {
            return DriverChoice::Home;
        }
        let id: u64 = self.extra.len() as u64 + 1;
        self.extra.push((urls, id));
        proof {
            assert(self@.extra =~= old(self)@.extra.push((wanted, id)));
            assert(pool_sound(self@));
        }
        DriverChoice::Start(id)
    }

    /// End every driver: a closed endpoint does not reconnect.
    pub fn close(&mut self)
        ensures
            final(self)@ == (PoolView { stopped: true, ..old(self)@ }),
    {
        self.stopped = true;
    }
}

/// Asking twice for one list gives one driver: what the first call started, the
/// second finds running.
pub proof fn law_one_driver_per_list(pool: PoolView, urls: Seq<Seq<char>>)
    requires
        pool_sound(pool),
    ensures
        driver_choice(pool, urls) matches DriverChoice::Start(id) ==> driver_choice(
            pool_after(pool, urls),
            urls,
        ) == DriverChoice::Running(id),
        driver_choice(pool, urls) !is Start ==> driver_choice(pool_after(pool, urls), urls)
            == driver_choice(pool, urls),
{
    if let DriverChoice::Start(id) = driver_choice(pool, urls) {
        let after = pool_after(pool, urls);
        let at = place(after.extra, urls);
        assert(after.extra[pool.extra.len() as int].0 == urls);
        assert(has_key(after.extra, urls));
        if at < pool.extra.len() {
            assert(pool.extra[at].0 == urls);
            assert(has_key(pool.extra, urls));
        }
    }
}

// ---------------------------------------------------------------------------
// The driver
// ---------------------------------------------------------------------------
/// The shortest wait before another attempt, in milliseconds.
pub const BACKOFF_MIN: u64 = 1_000;

/// The longest wait before another attempt, in milliseconds.
pub const BACKOFF_MAX: u64 = 30_000;

/// An outage longer than this fails the sessions, in milliseconds.
pub const RECONNECT_DEADLINE: u64 = 60_000;

/// Bounds the whole exchange up to the welcome, in milliseconds.
pub const CONNECT_TIMEOUT: u64 = 10_000;

/// Well inside the relay's idle close, in milliseconds.
pub const PING_INTERVAL: u64 = 20_000;

/// How often tag mode looks whether its registration is current, in milliseconds.
pub const REFRESH_INTERVAL: u64 = 60_000;

/// Why a relay session ended, as far as the client can tell.
#[derive(Clone, Copy, Debug, PartialEq, Eq, Structural)]
pub enum PumpEnd {
    /// The socket failed, the relay closed for another reason, or a frame was
    /// malformed.
    Lost,
    /// The relay said that a newer session registered this node or tag.
    Superseded,
}

/// What happened to a driver.
#[derive(Debug)]
pub enum DriverEvent {
    /// There is no pair to register yet.
    Peerless,
    /// The relay at this address sent its welcome.
    Welcomed(String),
    /// The attempt failed.
    Refused,
    /// The session ended.
    Ended(PumpEnd),
}

/// What happened to a driver, as mathematics.
pub enum DriverEventView {
    Peerless,
    Welcomed(Seq<char>),
    Refused,
    Ended(PumpEnd),
}

impl View for DriverEvent {
    type V = DriverEventView;

    open spec fn view(&self) -> DriverEventView {
        match self {
            DriverEvent::Peerless => DriverEventView::Peerless,
            DriverEvent::Welcomed(url) => DriverEventView::Welcomed(url@),
            DriverEvent::Refused => DriverEventView::Refused,
            DriverEvent::Ended(end) => DriverEventView::Ended(*end),
        }
    }
}

/// What a driver does next.
#[derive(Clone, Copy, Debug, PartialEq, Eq, Structural)]
pub struct DriverOrder {
    /// The status changed and is published.
    pub publish: bool,
    /// What is queued is stale and is dropped.
    pub drain: bool,
    /// Everyone who waits for room is woken.
    pub wake: bool,
    /// How long to wait before the next attempt, in milliseconds.
    pub sleep: u64,
    /// The driver ends.
    pub stop: bool,
}

/// One driver: a live session that walks its relay list with failover.
#[derive(Debug)]
pub struct Driver {
    relays: usize,
    tag_mode: bool,
    next: usize,
    backoff: u64,
    down_since: Option<u64>,
    status: RelayStatus,
}

/// A driver as mathematics: times are milliseconds.
#[verifier::ext_equal]
pub struct DriverView {
    pub relays: nat,
    pub tag_mode: bool,
    /// Which relay is tried next.
    pub next: nat,
    pub backoff: u64,
    pub down_since: Option<u64>,
    pub status: RelayStatusView,
}

impl View for Driver {
    type V = DriverView;

    closed spec fn view(&self) -> DriverView {
        DriverView {
            relays: self.relays as nat,
            tag_mode: self.tag_mode,
            next: self.next as nat,
            backoff: self.backoff,
            down_since: self.down_since,
            status: self.status@,
        }
    }
}

/// A driver has relays, points at one of them, and waits within the bounds.
pub open spec fn driver_sound(d: DriverView) -> bool {
    d.next < d.relays && BACKOFF_MIN <= d.backoff <= BACKOFF_MAX
}

/// The relay after this one; after the last comes the first.
pub open spec fn following(d: DriverView) -> nat {
    if d.next + 1 < d.relays {
        d.next + 1
    } else {
        0
    }
}

/// The driver after an event.
pub open spec fn driver_after(d: DriverView, event: DriverEventView, now: u64) -> DriverView {
    match event {
        DriverEventView::Peerless => DriverView {
            down_since: None,
            status: RelayStatusView::Connecting,
            ..d
        },
        DriverEventView::Welcomed(url) => DriverView {
            backoff: BACKOFF_MIN,
            status: RelayStatusView::Up(url),
            ..d
        },
        DriverEventView::Refused => {
            let since = match d.down_since {
                Some(since) => since,
                None => now,
            };
            DriverView {
                next: following(d),
                backoff: if d.backoff * 2 <= BACKOFF_MAX {
                    (d.backoff * 2) as u64
                } else {
                    BACKOFF_MAX
                },
                down_since: Some(since),
                status: if elapsed(since, now) > RECONNECT_DEADLINE {
                    RelayStatusView::Failed
                } else {
                    RelayStatusView::Reconnecting
                },
                ..d
            }
        },
        DriverEventView::Ended(end) => if end == PumpEnd::Superseded && !d.tag_mode {
            DriverView { status: RelayStatusView::Superseded, ..d }
        } else {
            DriverView {
                next: following(d),
                down_since: Some(now),
                status: RelayStatusView::Reconnecting,
                ..d
            }
        },
    }
}

/// What the driver does after an event.
pub open spec fn driver_order(d: DriverView, event: DriverEventView, now: u64) -> DriverOrder {
    let after = driver_after(d, event, now);
    let publish = after.status != d.status;
    match event {
        DriverEventView::Peerless => DriverOrder {
            publish,
            drain: false,
            wake: false,
            sleep: BACKOFF_MIN,
            stop: false,
        },
        DriverEventView::Welcomed(_) => DriverOrder {
            publish,
            drain: true,
            wake: true,
            sleep: 0,
            stop: false,
        },
        DriverEventView::Refused => DriverOrder {
            publish,
            drain: false,
            wake: after.status is Failed,
            sleep: d.backoff,
            stop: false,
        },
        DriverEventView::Ended(end) => DriverOrder {
            publish,
            drain: false,
            wake: true,
            sleep: if end == PumpEnd::Superseded && d.tag_mode {
                BACKOFF_MAX
            } else {
                0
            },
            stop: end == PumpEnd::Superseded && !d.tag_mode,
        },
    }
}

impl Driver {
    /// A driver over `relays` relays, at the first of them.
    pub fn new(relays: usize, tag_mode: bool) -> (r: Self)
        ensures
            r@ == (DriverView {
                relays: relays as nat,
                tag_mode,
                next: 0,
                backoff: BACKOFF_MIN,
                down_since: None,
                status: if relays == 0 {
                    RelayStatusView::Failed
                } else {
                    RelayStatusView::Connecting
                },
            }),
            relays > 0 ==> driver_sound(r@),
    {
        let status = if relays == 0 {
            RelayStatus::Failed
        } else {
            RelayStatus::Connecting
        };
        Driver { relays, tag_mode, next: 0, backoff: BACKOFF_MIN, down_since: None, status }
    }

    /// Which relay to try.
    pub fn next_relay(&self) -> (r: usize)
        requires
            driver_sound(self@),
        ensures
            r == self@.next,
            r < self@.relays,
    {
        self.next
    }

    /// Where the driver stands.
    pub fn status(&self) -> (r: RelayStatus)
        ensures
            r@ == self@.status,
    {
        self.status.clone()
    }

    fn advance(&mut self)
        requires
            driver_sound(old(self)@),
        ensures
            final(self)@ == (DriverView { next: following(old(self)@), ..old(self)@ }),
    {
        if self.next < self.relays - 1 {
            self.next = self.next + 1;
        } else {
            self.next = 0;
        }
    }

    /// Take an event in: the next configured relay follows a failed one, the wait
    /// doubles up to its bound, and an outage past the deadline fails the sessions
    /// while the driver goes on.
    pub fn step(&mut self, event: DriverEvent, now: u64) -> (r: DriverOrder)
        requires
            driver_sound(old(self)@),
        ensures
            driver_sound(final(self)@),
            final(self)@ == driver_after(old(self)@, event@, now),
            r == driver_order(old(self)@, event@, now),
    {
        match event {
            DriverEvent::Peerless => {
                self.down_since = None;
                let publish = self.status.set_status(RelayStatus::Connecting);
                DriverOrder { publish, drain: false, wake: false, sleep: BACKOFF_MIN, stop: false }
            },
            DriverEvent::Welcomed(url) => {
                self.backoff = BACKOFF_MIN;
                let publish = self.status.set_status(RelayStatus::Up(url));
                DriverOrder { publish, drain: true, wake: true, sleep: 0, stop: false }
            },
            DriverEvent::Refused => {
                let since: u64 = match self.down_since {
                    Some(since) => since,
                    None => now,
                };
                self.down_since = Some(since);
                let failed = now > since && now - since > RECONNECT_DEADLINE;
                let status = if failed {
                    RelayStatus::Failed
                } else {
                    RelayStatus::Reconnecting
                };
                let publish = self.status.set_status(status);
                self.advance();
                let sleep: u64 = self.backoff;
                self.backoff = if self.backoff * 2 <= BACKOFF_MAX {
                    self.backoff * 2
                } else {
                    BACKOFF_MAX
                };
                DriverOrder { publish, drain: false, wake: failed, sleep, stop: false }
            },
            DriverEvent::Ended(end) => {
                let superseded = end == PumpEnd::Superseded;
                if superseded && !self.tag_mode {
                    let publish = self.status.set_status(RelayStatus::Superseded);
                    return DriverOrder { publish, drain: false, wake: true, sleep: 0, stop: true };
                }
                let publish = self.status.set_status(RelayStatus::Reconnecting);
                self.down_since = Some(now);
                self.advance();
                let sleep: u64 = if superseded {
                    BACKOFF_MAX
                } else {
                    0
                };
                DriverOrder { publish, drain: false, wake: true, sleep, stop: false }
            },
        }
    }
}

/// A driver stays sound, and no wait exceeds the bound.
pub proof fn law_driver_waits_are_bounded(d: DriverView, event: DriverEventView, now: u64)
    requires
        driver_sound(d),
    ensures
        driver_sound(driver_after(d, event, now)),
        driver_order(d, event, now).sleep <= BACKOFF_MAX,
{
}

/// Sessions fail for want of a relay only when an attempt failed and the outage
/// has lasted longer than the deadline; the driver itself does not stop then.
pub proof fn law_failure_needs_a_long_outage(d: DriverView, event: DriverEventView, now: u64)
    requires
        driver_sound(d),
        driver_after(d, event, now).status is Failed,
    ensures
        event is Refused,
        d.down_since matches Some(since) && now - since > RECONNECT_DEADLINE,
        !driver_order(d, event, now).stop,
{
}

/// A driver stops for one reason: in identity mode, a newer session took its slot.
pub proof fn law_only_an_identity_loses_its_slot(d: DriverView, event: DriverEventView, now: u64)
    ensures
        driver_order(d, event, now).stop <==> !d.tag_mode && event == DriverEventView::Ended(
            PumpEnd::Superseded,
        ),
        driver_order(d, event, now).stop <==> driver_after(d, event, now).status is Superseded,
{
}

// ---------------------------------------------------------------------------
// First contact
// ---------------------------------------------------------------------------
/// The challenge that a first message carries, if it is one.
pub fn challenge_of(message: &[u8]) -> (r: Option<[u8; 32]>)
    ensures
        r matches Some(challenge) ==> message@ == frame_bytes(Frame::Challenge(challenge)),
        r is None ==> forall|challenge: [u8; 32]|
            message@ != #[trigger] frame_bytes(Frame::Challenge(challenge)),
{
    match Frame::decode(message) {
        Some(Frame::Challenge(challenge)) => Some(challenge),
        Some(other) => {
            proof {
                assert forall|challenge: [u8; 32]| message@ != #[trigger] frame_bytes(
                    Frame::Challenge(challenge),
                ) by {
                    if message@ == frame_bytes(Frame::Challenge(challenge)) {
                        law_frame_encoding_is_injective(Frame::Challenge(challenge), other);
                    }
                }
            }
            None
        },
        None => {
            assert(forall|challenge: [u8; 32]| frame_valid(Frame::Challenge(challenge)));
            None
        },
    }
}

/// Whether the relay answered with its welcome.
pub fn is_welcome(message: &[u8]) -> (r: bool)
    ensures
        r == exists|token: [u8; 16]| message@ == #[trigger] frame_bytes(Frame::Welcome(token)),
{
    match Frame::decode(message) {
        Some(Frame::Welcome(token)) => {
            assert(message@ == frame_bytes(Frame::Welcome(token)));
            true
        },
        Some(other) => {
            proof {
                assert forall|token: [u8; 16]| message@ != #[trigger] frame_bytes(
                    Frame::Welcome(token),
                ) by {
                    if message@ == frame_bytes(Frame::Welcome(token)) {
                        law_frame_encoding_is_injective(Frame::Welcome(token), other);
                    }
                }
            }
            false
        },
        None => {
            assert(forall|token: [u8; 16]| frame_valid(Frame::Welcome(token)));
            false
        },
    }
}

/// The identity-mode answer to a challenge: this node, and its signature over the
/// relay host and the challenge.
pub fn auth_frame(key: &TransportKey, host: &str, challenge: &[u8; 32]) -> (r: Frame)
    ensures
        r matches Frame::Auth { node_id, signature } && node_id == key.id() && signature@
            == ed25519_signature(key.spec_seed(), relay_auth_input(host.spec_bytes(), challenge@)),
{
    let signature = sign_relay_auth(key, host, challenge);
    Frame::Auth { node_id: key.node_id(), signature }
}

/// The registration of tag mode: every tag of every pair, and no identity.
pub open spec fn registers(frame: Frame, book: BookView, host: Seq<u8>, now: u64) -> bool {
    frame matches Frame::Register { tags } && tags@.len() == entry_count(book) * epoch_window(
        now,
    ).len() && forall|tag: Tag|
        tags@.contains(tag) <==> exists|node: NodeId| owns_tag(book, node, tag, host, now)
}

/// The registration that is sent now.
pub fn register_frame(book: &mut TagBook, host: &str, now_unix: u64) -> (r: Frame)
    requires
        old(book).well_formed(),
    ensures
        final(book).well_formed(),
        final(book)@ == pruned(old(book)@, now_unix),
        registers(r, final(book)@, host.spec_bytes(), now_unix),
{
    let tags = book.registration(host, now_unix);
    Frame::Register { tags }
}

/// The registration that opens a session; without a pair there is none.
pub fn opening_registration(book: &mut TagBook, host: &str, now_unix: u64) -> (r: Option<Frame>)
    requires
        old(book).well_formed(),
    ensures
        final(book).well_formed(),
        final(book)@ == pruned(old(book)@, now_unix),
        r is None <==> entry_count(final(book)@) * epoch_window(now_unix).len() == 0,
        r matches Some(frame) ==> registers(frame, final(book)@, host.spec_bytes(), now_unix),
{
    let tags = book.registration(host, now_unix);
    if tags.len() == 0 {
        None
    } else {
        Some(Frame::Register { tags })
    }
}

// ---------------------------------------------------------------------------
// The session
// ---------------------------------------------------------------------------
/// When tag mode last registered: the relay holds the tags of this epoch and of
/// this version of the book.
#[derive(Clone, Copy, Debug, PartialEq, Eq, Structural)]
pub struct Registered {
    pub epoch: u64,
    pub version: u64,
}

impl Registered {
    /// What a registration at `now_unix` covers.
    pub fn at(version: u64, now_unix: u64) -> (r: Self)
        ensures
            r == (Registered { epoch: (now_unix / EPOCH_SECONDS) as u64, version }),
    {
        Registered { epoch: epoch_index(now_unix), version }
    }

    /// Whether to register again: the epoch turned or the book changed.
    pub fn refresh(&mut self, version: u64, now_unix: u64) -> (r: bool)
        ensures
            *final(self) == (Registered { epoch: (now_unix / EPOCH_SECONDS) as u64, version }),
            r == (*final(self) != *old(self)),
    {
        let now = Registered::at(version, now_unix);
        let stale = now.epoch != self.epoch || now.version != self.version;
        *self = now;
        stale
    }

    /// Whether to register now: a change of the book always does, and otherwise only a
    /// registration that is out of date.
    pub fn due(&mut self, changed: bool, version: u64, now_unix: u64) -> (r: bool)
        ensures
            *final(self) == (Registered { epoch: (now_unix / EPOCH_SECONDS) as u64, version }),
            r == (changed || *final(self) != *old(self)),
    {
        let stale = self.refresh(version, now_unix);
        changed || stale
    }
}

/// Whether a drained queue wakes those who wait: at half its bound, so that a
/// stalled sender is not woken for one frame.
pub fn wakes_senders(capacity: usize) -> (r: bool)
    ensures
        r == (capacity >= MAX_QUEUED_FRAMES / 2),
{
    capacity >= MAX_QUEUED_FRAMES / 2
}

/// What a session does with a frame from the relay.
#[derive(Debug)]
pub enum PumpStep {
    Deliver(RelayInbound),
    Ignore,
    End(PumpEnd),
}

/// Why a close frame ended the session.
pub open spec fn close_end(reason: u16) -> PumpEnd {
    if reason == CLOSE_REASON_SUPERSEDED {
        PumpEnd::Superseded
    } else {
        PumpEnd::Lost
    }
}

fn closed_by(reason: u16) -> (r: PumpStep)
    ensures
        r == PumpStep::End(close_end(reason)),
{
    if reason == CLOSE_REASON_SUPERSEDED {
        PumpStep::End(PumpEnd::Superseded)
    } else {
        PumpStep::End(PumpEnd::Lost)
    }
}

/// Whether `step` hands a datagram on.
pub open spec fn delivers(step: PumpStep, source: NodeId, datagram: Seq<u8>, driver: u64) -> bool {
    step matches PumpStep::Deliver(inbound) && inbound.source == source && inbound.datagram@
        == datagram && inbound.driver == driver
}

/// Whether `step` is the identity-mode answer to a frame: identity deliveries
/// only, and anything unexpected ends the session.
pub open spec fn identity_step(frame: Frame, driver: u64, step: PumpStep) -> bool {
    match frame {
        Frame::Recv { source, datagram } => delivers(step, source, datagram@, driver),
        Frame::Pong(_) => step == PumpStep::Ignore,
        Frame::Close(reason) => step == PumpStep::End(close_end(reason)),
        _ => step == PumpStep::End(PumpEnd::Lost),
    }
}

/// Take a message in, in identity mode.
pub fn identity_pump(message: &[u8], driver: u64) -> (r: PumpStep)
    ensures
        forall|frame: Frame|
            frame_valid(frame) && #[trigger] frame_bytes(frame) == message@ ==> identity_step(
                frame,
                driver,
                r,
            ),
        (forall|frame: Frame| frame_valid(frame) ==> #[trigger] frame_bytes(frame) != message@)
            ==> r == PumpStep::End(PumpEnd::Lost),
{
    let decoded = Frame::decode(message);
    proof {
        if decoded is Some {
            let found = decoded->0;
            assert forall|frame: Frame|
                frame_valid(frame) && #[trigger] frame_bytes(frame) == message@ implies same_frame(
                found,
                frame,
            ) by {
                law_frame_encoding_is_injective(found, frame);
            }
        }
    }
    match decoded {
        Some(Frame::Recv { source, datagram }) => PumpStep::Deliver(
            RelayInbound { source, datagram, driver },
        ),
        Some(Frame::Pong(_)) => PumpStep::Ignore,
        Some(Frame::Close(reason)) => closed_by(reason),
        _ => PumpStep::End(PumpEnd::Lost),
    }
}

/// Whether `step` is the tag-mode answer to a frame, with `book` as it is left: a
/// tag is attributed by this endpoint's own book, and one that it cannot resolve
/// is dropped.
pub open spec fn tag_step(
    frame: Frame,
    driver: u64,
    book: BookView,
    host: Seq<u8>,
    now: u64,
    step: PumpStep,
) -> bool {
    match frame {
        Frame::RecvTag { tag, datagram } => {
            ||| step == PumpStep::Ignore && forall|node: NodeId|
                !owns_tag(book, node, tag, host, now)
            ||| step matches PumpStep::Deliver(inbound) && owns_tag(
                book,
                inbound.source,
                tag,
                host,
                now,
            ) && inbound.datagram@ == datagram@ && inbound.driver == driver && ((exists|
                node: NodeId,
            |
                pair_owns(book, node, tag, host, now)) ==> pair_owns(
                book,
                inbound.source,
                tag,
                host,
                now,
            ))
        },
        Frame::Pong(_) => step == PumpStep::Ignore,
        Frame::Close(reason) => step == PumpStep::End(close_end(reason)),
        _ => step == PumpStep::End(PumpEnd::Lost),
    }
}

/// Take a message in, in tag mode.
pub fn tag_pump(
    message: &[u8],
    book: &mut TagBook,
    host: &str,
    now_unix: u64,
    driver: u64,
) -> (r: PumpStep)
    requires
        old(book).well_formed(),
    ensures
        final(book).well_formed(),
        final(book)@ == old(book)@ || final(book)@ == pruned(old(book)@, now_unix),
        forall|frame: Frame|
            frame_valid(frame) && #[trigger] frame_bytes(frame) == message@ ==> tag_step(
                frame,
                driver,
                final(book)@,
                host.spec_bytes(),
                now_unix,
                r,
            ) && final(book)@ == (if frame is RecvTag {
                pruned(old(book)@, now_unix)
            } else {
                old(book)@
            }),
        (forall|frame: Frame| frame_valid(frame) ==> #[trigger] frame_bytes(frame) != message@)
            ==> r == PumpStep::End(PumpEnd::Lost) && final(book)@ == old(book)@,
{
    let decoded = Frame::decode(message);
    proof {
        if decoded is Some {
            let found = decoded->0;
            assert forall|frame: Frame|
                frame_valid(frame) && #[trigger] frame_bytes(frame) == message@ implies same_frame(
                found,
                frame,
            ) by {
                law_frame_encoding_is_injective(found, frame);
            }
        }
    }
    match decoded {
        Some(Frame::RecvTag { tag, datagram }) => match book.resolve(&tag, host, now_unix) {
            Some(source) => PumpStep::Deliver(RelayInbound { source, datagram, driver }),
            None => PumpStep::Ignore,
        },
        Some(Frame::Pong(_)) => PumpStep::Ignore,
        Some(Frame::Close(reason)) => closed_by(reason),
        _ => PumpStep::End(PumpEnd::Lost),
    }
}

} // verus!
