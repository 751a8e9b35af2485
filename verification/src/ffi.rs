//! The boundary for an application shell: records, the checks on what crosses it,
//! and the routes an engine holds.
use crate::bytes::{
    append, array_at, be16, be_bytes, be_value, bytes_eq, fixed, lemma_be_bytes_len,
    lemma_be_round_trip, lemma_be_value, lemma_pow256_values, to_be16, to_vec,
};
use crate::card::{
    card_verdict, lemma_node_id_of, node_id_of, rule_words, self_signed, Card, CardView,
    RuleViolation, VerifyContext, MAX_CARD_BYTES,
};
use crate::crypto::{hex_encode, hex_text};
use crate::endpoint::MAX_PAIRING_LIFETIME;
use crate::id::NodeId;
use crate::path::{copy_opt_text, opt_text, outcome_word, PathReport};
use crate::table::{keys_distinct, lemma_pair_in_map, NameTable};
use crate::text::{
    ascii_lower, chars_of, debug_text, decimal, decimal_text, first_place, quoted, same_text,
    slice_to, starts_with, texts, trim, trimmed, write_text,
};
use vstd::prelude::*;
use vstd::slice::slice_subrange;

verus! {

// ---------------------------------------------------------------------------
// Records
// ---------------------------------------------------------------------------
/// How an engine is set up.
#[derive(Debug)]
pub struct LinkConfig {
    pub transport_seed: Vec<u8>,
    pub relay_urls: Vec<String>,
    pub allow_direct: bool,
    pub routes: Vec<LinkRoute>,
}

/// A durable route.
pub struct LinkRoute {
    pub route_id: String,
    pub card: Vec<u8>,
    pub paired_route_secret: Vec<u8>,
    pub card_serial: u64,
    /// The second at which the card was accepted.  A persisted card is verified
    /// again at this time: it pins the enrolled identity, and the end of its
    /// advertisement does not revoke an established route.
    pub card_verified_at: u64,
}

/// A number of bytes in words.
fn byte_count(count: usize) -> (r: String)
    ensures
        r@ == decimal_text(count as nat) + " bytes"@,
{
    decimal(count as u64).concat(" bytes")
}

impl LinkRoute {
    /// The route without its secret.
    pub fn redacted(&self) -> (r: String)
        ensures
            r@ == "LinkRoute { route_id: "@ + debug_text(self.route_id@) + ", card: "@ + (
            decimal_text(self.card@.len()) + " bytes"@) + ", paired_route_secret: \"[redacted]\", card_serial: "@
                + decimal_text(self.card_serial as nat) + ", card_verified_at: "@ + decimal_text(
                self.card_verified_at as nat,
            ) + " }"@,
    {
        "LinkRoute { route_id: ".to_owned().concat(quoted(self.route_id.as_str()).as_str()).concat(
            ", card: ",
        ).concat(byte_count(self.card.len()).as_str()).concat(
            ", paired_route_secret: \"[redacted]\", card_serial: ",
        ).concat(decimal(self.card_serial).as_str()).concat(", card_verified_at: ").concat(
            decimal(self.card_verified_at).as_str(),
        ).concat(" }")
    }
}

impl core::fmt::Debug for LinkRoute {
    fn fmt(&self, f: &mut core::fmt::Formatter<'_>) -> core::fmt::Result {
        write_text(f, self.redacted().as_str())
    }
}

impl Clone for LinkRoute {
    fn clone(&self) -> (r: Self)
        ensures
            same_route(r, *self),
    {
        LinkRoute {
            route_id: self.route_id.clone(),
            card: to_vec(self.card.as_slice()),
            paired_route_secret: to_vec(self.paired_route_secret.as_slice()),
            card_serial: self.card_serial,
            card_verified_at: self.card_verified_at,
        }
    }
}

/// Whether two routes hold the same.
pub open spec fn same_route(a: LinkRoute, b: LinkRoute) -> bool {
    &&& a.route_id@ == b.route_id@
    &&& a.card@ == b.card@
    &&& a.paired_route_secret@ == b.paired_route_secret@
    &&& a.card_serial == b.card_serial
    &&& a.card_verified_at == b.card_verified_at
}

impl Clone for LinkConfig {
    fn clone(&self) -> (r: Self)
        ensures
            r.transport_seed@ == self.transport_seed@,
            texts(r.relay_urls@) == texts(self.relay_urls@),
            r.allow_direct == self.allow_direct,
            r.routes@.len() == self.routes@.len(),
            forall|i: int|
                0 <= i < self.routes@.len() ==> same_route(
                    #[trigger] r.routes@[i],
                    self.routes@[i],
                ),
    {
        let mut relay_urls: Vec<String> = Vec::new();
        let mut i: usize = 0;
        while i < self.relay_urls.len()
            invariant
                i <= self.relay_urls.len(),
                relay_urls@.len() == i,
                forall|k: int| 0 <= k < i ==> (#[trigger] relay_urls@[k])@ == self.relay_urls@[k]@,
            decreases self.relay_urls.len() - i,
        {
            relay_urls.push(self.relay_urls[i].clone());
            i += 1;
        }
        assert(texts(relay_urls@) =~= texts(self.relay_urls@));
        let mut routes: Vec<LinkRoute> = Vec::new();
        let mut j: usize = 0;
        while j < self.routes.len()
            invariant
                j <= self.routes.len(),
                routes@.len() == j,
                forall|k: int|
                    0 <= k < j ==> same_route(#[trigger] routes@[k], self.routes@[k]),
            decreases self.routes.len() - j,
        {
            routes.push(self.routes[j].clone());
            j += 1;
        }
        LinkConfig {
            transport_seed: to_vec(self.transport_seed.as_slice()),
            relay_urls,
            allow_direct: self.allow_direct,
            routes,
        }
    }
}

/// What a first contact starts from.
pub struct LinkPairingBundle {
    pub route_id: String,
    pub server_card: Vec<u8>,
    /// Sixteen raw capability bytes, which an engine does not retain.
    pub pairing_secret: Vec<u8>,
    /// The second at which the capability ends.
    pub expires_at: u64,
}

impl LinkPairingBundle {
    /// The bundle without its secret.
    pub fn redacted(&self) -> (r: String)
        ensures
            r@ == "LinkPairingBundle { route_id: "@ + debug_text(self.route_id@)
                + ", server_card: "@ + (decimal_text(self.server_card@.len()) + " bytes"@)
                + ", pairing_secret: \"[redacted]\", expires_at: "@ + decimal_text(
                self.expires_at as nat,
            ) + " }"@,
    {
        "LinkPairingBundle { route_id: ".to_owned().concat(
            quoted(self.route_id.as_str()).as_str(),
        ).concat(", server_card: ").concat(byte_count(self.server_card.len()).as_str()).concat(
            ", pairing_secret: \"[redacted]\", expires_at: ",
        ).concat(decimal(self.expires_at).as_str()).concat(" }")
    }
}

impl core::fmt::Debug for LinkPairingBundle {
    fn fmt(&self, f: &mut core::fmt::Formatter<'_>) -> core::fmt::Result {
        write_text(f, self.redacted().as_str())
    }
}

impl Clone for LinkPairingBundle {
    fn clone(&self) -> (r: Self)
        ensures
            r.route_id@ == self.route_id@,
            r.server_card@ == self.server_card@,
            r.pairing_secret@ == self.pairing_secret@,
            r.expires_at == self.expires_at,
    {
        LinkPairingBundle {
            route_id: self.route_id.clone(),
            server_card: to_vec(self.server_card.as_slice()),
            pairing_secret: to_vec(self.pairing_secret.as_slice()),
            expires_at: self.expires_at,
        }
    }
}

/// The path of a session in words.
#[derive(Debug)]
pub struct LinkPath {
    pub status: String,
    pub relay: Option<String>,
    pub direct: Option<String>,
    pub cause: String,
}

/// An optional text as a record shows it.
pub open spec fn opt_debug_text(text: Option<Seq<char>>) -> Seq<char> {
    match text {
        Some(text) => "Some("@ + debug_text(text) + ")"@,
        None => "None"@,
    }
}

/// A path as a record shows it.
pub open spec fn path_text(path: LinkPath) -> Seq<char> {
    "LinkPath { status: "@ + debug_text(path.status@) + ", relay: "@ + opt_debug_text(
        opt_text(path.relay),
    ) + ", direct: "@ + opt_debug_text(opt_text(path.direct)) + ", cause: "@ + debug_text(
        path.cause@,
    ) + " }"@
}

fn opt_quoted(text: &Option<String>) -> (r: String)
    ensures
        r@ == opt_debug_text(opt_text(*text)),
{
    match text {
        Some(text) => "Some(".to_owned().concat(quoted(text.as_str()).as_str()).concat(")"),
        None => "None".to_owned(),
    }
}

impl LinkPath {
    /// The whole record in one line.
    pub fn described(&self) -> (r: String)
        ensures
            r@ == path_text(*self),
    {
        "LinkPath { status: ".to_owned().concat(quoted(self.status.as_str()).as_str()).concat(
            ", relay: ",
        ).concat(opt_quoted(&self.relay).as_str()).concat(", direct: ").concat(
            opt_quoted(&self.direct).as_str(),
        ).concat(", cause: ").concat(quoted(self.cause.as_str()).as_str()).concat(" }")
    }
}

impl Clone for LinkPath {
    fn clone(&self) -> (r: Self)
        ensures
            r.status@ == self.status@,
            opt_text(r.relay) == opt_text(self.relay),
            opt_text(r.direct) == opt_text(self.direct),
            r.cause@ == self.cause@,
    {
        LinkPath {
            status: self.status.clone(),
            relay: copy_opt_text(&self.relay),
            direct: copy_opt_text(&self.direct),
            cause: self.cause.clone(),
        }
    }
}

/// The path of a report; the direct address comes in words.
pub fn link_path(report: &PathReport, direct: Option<String>) -> (r: LinkPath)
    ensures
        r.status@ == outcome_word(report.status),
        opt_text(r.relay) == opt_text(report.relay),
        opt_text(r.direct) == opt_text(direct),
        r.cause@ == report.cause@,
{
    LinkPath {
        status: report.status.outcome(),
        relay: copy_opt_text(&report.relay),
        direct,
        cause: report.cause.clone(),
    }
}

/// One JSON request over a paired route.  The route selects the peer, so the caller
/// supplies neither a network address nor a host.
pub struct LinkHttpRequest {
    pub route_id: String,
    pub method: String,
    pub path: String,
    pub authorization: String,
    pub body: Vec<u8>,
}

impl LinkHttpRequest {
    /// The request without what it carries.
    pub fn redacted(&self) -> (r: String)
        ensures
            r@ == "LinkHttpRequest { route_id: \"[redacted]\", method: "@ + debug_text(self.method@)
                + ", path: \"[redacted]\", authorization: \"[redacted]\", body: "@ + (
            decimal_text(self.body@.len()) + " bytes"@) + " }"@,
    {
        "LinkHttpRequest { route_id: \"[redacted]\", method: ".to_owned().concat(
            quoted(self.method.as_str()).as_str(),
        ).concat(", path: \"[redacted]\", authorization: \"[redacted]\", body: ").concat(
            byte_count(self.body.len()).as_str(),
        ).concat(" }")
    }
}

impl core::fmt::Debug for LinkHttpRequest {
    fn fmt(&self, f: &mut core::fmt::Formatter<'_>) -> core::fmt::Result {
        write_text(f, self.redacted().as_str())
    }
}

impl Clone for LinkHttpRequest {
    fn clone(&self) -> (r: Self)
        ensures
            r.route_id@ == self.route_id@,
            r.method@ == self.method@,
            r.path@ == self.path@,
            r.authorization@ == self.authorization@,
            r.body@ == self.body@,
    {
        LinkHttpRequest {
            route_id: self.route_id.clone(),
            method: self.method.clone(),
            path: self.path.clone(),
            authorization: self.authorization.clone(),
            body: to_vec(self.body.as_slice()),
        }
    }
}

/// A bounded JSON response and the path that carried it.
pub struct LinkHttpResponse {
    pub status: u16,
    pub body: Vec<u8>,
    pub path: LinkPath,
}

impl LinkHttpResponse {
    /// The response without its body.
    pub fn redacted(&self) -> (r: String)
        ensures
            r@ == "LinkHttpResponse { status: "@ + decimal_text(self.status as nat)
                + ", body: "@ + (decimal_text(self.body@.len()) + " bytes"@) + ", path: "@
                + path_text(self.path) + " }"@,
    {
        "LinkHttpResponse { status: ".to_owned().concat(
            decimal(self.status as u64).as_str(),
        ).concat(", body: ").concat(byte_count(self.body.len()).as_str()).concat(
            ", path: ",
        ).concat(self.path.described().as_str()).concat(" }")
    }
}

impl core::fmt::Debug for LinkHttpResponse {
    fn fmt(&self, f: &mut core::fmt::Formatter<'_>) -> core::fmt::Result {
        write_text(f, self.redacted().as_str())
    }
}

impl Clone for LinkHttpResponse {
    fn clone(&self) -> (r: Self)
        ensures
            r.status == self.status,
            r.body@ == self.body@,
            r.path.status@ == self.path.status@,
            opt_text(r.path.relay) == opt_text(self.path.relay),
            opt_text(r.path.direct) == opt_text(self.path.direct),
            r.path.cause@ == self.path.cause@,
    {
        LinkHttpResponse {
            status: self.status,
            body: to_vec(self.body.as_slice()),
            path: self.path.clone(),
        }
    }
}

/// Why the engine refused.
#[derive(Debug, PartialEq, Eq)]
pub enum LinkError {
    Config(String),
    Route(String),
    Transport(String),
    Socket(String),
    Stopped,
}

/// Why the engine refused, as mathematics.
pub enum LinkFault {
    Config(Seq<char>),
    Route(Seq<char>),
    Transport(Seq<char>),
    Socket(Seq<char>),
    Stopped,
}

impl View for LinkError {
    type V = LinkFault;

    open spec fn view(&self) -> LinkFault {
        match self {
            LinkError::Config(words) => LinkFault::Config(words@),
            LinkError::Route(words) => LinkFault::Route(words@),
            LinkError::Transport(words) => LinkFault::Transport(words@),
            LinkError::Socket(words) => LinkFault::Socket(words@),
            LinkError::Stopped => LinkFault::Stopped,
        }
    }
}

impl LinkError {
    /// The words for this refusal.
    pub fn words(&self) -> (r: String)
        ensures
            r@ == match self@ {
                LinkFault::Config(words) => "configuration: "@ + words,
                LinkFault::Route(words) => "route: "@ + words,
                LinkFault::Transport(words) => "transport: "@ + words,
                LinkFault::Socket(words) => "socket: "@ + words,
                LinkFault::Stopped => "the engine is stopped"@,
            },
    {
        match self {
            LinkError::Config(words) => "configuration: ".to_owned().concat(words.as_str()),
            LinkError::Route(words) => "route: ".to_owned().concat(words.as_str()),
            LinkError::Transport(words) => "transport: ".to_owned().concat(words.as_str()),
            LinkError::Socket(words) => "socket: ".to_owned().concat(words.as_str()),
            LinkError::Stopped => "the engine is stopped".to_owned(),
        }
    }
}

impl core::fmt::Display for LinkError {
    fn fmt(&self, f: &mut core::fmt::Formatter<'_>) -> core::fmt::Result {
        write_text(f, self.words().as_str())
    }
}

fn is_empty_text(text: &str) -> (r: bool)
    ensures
        r == (text@.len() == 0),
{
    proof {
        reveal_strlit("");
        if text@.len() == 0 {
            assert(text@ =~= ""@);
        }
    }
    same_text(text, "")
}

/// The header in which a first contact shows its secret.
pub fn pairing_header(secret: &[u8; 16]) -> (r: String)
    ensures
        r@ == hex_text(secret@),
{
    hex_encode(secret)
}

fn route_error(words: &str) -> (r: LinkError)
    ensures
        r@ == LinkFault::Route(words@),
{
    LinkError::Route(words.to_owned())
}

/// What a shell is told of a socket.
pub trait LinkSocketListener: Send + Sync {
    /// The socket is open.
    fn on_open(&self);

    /// A text arrived.
    fn on_text(&self, text: String);

    /// The socket ended, once.
    fn on_closed(&self, reason: String);
}

// ---------------------------------------------------------------------------
// Secrets and lifetimes
// ---------------------------------------------------------------------------
/// How far apart the clocks of the two sides may be, in seconds.
pub const PAIRING_CLOCK_SKEW: u64 = 60;

/// The secret of a paired route: exactly 32 bytes.
pub fn secret(bytes: &[u8]) -> (r: Result<[u8; 32], LinkError>)
    ensures
        match r {
            Ok(secret) => bytes@.len() == 32 && secret@ == bytes@,
            Err(error) => bytes@.len() != 32 && error@ == LinkFault::Route(
                "paired route secret must be 32 bytes"@,
            ),
        },
{
    match fixed::<32>(bytes) {
        Some(secret) => Ok(secret),
        None => Err(route_error("paired route secret must be 32 bytes")),
    }
}

/// The secret of a first contact: exactly 16 bytes.
pub fn pairing_secret(bytes: &[u8]) -> (r: Result<[u8; 16], LinkError>)
    ensures
        match r {
            Ok(secret) => bytes@.len() == 16 && secret@ == bytes@,
            Err(error) => bytes@.len() != 16 && error@ == LinkFault::Route(
                "pairing secret must be 16 bytes"@,
            ),
        },
{
    match fixed::<16>(bytes) {
        Some(secret) => Ok(secret),
        None => Err(route_error("pairing secret must be 16 bytes")),
    }
}

/// How long a first contact may be registered, in milliseconds: until its end, but
/// not beyond the longest registration; a bundle that ends later than the longest
/// registration and the skew together is refused.
pub open spec fn pairing_time(expires_at: u64, now: u64) -> Result<u64, LinkFault> {
    if expires_at <= now {
        Err(LinkFault::Route("pairing bundle is expired"@))
    } else if (expires_at - now) * 1_000 > MAX_PAIRING_LIFETIME + PAIRING_CLOCK_SKEW * 1_000 {
        Err(LinkFault::Route("pairing bundle lifetime is too long"@))
    } else if (expires_at - now) * 1_000 > MAX_PAIRING_LIFETIME {
        Ok(MAX_PAIRING_LIFETIME)
    } else {
        Ok(((expires_at - now) * 1_000) as u64)
    }
}

/// How long a first contact may be registered, in milliseconds.
pub fn pairing_lifetime(expires_at: u64, now: u64) -> (r: Result<u64, LinkError>)
    ensures
        match r {
            Ok(lifetime) => pairing_time(expires_at, now) == Ok::<_, LinkFault>(lifetime),
            Err(error) => pairing_time(expires_at, now) == Err::<u64, _>(error@),
        },
{
    if expires_at <= now {
        return Err(route_error("pairing bundle is expired"));
    }
    let remaining: u64 = expires_at - now;
    if remaining > MAX_PAIRING_LIFETIME / 1_000 + PAIRING_CLOCK_SKEW {
        return Err(route_error("pairing bundle lifetime is too long"));
    }
    let lifetime: u64 = remaining * 1_000;
    if lifetime > MAX_PAIRING_LIFETIME {
        Ok(MAX_PAIRING_LIFETIME)
    } else {
        Ok(lifetime)
    }
}

/// Skew between the clocks is tolerated within its bound and does not extend a
/// registration.
pub proof fn law_skew_does_not_extend_admission(expires_at: u64, now: u64)
    ensures
        pairing_time(expires_at, now) matches Ok(lifetime) ==> 1_000 <= lifetime
            <= MAX_PAIRING_LIFETIME,
        now < expires_at <= now + MAX_PAIRING_LIFETIME / 1_000 + PAIRING_CLOCK_SKEW
            <==> pairing_time(expires_at, now) is Ok,
{
}

// ---------------------------------------------------------------------------
// Routes
// ---------------------------------------------------------------------------
/// The node that card bytes claim to be of.
pub open spec fn claimed_node(card: Seq<u8>) -> NodeId {
    node_id_of(card.subrange(5, 37))
}

/// The node that card bytes claim to be of.
pub fn node_from_card_bytes(bytes: &[u8]) -> (r: Result<NodeId, LinkError>)
    ensures
        match r {
            Ok(node) => bytes@.len() >= 37 && node == claimed_node(bytes@) && node.0@
                == bytes@.subrange(5, 37),
            Err(error) => bytes@.len() < 37 && error@ == LinkFault::Route("card has no node id"@),
        },
{
    if bytes.len() < 37 {
        return Err(route_error("card has no node id"));
    }
    let node = NodeId(array_at::<32>(bytes, 5));
    proof {
        lemma_node_id_of(node, bytes@.subrange(5, 37));
    }
    Ok(node)
}

/// The verdict on the card of a persisted route: verified at the time it was
/// accepted, from the node it claims, with exactly the serial that was retained.
pub open spec fn route_verdict(route: LinkRoute) -> Result<CardView, LinkFault> {
    let card = route.card@;
    if route.route_id@.len() == 0 {
        Err(LinkFault::Route("route id must not be empty"@))
    } else if card.len() < 37 {
        Err(LinkFault::Route("card has no node id"@))
    } else if route.card_serial == 0 {
        Err(LinkFault::Route("card serial must be positive"@))
    } else {
        let ctx = VerifyContext {
            now: route.card_verified_at,
            highest_seen_serial: (route.card_serial - 1) as u64,
            expected_node_id: Some(claimed_node(card)),
        };
        match card_verdict(card, ctx, self_signed(card)) {
            Err(fault) => Err(LinkFault::Route(rule_words(fault))),
            Ok(view) => if view.serial != route.card_serial {
                Err(LinkFault::Route("card serial does not match retained serial"@))
            } else {
                Ok(view)
            },
        }
    }
}

/// Verify a persisted route.
pub fn verify_route(route: &LinkRoute) -> (r: Result<(NodeId, Card), LinkError>)
    ensures
        match r {
            Ok((node, card)) => route_verdict(*route) == Ok::<_, LinkFault>(card@)
                && card.well_formed() && node == card@.node_id,
            Err(error) => route_verdict(*route) == Err::<CardView, _>(error@),
        },
{
    if is_empty_text(route.route_id.as_str()) {
        return Err(route_error("route id must not be empty"));
    }
    let node = match node_from_card_bytes(route.card.as_slice()) {
        Ok(node) => node,
        Err(error) => {
            return Err(error);
        },
    };
    if route.card_serial == 0 {
        return Err(route_error("card serial must be positive"));
    }
    let ctx = VerifyContext::new(route.card_verified_at).expecting(node).after_serial(
        route.card_serial - 1,
    );
    match Card::verify(route.card.as_slice(), &ctx) {
        Err(fault) => Err(LinkError::Route(fault.words())),
        Ok(card) => {
            if card.serial_number() != route.card_serial {
                return Err(route_error("card serial does not match retained serial"));
            }
            Ok((node, card))
        },
    }
}

/// A persisted route is accepted again at its retained serial, whatever the time is
/// now, and gives back the identity and the bytes that were stored.
pub proof fn law_persisted_route_reverifies(route: LinkRoute)
    requires
        route_verdict(route) is Ok,
    ensures
        route_verdict(route)->Ok_0.raw == route.card@,
        route_verdict(route)->Ok_0.serial == route.card_serial,
        route_verdict(route)->Ok_0.node_id == claimed_node(route.card@),
        self_signed(route.card@),
{
}

// ---------------------------------------------------------------------------
// Route frames
// ---------------------------------------------------------------------------
/// The front of a route frame, ASCII `EVR1`.
pub const ROUTE_MAGIC: [u8; 4] = [0x45, 0x56, 0x52, 0x31];

/// The bytes of a route frame before its card.
pub const ROUTE_PREFIX_BYTES: usize = 6;

/// The longest route frame.
pub const MAX_ROUTE_FRAME_BYTES: usize = 4102;

/// A card in a route frame.
pub open spec fn route_frame_bytes(card: Seq<u8>) -> Seq<u8> {
    ROUTE_MAGIC@ + be_bytes(card.len(), 2) + card
}

/// Put a card into a route frame.
pub fn route_frame(card: &[u8]) -> (r: Vec<u8>)
    requires
        card@.len() <= 0xffff,
    ensures
        r@ == route_frame_bytes(card@),
{
    let mut frame: Vec<u8> = Vec::new();
    append(&mut frame, &ROUTE_MAGIC);
    append(&mut frame, &to_be16(card.len() as u16));
    append(&mut frame, card);
    assert(frame@ =~= route_frame_bytes(card@));
    frame
}

/// The card in a route frame: the frame is exactly one card within the bound.
pub fn route_card(frame: &[u8]) -> (r: Result<&[u8], LinkError>)
    ensures
        match r {
            Ok(card) => card@.len() <= MAX_CARD_BYTES && frame@ == route_frame_bytes(card@),
            Err(error) => error@ == LinkFault::Route("server returned a malformed route frame"@)
                && forall|card: Seq<u8>|
                card.len() <= MAX_CARD_BYTES ==> frame@ != #[trigger] route_frame_bytes(card),
        },
{
    proof {
        assert forall|card: Seq<u8>|
            card.len() <= MAX_CARD_BYTES && frame@ == #[trigger] route_frame_bytes(card) implies {
            &&& frame@.len() == 6 + card.len()
            &&& frame@.subrange(0, 4) == ROUTE_MAGIC@
            &&& be_value(frame@.subrange(4, 6)) == card.len()
        } by {
            lemma_pow256_values();
            lemma_be_round_trip(card.len(), 2);
            assert(frame@.subrange(0, 4) =~= ROUTE_MAGIC@);
            assert(frame@.subrange(4, 6) =~= be_bytes(card.len(), 2));
        }
    }
    if frame.len() < ROUTE_PREFIX_BYTES || !bytes_eq(slice_subrange(frame, 0, 4), &ROUTE_MAGIC) {
        return Err(route_error("server returned a malformed route frame"));
    }
    let length: usize = be16(frame[4], frame[5]) as usize;
    proof {
        assert(frame@.subrange(4, 6) =~= seq![frame@[4], frame@[5]]);
    }
    if length > MAX_CARD_BYTES || frame.len() != ROUTE_PREFIX_BYTES + length {
        return Err(route_error("server returned a malformed route frame"));
    }
    let card = slice_subrange(frame, ROUTE_PREFIX_BYTES, frame.len());
    proof {
        lemma_be_value(frame@.subrange(4, 6));
        assert(frame@ =~= route_frame_bytes(card@));
    }
    Ok(card)
}

/// The frame of a card within the bound gives the card back.
pub proof fn law_route_frame_round_trip(card: Seq<u8>, other: Seq<u8>)
    requires
        card.len() <= MAX_CARD_BYTES,
        other.len() <= MAX_CARD_BYTES,
        route_frame_bytes(card) == route_frame_bytes(other),
    ensures
        card == other,
{
    lemma_be_bytes_len(card.len(), 2);
    lemma_be_bytes_len(other.len(), 2);
    let frame = route_frame_bytes(card);
    assert(frame.subrange(6, frame.len() as int) =~= card);
    assert(frame.subrange(6, frame.len() as int) =~= other);
}

// ---------------------------------------------------------------------------
// Requests and responses
// ---------------------------------------------------------------------------
/// The longest request path.
pub const MAX_HTTP_PATH_BYTES: usize = 2_048;

/// The longest authorization.
pub const MAX_HTTP_AUTHORIZATION_BYTES: usize = 49_152;

/// The longest request or response body.
pub const MAX_HTTP_BODY_BYTES: usize = 262_144;

/// How long a request may take, in milliseconds.
pub const HTTP_REQUEST_TIMEOUT: u64 = 30_000;

/// A body as it arrives, never longer than its bound.
pub struct BoundedBody {
    bytes: Vec<u8>,
    limit: usize,
}

impl BoundedBody {
    /// What has arrived.
    pub closed spec fn arrived(self) -> Seq<u8> {
        self.bytes@
    }

    /// The bound.
    pub closed spec fn bound(self) -> usize {
        self.limit
    }

    /// Within the bound.
    pub open spec fn well_formed(self) -> bool {
        self.arrived().len() <= self.bound()
    }

    /// Nothing has arrived yet.
    pub fn new(limit: usize) -> (r: Self)
        ensures
            r.well_formed(),
            r.arrived() == Seq::<u8>::empty(),
            r.bound() == limit,
    {
        BoundedBody { bytes: Vec::new(), limit }
    }

    /// Take more in, unless the body would pass its bound.
    pub fn take_in(&mut self, data: &[u8], label: &str) -> (r: Result<(), LinkError>)
        requires
            old(self).well_formed(),
        ensures
            final(self).well_formed(),
            final(self).bound() == old(self).bound(),
            match r {
                Ok(()) => old(self).arrived().len() + data@.len() <= old(self).bound()
                    && final(self).arrived() == old(self).arrived() + data@,
                Err(error) => old(self).arrived().len() + data@.len() > old(self).bound()
                    && *final(self) == *old(self) && error@ == LinkFault::Route(
                    "server "@ + label@ + " response is too large"@,
                ),
            },
    {
        if data.len() > self.limit - self.bytes.len() {
            return Err(
                LinkError::Route(
                    "server ".to_owned().concat(label).concat(" response is too large"),
                ),
            );
        }
        append(&mut self.bytes, data);
        Ok(())
    }

    /// The body.
    pub fn into_bytes(self) -> (r: Vec<u8>)
        ensures
            r@ == self.arrived(),
    {
        self.bytes
    }
}

/// The methods a request may have.
#[derive(Debug, Clone, Copy, PartialEq, Eq, Structural)]
pub enum HttpMethod {
    Post,
    Put,
}

/// Visible ASCII.
pub open spec fn graphic(c: char) -> bool {
    '!' <= c <= '~'
}

/// A path under `/cadence/v1/` of visible ASCII, without query or fragment.
pub open spec fn canonical_path(path: Seq<char>) -> bool {
    &&& path.len() <= MAX_HTTP_PATH_BYTES
    &&& "/cadence/v1/"@.is_prefix_of(path)
    &&& forall|i: int| 0 <= i < path.len() ==> graphic(#[trigger] path[i]) && path[i] != '?' && path[i]
        != '#'
}

/// A letter or digit of the base64 alphabet, or its padding.
pub open spec fn base64_char(c: char) -> bool {
    'a' <= c <= 'z' || 'A' <= c <= 'Z' || '0' <= c <= '9' || c == '+' || c == '/' || c == '='
}

/// `Nostr` and one base64 value.
pub open spec fn canonical_authorization(text: Seq<char>) -> bool {
    &&& text.len() <= MAX_HTTP_AUTHORIZATION_BYTES
    &&& "Nostr "@.is_prefix_of(text)
    &&& text.len() > 6
    &&& forall|i: int| 6 <= i < text.len() ==> base64_char(#[trigger] text[i])
}

/// What is wrong with a request.
pub open spec fn request_fault(request: LinkHttpRequest) -> Option<Seq<char>> {
    if request.method@ != "POST"@ && request.method@ != "PUT"@ {
        Some("cadence request method must be POST or PUT"@)
    } else if !canonical_path(request.path@) {
        Some("cadence request path is not canonical"@)
    } else if !canonical_authorization(request.authorization@) {
        Some("cadence authorization is not one bounded Nostr value"@)
    } else if request.body@.len() > MAX_HTTP_BODY_BYTES {
        Some("cadence request body is too large"@)
    } else {
        None
    }
}

fn is_canonical_path(path: &str) -> (r: bool)
    ensures
        r == canonical_path(path@),
{
    let chars = chars_of(path);
    if chars.len() > MAX_HTTP_PATH_BYTES || !starts_with(chars.as_slice(), "/cadence/v1/") {
        return false;
    }
    let mut i: usize = 0;
    while i < chars.len()
        invariant
            i <= chars@.len(),
            chars@ == path@,
            forall|k: int|
                0 <= k < i ==> graphic(#[trigger] chars@[k]) && chars@[k] != '?' && chars@[k] != '#',
        decreases chars@.len() - i,
    {
        let c = chars[i];
        if !('!' <= c && c <= '~') || c == '?' || c == '#' {
            return false;
        }
        i += 1;
    }
    true
}

fn is_canonical_authorization(text: &str) -> (r: bool)
    ensures
        r == canonical_authorization(text@),
{
    let chars = chars_of(text);
    if chars.len() > MAX_HTTP_AUTHORIZATION_BYTES || !starts_with(chars.as_slice(), "Nostr ")
        || chars.len() <= 6 {
        return false;
    }
    let mut i: usize = 6;
    while i < chars.len()
        invariant
            6 <= i <= chars@.len(),
            chars@ == text@,
            forall|k: int| 6 <= k < i ==> base64_char(#[trigger] chars@[k]),
        decreases chars@.len() - i,
    {
        let c = chars[i];
        if !(('a' <= c && c <= 'z') || ('A' <= c && c <= 'Z') || ('0' <= c && c <= '9') || c == '+'
            || c == '/' || c == '=') {
            return false;
        }
        i += 1;
    }
    true
}

/// Check a request before any of it is sent.
pub fn validate_http_request(request: &LinkHttpRequest) -> (r: Result<HttpMethod, LinkError>)
    ensures
        match r {
            Ok(method) => request_fault(*request) is None && (method == HttpMethod::Post
                <==> request.method@ == "POST"@),
            Err(error) => request_fault(*request) matches Some(words) && error@
                == LinkFault::Route(words),
        },
{
    let method = if same_text(request.method.as_str(), "POST") {
        HttpMethod::Post
    } else if same_text(request.method.as_str(), "PUT") {
        HttpMethod::Put
    } else {
        return Err(route_error("cadence request method must be POST or PUT"));
    };
    if !is_canonical_path(request.path.as_str()) {
        return Err(route_error("cadence request path is not canonical"));
    }
    if !is_canonical_authorization(request.authorization.as_str()) {
        return Err(route_error("cadence authorization is not one bounded Nostr value"));
    }
    if request.body.len() > MAX_HTTP_BODY_BYTES {
        return Err(route_error("cadence request body is too large"));
    }
    Ok(method)
}

/// A content type without its parameters.
pub open spec fn media_type(content_type: Seq<char>) -> Seq<char> {
    trimmed(
        if content_type.contains(';') {
            content_type.take(content_type.index_of_first(';')->0)
        } else {
            content_type
        },
    )
}

/// Whether a content type is JSON, in any letter case.
pub open spec fn is_json(content_type: Seq<char>) -> bool {
    media_type(content_type).map_values(|c: char| ascii_lower(c)) == "application/json"@
}

fn lower(c: char) -> (r: char)
    ensures
        r == ascii_lower(c),
{
    if 'A' <= c && c <= 'Z' {
        ((c as u8) + 0x20) as char
    } else {
        c
    }
}

fn json_type(content_type: &str) -> (r: bool)
    ensures
        r == is_json(content_type@),
{
    let chars = chars_of(content_type);
    proof {
        content_type@.index_of_first_ensures(';');
    }
    let kind = match first_place(chars.as_slice(), ';') {
        Some(at) => trim(slice_to(chars.as_slice(), at)),
        None => trim(chars.as_slice()),
    };
    assert(kind@ == media_type(content_type@));
    let wanted = chars_of("application/json");
    let ghost lowered = kind@.map_values(|c: char| ascii_lower(c));
    if kind.len() != wanted.len() {
        return false;
    }
    let mut i: usize = 0;
    while i < wanted.len()
        invariant
            i <= wanted@.len() == kind@.len(),
            kind@ == media_type(content_type@),
            wanted@ == "application/json"@,
            lowered == kind@.map_values(|c: char| ascii_lower(c)),
            forall|k: int| 0 <= k < i ==> lowered[k] == wanted@[k],
        decreases wanted@.len() - i,
    {
        if lower(kind[i]) != wanted[i] {
            assert(lowered[i as int] != wanted@[i as int]);
            return false;
        }
        i += 1;
    }
    assert(lowered =~= wanted@);
    true
}

/// Check the head of a response: no redirection, and a JSON body.  The content type
/// is the text of the header.
pub fn check_response(status: u16, content_type: Option<&str>) -> (r: Result<(), LinkError>)
    ensures
        match r {
            Ok(()) => !(300 <= status < 400) && (content_type matches Some(text) && is_json(text@)),
            Err(error) => if 300 <= status < 400 {
                error@ == LinkFault::Route("cadence response must not redirect"@)
            } else {
                (content_type matches Some(text) ==> !is_json(text@)) && error@ == LinkFault::Route(
                    "cadence response is not application/json"@,
                )
            },
        },
{
    if 300 <= status && status < 400 {
        return Err(route_error("cadence response must not redirect"));
    }
    match content_type {
        Some(text) => {
            if json_type(text) {
                Ok(())
            } else {
                Err(route_error("cadence response is not application/json"))
            }
        },
        None => Err(route_error("cadence response is not application/json")),
    }
}

/// Check the answer to the removal of a route; `written` is the status with its reason.
pub fn check_removal(status: u16, written: &str, operation: &str) -> (r: Result<(), LinkError>)
    ensures
        match r {
            Ok(()) => status == 204,
            Err(error) => status != 204 && error@ == LinkFault::Route(
                "server refused "@ + operation@ + " with "@ + written@,
            ),
        },
{
    if status != 204 {
        return Err(
            LinkError::Route(
                "server refused ".to_owned().concat(operation).concat(" with ").concat(written),
            ),
        );
    }
    Ok(())
}

/// Check the answer to an enrolment; `written` is the status with its reason.
pub fn check_enrolment(status: u16, written: &str) -> (r: Result<(), LinkError>)
    ensures
        match r {
            Ok(()) => status == 200,
            Err(error) => status != 200 && error@ == LinkFault::Route(
                "server refused route enrolment with "@ + written@,
            ),
        },
{
    if status != 200 {
        return Err(
            LinkError::Route("server refused route enrolment with ".to_owned().concat(written)),
        );
    }
    Ok(())
}

/// What is left of the time of a request, in milliseconds.
pub fn time_left(timeout: u64, elapsed: u64) -> (r: Result<u64, LinkError>)
    ensures
        match r {
            Ok(left) => elapsed < timeout && left == timeout - elapsed,
            Err(error) => elapsed >= timeout && error@ == LinkFault::Transport(
                "cadence request timed out"@,
            ),
        },
{
    if elapsed >= timeout {
        return Err(LinkError::Transport("cadence request timed out".to_owned()));
    }
    Ok(timeout - elapsed)
}

// ---------------------------------------------------------------------------
// The routes of an engine
// ---------------------------------------------------------------------------
/// An installed route; a session is known by its handle.
pub struct RouteState {
    pub node: NodeId,
    pub serial: u64,
    pub card: Card,
    pub session: Option<u64>,
}

/// An installed route, as mathematics.
pub struct RouteView {
    pub node: NodeId,
    pub serial: u64,
    pub card: CardView,
    pub session: Option<u64>,
}

impl View for RouteState {
    type V = RouteView;

    open spec fn view(&self) -> RouteView {
        RouteView { node: self.node, serial: self.serial, card: self.card@, session: self.session }
    }
}

/// The routes an engine holds, by their ids.
pub struct Routes {
    table: NameTable<RouteState>,
    stopped: bool,
}

/// The routes an engine holds, as mathematics.
#[verifier::ext_equal]
pub struct RoutesView {
    pub routes: Map<Seq<char>, RouteView>,
    pub stopped: bool,
}

impl View for Routes {
    type V = RoutesView;

    closed spec fn view(&self) -> RoutesView {
        RoutesView {
            routes: self.table.map().map_values(|route: RouteState| route@),
            stopped: self.stopped,
        }
    }
}

/// The same routes without their sessions.
pub open spec fn forgotten(routes: Map<Seq<char>, RouteView>) -> Map<Seq<char>, RouteView> {
    routes.map_values(|route: RouteView| RouteView { session: None, ..route })
}

/// A node and the secret its tags come from.
pub struct PairedSecret {
    pub node: NodeId,
    pub secret: [u8; 32],
}

/// What an installed route changes outside: the pairing that comes, the one that goes
/// and the session to close.
pub struct Installed {
    pub paired: PairedSecret,
    pub unpaired: Option<NodeId>,
    pub closes: Option<u64>,
}

/// How a route is reached.
#[derive(Debug)]
pub struct Reached<'a> {
    pub node: NodeId,
    pub card: &'a Card,
    pub session: Option<u64>,
}

/// The pairings of a set-up in their order, as mathematics.
pub open spec fn pairings(list: Seq<PairedSecret>) -> Seq<(NodeId, Seq<u8>)> {
    list.map_values(|paired: PairedSecret| (paired.node, paired.secret@))
}

/// What the first routes of a set-up come to: each verified, no id twice, each secret
/// of the right length.
pub open spec fn set_up(list: Seq<LinkRoute>) -> Result<
    (Map<Seq<char>, RouteView>, Seq<(NodeId, Seq<u8>)>),
    LinkFault,
>
    decreases list.len(),
{
    if list.len() == 0 {
        Ok((Map::empty(), Seq::empty()))
    } else {
        let route = list.last();
        match set_up(list.drop_last()) {
            Err(fault) => Err(fault),
            Ok((routes, pairs)) => match route_verdict(route) {
                Err(fault) => Err(fault),
                Ok(card) => if routes.contains_key(route.route_id@) {
                    Err(LinkFault::Config("duplicate route id"@))
                } else if route.paired_route_secret@.len() != 32 {
                    Err(LinkFault::Route("paired route secret must be 32 bytes"@))
                } else {
                    Ok(
                        (
                            routes.insert(
                                route.route_id@,
                                RouteView {
                                    node: card.node_id,
                                    serial: route.card_serial,
                                    card,
                                    session: None,
                                },
                            ),
                            pairs.push((card.node_id, route.paired_route_secret@)),
                        ),
                    )
                },
            },
        }
    }
}

/// Why a set-up is refused, and if not, what it comes to.
pub open spec fn start_verdict(config: LinkConfig) -> Result<
    (Map<Seq<char>, RouteView>, Seq<(NodeId, Seq<u8>)>),
    LinkFault,
> {
    if config.transport_seed@.len() != 32 {
        Err(LinkFault::Config("transport seed must be 32 bytes"@))
    } else {
        set_up(config.routes@)
    }
}

proof fn lemma_set_up_fails(list: Seq<LinkRoute>, upto: int)
    requires
        0 <= upto <= list.len(),
        set_up(list.take(upto)) is Err,
    ensures
        set_up(list) == set_up(list.take(upto)),
    decreases list.len() - upto,
{
    if upto < list.len() {
        assert(list.take(upto + 1).drop_last() =~= list.take(upto));
        lemma_set_up_fails(list, upto + 1);
    } else {
        assert(list.take(upto) =~= list);
    }
}

/// What keeps a call from a route: a stopped engine, or no such route.
pub open spec fn route_refusal(routes: RoutesView, id: Seq<char>) -> Option<LinkFault> {
    if routes.stopped {
        Some(LinkFault::Stopped)
    } else if !routes.routes.contains_key(id) {
        Some(LinkFault::Route("route is not installed"@))
    } else {
        None
    }
}

/// What keeps a live update from being installed.
pub open spec fn upsert_refusal(routes: RoutesView, route: LinkRoute) -> Option<LinkFault> {
    let id = route.route_id@;
    if route_verdict(route) is Err {
        Some(route_verdict(route)->Err_0)
    } else if route.paired_route_secret@.len() != 32 {
        Some(LinkFault::Route("paired route secret must be 32 bytes"@))
    } else if routes.stopped {
        Some(LinkFault::Stopped)
    } else if routes.routes.contains_key(id) && route.card_serial <= routes.routes[id].serial {
        Some(LinkFault::Route("live card serial must increase"@))
    } else {
        None
    }
}

/// What keeps a first contact from starting.
pub open spec fn pairing_refusal(
    routes: RoutesView,
    bundle: LinkPairingBundle,
    now: u64,
) -> Option<LinkFault> {
    let id = bundle.route_id@;
    let card = bundle.server_card@;
    let ctx = VerifyContext {
        now,
        highest_seen_serial: 0,
        expected_node_id: Some(claimed_node(card)),
    };
    if id.len() == 0 {
        Some(LinkFault::Route("route id must not be empty"@))
    } else if pairing_time(bundle.expires_at, now) is Err {
        Some(pairing_time(bundle.expires_at, now)->Err_0)
    } else if bundle.pairing_secret@.len() != 16 {
        Some(LinkFault::Route("pairing secret must be 16 bytes"@))
    } else if card.len() < 37 {
        Some(LinkFault::Route("card has no node id"@))
    } else if card_verdict(card, ctx, self_signed(card)) is Err {
        Some(
            LinkFault::Route(rule_words(card_verdict(card, ctx, self_signed(card))->Err_0)),
        )
    } else if routes.stopped {
        Some(LinkFault::Stopped)
    } else if routes.routes.contains_key(id) && routes.routes[id].node != claimed_node(card) {
        Some(LinkFault::Route("route id is already bound to another node"@))
    } else {
        None
    }
}

/// What a first contact goes on with.
pub struct PairingStart {
    pub server: NodeId,
    pub card: Card,
    pub secret: [u8; 16],
    /// How long the registration lasts, in milliseconds.
    pub lifetime: u64,
}

/// The card that an enrolment answered with, checked against the one in the bundle.
pub open spec fn enrolled_verdict(
    server: NodeId,
    offered_serial: u64,
    now: u64,
    card: Seq<u8>,
) -> Result<CardView, LinkFault> {
    let ctx = VerifyContext { now, highest_seen_serial: 0, expected_node_id: Some(server) };
    match card_verdict(card, ctx, self_signed(card)) {
        Err(fault) => Err(LinkFault::Route(rule_words(fault))),
        Ok(view) => if view.serial < offered_serial {
            Err(LinkFault::Route("server returned an older card than the pairing bundle"@))
        } else {
            Ok(view)
        },
    }
}

/// Whether a frame holds a card within the bound.
pub open spec fn frames(frame: Seq<u8>, card: Seq<u8>) -> bool {
    card.len() <= MAX_CARD_BYTES && frame == route_frame_bytes(card)
}

/// Read the answer to an enrolment.
pub fn enrolled_card(frame: &[u8], server: NodeId, offered_serial: u64, now: u64) -> (r: Result<
    Card,
    LinkError,
>)
    ensures
        forall|card: Seq<u8>| #[trigger]
            frames(frame@, card) ==> match r {
                Ok(answer) => answer.well_formed() && answer@.raw == card && enrolled_verdict(
                    server,
                    offered_serial,
                    now,
                    card,
                ) == Ok::<_, LinkFault>(answer@),
                Err(error) => enrolled_verdict(server, offered_serial, now, card) == Err::<
                    CardView,
                    _,
                >(error@),
            },
        (forall|card: Seq<u8>| !#[trigger] frames(frame@, card)) ==> (r matches Err(error) && error@
            == LinkFault::Route("server returned a malformed route frame"@)),
{
    let bytes = match route_card(frame) {
        Ok(bytes) => bytes,
        Err(error) => {
            return Err(error);
        },
    };
    proof {
        assert(frames(frame@, bytes@));
        assert forall|card: Seq<u8>| #[trigger] frames(frame@, card) implies card == bytes@ by {
            law_route_frame_round_trip(card, bytes@);
        }
    }
    match Card::verify(bytes, &VerifyContext::new(now).expecting(server)) {
        Err(fault) => Err(LinkError::Route(fault.words())),
        Ok(card) => {
            if card.serial_number() < offered_serial {
                return Err(route_error("server returned an older card than the pairing bundle"));
            }
            Ok(card)
        },
    }
}

/// What keeps an enrolled route from being installed.
pub open spec fn enrol_refusal(
    routes: RoutesView,
    id: Seq<char>,
    node: NodeId,
    serial: u64,
) -> Option<LinkFault> {
    if routes.stopped {
        Some(LinkFault::Stopped)
    } else if routes.routes.contains_key(id) && routes.routes[id].node != node {
        Some(LinkFault::Route("route id is already bound to another node"@))
    } else if routes.routes.contains_key(id) && serial < routes.routes[id].serial {
        Some(LinkFault::Route("server card serial moved backwards"@))
    } else {
        None
    }
}

/// The session of a route, if the route is there.
pub open spec fn session_of(routes: RoutesView, id: Seq<char>) -> Option<u64> {
    if routes.routes.contains_key(id) {
        routes.routes[id].session
    } else {
        None
    }
}

/// Whether `ids` names every route with a session once.
pub open spec fn names_sessions(
    ids: Seq<Seq<char>>,
    sessions: Seq<u64>,
    routes: Map<Seq<char>, RouteView>,
) -> bool {
    &&& ids.no_duplicates()
    &&& ids.len() == sessions.len()
    &&& forall|i: int|
        0 <= i < ids.len() ==> routes.contains_key(#[trigger] ids[i]) && routes[ids[i]].session
            == Some(sessions[i])
    &&& forall|id: Seq<char>|
        routes.contains_key(id) && (#[trigger] routes[id]).session is Some ==> ids.contains(id)
}

/// The session of every route that has one, in some order, each route once.
pub open spec fn lists_sessions(sessions: Seq<u64>, routes: Map<Seq<char>, RouteView>) -> bool {
    exists|ids: Seq<Seq<char>>| names_sessions(ids, sessions, routes)
}

spec fn with_sessions(pairs: Seq<(Seq<char>, RouteState)>) -> Seq<(Seq<char>, u64)>
    decreases pairs.len(),
{
    if pairs.len() == 0 {
        Seq::empty()
    } else {
        let before = with_sessions(pairs.drop_last());
        match pairs.last().1.session {
            Some(session) => before.push((pairs.last().0, session)),
            None => before,
        }
    }
}

spec fn handles(pairs: Seq<(Seq<char>, RouteState)>) -> Seq<u64> {
    with_sessions(pairs).map_values(|pair: (Seq<char>, u64)| pair.1)
}

proof fn lemma_with_sessions(pairs: Seq<(Seq<char>, RouteState)>)
    requires
        keys_distinct(pairs),
    ensures
        forall|i: int, j: int|
            0 <= i < j < with_sessions(pairs).len() ==> (#[trigger] with_sessions(pairs)[i]).0 != (
            #[trigger] with_sessions(pairs)[j]).0,
        forall|i: int|
            0 <= i < with_sessions(pairs).len() ==> exists|k: int|
                0 <= k < pairs.len() && (#[trigger] pairs[k]).0 == (#[trigger] with_sessions(
                    pairs,
                )[i]).0 && pairs[k].1.session == Some(with_sessions(pairs)[i].1),
        forall|k: int|
            0 <= k < pairs.len() && (#[trigger] pairs[k]).1.session is Some ==> exists|i: int|
                0 <= i < with_sessions(pairs).len() && (#[trigger] with_sessions(pairs)[i]).0
                    == pairs[k].0,
    decreases pairs.len(),
{
    if pairs.len() > 0 {
        let front = pairs.drop_last();
        let before = with_sessions(front);
        let after = with_sessions(pairs);
        assert(keys_distinct(front)) by {
            assert forall|i: int, j: int| 0 <= i < j < front.len() implies (#[trigger] front[i]).0
                != (#[trigger] front[j]).0 by {
                assert(front[i] == pairs[i] && front[j] == pairs[j]);
            }
        }
        lemma_with_sessions(front);
        assert forall|i: int| 0 <= i < before.len() implies exists|k: int|
            0 <= k < front.len() && (#[trigger] pairs[k]).0 == (#[trigger] before[i]).0
                && pairs[k].1.session == Some(before[i].1) by {
            let k = choose|k: int|
                0 <= k < front.len() && (#[trigger] front[k]).0 == before[i].0
                    && front[k].1.session == Some(before[i].1);
            assert(pairs[k] == front[k]);
        }
        assert forall|i: int| 0 <= i < after.len() implies exists|k: int|
            0 <= k < pairs.len() && (#[trigger] pairs[k]).0 == (#[trigger] after[i]).0
                && pairs[k].1.session == Some(after[i].1) by {
            if i < before.len() {
                assert(after[i] == before[i]);
            } else {
                assert(pairs[pairs.len() - 1].0 == after[i].0);
            }
        }
        assert forall|i: int, j: int| 0 <= i < j < after.len() implies (#[trigger] after[i]).0 != (
        #[trigger] after[j]).0 by {
            assert(after[i] == before[i]);
            if j < before.len() {
                assert(after[j] == before[j]);
            } else {
                let k = choose|k: int|
                    0 <= k < front.len() && (#[trigger] pairs[k]).0 == before[i].0;
                assert(pairs[k].0 != pairs[pairs.len() - 1].0);
            }
        }
        assert forall|k: int| 0 <= k < pairs.len() && (#[trigger] pairs[k]).1.session is Some implies
            exists|i: int| 0 <= i < after.len() && (#[trigger] after[i]).0 == pairs[k].0 by {
            if k < front.len() {
                assert(front[k] == pairs[k]);
                let i = choose|i: int|
                    0 <= i < before.len() && (#[trigger] before[i]).0 == front[k].0;
                assert(after[i] == before[i]);
            } else {
                assert(after[after.len() - 1].0 == pairs[k].0);
            }
        }
    }
}

impl Routes {
    /// No id occurs twice.
    pub closed spec fn well_formed(self) -> bool {
        self.table.well_formed()
    }

    /// Set an engine up.
    pub fn start(config: &LinkConfig) -> (r: Result<(Self, Vec<PairedSecret>), LinkError>)
        ensures
            match r {
                Ok((routes, pairs)) => routes.well_formed() && !routes@.stopped && start_verdict(
                    *config,
                ) == Ok::<_, LinkFault>((routes@.routes, pairings(pairs@))),
                Err(error) => start_verdict(*config) == Err::<
                    (Map<Seq<char>, RouteView>, Seq<(NodeId, Seq<u8>)>),
                    _,
                >(error@),
            },
    {
        if config.transport_seed.len() != 32 {
            return Err(LinkError::Config("transport seed must be 32 bytes".to_owned()));
        }
        let mut routes = Routes { table: NameTable::new(), stopped: false };
        let mut pairs: Vec<PairedSecret> = Vec::new();
        let mut i: usize = 0;
        proof {
            assert(routes@.routes =~= Map::<Seq<char>, RouteView>::empty());
            assert(pairings(pairs@) =~= Seq::<(NodeId, Seq<u8>)>::empty());
            assert(config.routes@.take(0) =~= Seq::<LinkRoute>::empty());
        }
        while i < config.routes.len()
            invariant
                i <= config.routes@.len(),
                config.transport_seed@.len() == 32,
                routes.well_formed(),
                !routes@.stopped,
                set_up(config.routes@.take(i as int)) == Ok::<_, LinkFault>(
                    (routes@.routes, pairings(pairs@)),
                ),
            decreases config.routes@.len() - i,
        {
            let route = &config.routes[i];
            let ghost before = routes@.routes;
            let ghost listed = pairings(pairs@);
            let ghost upto = config.routes@.take(i as int + 1);
            proof {
                assert(upto.drop_last() =~= config.routes@.take(i as int));
                if set_up(upto) is Err {
                    lemma_set_up_fails(config.routes@, i as int + 1);
                }
            }
            let (node, card) = match verify_route(route) {
                Ok(verified) => verified,
                Err(error) => {
                    return Err(error);
                },
            };
            if routes.table.contains(route.route_id.as_str()) {
                return Err(LinkError::Config("duplicate route id".to_owned()));
            }
            let secret = match secret(route.paired_route_secret.as_slice()) {
                Ok(secret) => secret,
                Err(error) => {
                    return Err(error);
                },
            };
            pairs.push(PairedSecret { node, secret });
            routes.table.insert(
                route.route_id.clone(),
                RouteState { node, serial: route.card_serial, card, session: None },
            );
            proof {
                assert(pairings(pairs@) =~= listed.push((node, route.paired_route_secret@)));
                assert(routes@.routes =~= before.insert(
                    route.route_id@,
                    RouteView { node, serial: route.card_serial, card: card@, session: None },
                ));
            }
            i += 1;
        }
        assert(config.routes@.take(i as int) =~= config.routes@);
        Ok((routes, pairs))
    }

    /// Look a route up to use it.
    pub fn reach(&self, id: &str) -> (r: Result<Reached<'_>, LinkError>)
        requires
            self.well_formed(),
        ensures
            match r {
                Ok(reached) => route_refusal(self@, id@) is None && reached.node
                    == self@.routes[id@].node && reached.card@ == self@.routes[id@].card
                    && reached.session == self@.routes[id@].session,
                Err(error) => route_refusal(self@, id@) == Some(error@),
            },
    {
        if self.stopped {
            return Err(LinkError::Stopped);
        }
        match self.table.get(id) {
            Some(route) => Ok(
                Reached { node: route.node, card: &route.card, session: route.session },
            ),
            None => Err(route_error("route is not installed")),
        }
    }

    /// Remember the session that a dial gave; the route must still be there.
    pub fn dialled(&mut self, id: &str, session: u64) -> (r: Result<(), LinkError>)
        requires
            old(self).well_formed(),
        ensures
            final(self).well_formed(),
            match r {
                Ok(()) => route_refusal(old(self)@, id@) is None && final(self)@ == (RoutesView {
                    routes: old(self)@.routes.insert(
                        id@,
                        RouteView { session: Some(session), ..old(self)@.routes[id@] },
                    ),
                    stopped: false,
                }),
                Err(error) => route_refusal(old(self)@, id@) == Some(error@) && final(self)@
                    == old(self)@,
            },
    {
        if self.stopped {
            return Err(LinkError::Stopped);
        }
        match self.table.remove(id) {
            Some(route) => {
                self.table.insert(
                    id.to_owned(),
                    RouteState {
                        node: route.node,
                        serial: route.serial,
                        card: route.card,
                        session: Some(session),
                    },
                );
                assert(self@.routes =~= old(self)@.routes.insert(
                    id@,
                    RouteView { session: Some(session), ..old(self)@.routes[id@] },
                ));
                Ok(())
            },
            None => {
                assert(self@.routes =~= old(self)@.routes);
                Err(route_error("route is not installed"))
            },
        }
    }

    /// Install or replace a route while the engine runs.
    pub fn upsert_route(&mut self, route: LinkRoute) -> (r: Result<Installed, LinkError>)
        requires
            old(self).well_formed(),
        ensures
            final(self).well_formed(),
            match r {
                Ok(installed) => {
                    let id = route.route_id@;
                    let card = route_verdict(route)->Ok_0;
                    &&& upsert_refusal(old(self)@, route) is None
                    &&& final(self)@ == (RoutesView {
                        routes: old(self)@.routes.insert(
                            id,
                            RouteView {
                                node: card.node_id,
                                serial: route.card_serial,
                                card,
                                session: None,
                            },
                        ),
                        stopped: false,
                    })
                    &&& installed.paired.node == card.node_id
                    &&& installed.paired.secret@ == route.paired_route_secret@
                    &&& installed.unpaired == if old(self)@.routes.contains_key(id) {
                        Some(old(self)@.routes[id].node)
                    } else {
                        None
                    }
                    &&& installed.closes == session_of(old(self)@, id)
                },
                Err(error) => upsert_refusal(old(self)@, route) == Some(error@) && final(self)@
                    == old(self)@,
            },
    {
        let (node, card) = match verify_route(&route) {
            Ok(verified) => verified,
            Err(error) => {
                return Err(error);
            },
        };
        let secret = match secret(route.paired_route_secret.as_slice()) {
            Ok(secret) => secret,
            Err(error) => {
                return Err(error);
            },
        };
        if self.stopped {
            return Err(LinkError::Stopped);
        }
        let (unpaired, closes) = match self.table.get(route.route_id.as_str()) {
            Some(existing) => {
                if route.card_serial <= existing.serial {
                    return Err(route_error("live card serial must increase"));
                }
                (Some(existing.node), existing.session)
            },
            None => (None, None),
        };
        let ghost view = card@;
        let ghost id = route.route_id@;
        self.table.insert(
            route.route_id,
            RouteState { node, serial: route.card_serial, card, session: None },
        );
        assert(self@.routes =~= old(self)@.routes.insert(
            id,
            RouteView { node, serial: route.card_serial, card: view, session: None },
        ));
        Ok(Installed { paired: PairedSecret { node, secret }, unpaired, closes })
    }

    /// Check a first contact before it starts.
    pub fn begin_pairing(&self, bundle: &LinkPairingBundle, now: u64) -> (r: Result<
        PairingStart,
        LinkError,
    >)
        requires
            self.well_formed(),
        ensures
            match r {
                Ok(start) => pairing_refusal(self@, *bundle, now) is None && start.server
                    == claimed_node(bundle.server_card@) && start.card.well_formed()
                    && card_verdict(
                    bundle.server_card@,
                    (VerifyContext {
                        now,
                        highest_seen_serial: 0,
                        expected_node_id: Some(start.server),
                    }),
                    self_signed(bundle.server_card@),
                ) == Ok::<_, RuleViolation>(start.card@) && start.card@.raw == bundle.server_card@
                    && start.card@.node_id == start.server && start.secret@ == bundle.pairing_secret@ && pairing_time(
                    bundle.expires_at,
                    now,
                ) == Ok::<_, LinkFault>(start.lifetime),
                Err(error) => pairing_refusal(self@, *bundle, now) == Some(error@),
            },
    {
        if is_empty_text(bundle.route_id.as_str()) {
            return Err(route_error("route id must not be empty"));
        }
        let lifetime = match pairing_lifetime(bundle.expires_at, now) {
            Ok(lifetime) => lifetime,
            Err(error) => {
                return Err(error);
            },
        };
        let secret = match pairing_secret(bundle.pairing_secret.as_slice()) {
            Ok(secret) => secret,
            Err(error) => {
                return Err(error);
            },
        };
        let server = match node_from_card_bytes(bundle.server_card.as_slice()) {
            Ok(server) => server,
            Err(error) => {
                return Err(error);
            },
        };
        let card = match Card::verify(
            bundle.server_card.as_slice(),
            &VerifyContext::new(now).expecting(server),
        ) {
            Ok(card) => card,
            Err(fault) => {
                return Err(LinkError::Route(fault.words()));
            },
        };
        if self.stopped {
            return Err(LinkError::Stopped);
        }
        if let Some(existing) = self.table.get(bundle.route_id.as_str()) {
            if !existing.node.same(&server) {
                return Err(route_error("route id is already bound to another node"));
            }
        }
        Ok(PairingStart { server, card, secret, lifetime })
    }

    /// Install the route that a first contact enrolled.  The result is the record to
    /// keep, and the session to close.
    pub fn finish_pairing(
        &mut self,
        id: &str,
        card: Card,
        secret: [u8; 32],
        verified_at: u64,
    ) -> (r: Result<(LinkRoute, Installed), LinkError>)
        requires
            old(self).well_formed(),
        ensures
            final(self).well_formed(),
            match r {
                Ok((route, installed)) => {
                    &&& enrol_refusal(old(self)@, id@, card@.node_id, card@.serial) is None
                    &&& final(self)@ == (RoutesView {
                        routes: old(self)@.routes.insert(
                            id@,
                            RouteView {
                                node: card@.node_id,
                                serial: card@.serial,
                                card: card@,
                                session: None,
                            },
                        ),
                        stopped: false,
                    })
                    &&& route.route_id@ == id@
                    &&& route.card@ == card@.raw
                    &&& route.paired_route_secret@ == secret@
                    &&& route.card_serial == card@.serial
                    &&& route.card_verified_at == verified_at
                    &&& installed.paired.node == card@.node_id
                    &&& installed.paired.secret@ == secret@
                    &&& installed.unpaired is None
                    &&& installed.closes == session_of(old(self)@, id@)
                },
                Err(error) => enrol_refusal(old(self)@, id@, card@.node_id, card@.serial) == Some(
                    error@,
                ) && final(self)@ == old(self)@,
            },
    {
        if self.stopped {
            return Err(LinkError::Stopped);
        }
        let node = card.owner();
        let serial: u64 = card.serial_number();
        let closes = match self.table.get(id) {
            Some(existing) => {
                if !existing.node.same(&node) {
                    return Err(route_error("route id is already bound to another node"));
                }
                if serial < existing.serial {
                    return Err(route_error("server card serial moved backwards"));
                }
                existing.session
            },
            None => None,
        };
        let route = LinkRoute {
            route_id: id.to_owned(),
            card: to_vec(card.as_bytes()),
            paired_route_secret: to_vec(&secret),
            card_serial: serial,
            card_verified_at: verified_at,
        };
        self.table.insert(id.to_owned(), RouteState { node, serial, card, session: None });
        assert(self@.routes =~= old(self)@.routes.insert(
            id@,
            RouteView { node, serial, card: card@, session: None },
        ));
        Ok((route, Installed { paired: PairedSecret { node, secret }, unpaired: None, closes }))
    }

    /// Take a route out.  The result is the node that is no longer paired, and the
    /// session to close.
    pub fn remove_route(&mut self, id: &str) -> (r: Result<(NodeId, Option<u64>), LinkError>)
        requires
            old(self).well_formed(),
        ensures
            final(self).well_formed(),
            match r {
                Ok((node, closes)) => route_refusal(old(self)@, id@) is None && node
                    == old(self)@.routes[id@].node && closes == old(self)@.routes[id@].session
                    && final(self)@ == (RoutesView {
                    routes: old(self)@.routes.remove(id@),
                    stopped: false,
                }),
                Err(error) => route_refusal(old(self)@, id@) == Some(error@) && final(self)@
                    == old(self)@,
            },
    {
        if self.stopped {
            return Err(LinkError::Stopped);
        }
        match self.table.remove(id) {
            Some(route) => {
                assert(self@.routes =~= old(self)@.routes.remove(id@));
                Ok((route.node, route.session))
            },
            None => {
                assert(self@.routes =~= old(self)@.routes);
                Err(route_error("route is not installed"))
            },
        }
    }

    /// The sessions to announce again.
    pub fn reannounce(&self) -> (r: Result<Vec<u64>, LinkError>)
        requires
            self.well_formed(),
        ensures
            match r {
                Ok(sessions) => !self@.stopped && lists_sessions(sessions@, self@.routes),
                Err(error) => self@.stopped && error@ == LinkFault::Stopped,
            },
    {
        if self.stopped {
            return Err(LinkError::Stopped);
        }
        Ok(self.sessions())
    }

    fn sessions(&self) -> (r: Vec<u64>)
        requires
            self.well_formed(),
        ensures
            lists_sessions(r@, self@.routes),
    {
        let mut out: Vec<u64> = Vec::new();
        let mut i: usize = 0;
        let ghost pairs = self.table.pairs();
        while i < self.table.len()
            invariant
                self.well_formed(),
                i <= pairs.len(),
                pairs == self.table.pairs(),
                out@ == handles(pairs.take(i as int)),
            decreases pairs.len() - i,
        {
            let ghost upto = pairs.take(i as int + 1);
            assert(upto.drop_last() =~= pairs.take(i as int));
            assert(upto.last() == pairs[i as int]);
            if let Some(session) = self.table.at(i).1.session {
                out.push(session);
            }
            assert(out@ =~= handles(upto));
            i += 1;
        }
        proof {
            assert(pairs.take(i as int) =~= pairs);
            lemma_with_sessions(pairs);
            let found = with_sessions(pairs);
            let ids = found.map_values(|pair: (Seq<char>, u64)| pair.0);
            let routes = self@.routes;
            assert forall|i: int| 0 <= i < ids.len() implies routes.contains_key(#[trigger] ids[i])
                && routes[ids[i]].session == Some(out@[i]) by {
                assert(ids[i] == found[i].0);
                let k = choose|k: int|
                    0 <= k < pairs.len() && (#[trigger] pairs[k]).0 == found[i].0
                        && pairs[k].1.session == Some(found[i].1);
                lemma_pair_in_map(pairs, k);
            }
            assert forall|id: Seq<char>|
                routes.contains_key(id) && (#[trigger] routes[id]).session is Some implies ids.contains(
                id,
            ) by {
                let k = choose|k: int| 0 <= k < pairs.len() && (#[trigger] pairs[k]).0 == id;
                lemma_pair_in_map(pairs, k);
                let i = choose|i: int| 0 <= i < found.len() && (#[trigger] found[i]).0 == id;
                assert(ids[i] == id);
            }
            assert forall|i: int, j: int| 0 <= i < ids.len() && 0 <= j < ids.len() && i != j implies
                ids[i] != ids[j] by {
                assert(ids[i] == found[i].0 && ids[j] == found[j].0);
            }
            assert(names_sessions(ids, out@, routes));
        }
        out
    }

    fn forget_sessions(&mut self)
        requires
            old(self).well_formed(),
        ensures
            final(self).well_formed(),
            final(self)@ == (RoutesView { routes: forgotten(old(self)@.routes), ..old(self)@ }),
    {
        let ghost before = self.table.pairs();
        let mut i: usize = 0;
        while i < self.table.len()
            invariant
                old(self).table.pairs() == before,
                keys_distinct(before),
                keys_distinct(self.table.pairs()),
                self.stopped == old(self).stopped,
                i <= before.len() == self.table.pairs().len(),
                forall|k: int|
                    0 <= k < before.len() ==> (#[trigger] self.table.pairs()[k]).0 == before[k].0,
                forall|k: int|
                    0 <= k < i ==> (#[trigger] self.table.pairs()[k]).1@ == (RouteView {
                        session: None,
                        ..before[k].1@
                    }),
                forall|k: int|
                    i <= k < before.len() ==> (#[trigger] self.table.pairs()[k]).1 == before[k].1,
            decreases before.len() - i,
        {
            self.table.at_mut(i).session = None;
            i += 1;
        }
        proof {
            let after = self.table.pairs();
            let routes = self@.routes;
            let wanted = forgotten(old(self)@.routes);
            assert forall|id: Seq<char>| #[trigger] routes.contains_key(id) implies
                wanted.contains_key(id) && routes[id] == wanted[id] by {
                let k = choose|k: int| 0 <= k < after.len() && (#[trigger] after[k]).0 == id;
                lemma_pair_in_map(after, k);
                lemma_pair_in_map(before, k);
            }
            assert forall|id: Seq<char>| #[trigger] wanted.contains_key(id) implies
                routes.contains_key(id) by {
                let k = choose|k: int| 0 <= k < before.len() && (#[trigger] before[k]).0 == id;
                assert(after[k].0 == id);
                lemma_pair_in_map(after, k);
            }
            assert(routes =~= wanted);
        }
    }

    /// Stop the engine: the sessions to close, the first time.
    pub fn stop(&mut self) -> (r: Vec<u64>)
        requires
            old(self).well_formed(),
        ensures
            final(self).well_formed(),
            if old(self)@.stopped {
                r@ == Seq::<u64>::empty() && final(self)@ == old(self)@
            } else {
                lists_sessions(r@, old(self)@.routes) && final(self)@ == (RoutesView {
                    routes: forgotten(old(self)@.routes),
                    stopped: true,
                })
            },
    {
        if self.stopped {
            return Vec::new();
        }
        let sessions = self.sessions();
        self.forget_sessions();
        let ghost routes = self@.routes;
        self.stopped = true;
        assert(self@.routes =~= routes);
        sessions
    }
}

/// The session that a request goes on with: one whose path has failed is dialled
/// again.
pub fn live_session(session: Option<u64>, failed: bool) -> (r: Option<u64>)
    ensures
        r == if failed {
            None
        } else {
            session
        },
{
    if failed {
        None
    } else {
        session
    }
}

/// The record that an enrolment leaves verifies again later, at the time it was
/// accepted, and names the server that was enrolled.
pub proof fn law_enrolled_route_reverifies(route: LinkRoute, server: NodeId, offered_serial: u64)
    requires
        route.route_id@.len() > 0,
        enrolled_verdict(
            server,
            offered_serial,
            route.card_verified_at,
            route.card@,
        ) matches Ok(card) && card.serial == route.card_serial,
    ensures
        route_verdict(route) == enrolled_verdict(
            server,
            offered_serial,
            route.card_verified_at,
            route.card@,
        ),
        route_verdict(route)->Ok_0.node_id == server,
{
}

/// No call moves the serial of an installed route back, or binds an id that was
/// enrolled to another node by a first contact.
pub proof fn law_route_serials_ratchet(
    routes: RoutesView,
    id: Seq<char>,
    route: LinkRoute,
    node: NodeId,
    serial: u64,
)
    requires
        routes.routes.contains_key(id),
    ensures
        route.route_id@ == id && upsert_refusal(routes, route) is None ==> route.card_serial
            > routes.routes[id].serial,
        enrol_refusal(routes, id, node, serial) is None ==> serial >= routes.routes[id].serial
            && node == routes.routes[id].node,
{
}

/// A stopped engine refuses every call on a route.
pub proof fn law_a_stopped_engine_refuses(
    routes: RoutesView,
    id: Seq<char>,
    route: LinkRoute,
    bundle: LinkPairingBundle,
    now: u64,
    node: NodeId,
    serial: u64,
)
    requires
        routes.stopped,
    ensures
        route_refusal(routes, id) == Some(LinkFault::Stopped),
        upsert_refusal(routes, route) is Some,
        pairing_refusal(routes, bundle, now) is Some,
        enrol_refusal(routes, id, node, serial) == Some(LinkFault::Stopped),
{
}

} // verus!
