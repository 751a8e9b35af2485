//! `FSL-CARD-1`, the signed address card.
//!
//! ```text
//!   offset  size  field
//!   0       4     magic, ASCII "FSL1"
//!   4       1     version, 0x01
//!   5       32    node_id
//!   37      8     issued_at, seconds
//!   45      8     expires_at, seconds
//!   53      8     serial
//!   61      1     hint_count, at most 16
//!   62      ...   hints: kind, u16 length, value
//!   end-64  64    Ed25519 signature over the domain and all bytes before it
//! ```
use crate::bytes::{
    append, array_at, be16, be64, be_bytes, be_value, bytes_eq, lemma_be_bytes_len,
    lemma_be_round_trip, lemma_be_value, lemma_pow256_values, to_be16, to_be64, to_vec,
};
use crate::crypto::{
    ed25519_accepts, ed25519_signature, neutral_nonce, secp256k1_point_decodes,
};
use crate::id::{NodeId, TransportKey};
use crate::net::{plain_addr, IpAddr, SocketAddr};
use crate::rendezvous::{compressed_form, valid_compressed_point};
use crate::text::{decimal, decimal_text, utf8_text, write_bytes, write_text};
use vstd::prelude::*;
use vstd::slice::slice_subrange;
use vstd::string::*;
use vstd::utf8::*;

verus! {

/// Domain separator for the card signature: `forgesworn-link/card/v1` and a zero
/// byte.
pub const CARD_DOMAIN: [u8; 24] = [
    0x66, 0x6f, 0x72, 0x67, 0x65, 0x73, 0x77, 0x6f, 0x72, 0x6e, 0x2d, 0x6c, 0x69, 0x6e, 0x6b, 0x2f,
    0x63, 0x61, 0x72, 0x64, 0x2f, 0x76, 0x31, 0x00,
];

/// ASCII `FSL1`.
pub const CARD_MAGIC: [u8; 4] = [0x46, 0x53, 0x4c, 0x31];

pub const CARD_VERSION: u8 = 0x01;

pub const MIN_CARD_BYTES: usize = 126;

pub const MAX_CARD_BYTES: usize = 4096;

pub const MAX_HINTS: usize = 16;

pub const CLOCK_SKEW_SECONDS: u64 = 300;

pub const MAX_LIFETIME_SECONDS: u64 = 604_800;

pub const HINT_RELAY: u8 = 0x01;

/// A relay hint value is 1 to 255 bytes.
pub const MAX_RELAY_HINT_BYTES: usize = 255;

pub const HINT_UDP: u8 = 0x02;

pub const HINT_ONION: u8 = 0x03;

/// Ephemeral rendezvous key: a fresh 33-byte compressed secp256k1 public key, at
/// most one per card.  Optional; a card carries it when the owner wants
/// forward-secret rendezvous tags.
pub const HINT_EPHEMERAL: u8 = 0x04;

const HEADER_BYTES: usize = 62;

const SIGNATURE_BYTES: usize = 64;

// ---------------------------------------------------------------------------
// Hints
// ---------------------------------------------------------------------------

/// A hint as mathematics: its kind and its value.
#[verifier::ext_equal]
pub struct HintView {
    pub kind: u8,
    pub value: Seq<u8>,
}

/// One hint, kept in wire form so unknown kinds survive a decode and re-encode.
#[derive(Debug, PartialEq, Eq)]
pub struct Hint {
    pub kind: u8,
    pub value: Vec<u8>,
}

impl View for Hint {
    type V = HintView;

    open spec fn view(&self) -> HintView {
        HintView { kind: self.kind, value: self.value@ }
    }
}

impl Clone for Hint {
    fn clone(&self) -> (r: Self)
        ensures
            r@ == self@,
    {
        Hint { kind: self.kind, value: to_vec(self.value.as_slice()) }
    }
}

/// The views of a list of hints.
pub open spec fn hint_views(hints: Seq<Hint>) -> Seq<HintView> {
    Seq::new(hints.len(), |i: int| hints[i]@)
}

/// The sixteen octets that stand for an address on the wire: IPv4 is mapped into
/// `::ffff:0:0/96`.
pub open spec fn mapped_octets(ip: IpAddr) -> Seq<u8> {
    match ip {
        IpAddr::V6(octets) => octets@,
        IpAddr::V4(octets) => Seq::new(10, |i: int| 0u8) + seq![0xffu8, 0xffu8] + octets@,
    }
}

/// The IPv4 octets behind a v4-mapped IPv6 address.
pub open spec fn mapped_v4(octets: Seq<u8>) -> Option<Seq<u8>> {
    if octets.subrange(0, 10) == Seq::new(10, |i: int| 0u8) && octets[10] == 0xff && octets[11]
        == 0xff {
        Some(octets.subrange(12, 16))
    } else {
        None
    }
}

/// Map an IPv4 address into the v4-mapped IPv6 space the wire format uses.
pub fn to_ipv6(ip: IpAddr) -> (r: [u8; 16])
    ensures
        r@ == mapped_octets(ip),
{
    match ip {
        IpAddr::V6(octets) => octets,
        IpAddr::V4(v4) => {
            let r = [
                0,
                0,
                0,
                0,
                0,
                0,
                0,
                0,
                0,
                0,
                0xff,
                0xff,
                v4[0],
                v4[1],
                v4[2],
                v4[3],
            ];
            assert(r@ =~= mapped_octets(ip));
            r
        },
    }
}

/// What `unmap_ipv6` makes of an address.
pub open spec fn unmapped(addr: SocketAddr) -> SocketAddr {
    match addr.ip {
        IpAddr::V6(octets) if mapped_v4(octets@) is Some => plain_addr(
            IpAddr::V4([octets[12], octets[13], octets[14], octets[15]]),
            addr.port,
        ),
        _ => addr,
    }
}

/// Undo `to_ipv6` for display and for socket use.
pub fn unmap_ipv6(addr: SocketAddr) -> (r: SocketAddr)
    ensures
        r == unmapped(addr),
{
    match addr.ip {
        IpAddr::V6(octets) => {
            let zeros = [0u8; 10];
            proof {
                assert(zeros@ =~= Seq::new(10, |i: int| 0u8));
            }
            if bytes_eq(slice_subrange(&octets, 0, 10), &zeros) && octets[10] == 0xff && octets[11]
                == 0xff {
                SocketAddr::new(
                    IpAddr::V4([octets[12], octets[13], octets[14], octets[15]]),
                    addr.port,
                )
            } else {
                addr
            }
        },
        IpAddr::V4(_) => addr,
    }
}

/// An address survives the mapping and back.
pub proof fn law_mapping_round_trip(v4: [u8; 4], mapped: [u8; 16], port: u16)
    requires
        mapped@ == mapped_octets(IpAddr::V4(v4)),
    ensures
        unmapped(plain_addr(IpAddr::V6(mapped), port)) == plain_addr(IpAddr::V4(v4), port),
{
    assert(mapped@.subrange(0, 10) =~= Seq::new(10, |i: int| 0u8));
    let back = [mapped[12], mapped[13], mapped[14], mapped[15]];
    assert(back =~= v4);
}

/// The value of a UDP hint: mapped octets and port.
pub open spec fn udp_value(addr: SocketAddr) -> Seq<u8> {
    mapped_octets(addr.ip) + be_bytes(addr.port as nat, 2)
}

/// The relay URL a hint carries.
pub open spec fn hint_relay(hint: HintView) -> Option<Seq<char>> {
    if hint.kind == HINT_RELAY && valid_utf8(hint.value) {
        Some(decode_utf8(hint.value))
    } else {
        None
    }
}

/// Whether an address is the one a UDP hint carries: its octets as they stand,
/// with no flow label and no scope.
pub open spec fn hint_is_udp(hint: HintView) -> bool {
    hint.kind == HINT_UDP && hint.value.len() == 18
}

/// The octets of the address that a UDP hint carries.
pub open spec fn hint_udp_octets(hint: HintView) -> Seq<u8> {
    hint.value.subrange(0, 16)
}

/// The port that a UDP hint carries.
pub open spec fn hint_udp_port(hint: HintView) -> nat {
    be_value(hint.value.subrange(16, 18))
}

/// Whether `addr` is what a UDP hint carries.
pub open spec fn udp_matches(hint: HintView, addr: SocketAddr) -> bool {
    &&& addr.ip matches IpAddr::V6(octets) && octets@ == hint_udp_octets(hint)
    &&& addr.port as nat == hint_udp_port(hint)
    &&& addr.flowinfo == 0
    &&& addr.scope_id == 0
}

impl Hint {
    /// A relay hint.
    pub fn relay(url: &str) -> (r: Self)
        ensures
            r.kind == HINT_RELAY,
            r.value@ == url.spec_bytes(),
    {
        Hint { kind: HINT_RELAY, value: to_vec(url.as_bytes()) }
    }

    /// A UDP candidate hint.
    pub fn udp(addr: SocketAddr) -> (r: Self)
        ensures
            r.kind == HINT_UDP,
            r.value@ == udp_value(addr),
    {
        let mut value: Vec<u8> = Vec::with_capacity(18);
        append(&mut value, &to_ipv6(addr.ip));
        append(&mut value, &to_be16(addr.port));
        assert(value@ =~= udp_value(addr));
        Hint { kind: HINT_UDP, value }
    }

    /// An onion hint: the host without `.onion`, and a port.
    pub fn onion(host: &str, port: u16) -> (r: Self)
        ensures
            r.kind == HINT_ONION,
            r.value@ == host.spec_bytes() + be_bytes(port as nat, 2),
    {
        let mut value: Vec<u8> = Vec::with_capacity(58);
        append(&mut value, host.as_bytes());
        append(&mut value, &to_be16(port));
        assert(value@ =~= host.spec_bytes() + be_bytes(port as nat, 2));
        Hint { kind: HINT_ONION, value }
    }

    /// The relay URL, when this is a relay hint with UTF-8 text.
    pub fn as_relay(&self) -> (r: Option<&str>)
        ensures
            match r {
                Some(url) => hint_relay(self@) == Some(url@),
                None => hint_relay(self@) is None,
            },
    {
        if self.kind != HINT_RELAY {
            return None;
        }
        utf8_text(self.value.as_slice())
    }

    /// The address, when this is a UDP hint of the right length.
    pub fn as_udp(&self) -> (r: Option<SocketAddr>)
        ensures
            r is Some <==> hint_is_udp(self@),
            r matches Some(addr) ==> udp_matches(self@, addr),
    {
        if self.kind != HINT_UDP || self.value.len() != 18 {
            return None;
        }
        let octets = array_at::<16>(self.value.as_slice(), 0);
        let port: u16 = be16(self.value[16], self.value[17]);
        proof {
            assert(self.value@.subrange(16, 18) =~= seq![self.value@[16], self.value@[17]]);
        }
        Some(SocketAddr::new(IpAddr::V6(octets), port))
    }

    /// The host and port, when this is an onion hint of the right length with
    /// UTF-8 text.
    pub fn as_onion(&self) -> (r: Option<(&str, u16)>)
        ensures
            r is Some <==> self.kind == HINT_ONION && self.value@.len() == 58 && valid_utf8(
                self.value@.subrange(0, 56),
            ),
            r matches Some((host, port)) ==> host@ == decode_utf8(self.value@.subrange(0, 56))
                && port as nat == be_value(self.value@.subrange(56, 58)),
    {
        if self.kind != HINT_ONION || self.value.len() != 58 {
            return None;
        }
        let port: u16 = be16(self.value[56], self.value[57]);
        proof {
            assert(self.value@.subrange(56, 58) =~= seq![self.value@[56], self.value@[57]]);
        }
        match utf8_text(slice_subrange(self.value.as_slice(), 0, 56)) {
            Some(host) => Some((host, port)),
            None => None,
        }
    }
}

/// An address put into a UDP hint comes back out, IPv4 as its mapped form.
pub proof fn law_udp_hint_round_trip(addr: SocketAddr)
    ensures
        ({
            let hint = HintView { kind: HINT_UDP, value: udp_value(addr) };
            &&& hint_is_udp(hint)
            &&& hint_udp_octets(hint) == mapped_octets(addr.ip)
            &&& hint_udp_port(hint) == addr.port as nat
        }),
{
    let value = udp_value(addr);
    lemma_be_bytes_len(addr.port as nat, 2);
    lemma_pow256_values();
    lemma_be_round_trip(addr.port as nat, 2);
    assert(value.subrange(0, 16) =~= mapped_octets(addr.ip));
    assert(value.subrange(16, 18) =~= be_bytes(addr.port as nat, 2));
}

// ---------------------------------------------------------------------------
// Encoding
// ---------------------------------------------------------------------------

/// A hint on the wire: kind, length modulo 2^16, value.
pub open spec fn hint_bytes(hint: HintView) -> Seq<u8> {
    seq![hint.kind] + be_bytes(hint.value.len() % 0x1_0000, 2) + hint.value
}

/// A list of hints on the wire.
pub open spec fn hints_bytes(hints: Seq<HintView>) -> Seq<u8>
    decreases hints.len(),
{
    if hints.len() == 0 {
        Seq::empty()
    } else {
        hint_bytes(hints[0]) + hints_bytes(hints.drop_first())
    }
}

/// Magic, version, identity, times, serial and hint count modulo 256.
#[verifier::opaque]
pub open spec fn header_bytes(
    node_id: Seq<u8>,
    issued_at: u64,
    expires_at: u64,
    serial: u64,
    count: nat,
) -> Seq<u8> {
    CARD_MAGIC@ + seq![CARD_VERSION] + node_id + be_bytes(issued_at as nat, 8) + be_bytes(
        expires_at as nat,
        8,
    ) + be_bytes(serial as nat, 8) + seq![(count % 256) as u8]
}

/// Everything of a card that the signature covers.
pub open spec fn card_body(
    node_id: Seq<u8>,
    issued_at: u64,
    expires_at: u64,
    serial: u64,
    hints: Seq<HintView>,
) -> Seq<u8> {
    header_bytes(node_id, issued_at, expires_at, serial, hints.len()) + hints_bytes(hints)
}

proof fn lemma_hints_bytes_push(hints: Seq<HintView>, hint: HintView)
    ensures
        hints_bytes(hints.push(hint)) == hints_bytes(hints) + hint_bytes(hint),
    decreases hints.len(),
{
    if hints.len() == 0 {
        assert(hints.push(hint).drop_first() =~= hints);
        assert(hints_bytes(hints.push(hint)) =~= hints_bytes(hints) + hint_bytes(hint));
    } else {
        lemma_hints_bytes_push(hints.drop_first(), hint);
        assert(hints.push(hint).drop_first() =~= hints.drop_first().push(hint));
        assert(hints_bytes(hints.push(hint)) =~= hints_bytes(hints) + hint_bytes(hint));
    }
}

/// The body of a card: its fields as the signature covers them.
pub fn encode_body(
    node_id: NodeId,
    issued_at: u64,
    expires_at: u64,
    serial: u64,
    hints: &Vec<Hint>,
) -> (r: Vec<u8>)
    ensures
        r@ == card_body(node_id.0@, issued_at, expires_at, serial, hint_views(hints@)),
{
    let mut out: Vec<u8> = Vec::new();
    append(&mut out, &CARD_MAGIC);
    out.push(CARD_VERSION);
    append(&mut out, node_id.as_bytes());
    append(&mut out, &to_be64(issued_at));
    append(&mut out, &to_be64(expires_at));
    append(&mut out, &to_be64(serial));
    out.push((hints.len() % 256) as u8);
    let ghost header = header_bytes(node_id.0@, issued_at, expires_at, serial, hints@.len());
    let ghost views = hint_views(hints@);
    proof {
        reveal(header_bytes);
    }
    assert(out@ =~= header);
    assert(views.subrange(0, 0) =~= Seq::empty());
    assert(out@ =~= header + hints_bytes(views.subrange(0, 0)));
    let mut i: usize = 0;
    while i < hints.len()
        invariant
            i <= hints.len(),
            views == hint_views(hints@),
            out@ == header + hints_bytes(views.subrange(0, i as int)),
        decreases hints.len() - i,
    {
        let hint = &hints[i];
        let ghost before = out@;
        let length: u16 = (hint.value.len() % 0x1_0000) as u16;
        out.push(hint.kind);
        append(&mut out, &to_be16(length));
        append(&mut out, hint.value.as_slice());
        proof {
            assert(out@ =~= before + hint_bytes(views[i as int]));
            lemma_hints_bytes_push(views.subrange(0, i as int), views[i as int]);
            assert(views.subrange(0, i + 1) =~= views.subrange(0, i as int).push(views[i as int]));
            assert(out@ =~= header + hints_bytes(views.subrange(0, i + 1)));
        }
        i += 1;
    }
    assert(views.subrange(0, views.len() as int) =~= views);
    out
}

// ---------------------------------------------------------------------------
// The card and its rules
// ---------------------------------------------------------------------------

/// A card as mathematics.
#[verifier::ext_equal]
pub struct CardView {
    pub node_id: NodeId,
    pub issued_at: u64,
    pub expires_at: u64,
    pub serial: u64,
    pub hints: Seq<HintView>,
    pub raw: Seq<u8>,
}

/// The exact bytes of a card.  Only reading or signing a card makes them.
#[derive(PartialEq, Eq)]
pub struct CardBytes {
    bytes: Vec<u8>,
}

impl View for CardBytes {
    type V = Seq<u8>;

    closed spec fn view(&self) -> Seq<u8> {
        self.bytes@
    }
}

impl core::fmt::Debug for CardBytes {
    fn fmt(&self, f: &mut core::fmt::Formatter<'_>) -> core::fmt::Result {
        write_bytes(f, self.bytes.as_slice())
    }
}

/// A verified or freshly signed card, together with its exact bytes.
#[derive(Debug, PartialEq, Eq)]
pub struct Card {
    pub node_id: NodeId,
    pub issued_at: u64,
    pub expires_at: u64,
    pub serial: u64,
    pub hints: Vec<Hint>,
    pub raw: CardBytes,
}

impl View for Card {
    type V = CardView;

    open spec fn view(&self) -> CardView {
        CardView {
            node_id: self.node_id,
            issued_at: self.issued_at,
            expires_at: self.expires_at,
            serial: self.serial,
            hints: hint_views(self.hints@),
            raw: self.raw@,
        }
    }
}

/// A copy of a list of hints.
pub fn copy_hints(hints: &Vec<Hint>) -> (r: Vec<Hint>)
    ensures
        hint_views(r@) == hint_views(hints@),
{
    let mut out: Vec<Hint> = Vec::new();
    let mut i: usize = 0;
    while i < hints.len()
        invariant
            i <= hints.len(),
            out@.len() == i,
            forall|k: int| 0 <= k < i ==> #[trigger] out@[k]@ == hints@[k]@,
        decreases hints.len() - i,
    {
        out.push(hints[i].clone());
        i += 1;
    }
    assert(hint_views(out@) =~= hint_views(hints@));
    out
}

impl Clone for Card {
    fn clone(&self) -> (r: Self)
        ensures
            r@ == self@,
    {
        Card {
            node_id: self.node_id,
            issued_at: self.issued_at,
            expires_at: self.expires_at,
            serial: self.serial,
            hints: copy_hints(&self.hints),
            raw: CardBytes { bytes: to_vec(self.raw.bytes.as_slice()) },
        }
    }
}

/// The first rule that a card failed.
#[derive(Clone, Copy, Debug, PartialEq, Eq)]
pub struct RuleViolation {
    pub rule: u8,
    pub detail: &'static str,
}

/// `card rule <n> failed: <detail>`.
pub open spec fn rule_words(violation: RuleViolation) -> Seq<char> {
    "card rule "@ + decimal_text(violation.rule as nat) + " failed: "@ + violation.detail@
}

impl RuleViolation {
    /// `card rule <n> failed: <detail>`.
    pub fn words(&self) -> (r: String)
        ensures
            r@ == rule_words(*self),
    {
        "card rule ".to_owned().concat(decimal(self.rule as u64).as_str()).concat(
            " failed: ",
        ).concat(self.detail)
    }
}

impl core::fmt::Display for RuleViolation {
    fn fmt(&self, f: &mut core::fmt::Formatter<'_>) -> core::fmt::Result {
        write_text(f, self.words().as_str())
    }
}

/// What a verifier knows before it looks at a card.
#[derive(Clone, Copy, Debug)]
pub struct VerifyContext {
    pub now: u64,
    pub highest_seen_serial: u64,
    pub expected_node_id: Option<NodeId>,
}

impl VerifyContext {
    /// Only the time is known.
    pub fn new(now: u64) -> (r: Self)
        ensures
            r == (VerifyContext { now, highest_seen_serial: 0, expected_node_id: None }),
    {
        VerifyContext { now, highest_seen_serial: 0, expected_node_id: None }
    }

    /// The owner chose this peer.
    pub fn expecting(self, node_id: NodeId) -> (r: Self)
        ensures
            r == (VerifyContext { expected_node_id: Some(node_id), ..self }),
    {
        VerifyContext { expected_node_id: Some(node_id), ..self }
    }

    /// Serials up to this one were accepted before.
    pub fn after_serial(self, serial: u64) -> (r: Self)
        ensures
            r == (VerifyContext { highest_seen_serial: serial, ..self }),
    {
        VerifyContext { highest_seen_serial: serial, ..self }
    }
}

/// A violation of a rule.
pub open spec fn violation(rule: u8, detail: &'static str) -> RuleViolation {
    RuleViolation { rule, detail }
}

fn fail(rule: u8, detail: &'static str) -> (r: RuleViolation)
    ensures
        r == violation(rule, detail),
{
    RuleViolation { rule, detail }
}

/// What rule 3 says of one hint's kind and value.
pub open spec fn hint_fault(hint: HintView) -> Option<RuleViolation> {
    if hint.kind == HINT_RELAY && (hint.value.len() == 0 || hint.value.len()
        > MAX_RELAY_HINT_BYTES) {
        Some(violation(3, "relay hint is not 1 to 255 bytes"))
    } else if hint.kind == HINT_UDP && hint.value.len() != 18 {
        Some(violation(3, "udp hint is not 18 bytes"))
    } else if hint.kind == HINT_ONION && hint.value.len() != 58 {
        Some(violation(3, "onion hint is not 58 bytes"))
    } else if hint.kind == HINT_EPHEMERAL && hint.value.len() != 33 {
        Some(violation(3, "ephemeral hint is not 33 bytes"))
    } else if hint.kind == HINT_EPHEMERAL && !(compressed_form(hint.value)
        && secp256k1_point_decodes(hint.value)) {
        Some(violation(3, "ephemeral hint does not decompress to a curve point"))
    } else {
        None
    }
}

/// The hint at `offset` of a hint region that ends at `end`.
pub open spec fn hint_at(bytes: Seq<u8>, offset: int, end: int) -> Result<HintView, RuleViolation> {
    if offset + 3 > end {
        Err(violation(3, "hint header runs past the signature"))
    } else {
        let length = be_value(bytes.subrange(offset + 1, offset + 3));
        if offset + 3 + length > end {
            Err(violation(3, "hint value runs past the signature"))
        } else {
            let hint = HintView {
                kind: bytes[offset],
                value: bytes.subrange(offset + 3, offset + 3 + length),
            };
            match hint_fault(hint) {
                Some(fault) => Err(fault),
                None => Ok(hint),
            }
        }
    }
}

/// Exactly `count` hints between `offset` and `end`.
pub open spec fn hints_from(bytes: Seq<u8>, offset: int, end: int, count: nat) -> Result<
    Seq<HintView>,
    RuleViolation,
>
    decreases count,
{
    if count == 0 {
        if offset == end {
            Ok(Seq::empty())
        } else {
            Err(violation(3, "hints do not end exactly at the signature"))
        }
    } else {
        match hint_at(bytes, offset, end) {
            Err(fault) => Err(fault),
            Ok(hint) => match hints_from(
                bytes,
                offset + 3 + hint.value.len(),
                end,
                (count - 1) as nat,
            ) {
                Err(fault) => Err(fault),
                Ok(rest) => Ok(seq![hint] + rest),
            },
        }
    }
}

/// How many hints are ephemeral keys.
pub open spec fn ephemeral_count(hints: Seq<HintView>) -> nat {
    hints.filter(|hint: HintView| hint.kind == HINT_EPHEMERAL).len()
}

/// Rules 1 to 3: length, magic and version, hint region.
pub open spec fn card_parse(bytes: Seq<u8>) -> Result<CardView, RuleViolation> {
    let end = bytes.len() - 64;
    if bytes.len() < MIN_CARD_BYTES {
        Err(violation(1, "card shorter than the 126 byte minimum"))
    } else if bytes.len() > MAX_CARD_BYTES {
        Err(violation(1, "card longer than the 4096 byte maximum"))
    } else if bytes.subrange(0, 4) != CARD_MAGIC@ {
        Err(violation(2, "magic is not FSL1"))
    } else if bytes[4] != CARD_VERSION {
        Err(violation(2, "version is not 0x01"))
    } else if bytes[61] as int > MAX_HINTS {
        Err(violation(3, "hint_count above 16"))
    } else {
        match hints_from(bytes, 62, end, bytes[61] as nat) {
            Err(fault) => Err(fault),
            Ok(hints) => if ephemeral_count(hints) > 1 {
                Err(violation(3, "more than one ephemeral hint"))
            } else {
                Ok(
                    CardView {
                        node_id: node_id_of(bytes.subrange(5, 37)),
                        issued_at: be_value(bytes.subrange(37, 45)) as u64,
                        expires_at: be_value(bytes.subrange(45, 53)) as u64,
                        serial: be_value(bytes.subrange(53, 61)) as u64,
                        hints,
                        raw: bytes,
                    },
                )
            },
        }
    }
}

/// The identity with these 32 bytes.
pub open spec fn node_id_of(bytes: Seq<u8>) -> NodeId {
    NodeId(
        [
            bytes[0], bytes[1], bytes[2], bytes[3], bytes[4], bytes[5], bytes[6], bytes[7],
            bytes[8], bytes[9], bytes[10], bytes[11], bytes[12], bytes[13], bytes[14], bytes[15],
            bytes[16], bytes[17], bytes[18], bytes[19], bytes[20], bytes[21], bytes[22], bytes[23],
            bytes[24], bytes[25], bytes[26], bytes[27], bytes[28], bytes[29], bytes[30], bytes[31],
        ],
    )
}

/// What the signature of a card covers.
pub open spec fn card_signing_input(raw: Seq<u8>) -> Seq<u8> {
    CARD_DOMAIN@ + raw.subrange(0, raw.len() - 64)
}

/// The signature of a card.
pub open spec fn card_signature(raw: Seq<u8>) -> Seq<u8> {
    raw.subrange(raw.len() - 64, raw.len() as int)
}

/// Rules 4 to 9, given whether the signature was accepted.
pub open spec fn claim_fault(card: CardView, ctx: VerifyContext, signed: bool) -> Option<
    RuleViolation,
> {
    if !signed {
        Some(violation(4, "signature does not verify under node_id"))
    } else if card.issued_at > ctx.now + CLOCK_SKEW_SECONDS {
        Some(violation(5, "issued_at is beyond the allowed clock skew"))
    } else if card.expires_at <= ctx.now {
        Some(violation(6, "card has expired"))
    } else if card.expires_at <= card.issued_at {
        Some(violation(7, "expires_at is not after issued_at"))
    } else if card.expires_at - card.issued_at > MAX_LIFETIME_SECONDS {
        Some(violation(7, "lifetime longer than seven days"))
    } else if card.serial <= ctx.highest_seen_serial {
        Some(violation(8, "serial is not above the highest previously accepted"))
    } else if ctx.expected_node_id is Some && ctx.expected_node_id != Some(card.node_id) {
        Some(violation(9, "node_id is not the expected peer"))
    } else {
        None
    }
}

/// The whole verdict on card bytes, given whether the signature was accepted.
pub open spec fn card_verdict(bytes: Seq<u8>, ctx: VerifyContext, signed: bool) -> Result<
    CardView,
    RuleViolation,
> {
    match card_parse(bytes) {
        Err(fault) => Err(fault),
        Ok(card) => match claim_fault(card, ctx, signed) {
            Some(fault) => Err(fault),
            None => Ok(card),
        },
    }
}

/// Whether the signature of these bytes is one by the identity inside them.
pub open spec fn self_signed(bytes: Seq<u8>) -> bool {
    ed25519_accepts(bytes.subrange(5, 37), card_signing_input(bytes), card_signature(bytes))
}

/// The view of a verdict.
pub open spec fn verdict_view(verdict: Result<Card, RuleViolation>) -> Result<
    CardView,
    RuleViolation,
> {
    match verdict {
        Ok(card) => Ok(card@),
        Err(fault) => Err(fault),
    }
}

/// `acc` followed by the hints of a verdict.
spec fn after(acc: Seq<HintView>, rest: Result<Seq<HintView>, RuleViolation>) -> Result<
    Seq<HintView>,
    RuleViolation,
> {
    match rest {
        Ok(hints) => Ok(acc + hints),
        Err(fault) => Err(fault),
    }
}

pub proof fn lemma_node_id_of(id: NodeId, bytes: Seq<u8>)
    requires
        bytes.len() == 32,
    ensures
        node_id_of(bytes).0@ == bytes,
        id.0@ == bytes ==> node_id_of(bytes) == id,
{
    assert(node_id_of(bytes).0@ =~= bytes);
    if id.0@ == bytes {
        assert(node_id_of(bytes).0 =~= id.0);
    }
}

/// Check one hint's kind and value.
fn check_hint(kind: u8, value: &[u8]) -> (r: Option<RuleViolation>)
    ensures
        r == hint_fault(HintView { kind, value: value@ }),
{
    let length: usize = value.len();
    if kind == HINT_RELAY && (length == 0 || length > MAX_RELAY_HINT_BYTES) {
        return Some(fail(3, "relay hint is not 1 to 255 bytes"));
    }
    if kind == HINT_UDP && length != 18 {
        return Some(fail(3, "udp hint is not 18 bytes"));
    }
    if kind == HINT_ONION && length != 58 {
        return Some(fail(3, "onion hint is not 58 bytes"));
    }
    if kind == HINT_EPHEMERAL {
        if length != 33 {
            return Some(fail(3, "ephemeral hint is not 33 bytes"));
        }
        if !valid_compressed_point(value) {
            return Some(fail(3, "ephemeral hint does not decompress to a curve point"));
        }
    }
    None
}

/// Parse the hint region.
fn parse_hints(bytes: &[u8], end: usize, count: usize) -> (r: Result<Vec<Hint>, RuleViolation>)
    requires
        HEADER_BYTES <= end <= bytes@.len() <= MAX_CARD_BYTES,
    ensures
        match r {
            Ok(hints) => hints_from(bytes@, 62, end as int, count as nat) == Ok::<
                _,
                RuleViolation,
            >(hint_views(hints@)),
            Err(fault) => hints_from(bytes@, 62, end as int, count as nat) == Err::<
                Seq<HintView>,
                _,
            >(fault),
        },
{
    let ghost whole = hints_from(bytes@, 62, end as int, count as nat);
    let mut offset: usize = HEADER_BYTES;
    let mut hints: Vec<Hint> = Vec::new();
    let mut left: usize = count;
    proof {
        assert(hint_views(hints@) =~= Seq::empty());
        match whole {
            Ok(all) => {
                assert(Seq::<HintView>::empty() + all =~= all);
            },
            Err(_) => {},
        }
    }
    while left > 0
        invariant
            HEADER_BYTES <= offset <= end <= bytes@.len() <= MAX_CARD_BYTES,
            left <= count,
            whole == hints_from(bytes@, 62, end as int, count as nat),
            whole == after(
                hint_views(hints@),
                hints_from(bytes@, offset as int, end as int, left as nat),
            ),
        decreases left,
    {
        if offset + 3 > end {
            return Err(fail(3, "hint header runs past the signature"));
        }
        let kind: u8 = bytes[offset];
        let length: usize = be16(bytes[offset + 1], bytes[offset + 2]) as usize;
        proof {
            assert(bytes@.subrange(offset + 1, offset + 3) =~= seq![
                bytes@[offset + 1],
                bytes@[offset + 2],
            ]);
        }
        let value_start: usize = offset + 3;
        let value_end: usize = value_start + length;
        if value_end > end {
            return Err(fail(3, "hint value runs past the signature"));
        }
        let value = slice_subrange(bytes, value_start, value_end);
        match check_hint(kind, value) {
            Some(fault) => {
                return Err(fault);
            },
            None => {},
        }
        let ghost before = hint_views(hints@);
        let hint = Hint { kind, value: to_vec(value) };
        let ghost seen = hint@;
        hints.push(hint);
        proof {
            assert(hint_at(bytes@, offset as int, end as int) == Ok::<_, RuleViolation>(seen));
            assert(hint_views(hints@) =~= before.push(seen));
            let rest = hints_from(bytes@, value_end as int, end as int, (left - 1) as nat);
            match rest {
                Ok(tail) => {
                    assert(before + (seq![seen] + tail) =~= before.push(seen) + tail);
                },
                Err(_) => {},
            }
        }
        offset = value_end;
        left -= 1;
    }
    if offset != end {
        return Err(fail(3, "hints do not end exactly at the signature"));
    }
    proof {
        assert(hint_views(hints@) + Seq::<HintView>::empty() =~= hint_views(hints@));
    }
    Ok(hints)
}

/// How many hints are ephemeral keys.
fn count_ephemeral(hints: &Vec<Hint>) -> (r: usize)
    ensures
        r == ephemeral_count(hint_views(hints@)),
{
    let ghost views = hint_views(hints@);
    let ghost pick = |hint: HintView| hint.kind == HINT_EPHEMERAL;
    let mut count: usize = 0;
    let mut i: usize = 0;
    proof {
        reveal(Seq::filter);
        assert(views.subrange(0, 0).filter(pick).len() == 0);
    }
    while i < hints.len()
        invariant
            i <= hints.len(),
            count <= i,
            views == hint_views(hints@),
            pick == (|hint: HintView| hint.kind == HINT_EPHEMERAL),
            count == views.subrange(0, i as int).filter(pick).len(),
        decreases hints.len() - i,
    {
        proof {
            reveal(Seq::filter);
            let next = views.subrange(0, i + 1);
            assert(next.drop_last() =~= views.subrange(0, i as int));
            assert(next.last() == hints@[i as int]@);
        }
        if hints[i].kind == HINT_EPHEMERAL {
            count += 1;
        }
        i += 1;
    }
    assert(views.subrange(0, views.len() as int) =~= views);
    count
}

impl Card {
    /// The bytes hold at least a header and a signature.
    pub open spec fn well_formed(&self) -> bool {
        self@.raw.len() >= MIN_CARD_BYTES
    }

    /// Sign a fresh card over its exact bytes.
    pub fn sign(
        key: &TransportKey,
        issued_at: u64,
        expires_at: u64,
        serial: u64,
        hints: Vec<Hint>,
    ) -> (r: Card)
        ensures
            r.well_formed(),
            r@ == signed_card(
                key.spec_seed(),
                key.id(),
                issued_at,
                expires_at,
                serial,
                hint_views(hints@),
            ),
            r@.raw.len() == card_body(
                key.id().0@,
                issued_at,
                expires_at,
                serial,
                hint_views(hints@),
            ).len() + 64,
            !neutral_nonce(card_signature(r@.raw)) ==> self_signed(r@.raw),
            hints_fit(hint_views(hints@)) ==> card_parse(r@.raw) == Ok::<_, RuleViolation>(r@),
            hints_fit(hint_views(hints@)) && !neutral_nonce(card_signature(r@.raw)) ==> forall|
                ctx: VerifyContext,
            |
                claim_fault(r@, ctx, true) is None ==> #[trigger] card_verdict(
                    r@.raw,
                    ctx,
                    self_signed(r@.raw),
                ) == Ok::<_, RuleViolation>(r@),
    {
        let body = encode_body(key.node_id(), issued_at, expires_at, serial, &hints);
        let mut input: Vec<u8> = Vec::new();
        append(&mut input, &CARD_DOMAIN);
        append(&mut input, body.as_slice());
        assert(input@ =~= CARD_DOMAIN@ + body@);
        let signature = key.sign(input.as_slice());
        let ghost front = body@;
        let mut raw = body;
        append(&mut raw, &signature);
        proof {
            let views = hint_views(hints@);
            lemma_body_len(key.id().0@, issued_at, expires_at, serial, views);
            lemma_header_parts(key.id().0@, issued_at, expires_at, serial, views.len());
            lemma_trailer(front, signature@);
            assert(raw@ =~= front + signature@);
            assert(raw@.subrange(5, 37) =~= header_bytes(
                key.id().0@,
                issued_at,
                expires_at,
                serial,
                views.len(),
            ).subrange(5, 37));
            if hints_fit(views) {
                law_signed_card_parses(
                    key.spec_seed(),
                    key.id(),
                    issued_at,
                    expires_at,
                    serial,
                    views,
                );
            }
        }
        Card {
            node_id: key.node_id(),
            issued_at,
            expires_at,
            serial,
            hints,
            raw: CardBytes { bytes: raw },
        }
    }

    /// The identity the card speaks for.
    pub(crate) fn owner(&self) -> (r: NodeId)
        ensures
            r == self@.node_id,
    {
        self.node_id
    }

    /// When the card was issued.
    pub(crate) fn issued(&self) -> (r: u64)
        ensures
            r == self@.issued_at,
    {
        self.issued_at
    }

    /// When the card expires.
    pub(crate) fn expiry(&self) -> (r: u64)
        ensures
            r == self@.expires_at,
    {
        self.expires_at
    }

    /// The serial of the card.
    pub(crate) fn serial_number(&self) -> (r: u64)
        ensures
            r == self@.serial,
    {
        self.serial
    }

    /// The exact card bytes, always byte-identical to what was verified.
    pub fn as_bytes(&self) -> (r: &[u8])
        ensures
            r@ == self@.raw,
    {
        self.raw.bytes.as_slice()
    }

    /// The domain-prefixed body the signature covers.
    pub fn signing_input(&self) -> (r: Vec<u8>)
        requires
            self.well_formed(),
        ensures
            r@ == card_signing_input(self@.raw),
    {
        let mut out: Vec<u8> = Vec::new();
        append(&mut out, &CARD_DOMAIN);
        let raw = self.raw.bytes.as_slice();
        append(&mut out, slice_subrange(raw, 0, raw.len() - SIGNATURE_BYTES));
        assert(out@ =~= card_signing_input(self@.raw));
        out
    }

    /// The 64 byte trailer.
    pub fn signature(&self) -> (r: [u8; 64])
        requires
            self.well_formed(),
        ensures
            r@ == card_signature(self@.raw),
    {
        array_at::<64>(self.raw.bytes.as_slice(), self.raw.bytes.len() - SIGNATURE_BYTES)
    }

    /// The relay URLs among the hints, in order.
    pub fn relay_urls(&self) -> (r: Vec<String>)
        ensures
            r@.map_values(|s: String| s@) == relay_texts(self@.hints),
    {
        let mut out: Vec<String> = Vec::new();
        let mut i: usize = 0;
        let ghost views = hint_views(self.hints@);
        assert(views.subrange(0, 0) =~= Seq::empty());
        assert(out@.map_values(|s: String| s@) =~= relay_texts(views.subrange(0, 0)));
        while i < self.hints.len()
            invariant
                i <= self.hints.len(),
                views == hint_views(self.hints@),
                out@.map_values(|s: String| s@) == relay_texts(views.subrange(0, i as int)),
            decreases self.hints.len() - i,
        {
            let ghost before = out@;
            proof {
                let next = views.subrange(0, i + 1);
                assert(next.drop_last() =~= views.subrange(0, i as int));
                assert(next.last() == self.hints@[i as int]@);
            }
            if let Some(url) = self.hints[i].as_relay() {
                out.push(url.to_owned());
                proof {
                    assert(out@.map_values(|s: String| s@) =~= before.map_values(
                        |s: String| s@,
                    ).push(url@));
                }
            }
            i += 1;
        }
        assert(views.subrange(0, views.len() as int) =~= views);
        out
    }

    /// The UDP candidates among the hints, in order.
    pub fn udp_candidates(&self) -> (r: Vec<SocketAddr>)
        ensures
            udp_list(self@.hints, r@),
    {
        let mut out: Vec<SocketAddr> = Vec::new();
        let mut i: usize = 0;
        let ghost views = hint_views(self.hints@);
        assert(views.subrange(0, 0) =~= Seq::empty());
        while i < self.hints.len()
            invariant
                i <= self.hints.len(),
                views == hint_views(self.hints@),
                udp_list(views.subrange(0, i as int), out@),
            decreases self.hints.len() - i,
        {
            let ghost before = out@;
            proof {
                let next = views.subrange(0, i + 1);
                assert(next.drop_last() =~= views.subrange(0, i as int));
                assert(next.last() == self.hints@[i as int]@);
            }
            if let Some(addr) = self.hints[i].as_udp() {
                out.push(addr);
                proof {
                    assert(out@.drop_last() =~= before);
                }
            }
            i += 1;
        }
        assert(views.subrange(0, views.len() as int) =~= views);
        out
    }

    /// Rules 1 to 3: what the bytes say, before anything of it is believed.
    pub fn parse(bytes: &[u8]) -> (r: Result<Card, RuleViolation>)
        ensures
            verdict_view(r) == card_parse(bytes@),
    {
        // Rule 1: overall length.
        if bytes.len() < MIN_CARD_BYTES {
            return Err(fail(1, "card shorter than the 126 byte minimum"));
        }
        if bytes.len() > MAX_CARD_BYTES {
            return Err(fail(1, "card longer than the 4096 byte maximum"));
        }
        // Rule 2: magic and version.
        if !bytes_eq(slice_subrange(bytes, 0, 4), &CARD_MAGIC) {
            return Err(fail(2, "magic is not FSL1"));
        }
        if bytes[4] != CARD_VERSION {
            return Err(fail(2, "version is not 0x01"));
        }
        let node_id = NodeId(array_at::<32>(bytes, 5));
        let issued_at: u64 = be64(slice_subrange(bytes, 37, 45));
        let expires_at: u64 = be64(slice_subrange(bytes, 45, 53));
        let serial: u64 = be64(slice_subrange(bytes, 53, 61));
        let count: usize = bytes[61] as usize;
        let end: usize = bytes.len() - SIGNATURE_BYTES;
        // Rule 3: hint region.  The signature is a fixed trailer, so it is located
        // before a single hint is parsed.
        if count > MAX_HINTS {
            return Err(fail(3, "hint_count above 16"));
        }
        let hints = match parse_hints(bytes, end, count) {
            Ok(hints) => hints,
            Err(fault) => {
                return Err(fault);
            },
        };
        if count_ephemeral(&hints) > 1 {
            return Err(fail(3, "more than one ephemeral hint"));
        }
        proof {
            lemma_node_id_of(node_id, bytes@.subrange(5, 37));
        }
        let raw = CardBytes { bytes: to_vec(bytes) };
        Ok(Card { node_id, issued_at, expires_at, serial, hints, raw })
    }

    /// Rules 4 to 9 on a parsed card, given whether its signature was accepted.
    pub fn judge(&self, ctx: &VerifyContext, signed: bool) -> (r: Option<RuleViolation>)
        ensures
            r == claim_fault(self@, *ctx, signed),
    {
        // Rule 4: signature over the domain-prefixed body.
        if !signed {
            return Some(fail(4, "signature does not verify under node_id"));
        }
        // Rule 5: issued too far in the future.

        if self.issued_at > ctx.now.saturating_add(CLOCK_SKEW_SECONDS) {
            return Some(fail(5, "issued_at is beyond the allowed clock skew"));
        }
        // Rule 6: already expired.

        if self.expires_at <= ctx.now {
            return Some(fail(6, "card has expired"));
        }
        // Rule 7: lifetime sanity.

        if self.expires_at <= self.issued_at {
            return Some(fail(7, "expires_at is not after issued_at"));
        }
        if self.expires_at - self.issued_at > MAX_LIFETIME_SECONDS {
            return Some(fail(7, "lifetime longer than seven days"));
        }
        // Rule 8: replay of a stale serial.

        if self.serial <= ctx.highest_seen_serial {
            return Some(fail(8, "serial is not above the highest previously accepted"));
        }
        // Rule 9: not the peer the owner chose.

        if let Some(expected) = ctx.expected_node_id {
            if !expected.same(&self.node_id) {
                return Some(fail(9, "node_id is not the expected peer"));
            }
        }
        None
    }

    /// Verify a card against the ordered rules, reporting the first failure.
    pub fn verify(bytes: &[u8], ctx: &VerifyContext) -> (r: Result<Card, RuleViolation>)
        ensures
            verdict_view(r) == card_verdict(bytes@, *ctx, self_signed(bytes@)),
            r is Ok ==> self_signed(bytes@),
            r matches Ok(card) ==> card.well_formed() && card@.raw == bytes@ && card_body(
                card.node_id.0@,
                card.issued_at,
                card.expires_at,
                card.serial,
                hint_views(card.hints@),
            ) == bytes@.subrange(0, bytes@.len() - 64),
    {
        let card = match Card::parse(bytes) {
            Ok(card) => card,
            Err(fault) => {
                return Err(fault);
            },
        };
        proof {
            lemma_parsed(bytes@);
            lemma_front(bytes@);
        }
        let signed = card.node_id.verify(card.signing_input().as_slice(), &card.signature());
        match card.judge(ctx, signed) {
            Some(fault) => Err(fault),
            None => Ok(card),
        }
    }
}

/// The card that signing makes.
pub open spec fn signed_card(
    seed: Seq<u8>,
    node_id: NodeId,
    issued_at: u64,
    expires_at: u64,
    serial: u64,
    hints: Seq<HintView>,
) -> CardView {
    let body = card_body(node_id.0@, issued_at, expires_at, serial, hints);
    CardView {
        node_id,
        issued_at,
        expires_at,
        serial,
        hints,
        raw: body + ed25519_signature(seed, CARD_DOMAIN@ + body),
    }
}

/// The relay URLs among hints, in order.
pub open spec fn relay_texts(hints: Seq<HintView>) -> Seq<Seq<char>>
    decreases hints.len(),
{
    if hints.len() == 0 {
        Seq::empty()
    } else {
        let before = relay_texts(hints.drop_last());
        match hint_relay(hints.last()) {
            Some(url) => before.push(url),
            None => before,
        }
    }
}

/// Whether `addrs` are the UDP candidates among hints, in order.
pub open spec fn udp_list(hints: Seq<HintView>, addrs: Seq<SocketAddr>) -> bool
    decreases hints.len(),
{
    if hints.len() == 0 {
        addrs.len() == 0
    } else if hint_is_udp(hints.last()) {
        &&& addrs.len() > 0
        &&& udp_matches(hints.last(), addrs.last())
        &&& udp_list(hints.drop_last(), addrs.drop_last())
    } else {
        udp_list(hints.drop_last(), addrs)
    }
}

proof fn lemma_body_len(
    node_id: Seq<u8>,
    issued_at: u64,
    expires_at: u64,
    serial: u64,
    hints: Seq<HintView>,
)
    requires
        node_id.len() == 32,
    ensures
        header_bytes(node_id, issued_at, expires_at, serial, hints.len()).len() == 62,
        card_body(node_id, issued_at, expires_at, serial, hints).len() >= 62,
{
    reveal(header_bytes);
    lemma_be_bytes_len(issued_at as nat, 8);
    lemma_be_bytes_len(expires_at as nat, 8);
    lemma_be_bytes_len(serial as nat, 8);
}

proof fn lemma_parsed(bytes: Seq<u8>)
    requires
        card_parse(bytes) is Ok,
    ensures
        card_parse(bytes)->Ok_0.raw == bytes,
        card_parse(bytes)->Ok_0.node_id.0@ == bytes.subrange(5, 37),
        MIN_CARD_BYTES <= bytes.len() <= MAX_CARD_BYTES,
{
    lemma_node_id_of(node_id_of(bytes.subrange(5, 37)), bytes.subrange(5, 37));
}

// ---------------------------------------------------------------------------
// Laws
// ---------------------------------------------------------------------------

proof fn lemma_hint_at_bytes(bytes: Seq<u8>, offset: int, end: int)
    requires
        0 <= offset <= end <= bytes.len(),
        hint_at(bytes, offset, end) is Ok,
    ensures
        ({
            let hint = hint_at(bytes, offset, end)->Ok_0;
            &&& hint.value.len() < 0x1_0000
            &&& hint_fault(hint) is None
            &&& offset + 3 + hint.value.len() <= end
            &&& hint_bytes(hint) == bytes.subrange(offset, offset + 3 + hint.value.len())
        }),
{
    let hint = hint_at(bytes, offset, end)->Ok_0;
    let spelled = bytes.subrange(offset + 1, offset + 3);
    lemma_be_value(spelled);
    lemma_pow256_values();
    assert(hint_bytes(hint) =~= bytes.subrange(offset, offset + 3 + hint.value.len()));
}

proof fn lemma_hints_from_bytes(bytes: Seq<u8>, offset: int, end: int, count: nat)
    requires
        0 <= offset <= end <= bytes.len(),
        hints_from(bytes, offset, end, count) is Ok,
    ensures
        ({
            let hints = hints_from(bytes, offset, end, count)->Ok_0;
            &&& hints.len() == count
            &&& hints_bytes(hints) == bytes.subrange(offset, end)
        }),
    decreases count,
{
    if count == 0 {
        assert(hints_bytes(Seq::<HintView>::empty()) =~= bytes.subrange(offset, end));
    } else {
        lemma_hint_at_bytes(bytes, offset, end);
        let hint = hint_at(bytes, offset, end)->Ok_0;
        let next = offset + 3 + hint.value.len();
        lemma_hints_from_bytes(bytes, next, end, (count - 1) as nat);
        let rest = hints_from(bytes, next, end, (count - 1) as nat)->Ok_0;
        let hints = seq![hint] + rest;
        assert(hints.drop_first() =~= rest);
        assert(hints_bytes(hints) =~= bytes.subrange(offset, end));
    }
}

/// Decoding loses nothing: the bytes of a parsed card are its fields encoded
/// again, followed by its signature.
pub proof fn law_parsed_card_reencodes(bytes: Seq<u8>)
    requires
        card_parse(bytes) is Ok,
    ensures
        ({
            let card = card_parse(bytes)->Ok_0;
            bytes == card_body(
                card.node_id.0@,
                card.issued_at,
                card.expires_at,
                card.serial,
                card.hints,
            ) + card_signature(bytes)
        }),
{
    let card = card_parse(bytes)->Ok_0;
    let end = bytes.len() - 64;
    lemma_parsed(bytes);
    lemma_pow256_values();
    lemma_be_value(bytes.subrange(37, 45));
    lemma_be_value(bytes.subrange(45, 53));
    lemma_be_value(bytes.subrange(53, 61));
    lemma_hints_from_bytes(bytes, 62, end, bytes[61] as nat);
    let header = header_bytes(
        card.node_id.0@,
        card.issued_at,
        card.expires_at,
        card.serial,
        card.hints.len(),
    );
    reveal(header_bytes);
    assert(header =~= bytes.subrange(0, 62));
    assert(header + hints_bytes(card.hints) + card_signature(bytes) =~= bytes);
}

/// What stands before the signature.
proof fn lemma_front(bytes: Seq<u8>)
    requires
        card_parse(bytes) is Ok,
    ensures
        ({
            let card = card_parse(bytes)->Ok_0;
            card_body(card.node_id.0@, card.issued_at, card.expires_at, card.serial, card.hints)
                == bytes.subrange(0, bytes.len() - 64)
        }),
{
    law_parsed_card_reencodes(bytes);
    lemma_parsed(bytes);
    let card = card_parse(bytes)->Ok_0;
    let body = card_body(card.node_id.0@, card.issued_at, card.expires_at, card.serial, card.hints);
    assert(card_signature(bytes).len() == 64);
    assert((body + card_signature(bytes)).subrange(0, body.len() as int) =~= body);
}

/// Verifying loses nothing: the fields of an accepted card encode to exactly the bytes
/// before its signature.
pub proof fn law_verified_card_reencodes(bytes: Seq<u8>, ctx: VerifyContext, signed: bool)
    requires
        card_verdict(bytes, ctx, signed) is Ok,
    ensures
        ({
            let card = card_verdict(bytes, ctx, signed)->Ok_0;
            card_body(card.node_id.0@, card.issued_at, card.expires_at, card.serial, card.hints)
                == bytes.subrange(0, bytes.len() - 64)
        }),
{
    lemma_front(bytes);
}

/// Hints a card can carry: few enough, each fit for its kind, at most one
/// ephemeral key, and small enough for the card to stay within its size.
pub open spec fn hints_fit(hints: Seq<HintView>) -> bool {
    &&& hints.len() <= MAX_HINTS
    &&& forall|i: int| 0 <= i < hints.len() ==> hint_fault(#[trigger] hints[i]) is None
    &&& ephemeral_count(hints) <= 1
    &&& hints_bytes(hints).len() <= MAX_CARD_BYTES - 126
}

proof fn lemma_hints_round_trip(bytes: Seq<u8>, offset: int, end: int, hints: Seq<HintView>)
    requires
        0 <= offset <= end <= bytes.len() <= MAX_CARD_BYTES,
        hints_bytes(hints) == bytes.subrange(offset, end),
        forall|i: int| 0 <= i < hints.len() ==> hint_fault(#[trigger] hints[i]) is None,
        forall|i: int| 0 <= i < hints.len() ==> (#[trigger] hints[i]).value.len() < 0x1_0000,
    ensures
        hints_from(bytes, offset, end, hints.len()) == Ok::<_, RuleViolation>(hints),
    decreases hints.len(),
{
    if hints.len() == 0 {
        assert(bytes.subrange(offset, end).len() == 0);
        assert(hints =~= Seq::empty());
    } else {
        let hint = hints[0];
        let rest = hints.drop_first();
        let length = hint.value.len();
        lemma_be_bytes_len(length, 2);
        lemma_pow256_values();
        lemma_be_round_trip(length, 2);
        let region = bytes.subrange(offset, end);
        assert(region == hint_bytes(hint) + hints_bytes(rest));
        assert(hint_bytes(hint).len() == 3 + length);
        let next = offset + 3 + length;
        assert(bytes.subrange(offset + 1, offset + 3) =~= region.subrange(1, 3));
        assert(region.subrange(1, 3) =~= be_bytes(length, 2));
        assert(bytes[offset] == region[0]);
        assert(bytes.subrange(offset + 3, next) =~= region.subrange(3, 3 + length as int));
        assert(region.subrange(3, 3 + length as int) =~= hint.value);
        assert(hint_at(bytes, offset, end) == Ok::<_, RuleViolation>(hint));
        assert(bytes.subrange(next, end) =~= region.subrange(
            3 + length as int,
            region.len() as int,
        ));
        assert(region.subrange(3 + length as int, region.len() as int) =~= hints_bytes(rest));
        assert forall|i: int| 0 <= i < rest.len() implies hint_fault(#[trigger] rest[i]) is None
            && rest[i].value.len() < 0x1_0000 by {
            assert(rest[i] == hints[i + 1]);
        }
        lemma_hints_round_trip(bytes, next, end, rest);
        assert(seq![hint] + rest =~= hints);
    }
}

proof fn lemma_value_within(hints: Seq<HintView>, i: int)
    requires
        0 <= i < hints.len(),
    ensures
        hints[i].value.len() <= hints_bytes(hints).len(),
    decreases hints.len(),
{
    if i > 0 {
        lemma_value_within(hints.drop_first(), i - 1);
    }
}

/// The parts of a header-shaped concatenation.
proof fn lemma_parts(
    magic: Seq<u8>,
    version: u8,
    node_id: Seq<u8>,
    first: Seq<u8>,
    second: Seq<u8>,
    third: Seq<u8>,
    count: u8,
)
    requires
        magic.len() == 4,
        node_id.len() == 32,
        first.len() == 8,
        second.len() == 8,
        third.len() == 8,
    ensures
        ({
            let all = magic + seq![version] + node_id + first + second + third + seq![count];
            &&& all.len() == 62
            &&& all.subrange(0, 4) == magic
            &&& all[4] == version
            &&& all.subrange(5, 37) == node_id
            &&& all.subrange(37, 45) == first
            &&& all.subrange(45, 53) == second
            &&& all.subrange(53, 61) == third
            &&& all[61] == count
        }),
{
    let all = magic + seq![version] + node_id + first + second + third + seq![count];
    assert(all.subrange(0, 4) =~= magic);
    assert(all.subrange(5, 37) =~= node_id);
    assert(all.subrange(37, 45) =~= first);
    assert(all.subrange(45, 53) =~= second);
    assert(all.subrange(53, 61) =~= third);
}

/// The fields of a header stand where the layout says.
proof fn lemma_header_parts(
    node_id: Seq<u8>,
    issued_at: u64,
    expires_at: u64,
    serial: u64,
    count: nat,
)
    requires
        node_id.len() == 32,
    ensures
        ({
            let header = header_bytes(node_id, issued_at, expires_at, serial, count);
            &&& header.len() == 62
            &&& header.subrange(0, 4) == CARD_MAGIC@
            &&& header[4] == CARD_VERSION
            &&& header.subrange(5, 37) == node_id
            &&& be_value(header.subrange(37, 45)) == issued_at
            &&& be_value(header.subrange(45, 53)) == expires_at
            &&& be_value(header.subrange(53, 61)) == serial
            &&& header[61] == (count % 256) as u8
        }),
{
    reveal(header_bytes);
    lemma_pow256_values();
    lemma_be_round_trip(issued_at as nat, 8);
    lemma_be_round_trip(expires_at as nat, 8);
    lemma_be_round_trip(serial as nat, 8);
    lemma_parts(
        CARD_MAGIC@,
        CARD_VERSION,
        node_id,
        be_bytes(issued_at as nat, 8),
        be_bytes(expires_at as nat, 8),
        be_bytes(serial as nat, 8),
        (count % 256) as u8,
    );
}

/// Bytes that are a header, the encoding of hints a card can carry, and 64 more
/// bytes parse to those fields and hints.
proof fn lemma_layout_parses(
    node_id: NodeId,
    issued_at: u64,
    expires_at: u64,
    serial: u64,
    hints: Seq<HintView>,
    trailer: Seq<u8>,
)
    requires
        hints_fit(hints),
        trailer.len() == 64,
    ensures
        ({
            let raw = card_body(node_id.0@, issued_at, expires_at, serial, hints) + trailer;
            card_parse(raw) == Ok::<_, RuleViolation>(
                CardView { node_id, issued_at, expires_at, serial, hints, raw },
            )
        }),
{
    let header = header_bytes(node_id.0@, issued_at, expires_at, serial, hints.len());
    let bytes = card_body(node_id.0@, issued_at, expires_at, serial, hints) + trailer;
    let end = bytes.len() - 64;
    lemma_header_parts(node_id.0@, issued_at, expires_at, serial, hints.len());
    assert(bytes.len() == 62 + hints_bytes(hints).len() + 64);
    assert(bytes.subrange(0, 4) =~= header.subrange(0, 4));
    assert(bytes[4] == header[4]);
    assert(bytes.subrange(5, 37) =~= header.subrange(5, 37));
    assert(bytes.subrange(37, 45) =~= header.subrange(37, 45));
    assert(bytes.subrange(45, 53) =~= header.subrange(45, 53));
    assert(bytes.subrange(53, 61) =~= header.subrange(53, 61));
    assert(bytes[61] == header[61]);
    assert(bytes[61] as nat == hints.len());
    assert(bytes.subrange(62, end) =~= hints_bytes(hints));
    assert forall|i: int| 0 <= i < hints.len() implies (#[trigger] hints[i]).value.len()
        < 0x1_0000 by {
        lemma_value_within(hints, i);
    }
    lemma_hints_round_trip(bytes, 62, end, hints);
    lemma_node_id_of(node_id, node_id.0@);
}

/// A card that was signed with hints it can carry parses to exactly what was
/// signed.
pub proof fn law_signed_card_parses(
    seed: Seq<u8>,
    node_id: NodeId,
    issued_at: u64,
    expires_at: u64,
    serial: u64,
    hints: Seq<HintView>,
)
    requires
        hints_fit(hints),
        ed25519_signature(
            seed,
            CARD_DOMAIN@ + card_body(node_id.0@, issued_at, expires_at, serial, hints),
        ).len() == 64,
    ensures
        ({
            let card = signed_card(seed, node_id, issued_at, expires_at, serial, hints);
            card_parse(card.raw) == Ok::<_, RuleViolation>(card)
        }),
{
    let body = card_body(node_id.0@, issued_at, expires_at, serial, hints);
    let signature = ed25519_signature(seed, CARD_DOMAIN@ + body);
    lemma_layout_parses(node_id, issued_at, expires_at, serial, hints, signature);
}

/// The trailer and what it covers, of bytes put together from the two.
proof fn lemma_trailer(body: Seq<u8>, trailer: Seq<u8>)
    requires
        trailer.len() == 64,
    ensures
        card_signing_input(body + trailer) == CARD_DOMAIN@ + body,
        card_signature(body + trailer) == trailer,
{
    let raw = body + trailer;
    assert(raw.subrange(0, raw.len() - 64) =~= body);
    assert(card_signature(raw) =~= trailer);
}

/// A signed card verifies, and verifying gives back what was signed, as long as
/// strict verification accepts the signature and the claims hold at the time.
pub proof fn law_signed_card_verifies(
    seed: Seq<u8>,
    node_id: NodeId,
    issued_at: u64,
    expires_at: u64,
    serial: u64,
    hints: Seq<HintView>,
    ctx: VerifyContext,
)
    requires
        hints_fit(hints),
        ({
            let body = card_body(node_id.0@, issued_at, expires_at, serial, hints);
            let signature = ed25519_signature(seed, CARD_DOMAIN@ + body);
            &&& signature.len() == 64
            &&& ed25519_accepts(node_id.0@, CARD_DOMAIN@ + body, signature)
        }),
        claim_fault(
            signed_card(seed, node_id, issued_at, expires_at, serial, hints),
            ctx,
            true,
        ) is None,
    ensures
        ({
            let card = signed_card(seed, node_id, issued_at, expires_at, serial, hints);
            card_verdict(card.raw, ctx, self_signed(card.raw)) == Ok::<_, RuleViolation>(card)
        }),
{
    let card = signed_card(seed, node_id, issued_at, expires_at, serial, hints);
    let body = card_body(node_id.0@, issued_at, expires_at, serial, hints);
    let signature = ed25519_signature(seed, CARD_DOMAIN@ + body);
    law_signed_card_parses(seed, node_id, issued_at, expires_at, serial, hints);
    lemma_parsed(card.raw);
    lemma_trailer(body, signature);
    assert(self_signed(card.raw));
}

/// The bytes of a card are what its signature covers, without the domain, followed by
/// the signature.
pub proof fn law_card_bytes_split(raw: Seq<u8>)
    requires
        raw.len() >= MIN_CARD_BYTES,
    ensures
        card_signing_input(raw).take(24) == CARD_DOMAIN@,
        card_signing_input(raw).skip(24) + card_signature(raw) == raw,
        card_signature(raw).len() == 64,
{
    assert(card_signing_input(raw).take(24) =~= CARD_DOMAIN@);
    assert(card_signing_input(raw).skip(24) =~= raw.subrange(0, raw.len() - 64));
    assert(raw.subrange(0, raw.len() - 64) + card_signature(raw) =~= raw);
}

/// What an accepted card is known to be: signed by the identity it names,
/// current, not too long-lived, newer than every serial seen, from the expected
/// peer, and with at most sixteen hints.
pub proof fn law_accepted_card_is_current(bytes: Seq<u8>, ctx: VerifyContext)
    requires
        card_verdict(bytes, ctx, self_signed(bytes)) is Ok,
    ensures
        ({
            let card = card_verdict(bytes, ctx, self_signed(bytes))->Ok_0;
            &&& card.raw == bytes
            &&& MIN_CARD_BYTES <= bytes.len() <= MAX_CARD_BYTES
            &&& ed25519_accepts(card.node_id.0@, card_signing_input(bytes), card_signature(bytes))
            &&& card.issued_at <= ctx.now + CLOCK_SKEW_SECONDS
            &&& ctx.now < card.expires_at
            &&& card.issued_at < card.expires_at <= card.issued_at + MAX_LIFETIME_SECONDS
            &&& card.serial > ctx.highest_seen_serial
            &&& ctx.expected_node_id is Some ==> ctx.expected_node_id == Some(card.node_id)
            &&& card.hints.len() <= MAX_HINTS
        }),
{
    lemma_parsed(bytes);
    lemma_hints_from_bytes(bytes, 62, bytes.len() - 64, bytes[61] as nat);
}

/// A card is never accepted twice: once its serial has been recorded, the same
/// bytes fail the replay rule at the same time.
pub proof fn law_accepted_card_does_not_replay(bytes: Seq<u8>, ctx: VerifyContext)
    requires
        card_verdict(bytes, ctx, self_signed(bytes)) is Ok,
    ensures
        ({
            let card = card_verdict(bytes, ctx, self_signed(bytes))->Ok_0;
            let later = VerifyContext { highest_seen_serial: card.serial, ..ctx };
            card_verdict(bytes, later, self_signed(bytes)) == Err::<CardView, _>(
                violation(8, "serial is not above the highest previously accepted"),
            )
        }),
{
}

} // verus!
