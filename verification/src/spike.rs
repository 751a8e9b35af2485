//! The arguments of the command line tool, and the payload it streams.
use crate::bytes::{
    be64, be_bytes, be_value, bytes_eq, fixed, lemma_be_round_trip, lemma_pow256_values, to_be64,
};
use crate::card::{
    card_signature, card_verdict, hint_views, hints_fit, rule_words, self_signed, signed_card,
    udp_value, Card, CardView, Hint, HintView, RuleViolation, VerifyContext, HINT_ONION, HINT_RELAY,
    HINT_UDP, MAX_HINTS, MAX_LIFETIME_SECONDS,
};
use crate::crypto::{
    absorbed, base64_decode, base64_standard, hex_decode, is_hex, neutral_nonce, sha256_digest,
    sha256_finish, sha256_start, sha256_update, unhex, Sha256Hasher,
};
use crate::endpoint::card_lifetime;
use crate::id::TransportKey;
use crate::net::SocketAddr;
use crate::path::{opt_text, PathStatus};
use crate::relay_client::RelaySpec;
use crate::text::{
    all_digits, chars_of, decimal_value, last_place, parse_decimal, slice_from, slice_to, text_of,
    trim, trimmed, write_text,
};
use vstd::prelude::*;
use vstd::utf8::encode_utf8;

verus! {

/// How many bytes are written or read at a time.
pub const CHUNK: usize = 65_536;

/// The state that a payload starts from.
pub const PAYLOAD_SEED: u64 = 0x5eed_0000_0000_0001;

/// Why the arguments cannot be used.
#[derive(Debug, PartialEq, Eq)]
pub enum SpikeError {
    NoKey,
    SeedText,
    SeedLength,
    OnionForm,
    OnionHost,
    OnionPort,
    TooManyHints,
    CardText,
    Card(RuleViolation),
    OwnCard(RuleViolation),
    TooLarge,
}

/// The words for a refusal.
pub open spec fn spike_words(error: SpikeError) -> Seq<char> {
    match error {
        SpikeError::NoKey => "pass --key-file or --key-hex"@,
        SpikeError::SeedText => "the seed is not hex"@,
        SpikeError::SeedLength => "a seed is 32 bytes of hex"@,
        SpikeError::OnionForm => "onion hints look like <host>:<port>"@,
        SpikeError::OnionHost => "a v3 onion host is 56 characters"@,
        SpikeError::OnionPort => "the onion port is not a port number"@,
        SpikeError::TooManyHints => "at most 16 hints"@,
        SpikeError::CardText => "the card is neither hex nor base64"@,
        SpikeError::Card(fault) => rule_words(fault),
        SpikeError::OwnCard(fault) => "the freshly signed card does not verify: "@ + rule_words(
            fault,
        ),
        SpikeError::TooLarge => "the payload does not fit in memory addresses"@,
    }
}

impl SpikeError {
    /// The words for this refusal.
    pub fn words(&self) -> (r: String)
        ensures
            r@ == spike_words(*self),
    {
        match self {
            SpikeError::NoKey => "pass --key-file or --key-hex".to_owned(),
            SpikeError::SeedText => "the seed is not hex".to_owned(),
            SpikeError::SeedLength => "a seed is 32 bytes of hex".to_owned(),
            SpikeError::OnionForm => "onion hints look like <host>:<port>".to_owned(),
            SpikeError::OnionHost => "a v3 onion host is 56 characters".to_owned(),
            SpikeError::OnionPort => "the onion port is not a port number".to_owned(),
            SpikeError::TooManyHints => "at most 16 hints".to_owned(),
            SpikeError::CardText => "the card is neither hex nor base64".to_owned(),
            SpikeError::Card(fault) => fault.words(),
            SpikeError::OwnCard(fault) => "the freshly signed card does not verify: ".to_owned().concat(
                fault.words().as_str(),
            ),
            SpikeError::TooLarge => "the payload does not fit in memory addresses".to_owned(),
        }
    }
}

impl core::fmt::Display for SpikeError {
    fn fmt(&self, f: &mut core::fmt::Formatter<'_>) -> core::fmt::Result {
        write_text(f, self.words().as_str())
    }
}

/// The text a key is read from: the file before the argument.
pub fn key_text(file: Option<String>, argument: Option<String>) -> (r: Result<String, SpikeError>)
    ensures
        match r {
            Ok(text) => if file is Some {
                text == file->0
            } else {
                argument == Some(text)
            },
            Err(error) => file is None && argument is None && error == SpikeError::NoKey,
        },
{
    match (file, argument) {
        (Some(text), _) => Ok(text),
        (None, Some(text)) => Ok(text),
        (None, None) => Err(SpikeError::NoKey),
    }
}

/// A seed as text: 32 bytes of hex, with white space around them.
pub open spec fn seed_verdict(text: Seq<char>) -> Result<Seq<u8>, SpikeError> {
    let digits = encode_utf8(trimmed(text));
    if !is_hex(digits) {
        Err(SpikeError::SeedText)
    } else if unhex(digits).len() != 32 {
        Err(SpikeError::SeedLength)
    } else {
        Ok(unhex(digits))
    }
}

/// Read a seed.
pub fn load_seed(text: &str) -> (r: Result<[u8; 32], SpikeError>)
    ensures
        match r {
            Ok(seed) => seed_verdict(text@) == Ok::<_, SpikeError>(seed@),
            Err(error) => seed_verdict(text@) == Err::<Seq<u8>, _>(error),
        },
{
    let digits = text_of(trim(chars_of(text).as_slice()));
    match hex_decode(digits.as_str()) {
        Some(raw) => match fixed::<32>(raw.as_slice()) {
            Some(seed) => Ok(seed),
            None => Err(SpikeError::SeedLength),
        },
        None => Err(SpikeError::SeedText),
    }
}

/// The relays of the arguments: a certificate digest goes with the relay at the same
/// place.
pub fn relay_specs(relays: &Vec<String>, certs: &Vec<String>, insecure: bool) -> (r: Vec<RelaySpec>)
    ensures
        r@.len() == relays@.len(),
        forall|i: int|
            0 <= i < r@.len() ==> (#[trigger] r@[i]).url@ == relays@[i]@ && r@[i].insecure_tls
                == insecure && opt_text(r@[i].cert_sha256) == if i < certs@.len() {
                Some(certs@[i]@)
            } else {
                None
            },
{
    let mut out: Vec<RelaySpec> = Vec::new();
    let mut i: usize = 0;
    while i < relays.len()
        invariant
            i <= relays@.len(),
            out@.len() == i,
            forall|k: int|
                0 <= k < i ==> (#[trigger] out@[k]).url@ == relays@[k]@ && out@[k].insecure_tls
                    == insecure && opt_text(out@[k].cert_sha256) == if k < certs@.len() {
                    Some(certs@[k]@)
                } else {
                    None
                },
        decreases relays@.len() - i,
    {
        let cert_sha256 = if i < certs.len() {
            Some(certs[i].clone())
        } else {
            None
        };
        out.push(RelaySpec { url: relays[i].clone(), cert_sha256, insecure_tls: insecure });
        i += 1;
    }
    out
}

// ---------------------------------------------------------------------------
// Cards
// ---------------------------------------------------------------------------
/// A number without the plus sign it may begin with.
pub open spec fn unsigned(text: Seq<char>) -> Seq<char> {
    if text.len() > 0 && text[0] == '+' {
        text.skip(1)
    } else {
        text
    }
}

/// A port number in decimal.
pub open spec fn port_of(text: Seq<char>) -> Option<u16> {
    let digits = unsigned(text);
    if digits.len() > 0 && all_digits(digits) && decimal_value(digits) <= 0xffff {
        Some(decimal_value(digits) as u16)
    } else {
        None
    }
}

/// An onion hint as text: a 56 byte host, a colon and a port.
pub open spec fn onion_verdict(entry: Seq<char>) -> Result<HintView, SpikeError> {
    match entry.index_of_last(':') {
        None => Err(SpikeError::OnionForm),
        Some(at) => {
            let host = encode_utf8(entry.take(at));
            if host.len() != 56 {
                Err(SpikeError::OnionHost)
            } else {
                match port_of(entry.skip(at + 1)) {
                    None => Err(SpikeError::OnionPort),
                    Some(port) => Ok(
                        HintView { kind: HINT_ONION, value: host + be_bytes(port as nat, 2) },
                    ),
                }
            }
        },
    }
}

/// Read an onion hint.
pub fn onion_hint(entry: &str) -> (r: Result<Hint, SpikeError>)
    ensures
        match r {
            Ok(hint) => onion_verdict(entry@) == Ok::<_, SpikeError>(hint@),
            Err(error) => onion_verdict(entry@) == Err::<HintView, _>(error),
        },
{
    let chars = chars_of(entry);
    let at = match last_place(chars.as_slice(), ':') {
        Some(at) => at,
        None => {
            return Err(SpikeError::OnionForm);
        },
    };
    let host = text_of(slice_to(chars.as_slice(), at));
    if host.as_str().as_bytes().len() != 56 {
        return Err(SpikeError::OnionHost);
    }
    let port = slice_from(chars.as_slice(), at + 1);
    let digits = if port.len() > 0 && port[0] == '+' {
        slice_from(port, 1)
    } else {
        port
    };
    match parse_decimal(digits, 0xffff) {
        Some(port) => {
            Ok(Hint::onion(host.as_str(), port as u16))
        },
        None => Err(SpikeError::OnionPort),
    }
}

/// The hints of the arguments, before the onion hints.
pub open spec fn plain_hints(relays: Seq<String>, udp: Seq<SocketAddr>) -> Seq<HintView> {
    relays.map_values(
        |url: String| HintView { kind: HINT_RELAY, value: encode_utf8(url@) },
    ) + udp.map_values(|addr: SocketAddr| HintView { kind: HINT_UDP, value: udp_value(addr) })
}

/// The onion hints of the arguments, or what is wrong with the first bad one.
pub open spec fn onion_hints(onion: Seq<String>) -> Result<Seq<HintView>, SpikeError>
    decreases onion.len(),
{
    if onion.len() == 0 {
        Ok(Seq::empty())
    } else {
        match onion_hints(onion.drop_last()) {
            Err(error) => Err(error),
            Ok(before) => match onion_verdict(onion.last()@) {
                Err(error) => Err(error),
                Ok(hint) => Ok(before.push(hint)),
            },
        }
    }
}

/// The hints of the arguments: relays, UDP candidates and onion services, at most
/// sixteen.
pub open spec fn hints_verdict(
    relays: Seq<String>,
    udp: Seq<SocketAddr>,
    onion: Seq<String>,
) -> Result<Seq<HintView>, SpikeError> {
    match onion_hints(onion) {
        Err(error) => Err(error),
        Ok(last) => {
            let all = plain_hints(relays, udp) + last;
            if all.len() > MAX_HINTS {
                Err(SpikeError::TooManyHints)
            } else {
                Ok(all)
            }
        },
    }
}

proof fn lemma_onion_hints_fail(onion: Seq<String>, upto: int)
    requires
        0 <= upto <= onion.len(),
        onion_hints(onion.take(upto)) is Err,
    ensures
        onion_hints(onion) == onion_hints(onion.take(upto)),
    decreases onion.len() - upto,
{
    if upto < onion.len() {
        assert(onion.take(upto + 1).drop_last() =~= onion.take(upto));
        lemma_onion_hints_fail(onion, upto + 1);
    } else {
        assert(onion.take(upto) =~= onion);
    }
}

/// Gather the hints of the arguments.
pub fn card_hints(relays: &Vec<String>, udp: &Vec<SocketAddr>, onion: &Vec<String>) -> (r: Result<
    Vec<Hint>,
    SpikeError,
>)
    ensures
        match r {
            Ok(hints) => hints_verdict(relays@, udp@, onion@) == Ok::<_, SpikeError>(
                hint_views(hints@),
            ),
            Err(error) => hints_verdict(relays@, udp@, onion@) == Err::<Seq<HintView>, _>(error),
        },
{
    let mut hints: Vec<Hint> = Vec::new();
    let ghost wanted = plain_hints(relays@, udp@);
    let mut i: usize = 0;
    while i < relays.len()
        invariant
            i <= relays@.len(),
            wanted == plain_hints(relays@, udp@),
            hint_views(hints@) == wanted.take(i as int),
        decreases relays@.len() - i,
    {
        let ghost before = hint_views(hints@);
        let hint = Hint::relay(relays[i].as_str());
        hints.push(hint);
        assert(hint_views(hints@) =~= before.push(hint@));
        assert(hint@ == wanted[i as int]);
        assert(hint_views(hints@) =~= wanted.take(i as int + 1));
        i += 1;
    }
    let mut j: usize = 0;
    while j < udp.len()
        invariant
            j <= udp@.len(),
            wanted == plain_hints(relays@, udp@),
            hint_views(hints@) == wanted.take(relays@.len() + j),
        decreases udp@.len() - j,
    {
        let ghost before = hint_views(hints@);
        let hint = Hint::udp(udp[j]);
        hints.push(hint);
        assert(hint_views(hints@) =~= before.push(hint@));
        assert(hint@ == wanted[relays@.len() + j]);
        assert(hint_views(hints@) =~= wanted.take(relays@.len() + j + 1));
        j += 1;
    }
    let mut k: usize = 0;
    proof {
        assert(onion@.take(0) =~= Seq::<String>::empty());
        assert(hint_views(hints@) =~= wanted + Seq::<HintView>::empty());
    }
    while k < onion.len()
        invariant
            k <= onion@.len(),
            wanted == plain_hints(relays@, udp@),
            onion_hints(onion@.take(k as int)) is Ok,
            hint_views(hints@) == wanted + onion_hints(onion@.take(k as int))->Ok_0,
        decreases onion@.len() - k,
    {
        let ghost upto = onion@.take(k as int + 1);
        proof {
            assert(upto.drop_last() =~= onion@.take(k as int));
            if onion_hints(upto) is Err {
                lemma_onion_hints_fail(onion@, k as int + 1);
            }
        }
        match onion_hint(onion[k].as_str()) {
            Ok(hint) => {
                let ghost before = hint_views(hints@);
                hints.push(hint);
                assert(hint_views(hints@) =~= before.push(hint@));
            },
            Err(error) => {
                return Err(error);
            },
        }
        assert(hint_views(hints@) =~= wanted + onion_hints(upto)->Ok_0);
        k += 1;
    }
    assert(onion@.take(k as int) =~= onion@);
    if hints.len() > MAX_HINTS {
        return Err(SpikeError::TooManyHints);
    }
    Ok(hints)
}

/// The card that `mint_card` signs.
pub open spec fn minted(
    key: TransportKey,
    now: u64,
    ttl: u64,
    serial: Option<u64>,
    hints: Seq<HintView>,
) -> CardView {
    signed_card(
        key.spec_seed(),
        key.id(),
        now,
        (now + card_lifetime(ttl)) as u64,
        if serial is Some {
            serial->0
        } else {
            now
        },
        hints,
    )
}

/// Sign a card and verify it, so that a bad card never leaves the process.
pub fn mint_card(
    key: &TransportKey,
    now: u64,
    ttl: u64,
    serial: Option<u64>,
    hints: Vec<Hint>,
) -> (r: Result<Card, SpikeError>)
    requires
        now + card_lifetime(ttl) <= u64::MAX,
    ensures
        ({
            let card = minted(*key, now, ttl, serial, hint_views(hints@));
            let ctx = VerifyContext {
                now,
                highest_seen_serial: 0,
                expected_node_id: Some(key.id()),
            };
            &&& match r {
                Ok(made) => made.well_formed() && made@ == card && card_verdict(
                    card.raw,
                    ctx,
                    self_signed(card.raw),
                ) is Ok,
                Err(error) => card_verdict(card.raw, ctx, self_signed(card.raw)) matches Err(fault)
                    && error == SpikeError::OwnCard(fault),
            }
            &&& hints_fit(hint_views(hints@)) && card.serial > 0 && !neutral_nonce(
                card_signature(card.raw),
            ) ==> r is Ok
        }),
{
    let lifetime: u64 = if ttl < 1 {
        1
    } else if ttl > MAX_LIFETIME_SECONDS {
        MAX_LIFETIME_SECONDS
    } else {
        ttl
    };
    let serial: u64 = match serial {
        Some(serial) => serial,
        None => now,
    };
    let card = Card::sign(key, now, now + lifetime, serial, hints);
    match Card::verify(card.as_bytes(), &VerifyContext::new(now).expecting(key.node_id())) {
        Ok(_) => Ok(card),
        Err(fault) => Err(SpikeError::OwnCard(fault)),
    }
}

/// The bytes of a card as text: hex, or else base64.
pub open spec fn card_text(text: Seq<char>) -> Option<Seq<u8>> {
    let text = trimmed(text);
    if is_hex(encode_utf8(text)) {
        Some(unhex(encode_utf8(text)))
    } else {
        base64_standard(text)
    }
}

/// Read a card as text, and verify it.
pub fn parse_card(text: &str, now: u64) -> (r: Result<Card, SpikeError>)
    ensures
        match card_text(text@) {
            None => r matches Err(error) && error == SpikeError::CardText,
            Some(bytes) => {
                let ctx = VerifyContext { now, highest_seen_serial: 0, expected_node_id: None };
                match r {
                    Ok(card) => card.well_formed() && card_verdict(bytes, ctx, self_signed(bytes))
                        == Ok::<_, RuleViolation>(card@),
                    Err(error) => card_verdict(bytes, ctx, self_signed(bytes)) matches Err(fault)
                        && error == SpikeError::Card(fault),
                }
            },
        },
{
    let plain = text_of(trim(chars_of(text).as_slice()));
    let decoded = match hex_decode(plain.as_str()) {
        Some(bytes) => Some(bytes),
        None => base64_decode(plain.as_str()),
    };
    match decoded {
        Some(bytes) => verify_bytes(bytes.as_slice(), now),
        None => Err(SpikeError::CardText),
    }
}

/// Verify the bytes of a card that may be anybody's.
pub fn verify_bytes(bytes: &[u8], now: u64) -> (r: Result<Card, SpikeError>)
    ensures
        ({
            let ctx = VerifyContext { now, highest_seen_serial: 0, expected_node_id: None };
            match r {
                Ok(card) => card.well_formed() && card_verdict(bytes@, ctx, self_signed(bytes@))
                    == Ok::<_, RuleViolation>(card@),
                Err(error) => card_verdict(bytes@, ctx, self_signed(bytes@)) matches Err(fault)
                    && error == SpikeError::Card(fault),
            }
        }),
{
    match Card::verify(bytes, &VerifyContext::new(now)) {
        Ok(card) => Ok(card),
        Err(fault) => Err(SpikeError::Card(fault)),
    }
}

// ---------------------------------------------------------------------------
// The payload
// ---------------------------------------------------------------------------
/// The state that follows a state.
pub open spec fn next_state(state: u64) -> u64 {
    let a = state ^ (state << 13);
    let b = a ^ (a >> 7);
    b ^ (b << 17)
}

/// The state after `n` steps.
pub open spec fn state_after(state: u64, n: nat) -> u64
    decreases n,
{
    if n == 0 {
        state
    } else {
        next_state(state_after(state, (n - 1) as nat))
    }
}

/// The byte at a place of a payload: each state gives eight, the lowest first.
pub open spec fn payload_byte(state: u64, at: nat) -> u8 {
    ((state_after(state, at / 8 + 1) >> (8 * (at % 8)) as u64) & 0xff) as u8
}

/// How many states a payload uses up.
pub open spec fn states_used(len: nat) -> nat {
    (len + 7) / 8
}

/// Fill a buffer with the payload that both ends can compute.
pub fn fill(state: &mut u64, buf: &mut Vec<u8>)
    ensures
        final(buf)@.len() == old(buf)@.len(),
        forall|i: int|
            0 <= i < final(buf)@.len() ==> #[trigger] final(buf)@[i] == payload_byte(
                *old(state),
                i as nat,
            ),
        *final(state) == state_after(*old(state), states_used(old(buf)@.len())),
{
    let ghost start = *state;
    let len: usize = buf.len();
    let mut i: usize = 0;
    while i < len
        invariant
            i <= len == buf@.len(),
            old(buf)@.len() == len,
            *state == state_after(start, states_used(i as nat)),
            forall|k: int| 0 <= k < i ==> #[trigger] buf@[k] == payload_byte(start, k as nat),
        decreases len - i,
    {
        if i % 8 == 0 {
            let x: u64 = *state;
            let a: u64 = x ^ (x << 13);
            let b: u64 = a ^ (a >> 7);
            *state = b ^ (b << 17);
        }
        let shift: u64 = 8 * (i % 8) as u64;
        let byte: u64 = (*state >> shift) & 0xff;
        assert(byte <= 0xff) by {
            let word = *state >> shift;
            assert(word & 0xff <= 0xff) by (bit_vector);
        }
        buf.set(i, byte as u8);
        i += 1;
    }
}

proof fn lemma_states_add(state: u64, a: nat, b: nat)
    ensures
        state_after(state_after(state, a), b) == state_after(state, a + b),
    decreases b,
{
    if b > 0 {
        lemma_states_add(state, a, (b - 1) as nat);
    }
}

/// A payload written in pieces is the payload written at once, when each piece but the
/// last is a whole number of states long.
pub proof fn law_a_payload_continues(state: u64, written: nat, at: nat)
    requires
        written % 8 == 0,
    ensures
        payload_byte(state_after(state, states_used(written)), at) == payload_byte(
            state,
            written + at,
        ),
        states_used(written + at) == states_used(written) + states_used(at),
{
    lemma_states_add(state, states_used(written), at / 8 + 1);
}

/// How many bytes the next read or write takes.
pub fn chunk_len(total: usize, done: usize) -> (r: usize)
    requires
        done <= total,
    ensures
        r == if total - done < CHUNK {
            total - done
        } else {
            CHUNK as int
        },
{
    if total - done < CHUNK {
        total - done
    } else {
        CHUNK
    }
}

/// The bytes of a payload of so many mebibytes.
pub fn payload_len(mebibytes: usize) -> (r: Result<usize, SpikeError>)
    ensures
        match r {
            Ok(len) => len == mebibytes * 1_048_576,
            Err(error) => mebibytes * 1_048_576 > usize::MAX && error == SpikeError::TooLarge,
        },
{
    match mebibytes.checked_mul(1_048_576) {
        Some(len) => Ok(len),
        None => Err(SpikeError::TooLarge),
    }
}

/// The eight bytes that announce a payload.
pub fn announcement(total: usize) -> (r: [u8; 8])
    ensures
        r@ == be_bytes(total as nat, 8),
{
    to_be64(total as u64)
}

/// The length that eight bytes announce; `None` when the machine cannot count so far.
pub fn announced_length(header: &[u8; 8]) -> (r: Option<usize>)
    ensures
        r is Some <==> be_value(header@) <= usize::MAX,
        r matches Some(total) ==> total == be_value(header@),
{
    let total: u64 = be64(header);
    if total <= usize::MAX as u64 {
        Some(total as usize)
    } else {
        None
    }
}

/// The receiver reads the length that the sender announced.
pub proof fn law_announced_length_round_trip(total: usize)
    ensures
        be_value(be_bytes(total as nat, 8)) == total,
{
    lemma_pow256_values();
    lemma_be_round_trip(total as nat, 8);
}

/// A payload on its way: what was announced, and the digest of what has passed.
pub struct Payload {
    total: usize,
    done: usize,
    hasher: Sha256Hasher,
}

impl Payload {
    /// The announced length.
    pub closed spec fn announced(self) -> nat {
        self.total as nat
    }

    /// The bytes that have passed so far.
    pub closed spec fn passed(self) -> Seq<u8> {
        absorbed(self.hasher)
    }

    /// No more has passed than was announced, and it is counted.
    pub closed spec fn well_formed(self) -> bool {
        self.done == absorbed(self.hasher).len() && self.done <= self.total
    }

    /// Nothing has passed yet.
    pub fn of(total: usize) -> (r: Self)
        ensures
            r.well_formed(),
            r.announced() == total,
            r.passed() == Seq::<u8>::empty(),
    {
        Payload { total, done: 0, hasher: sha256_start() }
    }

    /// How many bytes are read or written next; none when the payload is complete.
    pub fn want(&self) -> (r: usize)
        requires
            self.well_formed(),
        ensures
            r == if self.announced() - self.passed().len() < CHUNK {
                self.announced() - self.passed().len()
            } else {
                CHUNK as int
            },
            r == 0 <==> self.passed().len() == self.announced(),
    {
        chunk_len(self.total, self.done)
    }

    /// These bytes passed.
    pub fn pass(&mut self, bytes: &[u8])
        requires
            old(self).well_formed(),
            old(self).passed().len() + bytes@.len() <= old(self).announced(),
        ensures
            final(self).well_formed(),
            final(self).announced() == old(self).announced(),
            final(self).passed() == old(self).passed() + bytes@,
    {
        sha256_update(&mut self.hasher, bytes);
        self.done = self.done + bytes.len();
    }

    /// How many bytes have passed.
    pub fn count(&self) -> (r: usize)
        requires
            self.well_formed(),
        ensures
            r == self.passed().len(),
    {
        self.done
    }

    /// The digest of what has passed.
    pub fn digest(&self) -> (r: [u8; 32])
        ensures
            r@ == sha256_digest(self.passed()),
    {
        sha256_finish(&self.hasher)
    }
}

/// Whether the peer's digest is that of what was sent.
pub fn digests_match(sent: &[u8; 32], echoed: &[u8; 32]) -> (r: bool)
    ensures
        r == (sent@ == echoed@),
{
    bytes_eq(sent, echoed)
}

/// Whether a path report is printed, and whether it is the last: each status once in a
/// row, until the path has failed.
pub fn watch_step(last: Option<PathStatus>, status: PathStatus) -> (r: (bool, bool))
    ensures
        r.0 == (last != Some(status)),
        r.1 == (last != Some(status) && status is Failed),
{
    let changed = match last {
        Some(last) => last != status,
        None => true,
    };
    let failed = match status {
        PathStatus::Failed(_) => true,
        _ => false,
    };
    (changed, changed && failed)
}

} // verus!
