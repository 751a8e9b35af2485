//! Cards, hints and serials.
use crate::bytes::{be_bytes, be_value, lemma_be_round_trip, lemma_pow256_values};
use crate::card::{
    card_body, card_parse, card_signature, card_signing_input, card_verdict, claim_fault,
    ephemeral_count, hint_bytes, hint_fault, hint_is_udp, hint_relay, hints_bytes, hints_fit,
    hints_from, relay_texts, signed_card, udp_list, udp_matches, udp_value, CardView, HintView,
    RuleViolation, VerifyContext,
};
use crate::crypto::{ed25519_signature, secp256k1_point_decodes};
use crate::endpoint::{chosen_hints, next_card, next_serial};
use crate::id::{NodeId, TransportKey};
use crate::net::{IpAddr, SocketAddr};
use crate::relay_client::RelaySpec;
use crate::spike::minted;
use vstd::prelude::*;
use vstd::utf8::*;

verus! {

/// Numbers travel with their most significant byte first: a further byte multiplies what
/// stands before it by 256 and adds itself.
pub proof fn law_numbers_are_big_endian(bytes: Seq<u8>, next: u8, x: nat, n: nat)
    ensures
        be_value(bytes.push(next)) == be_value(bytes) * 256 + next,
        be_value(Seq::empty()) == 0,
        be_bytes(x, n + 1) == be_bytes(x / 256, n).push((x % 256) as u8),
        be_bytes(x, 0) == Seq::<u8>::empty(),
{
    assert(bytes.push(next).drop_last() =~= bytes);
    assert(be_bytes(x, 0) =~= Seq::<u8>::empty());
    assert(be_bytes(x, n + 1) =~= be_bytes(x / 256, n).push((x % 256) as u8));
}

// ---------------------------------------------------------------------------
// The life of a card
// ---------------------------------------------------------------------------
/// How long a card that is asked for `ttl` seconds lives: so long, but at least a second
/// and at most seven days.
pub open spec fn life(ttl: u64) -> int {
    if ttl == 0 {
        1
    } else if ttl <= 604_800 {
        ttl as int
    } else {
        604_800
    }
}

/// A signed card is issued now and lives as long as it was asked to, from a second to
/// seven days: a peer that knows an older serial accepts it, as far as its claims go, at
/// every time from now until it expires, and at no time after.
pub proof fn law_a_card_lives_its_time(
    seed: Seq<u8>,
    node_id: NodeId,
    hints: Seq<HintView>,
    ttl: u64,
    last: u64,
    now: u64,
    at: u64,
    seen: u64,
)
    requires
        now + life(ttl) <= u64::MAX,
        last < u64::MAX,
        seen <= last,
        now <= at,
    ensures
        ({
            let card = next_card(seed, node_id, hints, ttl, last, now);
            let ctx = VerifyContext {
                now: at,
                highest_seen_serial: seen,
                expected_node_id: Some(node_id),
            };
            &&& card.issued_at == now
            &&& card.expires_at == now + life(ttl)
            &&& card.serial > last
            &&& card.serial >= now
            &&& card.node_id == node_id
            &&& card.hints == hints
            &&& claim_fault(card, ctx, true) is None <==> at < now + life(ttl)
        }),
{
}

/// A card that is minted on the command line lives as long as it was asked to, under the
/// serial that was given or else under the time.
pub proof fn law_a_minted_card_lives_its_time(
    key: TransportKey,
    now: u64,
    ttl: u64,
    serial: Option<u64>,
    hints: Seq<HintView>,
    at: u64,
)
    requires
        now + life(ttl) <= u64::MAX,
        now <= at,
    ensures
        ({
            let card = minted(key, now, ttl, serial, hints);
            let ctx = VerifyContext {
                now: at,
                highest_seen_serial: 0,
                expected_node_id: Some(key.id()),
            };
            &&& card.issued_at == now
            &&& card.expires_at == now + life(ttl)
            &&& card.serial == match serial {
                Some(serial) => serial,
                None => now,
            }
            &&& card.node_id == key.id()
            &&& card.hints == hints
            &&& claim_fault(card, ctx, true) is None <==> at < now + life(ttl) && card.serial > 0
        }),
{
}

/// The next serial is the one after the last, or the time if that is higher.
pub proof fn law_the_next_serial_is_the_least(last: u64, now: u64)
    requires
        last < u64::MAX,
    ensures
        next_serial(last, now) == last + 1 || next_serial(last, now) == now,
        next_serial(last, now) > last,
        next_serial(last, now) >= now,
{
}

/// The claims of a card hold exactly if it is signed by the identity it names, was
/// issued no more than five minutes ahead, has not expired, lives between a moment and
/// seven days, is newer than every card seen, and is from the expected node; the first
/// claim that fails is the one reported.
pub proof fn law_claims_are_judged_in_order(card: CardView, ctx: VerifyContext, signed: bool)
    ensures
        ({
            let fault = claim_fault(card, ctx, signed);
            let early = card.issued_at > ctx.now + 300;
            let late = ctx.now >= card.expires_at;
            let life = card.expires_at <= card.issued_at || card.expires_at - card.issued_at
                > 604_800;
            let stale = card.serial <= ctx.highest_seen_serial;
            let stranger = ctx.expected_node_id is Some && ctx.expected_node_id->0 != card.node_id;
            &&& fault is None <==> signed && !early && !late && !life && !stale && !stranger
            &&& fault is Some ==> fault->0.rule == (if !signed {
                4u8
            } else if early {
                5u8
            } else if late {
                6u8
            } else if life {
                7u8
            } else if stale {
                8u8
            } else {
                9u8
            })
        }),
{
}

/// A card is judged by its bytes first and by its claims then; what is accepted is what
/// the bytes say.
pub proof fn law_a_verdict_is_on_the_bytes(bytes: Seq<u8>, ctx: VerifyContext, signed: bool)
    ensures
        card_parse(bytes) matches Err(fault) ==> card_verdict(bytes, ctx, signed) == Err::<
            CardView,
            _,
        >(fault),
        card_parse(bytes) matches Ok(card) ==> {
            &&& claim_fault(card, ctx, signed) matches Some(fault) ==> card_verdict(
                bytes,
                ctx,
                signed,
            ) == Err::<CardView, _>(fault)
            &&& claim_fault(card, ctx, signed) is None ==> card_verdict(bytes, ctx, signed)
                == Ok::<_, RuleViolation>(card)
        },
{
}

// ---------------------------------------------------------------------------
// The layout of a card
// ---------------------------------------------------------------------------
/// A card begins with `FSL1` and version one; then stand the identity, the two times and
/// the serial in eight bytes each, the number of hints, and the hints.
pub proof fn law_the_layout_of_a_card(
    node_id: NodeId,
    issued_at: u64,
    expires_at: u64,
    serial: u64,
    hints: Seq<HintView>,
)
    requires
        hints.len() < 256,
    ensures
        ({
            let body = card_body(node_id.0@, issued_at, expires_at, serial, hints);
            &&& body.len() == 62 + hints_bytes(hints).len()
            &&& body[0] == 0x46 && body[1] == 0x53 && body[2] == 0x4c && body[3] == 0x31
            &&& body[4] == 1
            &&& body.subrange(5, 37) == node_id.0@
            &&& be_value(body.subrange(37, 45)) == issued_at
            &&& be_value(body.subrange(45, 53)) == expires_at
            &&& be_value(body.subrange(53, 61)) == serial
            &&& body[61] == hints.len()
            &&& body.skip(62) == hints_bytes(hints)
        }),
{
    reveal(crate::card::header_bytes);
    lemma_pow256_values();
    lemma_be_round_trip(issued_at as nat, 8);
    lemma_be_round_trip(expires_at as nat, 8);
    lemma_be_round_trip(serial as nat, 8);
    let body = card_body(node_id.0@, issued_at, expires_at, serial, hints);
    let i = be_bytes(issued_at as nat, 8);
    let e = be_bytes(expires_at as nat, 8);
    let s = be_bytes(serial as nat, 8);
    lemma_pieces(node_id.0@, i, e, s, hints.len() as u8, hints_bytes(hints));
}

proof fn lemma_pieces(
    node: Seq<u8>,
    i: Seq<u8>,
    e: Seq<u8>,
    s: Seq<u8>,
    count: u8,
    rest: Seq<u8>,
)
    requires
        node.len() == 32,
        i.len() == 8,
        e.len() == 8,
        s.len() == 8,
    ensures
        ({
            let all = crate::card::CARD_MAGIC@ + seq![crate::card::CARD_VERSION] + node + i + e + s
                + seq![count] + rest;
            &&& all.len() == 62 + rest.len()
            &&& all[0] == 0x46 && all[1] == 0x53 && all[2] == 0x4c && all[3] == 0x31
            &&& all[4] == 1
            &&& all.subrange(5, 37) == node
            &&& all.subrange(37, 45) == i
            &&& all.subrange(45, 53) == e
            &&& all.subrange(53, 61) == s
            &&& all[61] == count
            &&& all.skip(62) == rest
        }),
{
    let all = crate::card::CARD_MAGIC@ + seq![crate::card::CARD_VERSION] + node + i + e + s + seq![
        count,
    ] + rest;
    assert(all.subrange(5, 37) =~= node);
    assert(all.subrange(37, 45) =~= i);
    assert(all.subrange(45, 53) =~= e);
    assert(all.subrange(53, 61) =~= s);
    assert(all.skip(62) =~= rest);
}

/// A hint is its kind, its length in two bytes and its value; hints follow each other.
pub proof fn law_the_layout_of_hints(hint: HintView, rest: Seq<HintView>)
    requires
        hint.value.len() < 0x1_0000,
    ensures
        hint_bytes(hint).len() == 3 + hint.value.len(),
        hint_bytes(hint)[0] == hint.kind,
        be_value(hint_bytes(hint).subrange(1, 3)) == hint.value.len(),
        hint_bytes(hint).skip(3) == hint.value,
        hints_bytes(seq![hint] + rest) == hint_bytes(hint) + hints_bytes(rest),
        hints_bytes(Seq::empty()) == Seq::<u8>::empty(),
{
    lemma_pow256_values();
    lemma_be_round_trip(hint.value.len(), 2);
    let bytes = hint_bytes(hint);
    assert(bytes.subrange(1, 3) =~= be_bytes(hint.value.len(), 2));
    assert(bytes.skip(3) =~= hint.value);
    assert((seq![hint] + rest).drop_first() =~= rest);
}

/// What the signature covers is the domain and everything before the last 64 bytes,
/// which are the signature.
pub proof fn law_the_signature_ends_the_card(
    seed: Seq<u8>,
    node_id: NodeId,
    issued_at: u64,
    expires_at: u64,
    serial: u64,
    hints: Seq<HintView>,
)
    requires
        ed25519_signature(
            seed,
            crate::card::CARD_DOMAIN@ + card_body(node_id.0@, issued_at, expires_at, serial, hints),
        ).len() == 64,
    ensures
        ({
            let card = signed_card(seed, node_id, issued_at, expires_at, serial, hints);
            let body = card_body(node_id.0@, issued_at, expires_at, serial, hints);
            &&& card.raw.len() == body.len() + 64
            &&& card.raw.take(body.len() as int) == body
            &&& card_signing_input(card.raw).skip(24) == body
            &&& card_signature(card.raw) == ed25519_signature(seed, card_signing_input(card.raw))
            &&& card.node_id == node_id
            &&& card.issued_at == issued_at
            &&& card.expires_at == expires_at
            &&& card.serial == serial
            &&& card.hints == hints
        }),
{
    let card = signed_card(seed, node_id, issued_at, expires_at, serial, hints);
    let body = card_body(node_id.0@, issued_at, expires_at, serial, hints);
    assert(card.raw.take(body.len() as int) =~= body);
    assert(card.raw.subrange(0, card.raw.len() - 64) =~= body);
    assert(card_signing_input(card.raw).skip(24) =~= body);
    assert(card_signature(card.raw) =~= ed25519_signature(
        seed,
        crate::card::CARD_DOMAIN@ + body,
    ));
}

/// A card has from 126 to 4096 bytes, begins with its magic and version, and names at
/// most sixteen hints: the first of these that fails is the one reported.
pub proof fn law_the_bytes_of_a_card_are_judged_in_order(bytes: Seq<u8>)
    ensures
        ({
            let verdict = card_parse(bytes);
            &&& bytes.len() < 126 || bytes.len() > 4096 ==> verdict is Err
                && verdict->Err_0.rule == 1
            &&& 126 <= bytes.len() <= 4096 && !(bytes[0] == 0x46 && bytes[1] == 0x53 && bytes[2]
                == 0x4c && bytes[3] == 0x31 && bytes[4] == 1) ==> verdict is Err
                && verdict->Err_0.rule == 2
            &&& 126 <= bytes.len() <= 4096 && bytes[0] == 0x46 && bytes[1] == 0x53 && bytes[2]
                == 0x4c && bytes[3] == 0x31 && bytes[4] == 1 && verdict is Err
                ==> verdict->Err_0.rule == 3
            &&& 126 <= bytes.len() <= 4096 && bytes[0] == 0x46 && bytes[1] == 0x53 && bytes[2]
                == 0x4c && bytes[3] == 0x31 && bytes[4] == 1 && bytes[61] > 16 ==> verdict is Err
            &&& verdict matches Ok(card) ==> {
                &&& card.node_id.0@ == bytes.subrange(5, 37)
                &&& card.issued_at == be_value(bytes.subrange(37, 45))
                &&& card.expires_at == be_value(bytes.subrange(45, 53))
                &&& card.serial == be_value(bytes.subrange(53, 61))
                &&& card.raw == bytes
                &&& card.hints.len() == bytes[61]
                &&& card.hints.len() <= 16
                &&& ephemeral_count(card.hints) <= 1
            }
        }),
{
    if bytes.len() >= 126 {
        let magic = crate::card::CARD_MAGIC@;
        if bytes.subrange(0, 4) == magic {
            assert(bytes.subrange(0, 4)[0] == magic[0]);
            assert(bytes.subrange(0, 4)[1] == magic[1]);
            assert(bytes.subrange(0, 4)[2] == magic[2]);
            assert(bytes.subrange(0, 4)[3] == magic[3]);
        } else if bytes[0] == 0x46 && bytes[1] == 0x53 && bytes[2] == 0x4c && bytes[3] == 0x31 {
            assert(bytes.subrange(0, 4) =~= magic);
        }
        lemma_hints_count(bytes, 62, bytes.len() - 64, bytes[61] as nat);
        crate::card::lemma_node_id_of(
            crate::card::node_id_of(bytes.subrange(5, 37)),
            bytes.subrange(5, 37),
        );
        lemma_pow256_values();
        lemma_be_fits(bytes.subrange(37, 45));
        lemma_be_fits(bytes.subrange(45, 53));
        lemma_be_fits(bytes.subrange(53, 61));
    }
}

proof fn lemma_be_fits(bytes: Seq<u8>)
    requires
        bytes.len() == 8,
    ensures
        be_value(bytes) <= u64::MAX,
{
    reveal_with_fuel(be_value, 9);
}

proof fn lemma_hints_count(bytes: Seq<u8>, offset: int, end: int, count: nat)
    ensures
        hints_from(bytes, offset, end, count) matches Ok(hints) ==> hints.len() == count,
        hints_from(bytes, offset, end, count) matches Err(fault) ==> fault.rule == 3,
    decreases count,
{
    if count > 0 {
        if let Ok(hint) = crate::card::hint_at(bytes, offset, end) {
            lemma_hints_count(bytes, offset + 3 + hint.value.len(), end, (count - 1) as nat);
        }
    }
}

/// A hint of a known kind has its length: a relay from 1 to 255 bytes, an address 18, an
/// onion 58, an ephemeral key 33 that decode to a point; a hint of another kind may be
/// anything.
pub proof fn law_hints_have_their_lengths(hint: HintView)
    ensures
        hint.kind == 1 ==> (hint_fault(hint) is None <==> 1 <= hint.value.len() <= 255),
        hint.kind == 2 ==> (hint_fault(hint) is None <==> hint.value.len() == 18),
        hint.kind == 3 ==> (hint_fault(hint) is None <==> hint.value.len() == 58),
        hint.kind == 4 ==> (hint_fault(hint) is None <==> hint.value.len() == 33 && (
        hint.value[0] == 2 || hint.value[0] == 3) && secp256k1_point_decodes(hint.value)),
        hint.kind == 0 || hint.kind > 4 ==> hint_fault(hint) is None,
        hint_fault(hint) matches Some(fault) ==> fault.rule == 3,
{
}

/// What a card can carry: at most sixteen hints, each of its length, one ephemeral key,
/// and 4096 bytes in all.
pub proof fn law_what_fits_a_card(hints: Seq<HintView>, i: int)
    requires
        hints_fit(hints),
        0 <= i < hints.len(),
    ensures
        hints.len() <= 16,
        hint_fault(hints[i]) is None,
        62 + hints_bytes(hints).len() + 64 <= 4096,
{
}

// ---------------------------------------------------------------------------
// Addresses in hints
// ---------------------------------------------------------------------------
/// An address travels as sixteen octets and its port: an IPv4 address behind ten zeros
/// and two octets of `0xff`.
pub proof fn law_an_address_travels_mapped(addr: SocketAddr, i: int)
    requires
        0 <= i < 16,
    ensures
        udp_value(addr).len() == 18,
        udp_value(addr)[i] == match addr.ip {
            IpAddr::V6(octets) => octets@[i],
            IpAddr::V4(octets) => if i < 10 {
                0u8
            } else if i < 12 {
                0xffu8
            } else {
                octets@[i - 12]
            },
        },
        be_value(udp_value(addr).skip(16)) == addr.port,
{
    lemma_pow256_values();
    lemma_be_round_trip(addr.port as nat, 2);
    assert(udp_value(addr).skip(16) =~= be_bytes(addr.port as nat, 2));
}

/// The relays of a card are the texts of its relay hints, in order and each by itself.
pub proof fn law_the_relays_of_a_card(hints: Seq<HintView>, more: Seq<HintView>, hint: HintView)
    ensures
        relay_texts(hints + more) == relay_texts(hints) + relay_texts(more),
        relay_texts(seq![hint]) == if hint.kind == 1 && valid_utf8(hint.value) {
            seq![decode_utf8(hint.value)]
        } else {
            Seq::<Seq<char>>::empty()
        },
    decreases more.len(),
{
    let one = seq![hint];
    assert(one.drop_last() =~= Seq::<HintView>::empty());
    assert(relay_texts(one.drop_last()) =~= Seq::<Seq<char>>::empty());
    assert(one.last() == hint);
    if let Some(url) = hint_relay(hint) {
        assert(Seq::<Seq<char>>::empty().push(url) =~= seq![url]);
    }
    if more.len() == 0 {
        assert(hints + more =~= hints);
        assert(relay_texts(more) =~= Seq::<Seq<char>>::empty());
        assert(relay_texts(hints) + relay_texts(more) =~= relay_texts(hints));
    } else {
        law_the_relays_of_a_card(hints, more.drop_last(), hint);
        assert((hints + more).drop_last() =~= hints + more.drop_last());
        assert((hints + more).last() == more.last());
        assert(relay_texts(hints + more) =~= relay_texts(hints) + relay_texts(more));
    }
}

/// The addresses of a card are those of its address hints, in order: as many, and each
/// with the octets and the port that its hint holds.
pub proof fn law_the_addresses_of_a_card(hints: Seq<HintView>, addrs: Seq<SocketAddr>, i: int)
    requires
        udp_list(hints, addrs),
        0 <= i < addrs.len(),
    ensures
        addrs.len() == hints.filter(|hint: HintView| hint.kind == 2 && hint.value.len() == 18).len(),
        ({
            let hint = hints.filter(
                |hint: HintView| hint.kind == 2 && hint.value.len() == 18,
            )[i];
            &&& addrs[i].ip matches IpAddr::V6(octets) && octets@ == hint.value.take(16)
            &&& addrs[i].port == be_value(hint.value.skip(16))
            &&& addrs[i].flowinfo == 0
            &&& addrs[i].scope_id == 0
        }),
    decreases hints.len(),
{
    let pick = |hint: HintView| hint.kind == 2 && hint.value.len() == 18;
    lemma_udp_count(hints, addrs);
    reveal(Seq::filter);
    if hints.len() > 0 {
        let front = hints.drop_last();
        if hint_is_udp(hints.last()) {
            lemma_udp_count(front, addrs.drop_last());
            if i < addrs.len() - 1 {
                law_the_addresses_of_a_card(front, addrs.drop_last(), i);
                assert(hints.filter(pick)[i] == front.filter(pick)[i]);
            } else {
                assert(hints.filter(pick)[i] == hints.last());
                assert(udp_matches(hints.last(), addrs[i]));
                let value = hints.last().value;
                assert(value.take(16) =~= value.subrange(0, 16));
                assert(value.skip(16) =~= value.subrange(16, 18));
            }
        } else {
            law_the_addresses_of_a_card(front, addrs, i);
        }
    }
}

proof fn lemma_udp_count(hints: Seq<HintView>, addrs: Seq<SocketAddr>)
    requires
        udp_list(hints, addrs),
    ensures
        addrs.len() == hints.filter(|hint: HintView| hint.kind == 2 && hint.value.len() == 18).len(),
    decreases hints.len(),
{
    reveal(Seq::filter);
    if hints.len() > 0 {
        if hint_is_udp(hints.last()) {
            lemma_udp_count(hints.drop_last(), addrs.drop_last());
        } else {
            lemma_udp_count(hints.drop_last(), addrs);
        }
    }
}

/// A card advertises the endpoint's relays in their order, then its addresses in theirs
/// where the owner allows direct paths, as far as the caller's own hints leave room.
pub proof fn law_a_card_advertises_the_endpoint(
    relays: Seq<RelaySpec>,
    addrs: Seq<SocketAddr>,
    allow_direct: bool,
    extra: Seq<HintView>,
    i: int,
)
    ensures
        ({
            let all = chosen_hints(relays, addrs, allow_direct, extra);
            let kept: int = if extra.len() < 16 {
                extra.len() as int
            } else {
                16
            };
            let own = all.len() - kept;
            &&& own == ({
                let offered = if allow_direct {
                    (relays.len() + addrs.len()) as int
                } else {
                    relays.len() as int
                };
                if offered < 16 - kept {
                    offered
                } else {
                    16 - kept
                }
            })
            &&& 0 <= i < own && i < relays.len() ==> all[i].kind == 1 && all[i].value
                == encode_utf8(relays[i].url@)
            &&& relays.len() <= i < own ==> allow_direct && all[i].kind == 2 && all[i].value
                == udp_value(addrs[i - relays.len()])
            &&& own <= i < all.len() ==> all[i] == extra[i - own]
        }),
{
}

} // verus!
