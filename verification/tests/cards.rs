use forgesworn_link::card::{
    encode_body, unmap_ipv6, Card, Hint, VerifyContext, CLOCK_SKEW_SECONDS, HINT_EPHEMERAL,
    HINT_RELAY, HINT_UDP, MAX_HINTS, MAX_LIFETIME_SECONDS,
};
use forgesworn_link::endpoint::{card_hints, sign_card, SerialRatchet};
use forgesworn_link::id::{NodeId, TransportKey};
use forgesworn_link::net::{IpAddr, SocketAddr};
use forgesworn_link::relay_client::RelaySpec;
use forgesworn_link::rendezvous::{ecdh_x, generate_ephemeral, valid_compressed_point};

fn key() -> TransportKey {
    TransportKey::from_seed([0x42; 32])
}

fn rule(bytes: &[u8], ctx: &VerifyContext) -> u8 {
    Card::verify(bytes, ctx).expect_err("refused").rule
}

#[test]
fn a_signed_card_verifies_and_reads_back() {
    let udp = SocketAddr::new(IpAddr::V4([192, 0, 2, 9]), 5000);
    let hints = vec![
        Hint::relay("wss://relay.example/link"),
        Hint::udp(udp),
        Hint::onion(&"a".repeat(56), 443),
    ];
    let card = Card::sign(&key(), 1_000, 2_000, 7, hints);
    let got = Card::verify(card.as_bytes(), &VerifyContext::new(1_500).expecting(key().node_id()))
        .expect("verifies");
    assert_eq!(got, card);
    assert_eq!(got.node_id, key().node_id());
    assert_eq!((got.issued_at, got.expires_at, got.serial), (1_000, 2_000, 7));
    assert_eq!(got.relay_urls(), vec!["wss://relay.example/link".to_owned()]);
    assert_eq!(got.udp_candidates().into_iter().map(unmap_ipv6).collect::<Vec<_>>(), vec![udp]);
    assert_eq!(got.hints[2].as_onion(), Some(("a".repeat(56).as_str(), 443)));
    assert_eq!(got.hints[0].as_udp(), None);
    assert_eq!(got.hints[1].as_relay(), None);
    assert_eq!(&card.as_bytes()[..5], b"FSL1\x01");
    assert_eq!(&card.as_bytes()[5..37], &key().node_id().0);
    assert_eq!(Card::parse(card.as_bytes()).expect("parses"), card);
    let body = encode_body(got.node_id, got.issued_at, got.expires_at, got.serial, &got.hints);
    assert_eq!(body.as_slice(), &card.as_bytes()[..card.as_bytes().len() - 64]);
    assert!(format!("{card:?}").contains("raw: [70, 83, 76, 49, 1, "));
    assert!(card.signing_input().starts_with(b"forgesworn-link/card/v1"));
    assert!(key().node_id().verify(&card.signing_input(), &card.signature()));
}

#[test]
fn each_rule_refuses_what_it_names() {
    let now = 10_000;
    let ctx = VerifyContext::new(now);
    let good = Card::sign(&key(), now, now + 60, 5, vec![]);
    assert_eq!(rule(&good.as_bytes()[..125], &ctx), 1);
    assert_eq!(rule(&[0u8; 5_000], &ctx), 1);
    let mut magic = good.as_bytes().to_vec();
    magic[0] = b'X';
    assert_eq!(rule(&magic, &ctx), 2);
    let mut version = good.as_bytes().to_vec();
    version[4] = 2;
    assert_eq!(rule(&version, &ctx), 2);
    let mut count = good.as_bytes().to_vec();
    count[61] = (MAX_HINTS + 1) as u8;
    assert_eq!(rule(&count, &ctx), 3);
    let bad_udp = Card::sign(&key(), now, now + 60, 5, vec![Hint { kind: HINT_UDP, value: vec![1] }]);
    assert_eq!(rule(bad_udp.as_bytes(), &ctx), 3);
    let mut forged = good.as_bytes().to_vec();
    let last = forged.len() - 1;
    forged[last] ^= 1;
    assert_eq!(rule(&forged, &ctx), 4);
    let early = Card::sign(&key(), now + CLOCK_SKEW_SECONDS + 1, now + 900, 5, vec![]);
    assert_eq!(rule(early.as_bytes(), &ctx), 5);
    let skewed = Card::sign(&key(), now + CLOCK_SKEW_SECONDS, now + 900, 5, vec![]);
    assert!(Card::verify(skewed.as_bytes(), &ctx).is_ok());
    assert_eq!(rule(good.as_bytes(), &VerifyContext::new(now + 60)), 6);
    let backwards = Card::sign(&key(), now + 100, now + 50, 5, vec![]);
    assert_eq!(rule(backwards.as_bytes(), &ctx), 7);
    let long = Card::sign(&key(), now, now + MAX_LIFETIME_SECONDS + 1, 5, vec![]);
    assert_eq!(rule(long.as_bytes(), &ctx), 7);
    assert_eq!(rule(good.as_bytes(), &ctx.after_serial(5)), 8);
    assert!(Card::verify(good.as_bytes(), &VerifyContext::new(now).after_serial(4)).is_ok());
    assert_eq!(
        rule(good.as_bytes(), &VerifyContext::new(now).expecting(NodeId([1; 32]))),
        9
    );
    let refused = Card::verify(good.as_bytes(), &VerifyContext::new(now + 60)).expect_err("old");
    assert_eq!(refused.words(), "card rule 6 failed: card has expired");
    assert_eq!(format!("{refused}"), refused.words());
}

#[test]
fn unknown_hints_survive_a_round_trip() {
    let strange = Hint {
        kind: 0x77,
        value: vec![1, 2, 3],
    };
    let card = Card::sign(&key(), 1, 2, 1, vec![strange.clone()]);
    let got = Card::verify(card.as_bytes(), &VerifyContext::new(1)).expect("verifies");
    assert_eq!(got.hints, vec![strange]);
    assert_eq!(got.as_bytes(), card.as_bytes());
}

#[test]
fn a_compact_spelling_in_a_card_fails_rule_three() {
    let (_, mut compact) = generate_ephemeral();
    assert!(valid_compressed_point(&compact));
    compact[0] = 0x05;
    let key = TransportKey::generate();
    let card = Card::sign(
        &key,
        1_000,
        2_000,
        1,
        vec![Hint {
            kind: HINT_EPHEMERAL,
            value: compact.to_vec(),
        }],
    );
    let err = Card::verify(card.as_bytes(), &VerifyContext::new(1_000))
        .expect_err("a compact ephemeral spelling fails the whole card");
    assert_eq!(err.rule, 3, "refused under the hint rule: {err}");
}

#[test]
fn rejects_the_sec1_compact_spelling_of_a_real_point() {
    let (_, mut compact) = generate_ephemeral();
    compact[0] = 0x05;
    assert!(!valid_compressed_point(&compact));
    assert_eq!(ecdh_x(&[0x21; 32], &compact), None, "ecdh_x refuses it too");
}

#[test]
fn the_callers_ephemeral_hint_survives_a_full_card() {
    let relays: Vec<RelaySpec> = (0..MAX_HINTS + 4)
        .map(|i| RelaySpec::plain(format!("wss://relay{i}.example/link")))
        .collect();
    let ephemeral = Hint {
        kind: HINT_EPHEMERAL,
        value: vec![0x02; 33],
    };
    let hints = card_hints(&relays, &vec![], false, vec![ephemeral.clone()]);
    assert_eq!(hints.len(), MAX_HINTS, "the card is exactly full");
    assert_eq!(hints.iter().filter(|hint| **hint == ephemeral).count(), 1);
    assert_eq!(hints[0].kind, HINT_RELAY);
}

#[test]
fn the_callers_first_sixteen_hints_fill_a_card() {
    let own: Vec<Hint> = (0..MAX_HINTS + 3)
        .map(|i| Hint::relay(&format!("wss://own{i}.example")))
        .collect();
    let relays = vec![RelaySpec::plain("wss://relay.example".to_owned())];
    let hints = card_hints(&relays, &vec![], true, own.clone());
    assert_eq!(hints, own[..MAX_HINTS].to_vec());
    let few = card_hints(&relays, &vec![], true, own[..2].to_vec());
    assert_eq!(few.len(), 3);
    assert_eq!(few[1..], own[..2]);
}

#[test]
fn direct_addresses_are_hints_only_by_consent() {
    let addr = SocketAddr::new(IpAddr::V4([10, 0, 0, 1]), 4000);
    let relays = vec![RelaySpec::plain("wss://relay.example".to_owned())];
    let declined = card_hints(&relays, &vec![addr], false, vec![]);
    assert_eq!(declined, vec![Hint::relay("wss://relay.example")]);
    let agreed = card_hints(&relays, &vec![addr], true, vec![]);
    assert_eq!(agreed, vec![Hint::relay("wss://relay.example"), Hint::udp(addr)]);
}

#[test]
fn serials_stay_strictly_increasing_when_the_clock_runs_ahead() {
    let mut ratchet = SerialRatchet::open(None, 1_000).expect("opens");
    let first = ratchet.next(1_002);
    let second = ratchet.next(1_002);
    assert!(first < second, "serials must be strictly increasing: {first} then {second}");
    let third = ratchet.next(500);
    assert!(second < third);
    let mut seeded = SerialRatchet::open(Some(9_000), 1_000).expect("opens");
    assert_eq!(seeded.next(1_000), 9_001);
    assert!(SerialRatchet::open(Some(u64::MAX), 1_000).is_none());
}

#[test]
fn an_endpoint_card_verifies_after_the_one_before_it() {
    let mut ratchet = SerialRatchet::open(None, 1_000).expect("opens");
    let first = sign_card(&key(), &mut ratchet, vec![], 300, 1_000);
    let second = sign_card(&key(), &mut ratchet, vec![], 300, 1_000);
    let ctx = VerifyContext::new(1_000)
        .expecting(key().node_id())
        .after_serial(first.serial);
    assert!(Card::verify(second.as_bytes(), &ctx).is_ok());
    assert_eq!(rule(first.as_bytes(), &ctx), 8);
}
