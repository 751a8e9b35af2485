use forgesworn_link::card::{Card, Hint, VerifyContext, HINT_ONION};
use forgesworn_link::id::{NodeId, TransportKey};
use forgesworn_link::endpoint::{
    accept_plan, accept_verdict, classify, connect_refusal, pairing_end, pairing_expires,
    pairing_refusal, promote_pairing_route, rendezvous, rendezvous_lost, AcceptPlan, AcceptVerdict, EndpointConfig,
    HandshakeFault, OneStream, PairingError,
};
use forgesworn_link::net::{IpAddr, SocketAddr};
use forgesworn_link::path::{FailReason, PathStatus};
use forgesworn_link::relay_client::RelayStatus;
use forgesworn_link::rendezvous_book::TagBook;
use forgesworn_link::spike::{
    announced_length, announcement, card_hints, chunk_len, digests_match, fill, key_text,
    load_seed, mint_card, onion_hint, parse_card, payload_len, relay_specs, verify_bytes,
    watch_step, Payload, SpikeError, CHUNK, PAYLOAD_SEED,
};

#[test]
fn a_seed_is_hex_with_space_around_it() {
    let text = format!("  {}\n", "0F".repeat(32));
    assert_eq!(load_seed(&text), Ok([0x0f; 32]));
    assert_eq!(load_seed("0f"), Err(SpikeError::SeedLength));
    assert_eq!(load_seed("xyz"), Err(SpikeError::SeedText));
    assert_eq!(key_text(Some("a".into()), Some("b".into())), Ok("a".into()));
    assert_eq!(key_text(None, Some("b".into())), Ok("b".into()));
    assert_eq!(key_text(None, None), Err(SpikeError::NoKey));
    assert_eq!(SpikeError::NoKey.words(), "pass --key-file or --key-hex");
}

#[test]
fn digests_go_with_relays_by_place() {
    let specs = relay_specs(&vec!["a".into(), "b".into()], &vec!["d".into()], true);
    assert_eq!(specs[0].cert_sha256.as_deref(), Some("d"));
    assert_eq!(specs[1].cert_sha256, None);
    assert_eq!(specs[1].url, "b");
    assert!(specs[1].insecure_tls);
}

#[test]
fn onion_hints_are_checked() {
    let host = "b".repeat(56);
    let hint = onion_hint(&format!("{host}:+443")).expect("onion");
    assert_eq!(hint.kind, HINT_ONION);
    assert_eq!(hint.as_onion(), Some((host.as_str(), 443)));
    assert_eq!(onion_hint(&host), Err(SpikeError::OnionForm));
    assert_eq!(onion_hint("short:1"), Err(SpikeError::OnionHost));
    assert_eq!(onion_hint(&format!("{host}:70000")), Err(SpikeError::OnionPort));
    assert_eq!(onion_hint(&format!("{host}:")), Err(SpikeError::OnionPort));
}

#[test]
fn a_card_is_minted_and_read_back() {
    let key = TransportKey::from_seed([4; 32]);
    let udp = SocketAddr::new(IpAddr::V4([192, 0, 2, 1]), 9);
    let hints = card_hints(&vec!["wss://r.example".into()], &vec![udp], &vec![]).expect("hints");
    assert_eq!(hints, vec![Hint::relay("wss://r.example"), Hint::udp(udp)]);
    assert_eq!(
        card_hints(&vec!["wss://r".into(); 17], &vec![], &vec![]),
        Err(SpikeError::TooManyHints)
    );
    let card = mint_card(&key, 1_000, 0, None, hints).expect("minted");
    assert_eq!((card.issued_at, card.expires_at, card.serial), (1_000, 1_001, 1_000));
    let long = mint_card(&key, 1_000, u64::MAX, Some(5), vec![]).expect("minted");
    assert_eq!((long.expires_at, long.serial), (1_000 + 604_800, 5));
    assert!(matches!(
        mint_card(&key, 1_000, 60, Some(0), vec![]),
        Err(SpikeError::OwnCard(fault)) if fault.rule == 8
    ));
    let hex: String = long.as_bytes().iter().map(|byte| format!("{byte:02x}")).collect();
    assert_eq!(parse_card(&format!(" {hex} "), 1_000), Ok(long.clone()));
    assert_eq!(verify_bytes(long.as_bytes(), 1_000), Ok(long.clone()));
    assert_eq!(parse_card("%%%", 1_000), Err(SpikeError::CardText));
    // Base64 of three zero bytes: short of a card.
    assert!(matches!(parse_card("AAAA=", 1_000), Err(SpikeError::CardText)));
    assert!(matches!(
        parse_card("QUJD", 1_000),
        Err(SpikeError::Card(fault)) if fault.rule == 1
    ));
    assert!(Card::verify(long.as_bytes(), &VerifyContext::new(1_000)).is_ok());
}

#[test]
fn base64_cards_are_read() {
    let key = TransportKey::from_seed([4; 32]);
    let card = mint_card(&key, 1_000, 60, Some(5), vec![]).expect("minted");
    let alphabet = b"ABCDEFGHIJKLMNOPQRSTUVWXYZabcdefghijklmnopqrstuvwxyz0123456789+/";
    let mut text = String::new();
    for part in card.as_bytes().chunks(3) {
        let mut word = 0u32;
        for index in 0..3 {
            word = word << 8 | u32::from(*part.get(index).unwrap_or(&0));
        }
        for index in 0..4 {
            if index <= part.len() {
                text.push(alphabet[(word >> (18 - 6 * index) & 63) as usize] as char);
            } else {
                text.push('=');
            }
        }
    }
    assert_eq!(parse_card(&text, 1_000), Ok(card));
}

#[test]
fn a_payload_is_the_same_in_pieces() {
    let mut state = PAYLOAD_SEED;
    let mut whole = vec![0u8; 37];
    fill(&mut state, &mut whole);
    let mut x = PAYLOAD_SEED;
    x ^= x << 13;
    x ^= x >> 7;
    x ^= x << 17;
    assert_eq!(whole[..8], x.to_le_bytes());
    let mut again = PAYLOAD_SEED;
    let mut first = vec![0u8; 16];
    let mut rest = vec![0u8; 21];
    fill(&mut again, &mut first);
    fill(&mut again, &mut rest);
    assert_eq!([first, rest].concat(), whole);
    assert_eq!(again, state);
    assert_eq!(chunk_len(CHUNK + 3, 0), CHUNK);
    assert_eq!(chunk_len(CHUNK + 3, CHUNK), 3);
    assert_eq!(payload_len(2), Ok(2 * 1_048_576));
    assert_eq!(payload_len(usize::MAX), Err(SpikeError::TooLarge));
}

#[test]
fn a_payload_is_announced_and_its_digest_returned() {
    assert_eq!(announcement(0x0102), [0, 0, 0, 0, 0, 0, 1, 2]);
    assert_eq!(announced_length(&announcement(CHUNK + 3)), Some(CHUNK + 3));
    let mut abc = Payload::of(3);
    assert_eq!((abc.want(), abc.count()), (3, 0));
    abc.pass(b"a");
    abc.pass(b"bc");
    assert_eq!((abc.want(), abc.count()), (0, 3));
    // SHA-256 of "abc".
    assert_eq!(
        hex::encode(abc.digest()),
        "ba7816bf8f01cfea414140de5dae2223b00361a396177a9cb410ff61f20015ad"
    );
    let mut long = Payload::of(CHUNK + 3);
    assert_eq!(long.want(), CHUNK);
    long.pass(&vec![0; CHUNK]);
    assert_eq!(long.want(), 3);
    assert!(digests_match(&abc.digest(), &abc.digest()));
    assert!(!digests_match(&abc.digest(), &long.digest()));
}

#[test]
fn a_report_is_printed_on_a_change() {
    assert_eq!(watch_step(None, PathStatus::Relayed), (true, false));
    assert_eq!(watch_step(Some(PathStatus::Relayed), PathStatus::Relayed), (false, false));
    assert_eq!(
        watch_step(Some(PathStatus::Relayed), PathStatus::Failed(FailReason::Relay)),
        (true, true)
    );
}

#[test]
fn pairing_registration_requires_tag_mode_and_a_bounded_lifetime() {
    assert_eq!(pairing_expires(true, 600_000, 10), Ok(610));
    assert_eq!(pairing_end(10, 1_999), 11);
    assert_eq!(pairing_end(u64::MAX, 1_000), u64::MAX);
    assert_eq!(pairing_expires(true, 600_001, 10), Err(PairingError::Lifetime));
    assert_eq!(pairing_expires(true, 0, 10), Err(PairingError::Lifetime));
    assert_eq!(pairing_expires(true, 601_000, 10), Err(PairingError::Lifetime));
    assert_eq!(pairing_expires(false, 600_000, 10), Err(PairingError::TagModeRequired));
    assert_eq!(pairing_expires(false, 1_000, 10), Err(PairingError::TagModeRequired));
}

#[test]
fn tag_mode_without_the_peer_fails_before_touching_the_relay() {
    let (own, peer) = (NodeId([1; 32]), NodeId([2; 32]));
    assert_eq!(connect_refusal(own, peer, None), None);
    assert_eq!(connect_refusal(own, peer, Some(true)), None);
    assert_eq!(connect_refusal(own, peer, Some(false)), Some(FailReason::Rendezvous));
    assert_eq!(connect_refusal(own, own, None), Some(FailReason::Identity));
    let mut book = TagBook::empty();
    let registration = book.register_pairing_as(NodeId([9; 32]), [3; 16], 100).expect("registers");
    assert_eq!(pairing_refusal(own, peer, &registration, true, &mut book, 50), None);
    assert_eq!(
        pairing_refusal(own, peer, &registration, false, &mut book, 50),
        Some(FailReason::Rendezvous),
        "a registration of another book"
    );
    assert_eq!(
        pairing_refusal(own, own, &registration, false, &mut book, 50),
        Some(FailReason::Identity)
    );
    assert_eq!(promote_pairing_route(&mut book, NodeId([9; 32]), Some([4; 16]), 7, 50), Ok(7));
    assert_eq!(
        promote_pairing_route(&mut book, NodeId([9; 32]), None, 7, 50),
        Err(FailReason::Relay)
    );
    assert!(pairing_refusal(own, peer, &registration, true, &mut book, 100).is_some());
}

#[test]
fn a_handshake_has_its_verdicts() {
    let (own, peer) = (NodeId([1; 32]), NodeId([2; 32]));
    assert!(matches!(accept_plan(None, false), AcceptPlan::Refuse));
    assert!(matches!(accept_plan(Some(peer), false), AcceptPlan::Pinned(node) if node == peer));
    assert!(matches!(accept_plan(Some(peer), true), AcceptPlan::Pairing(_)));
    assert!(matches!(
        accept_verdict(own, AcceptPlan::Pinned(peer), Some(peer)),
        AcceptVerdict::Pinned(node) if node == peer
    ));
    assert!(matches!(
        accept_verdict(own, AcceptPlan::Pinned(peer), Some(own)),
        AcceptVerdict::Mismatch
    ));
    assert!(matches!(
        accept_verdict(own, AcceptPlan::Pairing(peer), Some(NodeId([5; 32]))),
        AcceptVerdict::Provisional(node) if node == NodeId([5; 32])
    ));
    assert_eq!(classify(HandshakeFault::Transport(0x12a)), FailReason::Identity);
    assert_eq!(classify(HandshakeFault::Other), FailReason::Relay);
    assert_eq!(classify(HandshakeFault::TimedOut), FailReason::Timeout);
    let mut one = OneStream::new();
    assert!(one.take());
    assert!(!one.take());
}

#[test]
fn a_rendezvous_waits_for_its_relay() {
    assert_eq!(rendezvous(&RelayStatus::Connecting), None);
    assert_eq!(rendezvous(&RelayStatus::Up("u".into())), Some(Ok("u".into())));
    assert_eq!(rendezvous(&RelayStatus::Failed), Some(Err(FailReason::Relay)));
    assert_eq!(rendezvous_lost(&RelayStatus::Superseded), FailReason::Superseded);
    let config = EndpointConfig::new(TransportKey::from_seed([1; 32]));
    assert!(config.allow_direct && config.relays.is_empty());
    assert_eq!(FailReason::Timeout.word(), "timeout");
    assert!(PathStatus::Failed(FailReason::Relay).is_failed());
}
