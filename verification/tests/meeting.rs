use forgesworn_link::id::NodeId;
use forgesworn_link::rendezvous::{
    derive_pairing_tag, derive_tag, ecdh_x, epoch_index, generate_ephemeral,
    valid_compressed_point, Tag, TagCase, EPOCH_SECONDS, PAIRING_SECRET_BYTES, TAG_BYTES,
};
use forgesworn_link::rendezvous_book::{RendezvousPeer, TagBook};

fn material(byte: u8) -> RendezvousPeer {
    RendezvousPeer {
        case: TagCase::Both,
        static_x: [byte; 32],
        eph_x: [byte + 1; 32],
    }
}

fn node(byte: u8) -> NodeId {
    NodeId([byte; 32])
}

#[test]
fn constants_and_epochs_are_fixed() {
    assert_eq!(EPOCH_SECONDS, 3_600);
    assert_eq!(TAG_BYTES, 16);
    assert_eq!(epoch_index(1_793_588_888), 498_219, "floor() case");
    assert_eq!(epoch_index(3_599), 0);
    assert_eq!(epoch_index(3_600), 1);
    assert_eq!(TagCase::from_byte(TagCase::One.byte()), Some(TagCase::One));
    assert_eq!(TagCase::from_byte(TagCase::Both.byte()), Some(TagCase::Both));
    assert_eq!(TagCase::from_byte(TagCase::Neither.byte()), Some(TagCase::Neither));
    assert_eq!(TagCase::from_byte(9), None);
}

#[test]
fn rejects_an_invalid_point() {
    // 0x04-prefixed (uncompressed marker) and a not-on-curve x both fail.
    assert!(!valid_compressed_point(&[0x04; 33]));
    let mut bad = [0x02u8; 33];
    bad[1..].fill(0xff);
    assert!(!valid_compressed_point(&bad));
    assert!(!valid_compressed_point(&[0x02; 32]));
}

#[test]
fn a_shared_secret_is_symmetric() {
    let (a, a_public) = generate_ephemeral();
    let (b, b_public) = generate_ephemeral();
    assert!(valid_compressed_point(&a_public) && valid_compressed_point(&b_public));
    let shared = ecdh_x(&a, &b_public).expect("a side");
    assert_eq!(Some(shared), ecdh_x(&b, &a_public), "symmetry");
    assert_eq!(ecdh_x(&[0; 32], &a_public), None);
}

#[test]
fn a_generator_multiple_has_the_known_x() {
    // The private scalar 1 gives the x coordinate of the other public point.
    let mut one = [0u8; 32];
    one[31] = 1;
    let mut generator = [0u8; 33];
    let text = "0279be667ef9dcbbac55a06295ce870b07029bfcdb2dce28d959f2815b16f81798";
    for (index, byte) in generator.iter_mut().enumerate() {
        *byte = u8::from_str_radix(&text[2 * index..2 * index + 2], 16).unwrap();
    }
    assert_eq!(ecdh_x(&one, &generator).expect("x")[..], generator[1..]);
}

#[test]
fn tags_depend_on_every_input() {
    let base = derive_tag(TagCase::One, &[1; 32], &[2; 32], "relay.example", 10);
    assert_eq!(
        base,
        derive_tag(TagCase::One, &[1; 32], &[2; 32], "relay.example", 10)
    );
    for other in [
        derive_tag(TagCase::Both, &[1; 32], &[2; 32], "relay.example", 10),
        derive_tag(TagCase::One, &[9; 32], &[2; 32], "relay.example", 10),
        derive_tag(TagCase::One, &[1; 32], &[9; 32], "relay.example", 10),
        derive_tag(TagCase::One, &[1; 32], &[2; 32], "relay.example.org", 10),
        derive_tag(TagCase::One, &[1; 32], &[2; 32], "relay.example", 11),
    ] {
        assert_ne!(base, other);
    }
    let pairing = derive_pairing_tag(&[5; 16], "relay.example", 10);
    assert_ne!(pairing, derive_pairing_tag(&[6; 16], "relay.example", 10));
    assert_ne!(pairing, base);
}

#[test]
fn registration_covers_three_epochs_per_pair() {
    let mut book = TagBook::new(vec![(node(1), material(10)), (node(2), material(20))]);
    let tags = book.registration("relay.example.org", 1_793_588_888);
    assert_eq!(tags.len(), 6);
    let unique: std::collections::HashSet<_> = tags.iter().map(|t| t.0).collect();
    assert_eq!(unique.len(), 6, "all tags distinct");
}

#[test]
fn send_resolve_round_trip_within_the_window() {
    let peer = node(3);
    let mut book = TagBook::new(vec![(peer, material(30))]);
    let now = 1_793_588_888;
    let tag = book.tag_for_send(peer, "relay.example.org", now).unwrap();
    assert_eq!(book.resolve(&tag, "relay.example.org", now), Some(peer));
    // A peer's tag from one epoch back still resolves (the skew window)...
    let earlier = book
        .tag_for_send(peer, "relay.example.org", now - 3600)
        .unwrap();
    assert_eq!(book.resolve(&earlier, "relay.example.org", now), Some(peer));
    // ...but an unknown tag does not.
    assert_eq!(book.resolve(&Tag([9; 16]), "relay.example.org", now), None);
    // And the same pair on another relay derives a different tag.
    let elsewhere = book.tag_for_send(peer, "relay2.example.net", now).unwrap();
    assert_ne!(tag, elsewhere);
}

#[test]
fn a_tag_of_an_adjacent_epoch_is_registered_and_resolves() {
    let peer = node(3);
    let host = "relay.example.org";
    let mut book = TagBook::new(vec![(peer, material(30)), (node(4), material(60))]);
    let now = 7_200 * 1_000;
    // The first second of the epoch before and the last of the one after.
    for sent in [now - 3_600, now - 1, now, now + 3_600, now + 7_199] {
        let tag = book.tag_for_send(peer, host, sent).unwrap();
        assert_eq!(book.resolve(&tag, host, now), Some(peer), "sent at {sent}");
        assert!(book.registration(host, now).contains(&tag));
    }
    for sent in [now - 3_601, now + 7_200] {
        let tag = book.tag_for_send(peer, host, sent).unwrap();
        assert_eq!(book.resolve(&tag, host, now), None, "sent at {sent}");
        assert!(!book.registration(host, now).contains(&tag));
    }
}

#[test]
fn send_tags_are_cached_until_the_material_changes() {
    let peer = node(4);
    let mut book = TagBook::new(vec![(peer, material(40))]);
    let now = 1_793_588_888;
    let first = book.tag_for_send(peer, "relay.example.org", now).unwrap();
    assert_eq!(book.cache_len(), 1);
    assert_eq!(
        book.tag_for_send(peer, "relay.example.org", now + 5)
            .unwrap(),
        first,
        "same epoch, same tag"
    );
    assert_eq!(book.cache_len(), 1, "same epoch, same entry");
    book.upsert(peer, material(41));
    assert_eq!(book.cache_len(), 0, "an upsert clears the cache");
    assert_ne!(
        book.tag_for_send(peer, "relay.example.org", now).unwrap(),
        first,
        "new material, new tag"
    );
}

#[test]
fn contains_tracks_upsert_and_remove() {
    let peer = node(5);
    let mut book = TagBook::new(vec![]);
    assert!(!book.contains(peer));
    book.upsert(peer, material(50));
    assert!(book.contains(peer));
    book.remove(peer);
    assert!(!book.contains(peer));
}

#[test]
fn a_pairing_registration_routes_then_disappears_on_drop() {
    let now = 1_793_588_888;
    let mut book = TagBook::new(vec![]);
    let registration = book.register_pairing([0x42; PAIRING_SECRET_BYTES], now + 600);
    let route = registration.route();

    assert!(book.pairing_active(route, now));
    assert_eq!(book.pairing_count(now), 1);
    assert_eq!(book.registration("relay.example.org", now).len(), 3);
    let tag = book
        .tag_for_send(route, "relay.example.org", now)
        .expect("pairing route sends");
    assert_eq!(book.resolve(&tag, "relay.example.org", now), Some(route));

    book.release(registration);
    assert_eq!(book.pairing_count(now), 0);
    assert!(book.registration("relay.example.org", now).is_empty());
}

#[test]
fn an_expired_pairing_registration_is_pruned() {
    let now = 1_793_588_888;
    let mut book = TagBook::new(vec![]);
    let registration = book.register_pairing([0x24; PAIRING_SECRET_BYTES], now + 1);
    assert!(registration.is_active(&mut book, now));
    assert!(!registration.is_active(&mut book, now + 1));
    assert_eq!(book.pairing_count(now + 1), 0);
}

#[test]
fn two_registrations_have_routes_of_their_own() {
    let now = 1_793_588_888;
    let mut book = TagBook::new(vec![(node(1), material(7))]);
    let first = book.register_pairing([1; PAIRING_SECRET_BYTES], now + 600);
    let second = book.register_pairing([2; PAIRING_SECRET_BYTES], now + 600);
    assert_ne!(first.route().0, second.route().0);
    assert_ne!(first.route().0, node(1).0);
    assert_eq!(first.expires_at(), now + 600);
    assert_eq!(book.pairing_count(now), 2);
}

#[test]
fn a_numbered_registration_takes_the_first_free_key() {
    let now = 1_793_588_888;
    let drawn = [0xab; 32];
    let mut zero = drawn;
    for byte in zero.iter_mut().take(16) {
        *byte = 0;
    }
    let mut one = zero;
    one[15] = 1;
    let mut two = zero;
    two[15] = 2;
    let mut book = TagBook::new(vec![(NodeId(one), material(7))]);
    let secret = [3; PAIRING_SECRET_BYTES];
    let first = book.register_pairing_numbered(drawn, secret, now + 600);
    assert_eq!(first.route().0, zero);
    let second = book.register_pairing_numbered(drawn, secret, now + 600);
    assert_eq!(second.route().0, two);
    assert!(book.pairing_active(second.route(), now));
    book.release(first);
    let third = book.register_pairing_numbered(drawn, secret, now + 600);
    assert_eq!(third.route().0, zero);
}

#[test]
fn both_ends_derive_the_same_tag() {
    let now = 1_793_588_888;
    let mut here = TagBook::new(vec![(node(1), material(7))]);
    let mut there = TagBook::new(vec![(node(2), material(7))]);
    let tag = here.tag_for_send(node(1), "relay.example", now).unwrap();
    assert_eq!(there.resolve(&tag, "relay.example", now), Some(node(2)));
    assert_eq!(there.resolve(&tag, "relay.example", now + 3 * 3_600), None);
    assert_eq!(there.resolve(&tag, "elsewhere.example", now), None);
}

#[test]
fn a_promoted_pairing_keeps_meeting_until_it_is_removed() {
    let now = 1_793_588_888;
    let mut book = TagBook::empty();
    assert!(book.is_empty());
    let registration = book
        .register_pairing_as(node(9), [0x31; 16], now + 600)
        .expect("registers");
    assert_eq!(registration.expires_at(), now + 600);
    assert_eq!(registration.route(), node(9));
    let version = book.version();
    assert!(book.promote_pairing(node(9), [0x32; 16], 4, now));
    assert_ne!(book.version(), version);
    let tag = book.tag_for_send(node(9), "relay.example", now).unwrap();
    assert_eq!(book.resolve(&tag, "relay.example", now), Some(node(9)));
    assert!(!book.remove_live_pairing(node(9), 3));
    assert!(book.remove_live_pairing(node(9), 4));
}
