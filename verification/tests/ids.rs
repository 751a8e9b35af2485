use forgesworn_link::id::{
    node_id_from_cert_der, node_id_from_parsed_spki, node_id_from_spki, NodeId, TransportKey,
};
use forgesworn_link::net::{IpAddr, SocketAddr};
use forgesworn_link::tls::{check_pinned, judge_pinned, node_certificate, PinFault};

const ALPHABET: &[u8; 32] = b"abcdefghijklmnopqrstuvwxyz234567";

fn sample_id() -> NodeId {
    let mut bytes = [0u8; 32];
    for (index, byte) in bytes.iter_mut().enumerate() {
        *byte = index as u8;
    }
    NodeId(bytes)
}

#[test]
fn round_trips_canonical() {
    let id = sample_id();
    let text = id.to_base32();
    assert_eq!(text.len(), 52);
    assert_eq!(NodeId::from_base32(&text), Some(id));
}

#[test]
fn rejects_non_canonical_pad_bits() {
    let id = sample_id();
    let text = id.to_base32();
    let last = *text.as_bytes().last().unwrap();
    let value = ALPHABET.iter().position(|c| *c == last).unwrap();
    assert_eq!(value & 0x0f, 0, "canonical final character has zero pad bits");
    let sibling = ALPHABET[value | 1] as char;
    let mut mutant = text[..text.len() - 1].to_string();
    mutant.push(sibling);
    assert_ne!(mutant, text);
    assert_eq!(
        NodeId::from_base32(&mutant),
        None,
        "a non-canonical spelling must not decode",
    );
}

#[test]
fn rejects_wrong_length_and_case() {
    let text = sample_id().to_base32();
    assert_eq!(NodeId::from_base32(&text[..text.len() - 1]), None);
    assert_eq!(NodeId::from_base32(&format!("{text}a")), None);
    assert_eq!(NodeId::from_base32(&text.to_uppercase()), None);
}

#[test]
fn base32_and_hex_spell_known_bytes() {
    assert_eq!(NodeId([0; 32]).to_base32(), "a".repeat(52));
    assert_eq!(NodeId([0xff; 32]).to_base32(), format!("{}q", "7".repeat(51)));
    assert_eq!(NodeId([0xab; 32]).to_hex(), "ab".repeat(32));
    assert_eq!(NodeId::from_hex(&"AB".repeat(32)), Some(NodeId([0xab; 32])));
    assert_eq!(NodeId::from_hex(&"ab".repeat(31)), None);
    assert_eq!(NodeId::from_hex(&"zz".repeat(32)), None);
    assert_eq!(NodeId::from_slice(&[7; 32]), Some(NodeId([7; 32])));
    assert_eq!(NodeId::from_slice(&[7; 31]), None);
}

#[test]
fn a_seed_has_the_standard_public_key() {
    // RFC 8032, section 7.1, TEST 1.
    let mut seed = [0u8; 32];
    let text = "9d61b19deffd5a60ba844af492ec2cc44449c5697b326919703bac031cae7f60";
    for (index, byte) in seed.iter_mut().enumerate() {
        *byte = u8::from_str_radix(&text[2 * index..2 * index + 2], 16).unwrap();
    }
    let key = TransportKey::from_seed(seed);
    assert_eq!(
        key.node_id().to_hex(),
        "d75a980182b10ab7d54bfed3c964073a0ee172f3daa62325af021a68f707511a"
    );
    assert_eq!(key.seed(), seed);
    let signature = key.sign(b"");
    assert_eq!(signature[0], 0xe5);
    assert_eq!(signature[63], 0x0b);
    assert!(key.node_id().verify(b"", &signature));
    assert!(!key.node_id().verify(b"x", &signature));
    let mut other = signature;
    other[0] ^= 1;
    assert!(!key.node_id().verify(b"", &other));
    assert_eq!(&key.pkcs8_der()[16..], &seed);
}

#[test]
fn fresh_keys_differ() {
    assert_ne!(
        TransportKey::generate().node_id(),
        TransportKey::generate().node_id()
    );
}

#[test]
fn a_public_key_info_names_its_node() {
    let id = sample_id();
    let der = id.spki_der();
    assert_eq!(der.len(), 44);
    assert_eq!(&der[12..], &id.0);
    assert_eq!(node_id_from_spki(&der), Some(id));
    let mut other = der;
    other[0] ^= 1;
    assert_eq!(node_id_from_spki(&other), None);
    assert_eq!(node_id_from_spki(&der[..43]), None);
    assert_eq!(node_id_from_parsed_spki(&None), None);
    assert_eq!(node_id_from_parsed_spki(&Some(der.to_vec())), Some(id));
}

#[test]
fn a_synthetic_address_is_a_unique_local_one() {
    let addr = sample_id().synthetic_addr();
    assert!(matches!(addr.ip, IpAddr::V6(octets) if octets[0] == 0xfd));
    assert_eq!(addr, sample_id().synthetic_addr());
    assert_ne!(addr, NodeId([1; 32]).synthetic_addr());
    assert_eq!(addr.flowinfo, 0);
    assert_eq!(SocketAddr::new(addr.ip, addr.port), addr);
}

#[test]
fn the_self_signed_leaf_carries_the_node_id_as_its_spki() {
    let key = TransportKey::from_seed([0x11; 32]);
    let leaf = node_certificate(&key).expect("leaf");
    assert_eq!(
        node_id_from_cert_der(leaf.cert_der.as_ref()),
        Some(key.node_id()),
        "the leaf SPKI is the node ID"
    );
}

#[test]
fn the_identity_rule_accepts_only_the_pinned_node_id() {
    let a = TransportKey::from_seed([0x11; 32]);
    let b = TransportKey::from_seed([0x22; 32]);
    let leaf_a = node_certificate(&a).expect("leaf a");
    let leaf_b = node_certificate(&b).expect("leaf b");
    assert_eq!(check_pinned(a.node_id(), &leaf_a.cert_der), Ok(a.node_id()));
    assert_eq!(
        check_pinned(a.node_id(), &leaf_b.cert_der),
        Err(PinFault::OtherNode),
        "any other key fails closed"
    );
    assert_eq!(check_pinned(b.node_id(), &leaf_b.cert_der), Ok(b.node_id()));
    assert_eq!(
        check_pinned(b.node_id(), &leaf_a.cert_der),
        Err(PinFault::OtherNode),
        "the server side fails closed on the wrong key too"
    );
    assert_eq!(
        check_pinned(a.node_id(), b"not a certificate"),
        Err(PinFault::BadEncoding)
    );
    assert_eq!(
        judge_pinned(a.node_id(), Some(a.node_id())),
        Ok(a.node_id())
    );
    assert_eq!(judge_pinned(a.node_id(), None), Err(PinFault::BadEncoding));
    assert_eq!(node_id_from_cert_der(b"not a certificate"), None);
}

#[test]
fn identities_print_in_base32() {
    let id = NodeId([0; 32]);
    assert_eq!(format!("{id}"), "a".repeat(52));
    assert_eq!(format!("{id:?}"), format!("NodeId({})", "a".repeat(52)));
    assert!(TransportKey::from_seed([3; 32]).node_id().verifying_key().is_some());
}

#[test]
fn what_a_key_signs_its_identity_accepts() {
    for byte in 0..32u8 {
        let key = TransportKey::from_seed([byte; 32]);
        for length in [0usize, 1, 31, 200] {
            let message = vec![byte ^ 0x5a; length];
            let signature = key.sign(&message);
            assert!(key.node_id().verify(&message, &signature));
        }
    }
    // A neutral nonce point is refused whatever the rest is.
    let key = TransportKey::from_seed([7; 32]);
    let mut neutral = key.sign(b"message");
    neutral[..32].fill(0);
    neutral[0] = 1;
    assert!(!key.node_id().verify(b"message", &neutral));
}
