use dns_core::key_management::{
    calculate_key_tag, DNSSECKey, KeyError, KeyType, RRSig, RRSigError,
};

fn rrsig_bytes(signer: &[u8], signature: &[u8]) -> Vec<u8> {
    let mut b = vec![
        0x00, 0x01, // type covered
        13,   // algorithm
        2,    // labels
        0x00, 0x00, 0x0E, 0x10, // original ttl 3600
        0x65, 0x00, 0x00, 0x01, // expiration
        0x64, 0x00, 0x00, 0x02, // inception
        0xAB, 0xCD, // key tag
    ];
    b.extend_from_slice(signer);
    b.push(0);
    b.extend_from_slice(signature);
    b
}

#[test]
fn rrsig_new_keeps_its_fields() {
    let sig = RRSig::new(1, 13, 2, 3600, 10, 5, 0xABCD, "example.com".to_string(), vec![1, 2]);
    assert_eq!(
        sig,
        RRSig {
            type_covered: 1,
            algorithm: 13,
            labels: 2,
            original_ttl: 3600,
            expiration: 10,
            inception: 5,
            key_tag: 0xABCD,
            signer_name: "example.com".to_string(),
            signature: vec![1, 2],
        }
    );
    assert_eq!(sig.clone(), sig);
}

#[test]
fn rrsig_is_read_from_its_octets() {
    let sig = RRSig::from_bytes(&rrsig_bytes(b"example.com", &[9, 0, 8, 7])).unwrap();
    assert_eq!(
        sig,
        RRSig::new(
            1,
            13,
            2,
            3600,
            0x6500_0001,
            0x6400_0002,
            0xABCD,
            "example.com".to_string(),
            vec![9, 0, 8, 7]
        )
    );
}

#[test]
fn rrsig_with_empty_signer_and_signature() {
    let sig = RRSig::from_bytes(&rrsig_bytes(b"", &[])).unwrap();
    assert_eq!(sig.signer_name, "");
    assert!(sig.signature.is_empty());
}

#[test]
fn rrsig_of_less_than_18_octets_is_too_short() {
    assert_eq!(RRSig::from_bytes(&[]), Err(RRSigError::TooShort));
    assert_eq!(RRSig::from_bytes(&[1; 17]), Err(RRSigError::TooShort));
}

#[test]
fn rrsig_without_end_of_signer_is_unterminated() {
    assert_eq!(RRSig::from_bytes(&[1; 18]), Err(RRSigError::Unterminated));
    let mut b = rrsig_bytes(b"example", &[]);
    b.pop();
    assert_eq!(RRSig::from_bytes(&b), Err(RRSigError::Unterminated));
}

#[test]
fn rrsig_signer_that_is_no_text_is_refused() {
    assert_eq!(
        RRSig::from_bytes(&rrsig_bytes(&[0xFF, 0xFE], &[1])),
        Err(RRSigError::InvalidName)
    );
}

#[test]
fn key_tag_adds_the_octets_as_16_bit_values() {
    assert_eq!(calculate_key_tag(&[]), 0);
    assert_eq!(calculate_key_tag(&[0x01, 0x02, 0x03, 0x04]), 0x0406);
    assert_eq!(calculate_key_tag(&[0x01, 0x02, 0x03]), 0x0402);
    // the carry out of 16 bits is added in
    assert_eq!(calculate_key_tag(&[0xFF, 0xFF, 0x00, 0x02]), 0x0002);
    assert_eq!(calculate_key_tag(&[0xFF, 0xFF, 0xFF, 0xFF]), 0xFFFF);
}

#[test]
fn key_tag_of_a_long_key_wraps_at_32_bits() {
    // 2 * 70000 octets of 0xFF: the sum is 70000 * 0xFFFF, which is above 32 bits
    let key = vec![0xFFu8; 140000];
    let sum: u64 = 70000 * 0xFFFF;
    let ac = sum % (1 << 32);
    let expected = ((ac + ((ac >> 16) & 0xFFFF)) & 0xFFFF) as u16;
    assert_eq!(calculate_key_tag(&key), expected);
}

#[test]
fn key_from_its_parts_has_the_tag_of_the_public_part() {
    let key = DNSSECKey::from_ed25519(vec![1, 2, 3], vec![0x01, 0x02, 0x03, 0x04]);
    assert_eq!(key.key_type, KeyType::Ed25519);
    assert_eq!(key.private_key, vec![1, 2, 3]);
    assert_eq!(key.public_key, vec![1, 2, 3, 4]);
    assert_eq!(key.key_tag, 0x0406);
    assert_eq!(key.algorithm, 13);
}

#[test]
fn generated_key_has_the_public_part_of_its_private_part() {
    let key = DNSSECKey::generate(KeyType::Ed25519).unwrap();
    assert_eq!(key.key_type, KeyType::Ed25519);
    assert_eq!(key.algorithm, 13);
    assert_eq!(key.public_key.len(), 32);
    assert_ne!(key.public_key, key.private_key);
    assert_eq!(key.key_tag, calculate_key_tag(&key.public_key));
    let pair = ring::signature::Ed25519KeyPair::from_pkcs8(&key.private_key).unwrap();
    let public = ring::signature::KeyPair::public_key(&pair);
    assert_eq!(public.as_ref(), &key.public_key[..]);
}

#[test]
fn generated_keys_differ() {
    let a = DNSSECKey::generate(KeyType::Ed25519).unwrap();
    let b = DNSSECKey::generate(KeyType::Ed25519).unwrap();
    assert_ne!(a.private_key, b.private_key);
    assert_ne!(a.public_key, b.public_key);
}

#[test]
fn no_document_gives_no_key() {
    assert_eq!(DNSSECKey::from_generated(None).err(), Some(KeyError::GenerationFailed));
}

#[test]
fn document_without_key_pair_is_refused() {
    assert_eq!(DNSSECKey::from_generated(Some(vec![])).err(), Some(KeyError::InvalidKey));
    assert_eq!(
        DNSSECKey::from_generated(Some(vec![0x30, 0x03, 0x02, 0x01, 0x00])).err(),
        Some(KeyError::InvalidKey)
    );
}

#[test]
fn document_gives_its_key_again() {
    let first = DNSSECKey::generate(KeyType::Ed25519).unwrap();
    let again = DNSSECKey::from_generated(Some(first.private_key.clone())).ok().unwrap();
    assert_eq!(again.private_key, first.private_key);
    assert_eq!(again.public_key, first.public_key);
    assert_eq!(again.key_tag, first.key_tag);
    assert_eq!(again.algorithm, 13);
    assert_eq!(again.key_type, KeyType::Ed25519);
    // a damaged document is not the same key
    let mut damaged = first.private_key.clone();
    let last = damaged.len() - 1;
    damaged[last] ^= 0xFF;
    assert_eq!(DNSSECKey::from_generated(Some(damaged)).err(), Some(KeyError::InvalidKey));
}
