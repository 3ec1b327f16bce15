//! The identity codec against the real principal, digest, and hex crates.

use sha2::Digest;
use wallet_rust::ext::tokens::{
    account_identifier_for, create_tokens_query_encodings, principal_to_account_id,
    principal_to_user_variants, User,
};
use wallet_rust::ids::IdentityRef;

const ADMIN: &str = "cd3yv-nkb2m-mjvnb-naicp-mkqk2-g4f3d-g7y4g-xdeaz-n6i75-xur54-xae";

// a reference CRC-32 (reflected, all-ones preset and final complement),
// independent of the library's implementation
fn reference_crc32(data: &[u8]) -> u32 {
    let mut c: u32 = 0xffff_ffff;
    for &b in data {
        c ^= b as u32;
        for _ in 0..8 {
            c = if c & 1 == 1 { (c >> 1) ^ 0xedb8_8320 } else { c >> 1 };
        }
    }
    c ^ 0xffff_ffff
}

fn direct_account_id(raw: &[u8]) -> Vec<u8> {
    let mut hasher = sha2::Sha224::new();
    hasher.update(b"\x0Aaccount-id");
    hasher.update([raw.len() as u8]);
    hasher.update(raw);
    hasher.update([0u8; 32]);
    let digest = hasher.finalize().to_vec();
    let mut out = reference_crc32(&digest).to_be_bytes().to_vec();
    out.extend_from_slice(&digest);
    out
}

#[test]
fn identity_parses_like_the_principal_crate() {
    let identity = IdentityRef::from_text(ADMIN).unwrap();
    let principal = candid::Principal::from_text(ADMIN).unwrap();
    assert_eq!(identity.raw, principal.as_slice().to_vec());
    assert_eq!(identity.text, ADMIN);
    assert!(IdentityRef::from_text("not a principal").is_none());
}

#[test]
fn account_id_matches_a_direct_digest() {
    let identity = IdentityRef::from_text(ADMIN).unwrap();
    let account = principal_to_account_id(&identity, None);
    assert_eq!(account.len(), 32);
    assert_eq!(account, direct_account_id(&identity.raw));
    // the checksum prefix really is the CRC-32 of the digest that follows
    assert_eq!(account[0..4], reference_crc32(&account[4..]).to_be_bytes());
    assert_eq!(
        hex::encode(&account),
        "7d67c7ef30c89c1d88f4273d0b554c7e775fa97f9a240139942d8ee4f4fcb1bd"
    );
    // a non-default subaccount changes the address
    let other = principal_to_account_id(&identity, Some(vec![1u8; 32]));
    assert_ne!(account, other);
}

#[test]
fn user_variants_carry_raw_and_hex_address_forms() {
    let identity = IdentityRef::from_text(ADMIN).unwrap();
    let variants = principal_to_user_variants(&identity);
    assert_eq!(variants.len(), 2);
    match &variants[0] {
        User::Principal(raw) => assert_eq!(*raw, identity.raw),
        _ => panic!("first variant must carry the raw identity"),
    }
    match &variants[1] {
        User::Address(addr) => {
            assert_eq!(*addr, hex::encode(direct_account_id(&identity.raw)));
        }
        _ => panic!("second variant must carry the hex address"),
    }
}

#[test]
fn candidates_are_six_ordered_and_match_candid_encodings() {
    let identity = IdentityRef::from_text(ADMIN).unwrap();
    let candidates = create_tokens_query_encodings(&identity);
    assert_eq!(candidates.len(), 6);
    let labels: Vec<&str> = candidates.iter().map(|c| c.label.as_str()).collect();
    assert_eq!(
        labels,
        vec![
            "principal_text",
            "principal_direct",
            "account_id",
            "account_id_hex",
            "user_variant_0",
            "user_variant_1"
        ]
    );
    // the text and principal forms must be bytes the real candid crate produces
    let principal = candid::Principal::from_text(ADMIN).unwrap();
    assert_eq!(
        candidates[0].payload,
        candid::encode_one(principal.to_text()).unwrap()
    );
    assert_eq!(candidates[1].payload, candid::encode_one(principal).unwrap());
    // the hex-address text form is the candid encoding of that hex string
    let account_hex = hex::encode(direct_account_id(&identity.raw));
    assert_eq!(
        candidates[3].payload,
        candid::encode_one(account_hex).unwrap()
    );
    // the same identity always yields the same candidates
    let again = create_tokens_query_encodings(&identity);
    for (a, b) in candidates.iter().zip(again.iter()) {
        assert_eq!(a.payload, b.payload);
        assert_eq!(a.label, b.label);
    }
}

#[test]
fn account_identifier_record_wraps_the_derived_hash() {
    let identity = IdentityRef::from_text(ADMIN).unwrap();
    let record = account_identifier_for(&identity);
    assert_eq!(record.hash, direct_account_id(&identity.raw));
}

#[test]
fn crc32_matches_the_standard_check_value() {
    let data: Vec<u8> = b"123456789".to_vec();
    assert_eq!(wallet_rust::crypto::crc32(&data), 0xcbf4_3926);
    assert_eq!(wallet_rust::crypto::crc32(&Vec::new()), 0);
}
