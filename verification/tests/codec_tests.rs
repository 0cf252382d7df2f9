//! Codec tests: the base64 implementation against the base64 crate, and
//! the metadata serializer against a real JSON parser.

use authvault::b64::{base64_decode, base64_encode, base64url_encode};
use authvault::codec::{WrappedKeypairAdditionalData, parse_additional_data, render_additional_data};
use authvault::data::{Base64Wrapper, CredentialId, UserHandle};
use base64::Engine;

fn sample_inputs() -> Vec<Vec<u8>> {
    let mut v = vec![
        Vec::new(),
        vec![0u8],
        vec![255u8],
        vec![1, 2],
        vec![250, 236, 32],
        vec![255, 236, 32, 85, 0],
        b"hello world".to_vec(),
    ];
    let mut long = Vec::new();
    for i in 0..257u32 {
        long.push((i.wrapping_mul(97) % 256) as u8);
    }
    v.push(long);
    v
}

#[test]
fn base64_matches_reference_encoder() {
    let engine = base64::engine::general_purpose::STANDARD;
    for input in sample_inputs() {
        let ours = String::from_utf8(base64_encode(&input)).unwrap();
        let theirs = engine.encode(&input);
        assert_eq!(ours, theirs);
    }
}

#[test]
fn base64url_matches_reference_encoder() {
    let engine = base64::engine::general_purpose::URL_SAFE_NO_PAD;
    for input in sample_inputs() {
        let ours = String::from_utf8(base64url_encode(&input)).unwrap();
        let theirs = engine.encode(&input);
        assert_eq!(ours, theirs);
    }
}

#[test]
fn base64_decode_inverts_encode() {
    for input in sample_inputs() {
        let enc = base64_encode(&input);
        let dec = base64_decode(&enc).unwrap();
        assert_eq!(dec, input);
    }
}

#[test]
fn base64_decode_rejects_junk() {
    assert_eq!(base64_decode(b"A"), None);
    assert_eq!(base64_decode(b"AAA"), None);
    assert_eq!(base64_decode(b"AA=A"), None);
    assert_eq!(base64_decode(b"A*AA"), None);
    assert_eq!(base64_decode(b"===="), None);
    // Non-canonical padding bits ('B' leaves a nonzero low nibble).
    assert_eq!(base64_decode(b"AB=="), None);
    assert_eq!(base64_decode(b"AAB="), None);
    // Canonical forms of the same prefixes decode.
    assert_eq!(base64_decode(b"AA==").unwrap(), vec![0u8]);
    assert_eq!(base64_decode(b"AAA=").unwrap(), vec![0u8, 0u8]);
}

#[test]
fn credential_id_b64url() {
    let cid = CredentialId(vec![250, 236, 32, 85]);
    assert_eq!(cid.b64url(), "-uwgVQ".to_string());
    let engine = base64::engine::general_purpose::URL_SAFE_NO_PAD;
    assert_eq!(cid.b64url(), engine.encode(&[250u8, 236, 32, 85]));
}

#[test]
fn credential_id_b64_abbrev() {
    let cid = CredentialId(b"hello world!".to_vec());
    // Full base64 is "aGVsbG8gd29ybGQh" (16 characters).
    assert_eq!(cid.b64_abbrev(16), "aGVsbG8gd29ybGQh".to_string());
    assert_eq!(cid.b64_abbrev(20), "aGVsbG8gd29ybGQh".to_string());
    assert_eq!(cid.b64_abbrev(4), "aGVs\u{2026}".to_string());
    assert_eq!(cid.b64_abbrev(0), "\u{2026}".to_string());
}

#[test]
fn base64_wrapper_round_trip() {
    let bytes = vec![1u8, 2, 3, 250, 251, 252];
    let w = Base64Wrapper::from_bytes(&bytes);
    assert_eq!(w.base64, "AQID+vv8".to_string());
    assert_eq!(w.to_bytes().unwrap(), bytes);
    let bad = Base64Wrapper { base64: "not base64!".to_string() };
    assert_eq!(bad.to_bytes(), None);
}

#[test]
fn user_handle_is_64_random_bytes() {
    let a = UserHandle::generate().unwrap();
    let b = UserHandle::generate().unwrap();
    assert_eq!(a.bytes().len(), 64);
    assert_eq!(b.bytes().len(), 64);
    assert_ne!(a.bytes(), b.bytes());
}

fn sample_ad() -> WrappedKeypairAdditionalData {
    WrappedKeypairAdditionalData {
        credential_id: b"cred".to_vec(),
        pubkey: vec![4u8; 65],
        prf_salt: vec![7u8; 32],
        hkdf_salt: vec![9u8; 32],
        hkdf_info: Vec::new(),
    }
}

#[test]
fn additional_data_round_trips() {
    let ad = sample_ad();
    let bytes = render_additional_data(&ad);
    let back = parse_additional_data(&bytes).unwrap();
    assert_eq!(back.credential_id, ad.credential_id);
    assert_eq!(back.pubkey, ad.pubkey);
    assert_eq!(back.prf_salt, ad.prf_salt);
    assert_eq!(back.hkdf_salt, ad.hkdf_salt);
    assert_eq!(back.hkdf_info, ad.hkdf_info);
}

#[test]
fn additional_data_is_real_json_with_stable_fields() {
    let ad = sample_ad();
    let bytes = render_additional_data(&ad);
    let value: serde_json::Value = serde_json::from_slice(&bytes).unwrap();
    let obj = value.as_object().unwrap();
    assert_eq!(obj.len(), 5);
    let engine = base64::engine::general_purpose::STANDARD;
    for (key, field) in [
        ("credential_id", &ad.credential_id),
        ("pubkey", &ad.pubkey),
        ("prf_salt", &ad.prf_salt),
        ("hkdf_salt", &ad.hkdf_salt),
        ("hkdf_info", &ad.hkdf_info),
    ] {
        let inner = obj.get(key).unwrap().as_object().unwrap();
        let b64 = inner.get("$base64").unwrap().as_str().unwrap();
        assert_eq!(b64, engine.encode(field));
    }
}

#[test]
fn additional_data_parse_rejects_mutations() {
    let ad = sample_ad();
    let bytes = render_additional_data(&ad);
    // Dropping or changing any single byte is rejected.
    for i in 0..bytes.len() {
        let mut shorter = bytes.clone();
        shorter.remove(i);
        assert!(parse_additional_data(&shorter).is_none());
        let mut flipped = bytes.clone();
        flipped[i] ^= 1;
        if let Some(back) = parse_additional_data(&flipped) {
            // A flip inside a base64 payload may still parse; it must then
            // decode to different field values.
            let same = back.credential_id == ad.credential_id && back.pubkey == ad.pubkey
                && back.prf_salt == ad.prf_salt && back.hkdf_salt == ad.hkdf_salt
                && back.hkdf_info == ad.hkdf_info;
            assert!(!same);
        }
    }
}

#[test]
fn rp_identity() {
    assert_eq!(authvault::rp_id(), "localhost");
    assert_eq!(authvault::rp_name(), "authvault");
}
