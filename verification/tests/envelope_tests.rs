//! Envelope protocol tests against a simulated authenticator.

use authvault::envelope::{
    EncryptedContent, WrappedKeypair, bind_begin, create_wrapped_keypair, decrypt, decrypt_begin,
    encrypt, unbind_candidates, unwrap_private_key,
};
use authvault::error::{AuthenticatorError, CryptoError, VaultError};

/// Deterministic stand-in for an authenticator's PRF extension: a fixed
/// function of the credential's secret and the salt.
fn fake_prf(secret: u8, salt: &[u8]) -> Vec<u8> {
    let mut out = Vec::new();
    for i in 0..32usize {
        let s = if i < salt.len() { salt[i] } else { 0 };
        out.push(secret ^ s ^ (i as u8).wrapping_mul(37));
    }
    out
}

fn register(cred_id: &[u8], secret: u8) -> WrappedKeypair {
    let req = bind_begin().unwrap();
    let prf_output = fake_prf(secret, &req.prf_salt);
    assert_eq!(req.prf_salt.len(), 32);
    assert_eq!(req.challenge.len(), 32);
    create_wrapped_keypair(&cred_id.to_vec(), req.prf_salt, &prf_output).unwrap()
}

/// Run the ceremony-and-open flow with the given authenticator secrets.
fn open_entry(
    entry: &EncryptedContent,
    available: &Vec<WrappedKeypair>,
    known: &[(Vec<u8>, u8)],
) -> Result<Vec<u8>, VaultError> {
    let req = decrypt_begin(entry, available)?;
    for (cid, salt) in &req.candidates {
        for (kc, secret) in known {
            if kc == cid {
                let prf_output = fake_prf(*secret, salt);
                return decrypt(entry, available, cid, &prf_output);
            }
        }
    }
    Err(VaultError::Crypto(CryptoError::NoEligibleRecipient))
}

#[test]
fn round_trip_single_recipient() {
    let kp = register(b"cred-a", 11);
    let keypairs = vec![kp];
    let entry = encrypt(b"attack at dawn".to_vec(), &keypairs).unwrap();
    assert_eq!(entry.recipients.len(), 1);
    let pt = open_entry(&entry, &keypairs, &[(b"cred-a".to_vec(), 11)]).unwrap();
    assert_eq!(pt, b"attack at dawn".to_vec());
}

#[test]
fn round_trip_empty_plaintext() {
    let kp = register(b"cred-a", 11);
    let keypairs = vec![kp];
    let entry = encrypt(Vec::new(), &keypairs).unwrap();
    let pt = open_entry(&entry, &keypairs, &[(b"cred-a".to_vec(), 11)]).unwrap();
    assert_eq!(pt, Vec::<u8>::new());
}

#[test]
fn multi_recipient_independence() {
    let kp_a = register(b"cred-a", 11);
    let kp_b = register(b"cred-b", 99);
    let keypairs = vec![kp_a, kp_b];
    let entry = encrypt(b"shared secret".to_vec(), &keypairs).unwrap();
    assert_eq!(entry.recipients.len(), 2);

    // Decrypt via A alone and via B alone: both recover the same plaintext.
    let only_a = vec![keypairs[0].clone()];
    let only_b = vec![keypairs[1].clone()];
    let via_a = open_entry(&entry, &only_a, &[(b"cred-a".to_vec(), 11)]).unwrap();
    let via_b = open_entry(&entry, &only_b, &[(b"cred-b".to_vec(), 99)]).unwrap();
    assert_eq!(via_a, b"shared secret".to_vec());
    assert_eq!(via_a, via_b);
}

#[test]
fn no_eligible_recipient_fails_fast() {
    let kp_a = register(b"cred-a", 11);
    let kp_b = register(b"cred-b", 99);
    let entry = encrypt(b"for a only".to_vec(), &vec![kp_a]).unwrap();
    let available = vec![kp_b];
    match decrypt_begin(&entry, &available) {
        Err(VaultError::Crypto(CryptoError::NoEligibleRecipient)) => {},
        other => panic!("expected NoEligibleRecipient, got {:?}", other.map(|_| ())),
    }
}

#[test]
fn unbind_rejects_foreign_credential() {
    let kp_a = register(b"cred-a", 11);
    let keypairs = vec![kp_a];
    let prf_output = fake_prf(11, &[0u8; 32]);
    match unwrap_private_key(&keypairs, &b"cred-x".to_vec(), &prf_output) {
        Err(VaultError::Authenticator(AuthenticatorError::NoMatch)) => {},
        other => panic!("expected NoMatch, got {:?}", other.map(|_| ())),
    }
}

#[test]
fn wrong_prf_output_is_generic_decrypt_failure() {
    let kp_a = register(b"cred-a", 11);
    let keypairs = vec![kp_a];
    let entry = encrypt(b"payload".to_vec(), &keypairs).unwrap();
    // An authenticator answering with the wrong PRF output (wrong secret).
    let r = open_entry(&entry, &keypairs, &[(b"cred-a".to_vec(), 12)]);
    match r {
        Err(VaultError::Crypto(CryptoError::AadMismatch)) => {},
        other => panic!("expected AadMismatch, got {:?}", other.map(|_| ())),
    }
}

#[test]
fn unbind_candidates_lists_credentials_and_salts() {
    let kp_a = register(b"cred-a", 11);
    let kp_b = register(b"cred-b", 99);
    let keypairs = vec![kp_a, kp_b];
    let cands = unbind_candidates(&keypairs).unwrap();
    assert_eq!(cands.len(), 2);
    assert_eq!(cands[0].0, b"cred-a".to_vec());
    assert_eq!(cands[1].0, b"cred-b".to_vec());
    assert_eq!(cands[0].1.len(), 32);
    // The stored PRF salt is the one handed out at registration: opening
    // with it works (shown by the round-trip tests); two registrations use
    // distinct salts.
    assert_ne!(cands[0].1, cands[1].1);
}

fn expect_open_fails(entry: &EncryptedContent, keypairs: &Vec<WrappedKeypair>, secret: u8) {
    match open_entry(entry, keypairs, &[(b"cred-a".to_vec(), secret)]) {
        Ok(_) => panic!("tampered entry decrypted"),
        Err(_) => {},
    }
}

#[test]
fn tamper_detection_every_bit() {
    let kp = register(b"cred-a", 11);
    let keypairs = vec![kp];
    let entry = encrypt(b"soup".to_vec(), &keypairs).unwrap();

    // Sanity: the untampered entry decrypts.
    assert!(open_entry(&entry, &keypairs, &[(b"cred-a".to_vec(), 11)]).is_ok());

    // Every bit of the ciphertext.
    for byte in 0..entry.ciphertext.len() {
        for bit in 0..8 {
            let mut e = entry.clone();
            e.ciphertext[byte] ^= 1u8 << bit;
            expect_open_fails(&e, &keypairs, 11);
        }
    }
    // Every bit of the payload IV.
    for byte in 0..entry.iv.len() {
        for bit in 0..8 {
            let mut e = entry.clone();
            e.iv[byte] ^= 1u8 << bit;
            expect_open_fails(&e, &keypairs, 11);
        }
    }
    // The (empty) associated data of the entry: growing it breaks the tag.
    {
        let mut e = entry.clone();
        e.additional_data.push(0);
        expect_open_fails(&e, &keypairs, 11);
    }
    // Every bit of every field of the wrapped content key.
    for byte in 0..entry.recipients[0].wrapped_content_key.len() {
        for bit in 0..8 {
            let mut e = entry.clone();
            e.recipients[0].wrapped_content_key[byte] ^= 1u8 << bit;
            expect_open_fails(&e, &keypairs, 11);
        }
    }
    for byte in 0..entry.recipients[0].wrapping_exchange_pubkey.len() {
        for bit in 0..8 {
            let mut e = entry.clone();
            e.recipients[0].wrapping_exchange_pubkey[byte] ^= 1u8 << bit;
            expect_open_fails(&e, &keypairs, 11);
        }
    }
    for byte in 0..entry.recipients[0].credential_id.len() {
        for bit in 0..8 {
            let mut e = entry.clone();
            e.recipients[0].credential_id[byte] ^= 1u8 << bit;
            expect_open_fails(&e, &keypairs, 11);
        }
    }
}

#[test]
fn tamper_detection_keypair_fields() {
    let kp = register(b"cred-a", 11);
    let entry = encrypt(b"soup".to_vec(), &vec![kp.clone()]).unwrap();
    assert!(open_entry(&entry, &vec![kp.clone()], &[(b"cred-a".to_vec(), 11)]).is_ok());

    // Every bit of the keypair's serialized additional data.
    for byte in 0..kp.additional_data.len() {
        for bit in 0..8 {
            let mut k = kp.clone();
            k.additional_data[byte] ^= 1u8 << bit;
            expect_open_fails(&entry, &vec![k], 11);
        }
    }
    // Every bit of the keypair's IV and wrapped private key.
    for byte in 0..kp.iv.len() {
        for bit in 0..8 {
            let mut k = kp.clone();
            k.iv[byte] ^= 1u8 << bit;
            expect_open_fails(&entry, &vec![k], 11);
        }
    }
    for byte in 0..kp.wrapped_private_key.len() {
        for bit in 0..8 {
            let mut k = kp.clone();
            k.wrapped_private_key[byte] ^= 1u8 << bit;
            expect_open_fails(&entry, &vec![k], 11);
        }
    }
}

#[test]
fn encrypt_rejects_malformed_keypair_metadata() {
    let mut kp = register(b"cred-a", 11);
    kp.additional_data[0] ^= 1;
    match encrypt(b"x".to_vec(), &vec![kp]) {
        Err(VaultError::Serialization) => {},
        other => panic!("expected Serialization, got {:?}", other.map(|_| ())),
    }
}

#[test]
fn additional_data_parses_back() {
    let kp = register(b"cred-a", 11);
    let ad = kp.additional_data().unwrap();
    assert_eq!(ad.credential_id, b"cred-a".to_vec());
    assert_eq!(ad.prf_salt.len(), 32);
    assert_eq!(ad.hkdf_salt.len(), 32);
    assert_eq!(ad.hkdf_info.len(), 0);
    assert_eq!(ad.pubkey.len(), 65);
    let cid = ad.credential_id();
    assert_eq!(cid.0, b"cred-a".to_vec());
}
