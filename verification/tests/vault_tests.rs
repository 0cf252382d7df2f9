//! Vault aggregate tests: mutation semantics and the full scenario.

use authvault::data::CredentialId;
use authvault::envelope::{EncryptedContent, WrappedKeypair, bind_begin, create_wrapped_keypair, decrypt, decrypt_begin};
use authvault::error::{CryptoError, DataError, VaultError};
use authvault::vault::VaultConfig;

fn fake_prf(secret: u8, salt: &[u8]) -> Vec<u8> {
    let mut out = Vec::new();
    for i in 0..32usize {
        let s = if i < salt.len() { salt[i] } else { 0 };
        out.push(secret ^ s ^ (i as u8).wrapping_mul(37));
    }
    out
}

fn register(vault: &mut VaultConfig, cred_id: &[u8], secret: u8) {
    let req = bind_begin().unwrap();
    let prf_output = fake_prf(secret, &req.prf_salt);
    let kp = create_wrapped_keypair(&cred_id.to_vec(), req.prf_salt, &prf_output).unwrap();
    vault.add_keypair(kp);
}

fn entry_of<'a>(vault: &'a VaultConfig, name: &str) -> &'a EncryptedContent {
    for (n, e) in vault.contents.iter() {
        if n == name {
            return e;
        }
    }
    panic!("no entry named {}", name);
}

fn open_with(
    vault: &VaultConfig,
    name: &str,
    known: &[(Vec<u8>, u8)],
) -> Result<Vec<u8>, VaultError> {
    let entry = entry_of(vault, name);
    let req = decrypt_begin(entry, &vault.user.keypairs)?;
    for (cid, salt) in &req.candidates {
        for (kc, secret) in known {
            if kc == cid {
                let prf_output = fake_prf(*secret, salt);
                return decrypt(entry, &vault.user.keypairs, cid, &prf_output);
            }
        }
    }
    Err(VaultError::Crypto(CryptoError::NoEligibleRecipient))
}

fn keypairs_equal(a: &WrappedKeypair, b: &WrappedKeypair) -> bool {
    a.wrapped_private_key == b.wrapped_private_key && a.iv == b.iv
        && a.additional_data == b.additional_data && a.nickname == b.nickname
}

#[test]
fn new_vault_is_empty() {
    let vault = VaultConfig::new("alice".to_string()).unwrap();
    assert_eq!(vault.version, 2);
    assert_eq!(vault.user.version, 2);
    assert_eq!(vault.user.username, "alice".to_string());
    assert_eq!(vault.user.user_handle.bytes().len(), 64);
    assert_eq!(vault.user.keypairs.len(), 0);
    assert_eq!(vault.contents.len(), 0);
}

#[test]
fn rename_sets_nickname() {
    let mut vault = VaultConfig::new("alice".to_string()).unwrap();
    register(&mut vault, b"A1", 11);
    assert_eq!(vault.user.keypairs[0].nickname, None);
    vault.rename_credential(&CredentialId(b"A1".to_vec()), "my key".to_string()).unwrap();
    assert_eq!(vault.user.keypairs[0].nickname, Some("my key".to_string()));
}

#[test]
fn rename_unknown_credential_fails_unchanged() {
    let mut vault = VaultConfig::new("alice".to_string()).unwrap();
    register(&mut vault, b"A1", 11);
    let before = vault.user.keypairs[0].clone();
    match vault.rename_credential(&CredentialId(b"B2".to_vec()), "x".to_string()) {
        Err(VaultError::Data(DataError::CredentialNotFound)) => {},
        other => panic!("expected CredentialNotFound, got {:?}", other),
    }
    assert!(keypairs_equal(&before, &vault.user.keypairs[0]));
}

#[test]
fn rename_twice_is_identical() {
    let mut vault = VaultConfig::new("alice".to_string()).unwrap();
    register(&mut vault, b"A1", 11);
    register(&mut vault, b"B2", 22);
    vault.push_content("note".to_string(), b"text".to_vec()).unwrap();

    let cid = CredentialId(b"B2".to_vec());
    vault.rename_credential(&cid, "work key".to_string()).unwrap();
    let once: Vec<WrappedKeypair> = vault.user.keypairs.clone();
    let once_contents = vault.contents.len();

    vault.rename_credential(&cid, "work key".to_string()).unwrap();
    assert_eq!(vault.user.keypairs.len(), once.len());
    for (a, b) in once.iter().zip(vault.user.keypairs.iter()) {
        assert!(keypairs_equal(a, b));
    }
    assert_eq!(vault.contents.len(), once_contents);
}

#[test]
fn delete_credential_cascades() {
    let mut vault = VaultConfig::new("alice".to_string()).unwrap();
    register(&mut vault, b"A1", 11);
    register(&mut vault, b"B2", 22);
    vault.push_content("shared".to_string(), b"both can read".to_vec()).unwrap();
    assert_eq!(entry_of(&vault, "shared").recipients.len(), 2);

    vault.delete_credential(&CredentialId(b"A1".to_vec()));

    // The keypair is gone from the user's list...
    assert_eq!(vault.user.keypairs.len(), 1);
    let ad = vault.user.keypairs[0].additional_data().unwrap();
    assert_eq!(ad.credential_id, b"B2".to_vec());
    // ...and no recipient entry anywhere references it.
    for (_, e) in vault.contents.iter() {
        for wck in e.recipients.iter() {
            assert_ne!(wck.credential_id, b"A1".to_vec());
        }
    }
    // The other credential still decrypts.
    let pt = open_with(&vault, "shared", &[(b"B2".to_vec(), 22)]).unwrap();
    assert_eq!(pt, b"both can read".to_vec());
}

#[test]
fn push_content_replaces_in_place() {
    let mut vault = VaultConfig::new("alice".to_string()).unwrap();
    register(&mut vault, b"A1", 11);
    vault.push_content("first".to_string(), b"one".to_vec()).unwrap();
    vault.push_content("second".to_string(), b"two".to_vec()).unwrap();
    vault.push_content("first".to_string(), b"one again".to_vec()).unwrap();
    assert_eq!(vault.contents.len(), 2);
    assert_eq!(vault.contents[0].0, "first".to_string());
    assert_eq!(vault.contents[1].0, "second".to_string());
    let pt = open_with(&vault, "first", &[(b"A1".to_vec(), 11)]).unwrap();
    assert_eq!(pt, b"one again".to_vec());
}

#[test]
fn vault_scenario() {
    // Register authenticator A and store "hello" for it alone.
    let mut vault = VaultConfig::new("alice".to_string()).unwrap();
    register(&mut vault, b"A1", 11);
    vault.push_content("greeting".to_string(), b"hello".to_vec()).unwrap();
    let pt = open_with(&vault, "greeting", &[(b"A1".to_vec(), 11)]).unwrap();
    assert_eq!(pt, b"hello".to_vec());

    // Register authenticator B and store a new entry under both.
    register(&mut vault, b"B2", 22);
    vault.push_content("second".to_string(), b"world".to_vec()).unwrap();
    let via_a = open_with(&vault, "second", &[(b"A1".to_vec(), 11)]).unwrap();
    let via_b = open_with(&vault, "second", &[(b"B2".to_vec(), 22)]).unwrap();
    assert_eq!(via_a, b"world".to_vec());
    assert_eq!(via_b, b"world".to_vec());

    // Delete A: the first entry loses its only recipient.
    vault.delete_credential(&CredentialId(b"A1".to_vec()));
    match open_with(&vault, "greeting", &[(b"A1".to_vec(), 11), (b"B2".to_vec(), 22)]) {
        Err(VaultError::Crypto(CryptoError::NoEligibleRecipient)) => {},
        other => panic!("expected NoEligibleRecipient, got {:?}", other.map(|_| ())),
    }
    // The second entry is still readable by B.
    let still = open_with(&vault, "second", &[(b"B2".to_vec(), 22)]).unwrap();
    assert_eq!(still, b"world".to_vec());
}

#[test]
fn error_messages_do_not_distinguish_aad_failures() {
    let a = VaultError::Crypto(CryptoError::AadMismatch).message();
    let b = VaultError::Crypto(CryptoError::PrimitiveFailure).message();
    assert_eq!(a, b);
    let c = VaultError::Crypto(CryptoError::NoEligibleRecipient).message();
    assert_ne!(a, c);
}

#[test]
fn entry_without_recipients_is_undecryptable() {
    // An empty-keypair vault still accepts content (the guard against it
    // belongs to the caller); the entry has no recipients and can never be
    // opened.
    let mut vault = VaultConfig::new("alice".to_string()).unwrap();
    vault.push_content("orphan".to_string(), b"lost".to_vec()).unwrap();
    assert_eq!(entry_of(&vault, "orphan").recipients.len(), 0);
    register(&mut vault, b"A1", 11);
    match open_with(&vault, "orphan", &[(b"A1".to_vec(), 11)]) {
        Err(VaultError::Crypto(CryptoError::NoEligibleRecipient)) => {},
        other => panic!("expected NoEligibleRecipient, got {:?}", other.map(|_| ())),
    }
}

#[test]
fn delete_keeps_other_nicknames() {
    let mut vault = VaultConfig::new("alice".to_string()).unwrap();
    register(&mut vault, b"A1", 11);
    register(&mut vault, b"B2", 22);
    vault.rename_credential(&CredentialId(b"B2".to_vec()), "keep me".to_string()).unwrap();
    vault.delete_credential(&CredentialId(b"A1".to_vec()));
    assert_eq!(vault.user.keypairs.len(), 1);
    assert_eq!(vault.user.keypairs[0].nickname, Some("keep me".to_string()));
}
