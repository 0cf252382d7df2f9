//! Cryptographic provider for the vault.
//!
//! The envelope scheme needs random bytes, HKDF-SHA256, AES-256-GCM,
//! AES-KW and ECDH on curve P-256. Each primitive is reached through one
//! trusted function whose contract states what the provider's source shows;
//! results that no short formula can state are given opaque names, and all
//! reasoning about the scheme goes through those names.

use vstd::prelude::*;

use aes::Aes256;
use aes_gcm::Aes256Gcm;
use aes_gcm::aead::Aead;
use aes_gcm::aead::KeyInit;
use aes_gcm::aead::Payload;
use aes_kw::AesKw;
use hkdf::Hkdf;
use p256::elliptic_curve::Generate;
use p256::pkcs8::DecodePrivateKey;
use p256::pkcs8::EncodePrivateKey;
use sha2::Sha256;

use crate::error::CryptoError;

verus! {

/// Longest plaintext AES-GCM accepts, in bytes.
pub const GCM_P_MAX: u64 = 68719476704;

/// Longest associated data AES-GCM accepts, in bytes.
pub const GCM_A_MAX: u64 = 2305843009213693951;

/// Output of HKDF-SHA256 extract-then-expand, 32 bytes of output.
pub uninterp spec fn hkdf_sha256(ikm: Seq<u8>, salt: Seq<u8>, info: Seq<u8>) -> Seq<u8>;

/// AES-256-GCM ciphertext (with its 16-byte tag appended) of `pt` under
/// `key` and 96-bit `iv`, authenticating `aad`.
pub uninterp spec fn gcm_cipher(key: Seq<u8>, iv: Seq<u8>, aad: Seq<u8>, pt: Seq<u8>) -> Seq<u8>;

/// AES-KW (RFC 3394) wrapping of `key` under the key-encryption key `kek`.
pub uninterp spec fn kw_seal(kek: Seq<u8>, key: Seq<u8>) -> Seq<u8>;

/// SEC1 uncompressed public key of the P-256 private key `sk` (PKCS#8 DER).
pub uninterp spec fn p256_pub(sk: Seq<u8>) -> Seq<u8>;

/// Whether `sk` parses as a PKCS#8 DER P-256 private key.
pub uninterp spec fn p256_sk_ok(sk: Seq<u8>) -> bool;

/// ECDH shared secret (32-byte x-coordinate) between the private key `sk`
/// (PKCS#8 DER) and the public key `pk` (SEC1 bytes).
pub uninterp spec fn p256_shared(sk: Seq<u8>, pk: Seq<u8>) -> Seq<u8>;

/// Fresh random bytes.
///
/// Relies on getrandom::fill, which draws from the operating system's
/// cryptographically secure generator. Nothing can be promised of the value.
#[verifier::external_body]
pub fn gen_random<const N: usize>() -> (r: Result<[u8; N], CryptoError>) {
    let mut buf: [u8; N] = [0; N];
    match getrandom::fill(&mut buf) {
        Ok(()) => Ok(buf),
        Err(_) => Err(CryptoError::PrimitiveFailure),
    }
}

/// HKDF-SHA256, extract with `salt` then expand with `info`, 32 bytes out.
///
/// Relies on hkdf::Hkdf: `new` runs HKDF-Extract and `expand` runs
/// HKDF-Expand, which cannot fail for a 32-byte output; the result is a
/// function of the three inputs alone, named `hkdf_sha256`.
#[verifier::external_body]
pub(crate) fn hkdf_derive(ikm: &[u8], salt: &[u8], info: &[u8]) -> (r: Vec<u8>)
    ensures
        r@ == hkdf_sha256(ikm@, salt@, info@),
        r@.len() == 32,
{
    let hk = Hkdf::<Sha256>::new(Some(salt), ikm);
    let mut okm: [u8; 32] = [0; 32];
    hk.expand(info, &mut okm).expect("32 bytes is a valid HKDF-SHA256 output length");
    okm.to_vec()
}

/// AES-256-GCM encryption of `pt` under `key` and `iv`, authenticating `aad`.
///
/// Relies on aes_gcm::Aes256Gcm: for a 32-byte key and a 12-byte nonce,
/// encryption of a plaintext within the AES-GCM length limits always
/// succeeds and returns the ciphertext with the 16-byte tag appended; the
/// result is a function of the four inputs alone, named `gcm_cipher`.
#[verifier::external_body]
pub(crate) fn gcm_encrypt(key: &[u8], iv: &[u8], aad: &[u8], pt: &[u8]) -> (r: Vec<u8>)
    requires
        key@.len() == 32,
        iv@.len() == 12,
        pt@.len() <= GCM_P_MAX,
        aad@.len() <= GCM_A_MAX,
    ensures
        r@ == gcm_cipher(key@, iv@, aad@, pt@),
        r@.len() == pt@.len() + 16,
{
    let cipher = Aes256Gcm::new_from_slice(key).expect("the key is 32 bytes");
    let nonce = aes_gcm::Nonce::try_from(iv).expect("the nonce is 12 bytes");
    cipher.encrypt(&nonce, Payload { msg: pt, aad }).expect(
        "plaintext and associated data are within the AES-GCM limits",
    )
}

/// AES-256-GCM decryption of `ct` under `key` and `iv`, checking `aad`.
///
/// Relies on aes_gcm::Aes256Gcm: decryption returns the plaintext exactly
/// when `ct` is the encryption of that plaintext under the same key, nonce
/// and associated data, and fails otherwise.
#[verifier::external_body]
pub(crate) fn gcm_decrypt(key: &[u8], iv: &[u8], aad: &[u8], ct: &[u8]) -> (r: Result<
    Vec<u8>,
    CryptoError,
>)
    requires
        key@.len() == 32,
        iv@.len() == 12,
    ensures
        r is Ok ==> ct@ == gcm_cipher(key@, iv@, aad@, r.unwrap()@),
        r is Ok ==> r.unwrap()@.len() + 16 == ct@.len() && r.unwrap()@.len() <= GCM_P_MAX
            && aad@.len() <= GCM_A_MAX,
        forall|pt: Seq<u8>|
            pt.len() <= GCM_P_MAX && aad@.len() <= GCM_A_MAX && ct@ == #[trigger] gcm_cipher(
                key@,
                iv@,
                aad@,
                pt,
            ) ==> r is Ok && r.unwrap()@ == pt,
{
    let cipher = Aes256Gcm::new_from_slice(key).expect("the key is 32 bytes");
    let nonce = aes_gcm::Nonce::try_from(iv).expect("the nonce is 12 bytes");
    match cipher.decrypt(&nonce, Payload { msg: ct, aad }) {
        Ok(pt) => Ok(pt),
        Err(_) => Err(CryptoError::AadMismatch),
    }
}

/// AES-KW wrapping of `key` under the 32-byte key-encryption key `kek`.
///
/// Relies on aes_kw::AesKw over aes::Aes256: wrapping a key whose length is
/// a positive multiple of 8 bytes always succeeds and yields 8 bytes more
/// than the input; the result is a function of `kek` and `key` alone, named
/// `kw_seal`.
#[verifier::external_body]
pub(crate) fn kw_wrap(kek: &[u8], key: &[u8]) -> (r: Vec<u8>)
    requires
        kek@.len() == 32,
        key@.len() % 8 == 0,
        0 < key@.len() <= 65536,
    ensures
        r@ == kw_seal(kek@, key@),
        r@.len() == key@.len() + 8,
{
    let kw = AesKw::<Aes256>::new_from_slice(kek).expect("the key-encryption key is 32 bytes");
    let mut buf = vec![0u8; key.len() + 8];
    kw.wrap_key(key, &mut buf).expect("the buffer is large enough and the length a multiple of 8");
    buf
}

/// AES-KW unwrapping under the 32-byte key-encryption key `kek`.
///
/// Relies on aes_kw::AesKw over aes::Aes256: unwrapping returns the wrapped
/// key exactly when `wrapped` is the wrapping of that key under `kek` (the
/// RFC 3394 integrity register checks out), and fails otherwise.
#[verifier::external_body]
pub(crate) fn kw_unwrap(kek: &[u8], wrapped: &[u8]) -> (r: Result<Vec<u8>, CryptoError>)
    requires
        kek@.len() == 32,
    ensures
        r is Ok ==> wrapped@ == kw_seal(kek@, r.unwrap()@),
        forall|key: Seq<u8>|
            0 < key.len() <= 65536 && key.len() % 8 == 0 && wrapped@ == #[trigger] kw_seal(
                kek@,
                key,
            ) ==> r is Ok && r.unwrap()@ == key,
{
    let kw = AesKw::<Aes256>::new_from_slice(kek).expect("the key-encryption key is 32 bytes");
    if wrapped.len() < 16 {
        return Err(CryptoError::PrimitiveFailure);
    }
    let mut buf = vec![0u8; wrapped.len() - 8];
    match kw.unwrap_key(wrapped, &mut buf) {
        Ok(_) => Ok(buf),
        Err(_) => Err(CryptoError::PrimitiveFailure),
    }
}

/// Fresh P-256 keypair: (private key as PKCS#8 DER, public key as SEC1
/// uncompressed bytes).
///
/// Relies on p256::SecretKey: generation draws from the operating system's
/// generator; the PKCS#8 export parses back (`p256_sk_ok`), and the public
/// key is a function of the private key alone, named `p256_pub`.
#[verifier::external_body]
pub(crate) fn p256_generate() -> (r: Result<(Vec<u8>, Vec<u8>), CryptoError>)
    ensures
        r is Ok ==> p256_sk_ok(r.unwrap().0@),
        r is Ok ==> r.unwrap().1@ == p256_pub(r.unwrap().0@),
        r is Ok ==> r.unwrap().1@.len() == 65,
{
    let sk = match p256::SecretKey::try_generate() {
        Ok(k) => k,
        Err(_) => return Err(CryptoError::PrimitiveFailure),
    };
    let der = match sk.to_pkcs8_der() {
        Ok(d) => d,
        Err(_) => return Err(CryptoError::PrimitiveFailure),
    };
    Ok((der.as_bytes().to_vec(), sk.public_key().to_sec1_bytes().to_vec()))
}

/// ECDH between the private key `sk` (PKCS#8 DER) and the public key
/// `peer` (SEC1 bytes), returning the 32-byte shared secret.
///
/// Relies on p256::ecdh::diffie_hellman. The call succeeds whenever `sk`
/// parses and `peer` is the public key of some valid private key; the
/// shared secret is a function of the two keys alone, named `p256_shared`,
/// and Diffie-Hellman agreement makes it the same seen from either side.
#[verifier::external_body]
pub(crate) fn p256_ecdh(sk: &[u8], peer: &[u8]) -> (r: Result<Vec<u8>, CryptoError>)
    ensures
        r is Ok ==> r.unwrap()@ == p256_shared(sk@, peer@) && r.unwrap()@.len() == 32,
        p256_sk_ok(sk@) && (exists|o: Seq<u8>| p256_sk_ok(o) && peer@ == #[trigger] p256_pub(o))
            ==> r is Ok,
        r is Ok ==> forall|o: Seq<u8>|
            p256_sk_ok(o) && peer@ == #[trigger] p256_pub(o) ==> r.unwrap()@ == p256_shared(
                o,
                p256_pub(sk@),
            ),
{
    let sk = match p256::SecretKey::from_pkcs8_der(sk) {
        Ok(k) => k,
        Err(_) => return Err(CryptoError::PrimitiveFailure),
    };
    let pk = match p256::PublicKey::from_sec1_bytes(peer) {
        Ok(k) => k,
        Err(_) => return Err(CryptoError::PrimitiveFailure),
    };
    let shared = p256::ecdh::diffie_hellman(sk.to_nonzero_scalar(), pk.as_affine());
    Ok(shared.raw_secret_bytes().to_vec())
}

/// ASCII bytes as a string.
///
/// Relies on String::from_utf8: bytes below 128 decode to the same code
/// points.
#[verifier::external_body]
pub(crate) fn ascii_to_string(v: Vec<u8>) -> (r: String)
    requires
        forall|i: int| 0 <= i < v@.len() ==> v@[i] < 128,
    ensures
        r@.len() == v@.len(),
        forall|i: int| 0 <= i < v@.len() ==> r@[i] == v@[i] as char,
{
    String::from_utf8(v).expect("ASCII bytes are valid UTF-8")
}

} // verus!
