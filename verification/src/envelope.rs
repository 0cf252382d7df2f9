//! The authenticator-bound multi-recipient envelope.
//!
//! A registered authenticator is represented by a [`WrappedKeypair`]: an
//! ECDH keypair whose private half is AES-GCM-encrypted under a wrapping
//! key derived (HKDF-SHA256) from the authenticator's PRF output, with the
//! keypair's metadata bound as associated data. Content is encrypted once
//! under a fresh content key, and that key is wrapped (ECDH + AES-KW) to
//! every recipient keypair, so any one registered authenticator suffices to
//! decrypt.
//!
//! The authenticator ceremony itself is a user-mediated external event: the
//! caller runs it and hands back the credential id and PRF output it
//! produced. Everything before and after the ceremony is verified here.

use vstd::prelude::*;

use crate::codec::WrappedKeypairAdditionalData;
use crate::codec::ad_bytes;
use crate::codec::parse_additional_data;
use crate::codec::render_additional_data;
use crate::crypto::GCM_A_MAX;
use crate::crypto::GCM_P_MAX;
use crate::crypto::gcm_cipher;
use crate::crypto::gcm_decrypt;
use crate::crypto::gcm_encrypt;
use crate::crypto::gen_random;
use crate::crypto::hkdf_derive;
use crate::crypto::hkdf_sha256;
use crate::crypto::kw_seal;
use crate::crypto::kw_unwrap;
use crate::crypto::kw_wrap;
use crate::crypto::p256_ecdh;
use crate::crypto::p256_generate;
use crate::crypto::p256_pub;
use crate::crypto::p256_shared;
use crate::crypto::p256_sk_ok;
use crate::data::bytes_eq;
use crate::error::AuthenticatorError;
use crate::error::CryptoError;
use crate::error::VaultError;

verus! {

/// One registered authenticator's ECDH keypair, private half encrypted
/// under the authenticator-derived wrapping key.
#[derive(Clone, Debug)]
pub struct WrappedKeypair {
    /// AES-GCM encryption of the private key (PKCS#8 DER).
    pub wrapped_private_key: Vec<u8>,
    /// 96-bit AES-GCM nonce of that encryption.
    pub iv: Vec<u8>,
    /// Serialized [`WrappedKeypairAdditionalData`], bound as associated data.
    pub additional_data: Vec<u8>,
    /// User-chosen label.
    pub nickname: Option<String>,
}

/// One recipient's wrapped copy of an entry's content key.
#[derive(Clone, Debug)]
pub struct WrappedContentKey {
    /// Credential id of the recipient keypair.
    pub credential_id: Vec<u8>,
    /// Fresh ephemeral ECDH public key (SEC1 bytes) of this wrap.
    pub wrapping_exchange_pubkey: Vec<u8>,
    /// AES-KW wrap of the content key under the ECDH-agreed key.
    pub wrapped_content_key: Vec<u8>,
}

/// One encrypted vault entry: the payload under a fresh content key, and
/// that key wrapped once per recipient.
#[derive(Clone, Debug)]
pub struct EncryptedContent {
    /// AES-GCM encryption of the payload under the content key.
    pub ciphertext: Vec<u8>,
    /// 96-bit AES-GCM nonce of the payload encryption.
    pub iv: Vec<u8>,
    /// Associated data of the payload encryption (empty in this scheme).
    pub additional_data: Vec<u8>,
    /// The per-recipient wrapped content keys.
    pub recipients: Vec<WrappedContentKey>,
}

/// The keypair's metadata names credential `cid` and public key `pk`.
pub open spec fn kp_names(kp: WrappedKeypair, cid: Seq<u8>, pk: Seq<u8>) -> bool {
    exists|prf: Seq<u8>, hs: Seq<u8>, hi: Seq<u8>|
        kp.additional_data@ == #[trigger] ad_bytes(cid, pk, prf, hs, hi)
}

/// The keypair's metadata names credential `cid`.
pub open spec fn kp_matches(kp: WrappedKeypair, cid: Seq<u8>) -> bool {
    exists|pk: Seq<u8>| #[trigger] kp_names(kp, cid, pk)
}

/// The keypair wraps private key `sk` for credential `cid`, recoverable
/// from the PRF output `prf_output`.
pub open spec fn kp_opens_to(
    kp: WrappedKeypair,
    cid: Seq<u8>,
    prf_output: Seq<u8>,
    sk: Seq<u8>,
) -> bool {
    exists|pk: Seq<u8>, prf: Seq<u8>, hs: Seq<u8>, hi: Seq<u8>|
        kp.additional_data@ == #[trigger] ad_bytes(cid, pk, prf, hs, hi)
            && kp.wrapped_private_key@ == gcm_cipher(
            hkdf_sha256(prf_output, hs, hi),
            kp.iv@,
            kp.additional_data@,
            sk,
        ) && kp.iv@.len() == 12 && sk.len() <= GCM_P_MAX && kp.additional_data@.len() <= GCM_A_MAX
}

/// The wrapped content key `wck` yields content key `ck` to the holder of
/// the recipient private key `sk`.
pub open spec fn wck_opens_with(wck: WrappedContentKey, sk: Seq<u8>, ck: Seq<u8>) -> bool {
    wck.wrapped_content_key@ == kw_seal(p256_shared(sk, wck.wrapping_exchange_pubkey@), ck)
}

/// Begin a registration: the fresh PRF salt the new credential's PRF
/// extension is to be evaluated at, and a fresh ceremony challenge.
pub struct BindRequest {
    /// Salt for the PRF extension of the get ceremony.
    pub prf_salt: Vec<u8>,
    /// Challenge of the ceremony.
    pub challenge: Vec<u8>,
}

/// Draw the random inputs of a registration ceremony.
pub fn bind_begin() -> (r: Result<BindRequest, VaultError>)
    ensures
        r is Ok ==> r.unwrap().prf_salt@.len() == 32 && r.unwrap().challenge@.len() == 32,
{
    let prf_salt = match gen_random::<32>() {
        Ok(b) => b,
        Err(e) => {
            return Err(VaultError::Crypto(e));
        },
    };
    let challenge = match gen_random::<32>() {
        Ok(b) => b,
        Err(e) => {
            return Err(VaultError::Crypto(e));
        },
    };
    Ok(
        BindRequest {
            prf_salt: vstd::slice::slice_to_vec(&prf_salt),
            challenge: vstd::slice::slice_to_vec(&challenge),
        },
    )
}

/// Finish a registration: derive the wrapping key from the ceremony's PRF
/// output, generate a fresh ECDH keypair, and encrypt its private half with
/// the keypair's metadata bound as associated data.
pub fn create_wrapped_keypair(
    credential_id: &Vec<u8>,
    prf_salt: Vec<u8>,
    prf_output: &Vec<u8>,
) -> (r: Result<WrappedKeypair, VaultError>)
    ensures
        r is Ok ==> r.unwrap().nickname is None,
        r is Ok ==> exists|sk: Seq<u8>|
            p256_sk_ok(sk) && #[trigger] kp_names(r.unwrap(), credential_id@, p256_pub(sk))
                && kp_opens_to(r.unwrap(), credential_id@, prf_output@, sk),
        r is Ok ==> exists|pk: Seq<u8>, hs: Seq<u8>|
            r.unwrap().additional_data@ == #[trigger] ad_bytes(
                credential_id@,
                pk,
                prf_salt@,
                hs,
                Seq::<u8>::empty(),
            ) && hs.len() == 32,
{
    let hkdf_salt = match gen_random::<32>() {
        Ok(b) => vstd::slice::slice_to_vec(&b),
        Err(e) => {
            return Err(VaultError::Crypto(e));
        },
    };
    let hkdf_info: Vec<u8> = Vec::new();
    let wrapping_key = hkdf_derive(prf_output.as_slice(), hkdf_salt.as_slice(), hkdf_info.as_slice());
    let (sk_der, pk_raw) = match p256_generate() {
        Ok(p) => p,
        Err(e) => {
            return Err(VaultError::Crypto(e));
        },
    };
    if sk_der.len() > 65536 {
        return Err(VaultError::Crypto(CryptoError::PrimitiveFailure));
    }
    let ad = WrappedKeypairAdditionalData {
        credential_id: credential_id.clone(),
        pubkey: pk_raw,
        prf_salt,
        hkdf_salt,
        hkdf_info,
    };
    let ad_bytes_vec = render_additional_data(&ad);
    if ad_bytes_vec.len() as u64 > GCM_A_MAX {
        return Err(VaultError::Crypto(CryptoError::PrimitiveFailure));
    }
    let iv = match gen_random::<12>() {
        Ok(b) => vstd::slice::slice_to_vec(&b),
        Err(e) => {
            return Err(VaultError::Crypto(e));
        },
    };
    let wrapped_private_key = gcm_encrypt(
        wrapping_key.as_slice(),
        iv.as_slice(),
        ad_bytes_vec.as_slice(),
        sk_der.as_slice(),
    );
    let kp = WrappedKeypair { wrapped_private_key, iv, additional_data: ad_bytes_vec, nickname: None };
    proof {
        assert(kp.additional_data@ == ad_bytes(
            credential_id@,
            ad.pubkey@,
            ad.prf_salt@,
            ad.hkdf_salt@,
            ad.hkdf_info@,
        ));
        assert(kp_names(kp, credential_id@, p256_pub(sk_der@)));
        assert(kp_opens_to(kp, credential_id@, prf_output@, sk_der@));
    }
    Ok(kp)
}

/// The keypair's metadata is some well-formed serialized record.
pub open spec fn ad_parses(kp: WrappedKeypair) -> bool {
    exists|cid: Seq<u8>, pk: Seq<u8>, prf: Seq<u8>, hs: Seq<u8>, hi: Seq<u8>|
        kp.additional_data@ == #[trigger] ad_bytes(cid, pk, prf, hs, hi)
}

/// `i` is the position of the first keypair naming credential `cid`.
pub open spec fn first_match(candidates: Seq<WrappedKeypair>, cid: Seq<u8>, i: int) -> bool {
    &&& 0 <= i < candidates.len()
    &&& kp_matches(candidates[i], cid)
    &&& forall|j: int| 0 <= j < i ==> !kp_matches(#[trigger] candidates[j], cid)
}

/// The candidate list of a get ceremony: each keypair's credential id and
/// the PRF salt its base key is to be evaluated at.
pub fn unbind_candidates(keypairs: &Vec<WrappedKeypair>) -> (r: Result<
    Vec<(Vec<u8>, Vec<u8>)>,
    VaultError,
>)
    ensures
        r is Ok <==> (forall|i: int|
            0 <= i < keypairs@.len() ==> ad_parses(#[trigger] keypairs@[i])),
        r is Err ==> r == Err::<Vec<(Vec<u8>, Vec<u8>)>, VaultError>(VaultError::Serialization),
        r is Ok ==> r.unwrap()@.len() == keypairs@.len(),
        r is Ok ==> forall|i: int, cid: Seq<u8>, pk: Seq<u8>, prf: Seq<u8>, hs: Seq<u8>, hi: Seq<u8>|
            #![trigger r.unwrap()@[i], ad_bytes(cid, pk, prf, hs, hi)]
            0 <= i < keypairs@.len() && keypairs@[i].additional_data@ == ad_bytes(
                cid,
                pk,
                prf,
                hs,
                hi,
            ) ==> r.unwrap()@[i].0@ == cid && r.unwrap()@[i].1@ == prf,
{
    let mut out: Vec<(Vec<u8>, Vec<u8>)> = Vec::new();
    let n = keypairs.len();
    let mut i: usize = 0;
    while i < n
        invariant
            n == keypairs@.len(),
            i <= n,
            out@.len() == i,
            forall|j: int| 0 <= j < i ==> ad_parses(#[trigger] keypairs@[j]),
            forall|j: int, cid: Seq<u8>, pk: Seq<u8>, prf: Seq<u8>, hs: Seq<u8>, hi: Seq<u8>|
                #![trigger out@[j], ad_bytes(cid, pk, prf, hs, hi)]
                0 <= j < i && keypairs@[j].additional_data@ == ad_bytes(
                    cid,
                    pk,
                    prf,
                    hs,
                    hi,
                ) ==> out@[j].0@ == cid && out@[j].1@ == prf,
        decreases n - i,
    {
        match parse_additional_data(keypairs[i].additional_data.as_slice()) {
            Some(ad) => {
                out.push((ad.credential_id, ad.prf_salt));
            },
            None => {
                return Err(VaultError::Serialization);
            },
        }
        i = i + 1;
    }
    Ok(out)
}

/// Finish an unbind: the ceremony returned `credential_id` and
/// `prf_output`; find the first candidate keypair naming that credential,
/// re-derive its wrapping key, and decrypt its private key.
///
/// Recovery is exact: where the first matching keypair wraps a private key
/// recoverable from `prf_output`, exactly that key is returned; a
/// credential outside the candidates is `NoMatch`, and a keypair that does
/// not authenticate is a generic decryption failure.
#[verifier::rlimit(60)]
pub fn unwrap_private_key(
    candidates: &Vec<WrappedKeypair>,
    credential_id: &Vec<u8>,
    prf_output: &Vec<u8>,
) -> (r: Result<Vec<u8>, VaultError>)
    ensures
        forall|i: int, sk: Seq<u8>|
            first_match(candidates@, credential_id@, i) && #[trigger] kp_opens_to(
                candidates@[i],
                credential_id@,
                prf_output@,
                sk,
            ) ==> r is Ok && r.unwrap()@ == sk,
        (forall|i: int|
            0 <= i < candidates@.len() ==> !kp_matches(#[trigger] candidates@[i], credential_id@))
            <==> r == Err::<Vec<u8>, VaultError>(
            VaultError::Authenticator(AuthenticatorError::NoMatch),
        ),
        r is Err ==> r == Err::<Vec<u8>, VaultError>(
            VaultError::Authenticator(AuthenticatorError::NoMatch),
        ) || r == Err::<Vec<u8>, VaultError>(VaultError::Crypto(CryptoError::AadMismatch)),
        r is Ok ==> exists|i: int|
            #[trigger] first_match(candidates@, credential_id@, i) && kp_opens_to(
                candidates@[i],
                credential_id@,
                prf_output@,
                r.unwrap()@,
            ),
{
    let n = candidates.len();
    let mut i: usize = 0;
    while i < n
        invariant
            n == candidates@.len(),
            i <= n,
            forall|j: int| 0 <= j < i ==> !kp_matches(#[trigger] candidates@[j], credential_id@),
        decreases n - i,
    {
        let kp = &candidates[i];
        match parse_additional_data(kp.additional_data.as_slice()) {
            Some(ad) => {
                if bytes_eq(&ad.credential_id, credential_id) {
                    proof {
                        assert(kp_names(candidates@[i as int], credential_id@, ad.pubkey@));
                        assert(kp_matches(candidates@[i as int], credential_id@));
                    }
                    if kp.iv.len() != 12 {
                        proof {
                            lemma_no_opens_without_iv(
                                candidates@,
                                credential_id@,
                                prf_output@,
                                i as int,
                            );
                        }
                        return Err(VaultError::Crypto(CryptoError::AadMismatch));
                    }
                    let key = hkdf_derive(
                        prf_output.as_slice(),
                        ad.hkdf_salt.as_slice(),
                        ad.hkdf_info.as_slice(),
                    );
                    match gcm_decrypt(
                        key.as_slice(),
                        kp.iv.as_slice(),
                        kp.additional_data.as_slice(),
                        kp.wrapped_private_key.as_slice(),
                    ) {
                        Ok(sk) => {
                            proof {
                                assert forall|i2: int, sk2: Seq<u8>|
                                    first_match(candidates@, credential_id@, i2)
                                        && #[trigger] kp_opens_to(
                                        candidates@[i2],
                                        credential_id@,
                                        prf_output@,
                                        sk2,
                                    ) implies sk@ == sk2 by {
                                    assert(i2 == i as int);
                                }
                                assert(first_match(candidates@, credential_id@, i as int));
                                assert(candidates@[i as int].additional_data@ == ad_bytes(
                                    credential_id@,
                                    ad.pubkey@,
                                    ad.prf_salt@,
                                    ad.hkdf_salt@,
                                    ad.hkdf_info@,
                                ));
                                assert(candidates@[i as int].wrapped_private_key@ == gcm_cipher(
                                    hkdf_sha256(prf_output@, ad.hkdf_salt@, ad.hkdf_info@),
                                    candidates@[i as int].iv@,
                                    candidates@[i as int].additional_data@,
                                    sk@,
                                ));
                                assert(kp_opens_to(
                                    candidates@[i as int],
                                    credential_id@,
                                    prf_output@,
                                    sk@,
                                ));
                                assert(exists|i2: int|
                                    first_match(candidates@, credential_id@, i2)
                                        && #[trigger] kp_opens_to(
                                        candidates@[i2],
                                        credential_id@,
                                        prf_output@,
                                        sk@,
                                    ));
                            }
                            return Ok(sk);
                        },
                        Err(_) => {
                            proof {
                                assert forall|i2: int, sk2: Seq<u8>|
                                    first_match(candidates@, credential_id@, i2)
                                        && #[trigger] kp_opens_to(
                                        candidates@[i2],
                                        credential_id@,
                                        prf_output@,
                                        sk2,
                                    ) implies false by {
                                    assert(i2 == i as int);
                                }
                            }
                            return Err(VaultError::Crypto(CryptoError::AadMismatch));
                        },
                    }
                }
            },
            None => {},
        }
        proof {
            assert(!kp_matches(candidates@[i as int], credential_id@));
        }
        i = i + 1;
    }
    Err(VaultError::Authenticator(AuthenticatorError::NoMatch))
}

/// A keypair whose nonce is not 96 bits opens to nothing.
proof fn lemma_no_opens_without_iv(
    candidates: Seq<WrappedKeypair>,
    cid: Seq<u8>,
    prf_output: Seq<u8>,
    i: int,
)
    requires
        0 <= i < candidates.len(),
        candidates[i].iv@.len() != 12,
        kp_matches(candidates[i], cid),
        forall|j: int| 0 <= j < i ==> !kp_matches(#[trigger] candidates[j], cid),
    ensures
        forall|i2: int, sk2: Seq<u8>|
            first_match(candidates, cid, i2) && #[trigger] kp_opens_to(
                candidates[i2],
                cid,
                prf_output,
                sk2,
            ) ==> false,
{
}

/// The wrapped content key `wck` correctly wraps `ck` for the recipient
/// keypair `kp`: it names the keypair's credential, and whoever holds the
/// private key of the keypair's public key recovers `ck` from it.
pub open spec fn wck_good(wck: WrappedContentKey, kp: WrappedKeypair, ck: Seq<u8>) -> bool {
    &&& exists|cid0: Seq<u8>, pk0: Seq<u8>|
        #[trigger] kp_names(kp, cid0, pk0) && wck.credential_id@ == cid0
    &&& forall|cid: Seq<u8>, pk: Seq<u8>| #[trigger] kp_names(kp, cid, pk) ==> wck.credential_id@
        == cid
    &&& forall|cid: Seq<u8>, pk: Seq<u8>, sk: Seq<u8>|
        #![trigger kp_names(kp, cid, pk), p256_pub(sk)]
        kp_names(kp, cid, pk) && p256_sk_ok(sk) && pk == p256_pub(sk) ==> wck_opens_with(
            wck,
            sk,
            ck,
        )
    &&& wck.wrapped_content_key@.len() == 40
    &&& wck.wrapping_exchange_pubkey@.len() == 65
    &&& exists|o: Seq<u8>| p256_sk_ok(o) && wck.wrapping_exchange_pubkey@ == #[trigger] p256_pub(o)
}

/// The entry is an envelope around plaintext `pt` for the recipient
/// keypairs `rs`, with content key `ck`.
pub open spec fn entry_encrypts_with(
    e: EncryptedContent,
    pt: Seq<u8>,
    rs: Seq<WrappedKeypair>,
    ck: Seq<u8>,
) -> bool {
    &&& ck.len() == 32
    &&& e.iv@.len() == 12
    &&& e.additional_data@ == Seq::<u8>::empty()
    &&& pt.len() <= GCM_P_MAX
    &&& e.ciphertext@ == gcm_cipher(ck, e.iv@, e.additional_data@, pt)
    &&& e.ciphertext@.len() == pt.len() + 16
    &&& e.recipients@.len() == rs.len()
    &&& forall|i: int| 0 <= i < rs.len() ==> wck_good(#[trigger] e.recipients@[i], rs[i], ck)
}

/// The entry is an envelope around plaintext `pt` for the recipient
/// keypairs `rs`.
pub open spec fn entry_encrypts(e: EncryptedContent, pt: Seq<u8>, rs: Seq<WrappedKeypair>) -> bool {
    exists|ck: Seq<u8>| #[trigger] entry_encrypts_with(e, pt, rs, ck)
}

/// Wrap the content key to one recipient: agree on a fresh key-encryption
/// key via an ephemeral ECDH exchange against the recipient's public key,
/// and wrap the content key under it.
pub fn encrypt_content_key_to_recipient(
    content_key: &Vec<u8>,
    wrapped_keypair: &WrappedKeypair,
) -> (r: Result<WrappedContentKey, VaultError>)
    requires
        content_key@.len() == 32,
    ensures
        r is Ok ==> wck_good(r.unwrap(), *wrapped_keypair, content_key@),
        r is Err ==> r == Err::<WrappedContentKey, VaultError>(VaultError::Serialization) || r
            == Err::<WrappedContentKey, VaultError>(VaultError::Crypto(
            CryptoError::PrimitiveFailure,
        )),
        r == Err::<WrappedContentKey, VaultError>(VaultError::Serialization) <==> !ad_parses(
            *wrapped_keypair,
        ),
{
    let ad = match wrapped_keypair.additional_data() {
        Ok(a) => a,
        Err(_) => {
            return Err(VaultError::Serialization);
        },
    };
    let (esk, epk) = match p256_generate() {
        Ok(p) => p,
        Err(_) => {
            return Err(VaultError::Crypto(CryptoError::PrimitiveFailure));
        },
    };
    let kek = match p256_ecdh(esk.as_slice(), ad.pubkey.as_slice()) {
        Ok(k) => k,
        Err(_) => {
            return Err(VaultError::Crypto(CryptoError::PrimitiveFailure));
        },
    };
    let wrapped = kw_wrap(kek.as_slice(), content_key.as_slice());
    let wck = WrappedContentKey {
        credential_id: ad.credential_id,
        wrapping_exchange_pubkey: epk,
        wrapped_content_key: wrapped,
    };
    proof {
        assert(kp_names(*wrapped_keypair, ad.credential_id@, ad.pubkey@));
        assert forall|cid: Seq<u8>, pk: Seq<u8>, sk: Seq<u8>|
            kp_names(*wrapped_keypair, cid, pk) && p256_sk_ok(sk) && pk == p256_pub(sk)
            implies wck_opens_with(wck, sk, content_key@) by {
            assert(ad.pubkey@ == pk);
            assert(kek@ == p256_shared(sk, p256_pub(esk@)));
        }
    }
    Ok(wck)
}

/// Build the envelope: encrypt `data` under a fresh content key and wrap
/// that key to every given recipient keypair.
pub fn encrypt(data: Vec<u8>, wrapped_keypairs: &Vec<WrappedKeypair>) -> (r: Result<
    EncryptedContent,
    VaultError,
>)
    requires
        data@.len() <= GCM_P_MAX,
    ensures
        r is Ok ==> entry_encrypts(r.unwrap(), data@, wrapped_keypairs@),
        r is Ok ==> r.unwrap().recipients@.len() == wrapped_keypairs@.len(),
        r is Err ==> r == Err::<EncryptedContent, VaultError>(VaultError::Serialization) || r
            == Err::<EncryptedContent, VaultError>(VaultError::Crypto(
            CryptoError::PrimitiveFailure,
        )),
        r == Err::<EncryptedContent, VaultError>(VaultError::Serialization) ==> exists|i: int|
            0 <= i < wrapped_keypairs@.len() && !ad_parses(#[trigger] wrapped_keypairs@[i]),
{
    let content_key = match gen_random::<32>() {
        Ok(b) => vstd::slice::slice_to_vec(&b),
        Err(_) => {
            return Err(VaultError::Crypto(CryptoError::PrimitiveFailure));
        },
    };
    let n = wrapped_keypairs.len();
    let mut recipients: Vec<WrappedContentKey> = Vec::new();
    let mut i: usize = 0;
    while i < n
        invariant
            n == wrapped_keypairs@.len(),
            i <= n,
            content_key@.len() == 32,
            recipients@.len() == i,
            forall|j: int|
                0 <= j < i ==> wck_good(
                    #[trigger] recipients@[j],
                    wrapped_keypairs@[j],
                    content_key@,
                ),
        decreases n - i,
    {
        match encrypt_content_key_to_recipient(&content_key, &wrapped_keypairs[i]) {
            Ok(wck) => {
                recipients.push(wck);
            },
            Err(e) => {
                return Err(e);
            },
        }
        i = i + 1;
    }
    let iv = match gen_random::<12>() {
        Ok(b) => vstd::slice::slice_to_vec(&b),
        Err(_) => {
            return Err(VaultError::Crypto(CryptoError::PrimitiveFailure));
        },
    };
    let additional_data: Vec<u8> = Vec::new();
    let ciphertext = gcm_encrypt(
        content_key.as_slice(),
        iv.as_slice(),
        additional_data.as_slice(),
        data.as_slice(),
    );
    let e = EncryptedContent { ciphertext, iv, additional_data, recipients };
    proof {
        assert(entry_encrypts_with(e, data@, wrapped_keypairs@, content_key@));
    }
    Ok(e)
}

/// `k` is the position of the first wrapped content key naming credential
/// `cid`.
pub open spec fn wck_first_match(rs: Seq<WrappedContentKey>, cid: Seq<u8>, k: int) -> bool {
    &&& 0 <= k < rs.len()
    &&& rs[k].credential_id@ == cid
    &&& forall|j: int| 0 <= j < k ==> (#[trigger] rs[j]).credential_id@ != cid
}

/// Position of the first wrapped content key naming credential `cid`.
fn recipient_index(rs: &Vec<WrappedContentKey>, cid: &Vec<u8>) -> (r: Option<usize>)
    ensures
        r is Some ==> wck_first_match(rs@, cid@, r.unwrap() as int),
        r is None <==> forall|k: int| 0 <= k < rs@.len() ==> (#[trigger] rs@[k]).credential_id@
            != cid@,
{
    let n = rs.len();
    let mut k: usize = 0;
    while k < n
        invariant
            n == rs@.len(),
            k <= n,
            forall|j: int| 0 <= j < k ==> (#[trigger] rs@[j]).credential_id@ != cid@,
        decreases n - k,
    {
        if bytes_eq(&rs[k].credential_id, cid) {
            return Some(k);
        }
        k = k + 1;
    }
    None
}

/// A keypair is eligible for an entry where its credential is among the
/// entry's recipients.
pub open spec fn is_eligible(e: EncryptedContent, kp: WrappedKeypair) -> bool {
    exists|cid: Seq<u8>, k: int|
        #![trigger kp_matches(kp, cid), e.recipients@[k]]
        kp_matches(kp, cid) && 0 <= k < e.recipients@.len() && e.recipients@[k].credential_id@
            == cid
}

/// What a caller needs to run the get ceremony for a decryption.
pub struct DecryptRequest {
    /// Positions of the eligible keypairs among the available ones.
    pub eligible: Vec<usize>,
    /// Each eligible keypair's credential id and PRF salt.
    pub candidates: Vec<(Vec<u8>, Vec<u8>)>,
    /// Fresh ceremony challenge.
    pub challenge: Vec<u8>,
}

/// Begin a decryption: intersect the entry's recipients with the available
/// keypairs, failing fast — before any authenticator interaction — where
/// the intersection is empty.
pub fn decrypt_begin(entry: &EncryptedContent, available: &Vec<WrappedKeypair>) -> (r: Result<
    DecryptRequest,
    VaultError,
>)
    ensures
        r == Err::<DecryptRequest, VaultError>(VaultError::Crypto(CryptoError::NoEligibleRecipient))
            <==> (forall|i: int|
            0 <= i < available@.len() ==> !is_eligible(*entry, #[trigger] available@[i])),
        r is Err ==> r == Err::<DecryptRequest, VaultError>(VaultError::Crypto(
            CryptoError::NoEligibleRecipient,
        )) || r == Err::<DecryptRequest, VaultError>(VaultError::Crypto(
            CryptoError::PrimitiveFailure,
        )),
        r is Ok ==> {
            let req = r.unwrap();
            &&& req.eligible@.len() == req.candidates@.len()
            &&& req.challenge@.len() == 32
            &&& forall|j: int|
                0 <= j < req.eligible@.len() ==> #[trigger] req.eligible@[j] < available@.len()
                    && is_eligible(*entry, available@[req.eligible@[j] as int])
            &&& forall|j1: int, j2: int|
                0 <= j1 < j2 < req.eligible@.len() ==> #[trigger] req.eligible@[j1]
                    < #[trigger] req.eligible@[j2]
            &&& forall|i: int|
                0 <= i < available@.len() && is_eligible(*entry, #[trigger] available@[i])
                    ==> exists|j: int| 0 <= j < req.eligible@.len() && #[trigger] req.eligible@[j]
                    == i
            &&& forall|j: int, cid: Seq<u8>, pk: Seq<u8>, prf: Seq<u8>, hs: Seq<u8>, hi: Seq<u8>|
                #![trigger req.candidates@[j], ad_bytes(cid, pk, prf, hs, hi)]
                0 <= j < req.eligible@.len() && available@[req.eligible@[j] as int].additional_data@
                    == ad_bytes(cid, pk, prf, hs, hi) ==> req.candidates@[j].0@ == cid
                    && req.candidates@[j].1@ == prf
        },
{
    let n = available.len();
    let mut eligible: Vec<usize> = Vec::new();
    let mut candidates: Vec<(Vec<u8>, Vec<u8>)> = Vec::new();
    let mut i: usize = 0;
    while i < n
        invariant
            n == available@.len(),
            i <= n,
            eligible@.len() == candidates@.len(),
            forall|j: int|
                0 <= j < eligible@.len() ==> #[trigger] eligible@[j] < i && is_eligible(
                    *entry,
                    available@[eligible@[j] as int],
                ),
            forall|j1: int, j2: int|
                0 <= j1 < j2 < eligible@.len() ==> #[trigger] eligible@[j1]
                    < #[trigger] eligible@[j2],
            forall|i0: int|
                0 <= i0 < i && is_eligible(*entry, #[trigger] available@[i0]) ==> exists|j: int|
                    0 <= j < eligible@.len() && #[trigger] eligible@[j] == i0,
            forall|j: int, cid: Seq<u8>, pk: Seq<u8>, prf: Seq<u8>, hs: Seq<u8>, hi: Seq<u8>|
                #![trigger candidates@[j], ad_bytes(cid, pk, prf, hs, hi)]
                0 <= j < eligible@.len() && available@[eligible@[j] as int].additional_data@
                    == ad_bytes(cid, pk, prf, hs, hi) ==> candidates@[j].0@ == cid
                    && candidates@[j].1@ == prf,
        decreases n - i,
    {
        match parse_additional_data(available[i].additional_data.as_slice()) {
            Some(ad) => {
                match recipient_index(&entry.recipients, &ad.credential_id) {
                    Some(_) => {
                        proof {
                            assert(kp_names(
                                available@[i as int],
                                ad.credential_id@,
                                ad.pubkey@,
                            ));
                            assert(kp_matches(available@[i as int], ad.credential_id@));
                            assert(is_eligible(*entry, available@[i as int]));
                        }
                        let ghost pre_eligible = eligible@;
                        eligible.push(i);
                        candidates.push((ad.credential_id, ad.prf_salt));
                        proof {
                            assert forall|i0: int|
                                0 <= i0 < i + 1 && is_eligible(
                                    *entry,
                                    #[trigger] available@[i0],
                                ) implies exists|j: int|
                                0 <= j < eligible@.len() && #[trigger] eligible@[j] == i0 by {
                                if i0 == i as int {
                                    assert(eligible@[eligible@.len() - 1] == i0);
                                } else {
                                    let j = choose|j: int|
                                        0 <= j < pre_eligible.len() && #[trigger] pre_eligible[j]
                                            == i0;
                                    assert(eligible@[j] == i0);
                                }
                            }
                        }
                    },
                    None => {
                        proof {
                            assert forall|cid: Seq<u8>, k: int|
                                #![trigger kp_matches(available@[i as int], cid), entry.recipients@[k]]
                                kp_matches(available@[i as int], cid) && 0 <= k
                                    < entry.recipients@.len() implies entry.recipients@[k].credential_id@ != cid by {
                                assert(ad.credential_id@ == cid);
                            }
                            assert(!is_eligible(*entry, available@[i as int]));
                        }
                    },
                }
            },
            None => {
                proof {
                    assert forall|cid: Seq<u8>, pk: Seq<u8>|
                        !kp_names(available@[i as int], cid, pk) by {}
                    assert(!is_eligible(*entry, available@[i as int]));
                }
            },
        }
        i = i + 1;
    }
    if eligible.len() == 0 {
        proof {
            assert forall|i0: int|
                0 <= i0 < available@.len() implies !is_eligible(
                *entry,
                #[trigger] available@[i0],
            ) by {}
        }
        return Err(VaultError::Crypto(CryptoError::NoEligibleRecipient));
    }
    proof {
        assert(is_eligible(*entry, available@[eligible@[0] as int]));
    }
    let challenge = match gen_random::<32>() {
        Ok(b) => vstd::slice::slice_to_vec(&b),
        Err(_) => {
            return Err(VaultError::Crypto(CryptoError::PrimitiveFailure));
        },
    };
    Ok(DecryptRequest { eligible, candidates, challenge })
}

/// Finish a decryption with a recovered recipient private key: agree on the
/// key-encryption key against the entry's ephemeral public key, unwrap the
/// content key, and decrypt the payload.
///
/// Recovery is exact: where the first recipient naming `credential_id`
/// wraps a content key reachable with `private_key` and the payload was
/// encrypted under it, exactly that payload is returned.
pub fn decrypt_finish(
    entry: &EncryptedContent,
    credential_id: &Vec<u8>,
    private_key: &Vec<u8>,
) -> (r: Result<Vec<u8>, VaultError>)
    ensures
        forall|k: int, ck: Seq<u8>, pt: Seq<u8>|
            #![trigger wck_opens_with(entry.recipients@[k], private_key@, ck), gcm_cipher(ck, entry.iv@, entry.additional_data@, pt)]
            wck_first_match(entry.recipients@, credential_id@, k) && p256_sk_ok(private_key@) && (
            exists|o: Seq<u8>|
                p256_sk_ok(o) && entry.recipients@[k].wrapping_exchange_pubkey@
                    == #[trigger] p256_pub(o)) && wck_opens_with(
                entry.recipients@[k],
                private_key@,
                ck,
            ) && ck.len() == 32 && entry.recipients@[k].wrapped_content_key@.len() == 40
                && entry.iv@.len() == 12 && entry.ciphertext@ == gcm_cipher(
                ck,
                entry.iv@,
                entry.additional_data@,
                pt,
            ) && pt.len() <= GCM_P_MAX && entry.additional_data@.len() <= GCM_A_MAX ==> r is Ok
                && r.unwrap()@ == pt,
        (forall|k: int|
            0 <= k < entry.recipients@.len() ==> (#[trigger] entry.recipients@[k]).credential_id@
                != credential_id@) <==> r == Err::<Vec<u8>, VaultError>(VaultError::Crypto(
            CryptoError::NoEligibleRecipient,
        )),
        r is Err ==> r == Err::<Vec<u8>, VaultError>(VaultError::Crypto(
            CryptoError::NoEligibleRecipient,
        )) || r == Err::<Vec<u8>, VaultError>(VaultError::Crypto(CryptoError::PrimitiveFailure)) || r
            == Err::<Vec<u8>, VaultError>(VaultError::Crypto(CryptoError::AadMismatch)),
        r is Ok ==> exists|k: int, ck: Seq<u8>|
            wck_first_match(entry.recipients@, credential_id@, k) && #[trigger] wck_opens_with(
                entry.recipients@[k],
                private_key@,
                ck,
            ) && entry.ciphertext@ == gcm_cipher(ck, entry.iv@, entry.additional_data@, r.unwrap()@),
{
    let k = match recipient_index(&entry.recipients, credential_id) {
        Some(k) => k,
        None => {
            return Err(VaultError::Crypto(CryptoError::NoEligibleRecipient));
        },
    };
    let kek = match p256_ecdh(
        private_key.as_slice(),
        entry.recipients[k].wrapping_exchange_pubkey.as_slice(),
    ) {
        Ok(x) => x,
        Err(_) => {
            return Err(VaultError::Crypto(CryptoError::PrimitiveFailure));
        },
    };
    let ck = match kw_unwrap(kek.as_slice(), entry.recipients[k].wrapped_content_key.as_slice()) {
        Ok(x) => x,
        Err(_) => {
            return Err(VaultError::Crypto(CryptoError::PrimitiveFailure));
        },
    };
    if ck.len() != 32 {
        return Err(VaultError::Crypto(CryptoError::PrimitiveFailure));
    }
    if entry.iv.len() != 12 {
        return Err(VaultError::Crypto(CryptoError::AadMismatch));
    }
    match gcm_decrypt(
        ck.as_slice(),
        entry.iv.as_slice(),
        entry.additional_data.as_slice(),
        entry.ciphertext.as_slice(),
    ) {
        Ok(pt) => {
            proof {
                assert(wck_opens_with(entry.recipients@[k as int], private_key@, ck@));
            }
            Ok(pt)
        },
        Err(_) => Err(VaultError::Crypto(CryptoError::AadMismatch)),
    }
}

/// The entry can be decrypted to `pt` using the ceremony answer
/// (`cid`, `prf_output`) against the available keypairs: the first keypair
/// naming `cid` opens to a private key that unwraps the content key of the
/// first recipient naming `cid`, under which the payload decrypts to `pt`.
pub open spec fn decryptable(
    e: EncryptedContent,
    available: Seq<WrappedKeypair>,
    cid: Seq<u8>,
    prf_output: Seq<u8>,
    pt: Seq<u8>,
) -> bool {
    exists|i: int, sk: Seq<u8>, k: int, ck: Seq<u8>|
        #![trigger kp_opens_to(available[i], cid, prf_output, sk), wck_opens_with(e.recipients@[k], sk, ck)]
        first_match(available, cid, i) && p256_sk_ok(sk) && kp_opens_to(
            available[i],
            cid,
            prf_output,
            sk,
        ) && wck_first_match(e.recipients@, cid, k) && (exists|o: Seq<u8>|
            p256_sk_ok(o) && e.recipients@[k].wrapping_exchange_pubkey@ == #[trigger] p256_pub(o))
            && wck_opens_with(e.recipients@[k], sk, ck) && ck.len() == 32
            && e.recipients@[k].wrapped_content_key@.len() == 40 && e.iv@.len() == 12
            && e.ciphertext@ == gcm_cipher(ck, e.iv@, e.additional_data@, pt) && pt.len()
            <= GCM_P_MAX && e.additional_data@.len() <= GCM_A_MAX
}

/// Open the envelope: recover the private key of the keypair the ceremony
/// answered for, then unwrap the content key and decrypt the payload.
///
/// Whenever the entry is decryptable to some plaintext with this ceremony
/// answer, exactly that plaintext is returned.
pub fn decrypt(
    entry: &EncryptedContent,
    available: &Vec<WrappedKeypair>,
    credential_id: &Vec<u8>,
    prf_output: &Vec<u8>,
) -> (r: Result<Vec<u8>, VaultError>)
    ensures
        forall|pt: Seq<u8>|
            #[trigger] decryptable(*entry, available@, credential_id@, prf_output@, pt) ==> r is Ok
                && r.unwrap()@ == pt,
        r is Err ==> r == Err::<Vec<u8>, VaultError>(
            VaultError::Authenticator(AuthenticatorError::NoMatch),
        ) || r == Err::<Vec<u8>, VaultError>(VaultError::Crypto(CryptoError::AadMismatch)) || r
            == Err::<Vec<u8>, VaultError>(VaultError::Crypto(CryptoError::NoEligibleRecipient)) || r
            == Err::<Vec<u8>, VaultError>(VaultError::Crypto(CryptoError::PrimitiveFailure)),
        r is Ok ==> exists|i: int, sk: Seq<u8>, k: int, ck: Seq<u8>|
            #![trigger kp_opens_to(available@[i], credential_id@, prf_output@, sk), wck_opens_with(entry.recipients@[k], sk, ck)]
            first_match(available@, credential_id@, i) && kp_opens_to(
                available@[i],
                credential_id@,
                prf_output@,
                sk,
            ) && wck_first_match(entry.recipients@, credential_id@, k) && wck_opens_with(
                entry.recipients@[k],
                sk,
                ck,
            ) && entry.ciphertext@ == gcm_cipher(ck, entry.iv@, entry.additional_data@, r.unwrap()@),
{
    let sk = match unwrap_private_key(available, credential_id, prf_output) {
        Ok(x) => x,
        Err(e) => {
            proof {
                assert forall|pt: Seq<u8>|
                    #[trigger] decryptable(*entry, available@, credential_id@, prf_output@, pt)
                    implies false by {
                    let (i, sk0, k, ck) = choose|i: int, sk0: Seq<u8>, k: int, ck: Seq<u8>|
                        #![trigger kp_opens_to(available@[i], credential_id@, prf_output@, sk0), wck_opens_with(entry.recipients@[k], sk0, ck)]
                        first_match(available@, credential_id@, i) && p256_sk_ok(sk0)
                            && kp_opens_to(available@[i], credential_id@, prf_output@, sk0)
                            && wck_first_match(entry.recipients@, credential_id@, k) && (exists|
                            o: Seq<u8>,
                        |
                            p256_sk_ok(o) && entry.recipients@[k].wrapping_exchange_pubkey@
                                == #[trigger] p256_pub(o)) && wck_opens_with(
                            entry.recipients@[k],
                            sk0,
                            ck,
                        ) && ck.len() == 32 && entry.recipients@[k].wrapped_content_key@.len() == 40
                            && entry.iv@.len() == 12 && entry.ciphertext@ == gcm_cipher(
                            ck,
                            entry.iv@,
                            entry.additional_data@,
                            pt,
                        ) && pt.len() <= GCM_P_MAX && entry.additional_data@.len() <= GCM_A_MAX;
                    assert(kp_opens_to(available@[i], credential_id@, prf_output@, sk0));
                }
            }
            return Err(e);
        },
    };
    match decrypt_finish(entry, credential_id, &sk) {
        Ok(pt) => {
            proof {
                lemma_decrypt_compose(*entry, available@, credential_id@, prf_output@, sk@, pt@);
                let i0 = choose|i0: int|
                    #[trigger] first_match(available@, credential_id@, i0) && kp_opens_to(
                        available@[i0],
                        credential_id@,
                        prf_output@,
                        sk@,
                    );
                let (k0, ck0) = choose|k0: int, ck0: Seq<u8>|
                    wck_first_match(entry.recipients@, credential_id@, k0)
                        && #[trigger] wck_opens_with(entry.recipients@[k0], sk@, ck0)
                        && entry.ciphertext@ == gcm_cipher(
                        ck0,
                        entry.iv@,
                        entry.additional_data@,
                        pt@,
                    );
                assert(kp_opens_to(available@[i0], credential_id@, prf_output@, sk@));
                assert(wck_opens_with(entry.recipients@[k0], sk@, ck0));
            }
            Ok(pt)
        },
        Err(e) => {
            proof {
                assert forall|pt: Seq<u8>|
                    #[trigger] decryptable(*entry, available@, credential_id@, prf_output@, pt)
                    implies false by {
                    let (i, sk0, k, ck) = choose|i: int, sk0: Seq<u8>, k: int, ck: Seq<u8>|
                        #![trigger kp_opens_to(available@[i], credential_id@, prf_output@, sk0), wck_opens_with(entry.recipients@[k], sk0, ck)]
                        first_match(available@, credential_id@, i) && p256_sk_ok(sk0)
                            && kp_opens_to(available@[i], credential_id@, prf_output@, sk0)
                            && wck_first_match(entry.recipients@, credential_id@, k) && (exists|
                            o: Seq<u8>,
                        |
                            p256_sk_ok(o) && entry.recipients@[k].wrapping_exchange_pubkey@
                                == #[trigger] p256_pub(o)) && wck_opens_with(
                            entry.recipients@[k],
                            sk0,
                            ck,
                        ) && ck.len() == 32 && entry.recipients@[k].wrapped_content_key@.len() == 40
                            && entry.iv@.len() == 12 && entry.ciphertext@ == gcm_cipher(
                            ck,
                            entry.iv@,
                            entry.additional_data@,
                            pt,
                        ) && pt.len() <= GCM_P_MAX && entry.additional_data@.len() <= GCM_A_MAX;
                    assert(sk@ == sk0);
                    assert(wck_opens_with(entry.recipients@[k], sk@, ck));
                }
            }
            Err(e)
        },
    }
}

/// Whatever is decryptable with a ceremony answer is exactly what `decrypt`
/// hands back: the recovered private key leads to the entry's plaintext.
proof fn lemma_decrypt_compose(
    e: EncryptedContent,
    available: Seq<WrappedKeypair>,
    cid: Seq<u8>,
    prf_output: Seq<u8>,
    sk: Seq<u8>,
    pt_out: Seq<u8>,
)
    requires
        forall|i: int, sk2: Seq<u8>|
            first_match(available, cid, i) && #[trigger] kp_opens_to(
                available[i],
                cid,
                prf_output,
                sk2,
            ) ==> sk2 == sk,
        forall|k: int, ck: Seq<u8>, pt: Seq<u8>|
            #![trigger wck_opens_with(e.recipients@[k], sk, ck), gcm_cipher(ck, e.iv@, e.additional_data@, pt)]
            wck_first_match(e.recipients@, cid, k) && p256_sk_ok(sk) && (exists|o: Seq<u8>|
                p256_sk_ok(o) && e.recipients@[k].wrapping_exchange_pubkey@ == #[trigger] p256_pub(
                    o,
                )) && wck_opens_with(e.recipients@[k], sk, ck) && ck.len() == 32
                && e.recipients@[k].wrapped_content_key@.len() == 40 && e.iv@.len() == 12
                && e.ciphertext@ == gcm_cipher(ck, e.iv@, e.additional_data@, pt) && pt.len()
                <= GCM_P_MAX && e.additional_data@.len() <= GCM_A_MAX ==> pt == pt_out,
    ensures
        forall|pt: Seq<u8>|
            #[trigger] decryptable(e, available, cid, prf_output, pt) ==> pt == pt_out,
{
    assert forall|pt: Seq<u8>| #[trigger] decryptable(e, available, cid, prf_output, pt)
        implies pt == pt_out by {
        let (i, sk0, k, ck) = choose|i: int, sk0: Seq<u8>, k: int, ck: Seq<u8>|
            #![trigger kp_opens_to(available[i], cid, prf_output, sk0), wck_opens_with(e.recipients@[k], sk0, ck)]
            first_match(available, cid, i) && p256_sk_ok(sk0) && kp_opens_to(
                available[i],
                cid,
                prf_output,
                sk0,
            ) && wck_first_match(e.recipients@, cid, k) && (exists|o: Seq<u8>|
                p256_sk_ok(o) && e.recipients@[k].wrapping_exchange_pubkey@ == #[trigger] p256_pub(
                    o,
                )) && wck_opens_with(e.recipients@[k], sk0, ck) && ck.len() == 32
                && e.recipients@[k].wrapped_content_key@.len() == 40 && e.iv@.len() == 12
                && e.ciphertext@ == gcm_cipher(ck, e.iv@, e.additional_data@, pt) && pt.len()
                <= GCM_P_MAX && e.additional_data@.len() <= GCM_A_MAX;
        assert(sk0 == sk);
        assert(wck_opens_with(e.recipients@[k], sk, ck));
        assert(gcm_cipher(ck, e.iv@, e.additional_data@, pt) == e.ciphertext@);
    }
}

/// Round trip of the envelope: an entry encrypted to a set of recipient
/// keypairs is decryptable — to exactly the plaintext it was built from —
/// through any one of those keypairs, given the authenticator's answer for
/// that keypair's credential (its PRF output, which recovers the wrapped
/// private key). Together with the recovery contract of [`decrypt`], the
/// composed open operation returns that plaintext.
pub proof fn lemma_envelope_round_trip(
    e: EncryptedContent,
    pt: Seq<u8>,
    rs: Seq<WrappedKeypair>,
    cid: Seq<u8>,
    prf_output: Seq<u8>,
    sk: Seq<u8>,
    i: int,
)
    requires
        entry_encrypts(e, pt, rs),
        first_match(rs, cid, i),
        p256_sk_ok(sk),
        kp_names(rs[i], cid, p256_pub(sk)),
        kp_opens_to(rs[i], cid, prf_output, sk),
    ensures
        decryptable(e, rs, cid, prf_output, pt),
{
    let ck = choose|ck: Seq<u8>| #[trigger] entry_encrypts_with(e, pt, rs, ck);
    assert(wck_good(e.recipients@[i], rs[i], ck));
    assert(e.recipients@[i].credential_id@ == cid);
    assert forall|j: int| 0 <= j < i implies (#[trigger] e.recipients@[j]).credential_id@
        != cid by {
        assert(wck_good(e.recipients@[j], rs[j], ck));
        let (cid0, pk0) = choose|cid0: Seq<u8>, pk0: Seq<u8>|
            #[trigger] kp_names(rs[j], cid0, pk0) && e.recipients@[j].credential_id@ == cid0;
        if cid0 == cid {
            assert(kp_matches(rs[j], cid));
        }
    }
    assert(wck_first_match(e.recipients@, cid, i));
    assert(wck_opens_with(e.recipients@[i], sk, ck));
    assert(decryptable(e, rs, cid, prf_output, pt));
}

/// Multi-recipient independence: any two of an entry's recipients, each
/// answering with its own credential and PRF output, decrypt the entry to
/// the same plaintext — the one it was encrypted from.
pub proof fn lemma_recipient_independence(
    e: EncryptedContent,
    pt: Seq<u8>,
    rs: Seq<WrappedKeypair>,
    cid1: Seq<u8>,
    prf1: Seq<u8>,
    sk1: Seq<u8>,
    i1: int,
    cid2: Seq<u8>,
    prf2: Seq<u8>,
    sk2: Seq<u8>,
    i2: int,
)
    requires
        entry_encrypts(e, pt, rs),
        first_match(rs, cid1, i1),
        p256_sk_ok(sk1),
        kp_names(rs[i1], cid1, p256_pub(sk1)),
        kp_opens_to(rs[i1], cid1, prf1, sk1),
        first_match(rs, cid2, i2),
        p256_sk_ok(sk2),
        kp_names(rs[i2], cid2, p256_pub(sk2)),
        kp_opens_to(rs[i2], cid2, prf2, sk2),
    ensures
        decryptable(e, rs, cid1, prf1, pt),
        decryptable(e, rs, cid2, prf2, pt),
{
    lemma_envelope_round_trip(e, pt, rs, cid1, prf1, sk1, i1);
    lemma_envelope_round_trip(e, pt, rs, cid2, prf2, sk2, i2);
}

impl WrappedKeypair {
    /// Parse the keypair's metadata back from its serialized form.
    pub fn additional_data(&self) -> (r: Result<WrappedKeypairAdditionalData, VaultError>)
        ensures
            r is Ok ==> self.additional_data@ == ad_bytes(
                r.unwrap().credential_id@,
                r.unwrap().pubkey@,
                r.unwrap().prf_salt@,
                r.unwrap().hkdf_salt@,
                r.unwrap().hkdf_info@,
            ),
            forall|cid: Seq<u8>, pk: Seq<u8>, prf: Seq<u8>, hs: Seq<u8>, hi: Seq<u8>|
                self.additional_data@ == #[trigger] ad_bytes(cid, pk, prf, hs, hi) ==> r is Ok
                    && r.unwrap().credential_id@ == cid && r.unwrap().pubkey@ == pk
                    && r.unwrap().prf_salt@ == prf && r.unwrap().hkdf_salt@ == hs
                    && r.unwrap().hkdf_info@ == hi,
    {
        match parse_additional_data(self.additional_data.as_slice()) {
            Some(ad) => Ok(ad),
            None => Err(VaultError::Serialization),
        }
    }
}

} // verus!
