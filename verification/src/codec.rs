//! Serialized form of a wrapped keypair's metadata.
//!
//! The metadata is bound to the wrapped private key as AEAD associated
//! data, so its byte form is part of the protocol: a fixed JSON object
//! whose five fields each carry their bytes as `{"$base64":"..."}`, in
//! declaration order and without whitespace. The renderer emits exactly
//! that form and the parser accepts exactly that form, so parsing inverts
//! rendering.

use vstd::prelude::*;

use crate::b64::b64_encode;
use crate::b64::base64_decode;
use crate::b64::base64_encode;
use crate::b64::lemma_b64_decode_canonical;
use crate::b64::lemma_b64_encode_ascii;
use crate::b64::lemma_b64_round_trip;
use crate::data::CredentialId;

verus! {

/// Metadata of one wrapped keypair, authenticated (not encrypted) by the
/// AES-GCM wrap of the private key.
#[derive(Clone, Debug)]
pub struct WrappedKeypairAdditionalData {
    /// Identifier the authenticator assigned to the credential.
    pub credential_id: Vec<u8>,
    /// Raw (SEC1 uncompressed) ECDH public key matching the wrapped private key.
    pub pubkey: Vec<u8>,
    /// Salt the PRF extension is evaluated at to rebuild the base key.
    pub prf_salt: Vec<u8>,
    /// Salt of the HKDF step deriving the wrapping key.
    pub hkdf_salt: Vec<u8>,
    /// Info string of the HKDF step deriving the wrapping key.
    pub hkdf_info: Vec<u8>,
}

impl WrappedKeypairAdditionalData {
    /// The credential identifier.
    pub fn credential_id(&self) -> (r: CredentialId)
        ensures
            r@ == self.credential_id@,
    {
        CredentialId(self.credential_id.clone())
    }
}

/// JSON key of the credential identifier field.
pub open spec fn name_credential_id() -> Seq<u8> {
    seq![99u8, 114u8, 101u8, 100u8, 101u8, 110u8, 116u8, 105u8, 97u8, 108u8, 95u8, 105u8, 100u8]
}

/// JSON key of the public key field.
pub open spec fn name_pubkey() -> Seq<u8> {
    seq![112u8, 117u8, 98u8, 107u8, 101u8, 121u8]
}

/// JSON key of the PRF salt field.
pub open spec fn name_prf_salt() -> Seq<u8> {
    seq![112u8, 114u8, 102u8, 95u8, 115u8, 97u8, 108u8, 116u8]
}

/// JSON key of the HKDF salt field.
pub open spec fn name_hkdf_salt() -> Seq<u8> {
    seq![104u8, 107u8, 100u8, 102u8, 95u8, 115u8, 97u8, 108u8, 116u8]
}

/// JSON key of the HKDF info field.
pub open spec fn name_hkdf_info() -> Seq<u8> {
    seq![104u8, 107u8, 100u8, 102u8, 95u8, 105u8, 110u8, 102u8, 111u8]
}

/// The bytes between a field's key and its base64 payload:
/// `":{"$base64":"`.
pub open spec fn b64_obj_open() -> Seq<u8> {
    seq![34u8, 58u8, 123u8, 34u8, 36u8, 98u8, 97u8, 115u8, 101u8, 54u8, 52u8, 34u8, 58u8, 34u8]
}

/// One rendered field: `"name":{"$base64":"<base64 of value>"}` followed by
/// the terminator (a comma, or the closing brace of the object).
pub open spec fn b64_field(name: Seq<u8>, value: Seq<u8>, term: u8) -> Seq<u8> {
    seq![34u8] + name + b64_obj_open() + b64_encode(value) + seq![34u8, 125u8, term]
}

/// The full rendered metadata object.
pub open spec fn ad_bytes(
    cid: Seq<u8>,
    pk: Seq<u8>,
    prf: Seq<u8>,
    hs: Seq<u8>,
    hi: Seq<u8>,
) -> Seq<u8> {
    seq![123u8] + b64_field(name_credential_id(), cid, 44u8) + b64_field(name_pubkey(), pk, 44u8)
        + b64_field(name_prf_salt(), prf, 44u8) + b64_field(name_hkdf_salt(), hs, 44u8)
        + b64_field(name_hkdf_info(), hi, 125u8)
}

/// The rendered metadata of `ad`.
pub open spec fn ad_bytes_of(ad: &WrappedKeypairAdditionalData) -> Seq<u8> {
    ad_bytes(ad.credential_id@, ad.pubkey@, ad.prf_salt@, ad.hkdf_salt@, ad.hkdf_info@)
}

/// Append one rendered field to `out`.
fn push_field(out: &mut Vec<u8>, name: &[u8], value: &[u8], term: u8)
    ensures
        final(out)@ == old(out)@ + b64_field(name@, value@, term),
{
    out.push(34);
    out.extend_from_slice(name);
    let open: [u8; 14] = [34, 58, 123, 34, 36, 98, 97, 115, 101, 54, 52, 34, 58, 34];
    out.extend_from_slice(&open);
    let enc = base64_encode(value);
    out.extend_from_slice(enc.as_slice());
    out.push(34);
    out.push(125);
    out.push(term);
    proof {
        assert(out@ =~= old(out)@ + b64_field(name@, value@, term));
    }
}

/// Serialize the metadata to its JSON byte form.
pub fn render_additional_data(ad: &WrappedKeypairAdditionalData) -> (r: Vec<u8>)
    ensures
        r@ == ad_bytes_of(ad),
{
    let n_cid: [u8; 13] = [99, 114, 101, 100, 101, 110, 116, 105, 97, 108, 95, 105, 100];
    let n_pk: [u8; 6] = [112, 117, 98, 107, 101, 121];
    let n_prf: [u8; 8] = [112, 114, 102, 95, 115, 97, 108, 116];
    let n_hs: [u8; 9] = [104, 107, 100, 102, 95, 115, 97, 108, 116];
    let n_hi: [u8; 9] = [104, 107, 100, 102, 95, 105, 110, 102, 111];
    proof {
        assert(n_cid@ =~= name_credential_id());
        assert(n_pk@ =~= name_pubkey());
        assert(n_prf@ =~= name_prf_salt());
        assert(n_hs@ =~= name_hkdf_salt());
        assert(n_hi@ =~= name_hkdf_info());
    }
    let mut out: Vec<u8> = Vec::new();
    out.push(123);
    push_field(&mut out, &n_cid, ad.credential_id.as_slice(), 44);
    push_field(&mut out, &n_pk, ad.pubkey.as_slice(), 44);
    push_field(&mut out, &n_prf, ad.prf_salt.as_slice(), 44);
    push_field(&mut out, &n_hs, ad.hkdf_salt.as_slice(), 44);
    push_field(&mut out, &n_hi, ad.hkdf_info.as_slice(), 125);
    proof {
        assert(out@ =~= ad_bytes_of(ad));
    }
    out
}

/// Whether `b` holds exactly the bytes `lit` at position `pos`.
fn bytes_match(b: &[u8], pos: usize, lit: &[u8]) -> (r: bool)
    requires
        pos <= b@.len(),
    ensures
        r <==> (pos + lit@.len() <= b@.len() && b@.subrange(
            pos as int,
            pos as int + lit@.len(),
        ) == lit@),
{
    if b.len() - pos < lit.len() {
        return false;
    }
    let mut j: usize = 0;
    while j < lit.len()
        invariant
            j <= lit@.len(),
            pos + lit@.len() <= b@.len(),
            b@.len() <= usize::MAX,
            forall|k: int| 0 <= k < j ==> b@[pos + k] == lit@[k],
        decreases lit@.len() - j,
    {
        if b[pos + j] != lit[j] {
            proof {
                let sub = b@.subrange(pos as int, pos as int + lit@.len());
                assert(sub[j as int] != lit@[j as int]);
            }
            return false;
        }
        j = j + 1;
    }
    proof {
        assert(b@.subrange(pos as int, pos as int + lit@.len()) =~= lit@);
    }
    true
}

/// Parse one rendered field at position `pos` of `b`: the fixed prefix, a
/// base64 payload up to the closing quote, then `"}` and the terminator.
/// Returns the decoded payload and the position after the terminator.
fn parse_field(b: &[u8], pos: usize, name: &[u8], term: u8) -> (r: Option<(Vec<u8>, usize)>)
    requires
        pos <= b@.len(),
        name@.len() <= 64,
    ensures
        r is Some ==> pos < r.unwrap().1 <= b@.len() && b@.subrange(pos as int, r.unwrap().1 as int)
            == b64_field(name@, r.unwrap().0@, term),
        forall|value: Seq<u8>|
            pos + #[trigger] b64_field(name@, value, term).len() <= b@.len() && b@.subrange(
                pos as int,
                pos + b64_field(name@, value, term).len(),
            ) == b64_field(name@, value, term) ==> r is Some && r.unwrap().0@ == value
                && r.unwrap().1 == pos + b64_field(name@, value, term).len(),
{
    let blen = b.len();
    let open: [u8; 14] = [34, 58, 123, 34, 36, 98, 97, 115, 101, 54, 52, 34, 58, 34];
    let mut prefix: Vec<u8> = Vec::new();
    prefix.push(34);
    prefix.extend_from_slice(name);
    prefix.extend_from_slice(&open);
    proof {
        assert(prefix@ =~= seq![34u8] + name@ + b64_obj_open());
    }
    if !bytes_match(b, pos, prefix.as_slice()) {
        proof {
            assert forall|value: Seq<u8>|
                pos + #[trigger] b64_field(name@, value, term).len() <= b@.len() && b@.subrange(
                    pos as int,
                    pos + b64_field(name@, value, term).len(),
                ) == b64_field(name@, value, term) implies false by {
                let f = b64_field(name@, value, term);
                let sub = b@.subrange(pos as int, pos + f.len());
                assert(b@.subrange(pos as int, pos as int + prefix@.len()) =~= prefix@) by {
                    assert forall|j: int|
                        0 <= j < prefix@.len() implies b@.subrange(
                        pos as int,
                        pos as int + prefix@.len(),
                    )[j] == prefix@[j] by {
                        assert(sub[j] == f[j]);
                    }
                }
            }
        }
        return None;
    }
    let start = pos + prefix.len();
    let mut q = start;
    while q < blen && b[q] != 34
        invariant
            start <= q <= blen,
            blen == b@.len(),
            forall|j: int| start <= j < q ==> b@[j] != 34,
        decreases blen - q,
    {
        q = q + 1;
    }
    if q == blen {
        proof {
            assert forall|value: Seq<u8>|
                pos + #[trigger] b64_field(name@, value, term).len() <= b@.len() && b@.subrange(
                    pos as int,
                    pos + b64_field(name@, value, term).len(),
                ) == b64_field(name@, value, term) implies false by {
                lemma_b64_encode_ascii(value);
                let f = b64_field(name@, value, term);
                let e = b64_encode(value);
                let sub = b@.subrange(pos as int, pos + f.len());
                assert(sub[prefix@.len() as int + e.len() as int] == f[prefix@.len() as int
                    + e.len() as int]);
                assert(f[prefix@.len() as int + e.len() as int] == 34);
                assert(b@[pos + prefix@.len() + e.len()] == 34);
            }
        }
        return None;
    }
    let seg = vstd::slice::slice_subrange(b, start, q);
    proof {
        assert forall|value: Seq<u8>|
            pos + #[trigger] b64_field(name@, value, term).len() <= b@.len() && b@.subrange(
                pos as int,
                pos + b64_field(name@, value, term).len(),
            ) == b64_field(name@, value, term) implies q == start + b64_encode(value).len() && seg@
            == b64_encode(value) by {
            lemma_b64_encode_ascii(value);
            let f = b64_field(name@, value, term);
            let e = b64_encode(value);
            let sub = b@.subrange(pos as int, pos + f.len());
            assert forall|j: int| 0 <= j < e.len() implies b@[pos + prefix@.len() + j] == e[j] by {
                assert(sub[prefix@.len() + j] == f[prefix@.len() + j]);
                assert(f[prefix@.len() + j] == e[j]);
            }
            assert(b@[pos + prefix@.len() + e.len()] == 34) by {
                assert(sub[prefix@.len() as int + e.len() as int] == f[prefix@.len() as int
                    + e.len() as int]);
            }
            if q < start + e.len() {
                assert(b@[q as int] == e[q - start]);
                assert(e[q - start] != 34);
            }
            if q > start + e.len() {
                assert(b@[start + e.len()] != 34);
            }
            assert(q == start + e.len());
            assert(seg@ =~= e);
        }
    }
    let value = match base64_decode(seg) {
        Some(v) => v,
        None => {
            proof {
                assert forall|value: Seq<u8>|
                    pos + #[trigger] b64_field(name@, value, term).len() <= b@.len() && b@.subrange(
                        pos as int,
                        pos + b64_field(name@, value, term).len(),
                    ) == b64_field(name@, value, term) implies false by {
                    lemma_b64_round_trip(value);
                    assert(crate::b64::b64_decode(seg@) is Some);
                }
            }
            return None;
        },
    };
    if blen - q < 3 || b[q + 1] != 125 || b[q + 2] != term {
        proof {
            assert forall|w: Seq<u8>|
                pos + #[trigger] b64_field(name@, w, term).len() <= b@.len() && b@.subrange(
                    pos as int,
                    pos + b64_field(name@, w, term).len(),
                ) == b64_field(name@, w, term) implies false by {
                let f = b64_field(name@, w, term);
                let e = b64_encode(w);
                let sub = b@.subrange(pos as int, pos + f.len());
                assert(q == start + e.len());
                assert(sub[prefix@.len() as int + e.len() as int + 1] == f[prefix@.len() as int + e.len() as int + 1]);
                assert(sub[prefix@.len() as int + e.len() as int + 2] == f[prefix@.len() as int + e.len() as int + 2]);
                assert(f[prefix@.len() as int + e.len() as int + 1] == 125);
                assert(f[prefix@.len() as int + e.len() as int + 2] == term);
                assert(b@[q as int + 1] == 125);
                assert(b@[q as int + 2] == term);
            }
        }
        return None;
    }
    proof {
        lemma_b64_decode_canonical(seg@);
        assert(seg@ == b64_encode(value@));
        assert(b@.subrange(pos as int, q + 3) =~= b64_field(name@, value@, term)) by {
            assert(b@.subrange(pos as int, pos as int + prefix@.len()) == prefix@);
            assert(forall|j: int|
                0 <= j < prefix@.len() ==> b@[pos + j] == #[trigger] prefix@[j]);
            assert(forall|j: int| 0 <= j < seg@.len() ==> b@[start + j] == #[trigger] seg@[j]);
        }
        assert forall|w: Seq<u8>|
            pos + #[trigger] b64_field(name@, w, term).len() <= b@.len() && b@.subrange(
                pos as int,
                pos + b64_field(name@, w, term).len(),
            ) == b64_field(name@, w, term) implies value@ == w && q + 3 == pos + b64_field(
            name@,
            w,
            term,
        ).len() by {
            lemma_b64_round_trip(w);
            assert(seg@ == b64_encode(w));
        }
    }
    Some((value, q + 3))
}

/// Parse the JSON byte form back to the metadata. Exactly the canonical
/// renderings are accepted: a parse returns the fields whose rendering is
/// `b`, and every rendering parses.
#[verifier::rlimit(60)]
pub fn parse_additional_data(b: &[u8]) -> (r: Option<WrappedKeypairAdditionalData>)
    ensures
        r is Some ==> b@ == ad_bytes_of(&r.unwrap()),
        forall|cid: Seq<u8>, pk: Seq<u8>, prf: Seq<u8>, hs: Seq<u8>, hi: Seq<u8>|
            b@ == #[trigger] ad_bytes(cid, pk, prf, hs, hi) ==> r is Some
                && r.unwrap().credential_id@ == cid && r.unwrap().pubkey@ == pk
                && r.unwrap().prf_salt@ == prf && r.unwrap().hkdf_salt@ == hs
                && r.unwrap().hkdf_info@ == hi,
{
    let n_cid: [u8; 13] = [99, 114, 101, 100, 101, 110, 116, 105, 97, 108, 95, 105, 100];
    let n_pk: [u8; 6] = [112, 117, 98, 107, 101, 121];
    let n_prf: [u8; 8] = [112, 114, 102, 95, 115, 97, 108, 116];
    let n_hs: [u8; 9] = [104, 107, 100, 102, 95, 115, 97, 108, 116];
    let n_hi: [u8; 9] = [104, 107, 100, 102, 95, 105, 110, 102, 111];
    proof {
        assert(n_cid@ =~= name_credential_id());
        assert(n_pk@ =~= name_pubkey());
        assert(n_prf@ =~= name_prf_salt());
        assert(n_hs@ =~= name_hkdf_salt());
        assert(n_hi@ =~= name_hkdf_info());
    }
    if b.len() == 0 || b[0] != 123 {
        return None;
    }
    let r1 = parse_field(b, 1, &n_cid, 44);
    proof {
        assert forall|cid: Seq<u8>, pk: Seq<u8>, prf: Seq<u8>, hs: Seq<u8>, hi: Seq<u8>|
            b@ == #[trigger] ad_bytes(cid, pk, prf, hs, hi) implies r1 is Some && r1.unwrap().0@
            == cid && r1.unwrap().1 == 1 + b64_field(name_credential_id(), cid, 44u8).len() as int by {
            let f1 = b64_field(name_credential_id(), cid, 44u8);
            assert(b@.subrange(1, 1 + f1.len() as int) =~= f1);
        }
    }
    let (cid, p1) = match r1 {
        Some(x) => x,
        None => {
            return None;
        },
    };
    let r2 = parse_field(b, p1, &n_pk, 44);
    proof {
        assert forall|cid_: Seq<u8>, pk: Seq<u8>, prf: Seq<u8>, hs: Seq<u8>, hi: Seq<u8>|
            b@ == #[trigger] ad_bytes(cid_, pk, prf, hs, hi) implies r2 is Some && r2.unwrap().0@
            == pk && r2.unwrap().1 == p1 + b64_field(name_pubkey(), pk, 44u8).len() by {
            let f1 = b64_field(name_credential_id(), cid_, 44u8);
            let f2 = b64_field(name_pubkey(), pk, 44u8);
            assert(p1 == 1 + f1.len());
            assert(b@.subrange(p1 as int, p1 + f2.len()) =~= f2);
        }
    }
    let (pk, p2) = match r2 {
        Some(x) => x,
        None => {
            return None;
        },
    };
    let r3 = parse_field(b, p2, &n_prf, 44);
    proof {
        assert forall|cid_: Seq<u8>, pk_: Seq<u8>, prf: Seq<u8>, hs: Seq<u8>, hi: Seq<u8>|
            b@ == #[trigger] ad_bytes(cid_, pk_, prf, hs, hi) implies r3 is Some && r3.unwrap().0@
            == prf && r3.unwrap().1 == p2 + b64_field(name_prf_salt(), prf, 44u8).len() by {
            let f1 = b64_field(name_credential_id(), cid_, 44u8);
            let f2 = b64_field(name_pubkey(), pk_, 44u8);
            let f3 = b64_field(name_prf_salt(), prf, 44u8);
            assert(p1 == 1 + f1.len());
            assert(p2 == p1 + f2.len());
            assert(b@.subrange(p2 as int, p2 + f3.len()) =~= f3);
        }
    }
    let (prf, p3) = match r3 {
        Some(x) => x,
        None => {
            return None;
        },
    };
    let r4 = parse_field(b, p3, &n_hs, 44);
    proof {
        assert forall|cid_: Seq<u8>, pk_: Seq<u8>, prf_: Seq<u8>, hs: Seq<u8>, hi: Seq<u8>|
            b@ == #[trigger] ad_bytes(cid_, pk_, prf_, hs, hi) implies r4 is Some && r4.unwrap().0@
            == hs && r4.unwrap().1 == p3 + b64_field(name_hkdf_salt(), hs, 44u8).len() by {
            let f1 = b64_field(name_credential_id(), cid_, 44u8);
            let f2 = b64_field(name_pubkey(), pk_, 44u8);
            let f3 = b64_field(name_prf_salt(), prf_, 44u8);
            let f4 = b64_field(name_hkdf_salt(), hs, 44u8);
            assert(p1 == 1 + f1.len());
            assert(p2 == p1 + f2.len());
            assert(p3 == p2 + f3.len());
            assert(b@.subrange(p3 as int, p3 + f4.len()) =~= f4);
        }
    }
    let (hs, p4) = match r4 {
        Some(x) => x,
        None => {
            return None;
        },
    };
    let r5 = parse_field(b, p4, &n_hi, 125);
    proof {
        assert forall|cid_: Seq<u8>, pk_: Seq<u8>, prf_: Seq<u8>, hs_: Seq<u8>, hi: Seq<u8>|
            b@ == #[trigger] ad_bytes(cid_, pk_, prf_, hs_, hi) implies r5 is Some && r5.unwrap().0@
            == hi && r5.unwrap().1 == p4 + b64_field(name_hkdf_info(), hi, 125u8).len() by {
            let f1 = b64_field(name_credential_id(), cid_, 44u8);
            let f2 = b64_field(name_pubkey(), pk_, 44u8);
            let f3 = b64_field(name_prf_salt(), prf_, 44u8);
            let f4 = b64_field(name_hkdf_salt(), hs_, 44u8);
            let f5 = b64_field(name_hkdf_info(), hi, 125u8);
            assert(p1 == 1 + f1.len());
            assert(p2 == p1 + f2.len());
            assert(p3 == p2 + f3.len());
            assert(p4 == p3 + f4.len());
            assert(b@.subrange(p4 as int, p4 + f5.len()) =~= f5);
        }
    }
    let (hi, p5) = match r5 {
        Some(x) => x,
        None => {
            return None;
        },
    };
    if p5 != b.len() {
        proof {
            assert forall|cid_: Seq<u8>, pk_: Seq<u8>, prf_: Seq<u8>, hs_: Seq<u8>, hi_: Seq<u8>|
                b@ == #[trigger] ad_bytes(cid_, pk_, prf_, hs_, hi_) implies false by {
                let f5 = b64_field(name_hkdf_info(), hi_, 125u8);
                assert(p5 == p4 + f5.len());
                assert(p5 == b@.len());
            }
        }
        return None;
    }
    let ad = WrappedKeypairAdditionalData {
        credential_id: cid,
        pubkey: pk,
        prf_salt: prf,
        hkdf_salt: hs,
        hkdf_info: hi,
    };
    proof {
        assert(b@ =~= ad_bytes_of(&ad));
    }
    Some(ad)
}

} // verus!
