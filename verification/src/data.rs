//! Plain data carriers of the vault: the user handle, credential
//! identifiers, and the base64 carrier used by the persisted JSON form.

use vstd::prelude::*;

use crate::b64::b64_decode;
use crate::b64::b64_encode;
use crate::b64::b64url_encode;
use crate::b64::base64_decode;
use crate::b64::base64_encode;
use crate::b64::base64url_encode;
use crate::b64::lemma_b64_decode_canonical;
use crate::b64::lemma_b64_encode_ascii;
use crate::b64::lemma_b64_round_trip;
use crate::crypto::ascii_to_string;
use crate::crypto::gen_random;
use crate::error::CryptoError;
use vstd::string::StringExecFns;

verus! {

/// The ASCII bytes `s` read as characters.
pub open spec fn ascii_chars(s: Seq<u8>) -> Seq<char> {
    Seq::new(s.len(), |i: int| s[i] as char)
}

/// The characters `s` written as bytes (meaningful for ASCII strings).
pub open spec fn char_bytes(s: Seq<char>) -> Seq<u8> {
    Seq::new(s.len(), |i: int| s[i] as u8)
}

/// Stable, opaque identity of the vault's user: 64 random bytes, generated
/// once and bound to every credential registered afterwards.
#[derive(Clone, Debug)]
pub struct UserHandle(pub Vec<u8>);

impl View for UserHandle {
    type V = Seq<u8>;

    open spec fn view(&self) -> Seq<u8> {
        self.0@
    }
}

impl UserHandle {
    /// Fresh random user handle.
    pub fn generate() -> (r: Result<Self, CryptoError>)
        ensures
            r is Ok ==> r.unwrap()@.len() == 64,
    {
        let bytes = gen_random::<64>()?;
        Ok(UserHandle(vstd::slice::slice_to_vec(&bytes)))
    }

    /// The raw bytes.
    pub fn bytes(&self) -> (r: &Vec<u8>)
        ensures
            r@ == self@,
    {
        &self.0
    }
}

/// Opaque identifier an authenticator assigned to one of its credentials.
#[derive(Clone, Debug)]
pub struct CredentialId(pub Vec<u8>);

impl View for CredentialId {
    type V = Seq<u8>;

    open spec fn view(&self) -> Seq<u8> {
        self.0@
    }
}

impl CredentialId {
    /// Standard base64 of the identifier, cut to at most `max_len`
    /// characters with an ellipsis where it is longer.
    pub fn b64_abbrev(&self, max_len: usize) -> (r: String)
        ensures
            ascii_chars(b64_encode(self@)).len() <= max_len ==> r@ == ascii_chars(
                b64_encode(self@),
            ),
            ascii_chars(b64_encode(self@)).len() > max_len ==> r@ == ascii_chars(
                b64_encode(self@),
            ).take(max_len as int) + seq!['\u{2026}'],
    {
        let mut bytes = base64_encode(self.0.as_slice());
        proof {
            lemma_b64_encode_ascii(self@);
        }
        if bytes.len() <= max_len {
            let r = ascii_to_string(bytes);
            proof {
                assert(r@ =~= ascii_chars(b64_encode(self@)));
            }
            r
        } else {
            bytes.truncate(max_len);
            let mut r = ascii_to_string(bytes);
            r.append("\u{2026}");
            proof {
                reveal_strlit("\u{2026}");
                assert("\u{2026}"@ =~= seq!['\u{2026}']);
                assert(r@ =~= ascii_chars(b64_encode(self@)).take(max_len as int) + seq![
                    '\u{2026}',
                ]);
            }
            r
        }
    }

    /// URL-safe unpadded base64 of the identifier.
    pub fn b64url(&self) -> (r: String)
        ensures
            r@ == ascii_chars(b64url_encode(self@)),
    {
        let bytes = base64url_encode(self.0.as_slice());
        proof {
            lemma_b64_encode_ascii(self@);
        }
        let r = ascii_to_string(bytes);
        proof {
            assert(r@ =~= ascii_chars(b64url_encode(self@)));
        }
        r
    }
}

impl PartialEq for CredentialId {
    fn eq(&self, other: &Self) -> (r: bool) {
        crate::data::bytes_eq(&self.0, &other.0)
    }
}

impl vstd::std_specs::cmp::PartialEqSpecImpl for CredentialId {
    open spec fn obeys_eq_spec() -> bool {
        true
    }

    open spec fn eq_spec(&self, other: &Self) -> bool {
        self@ == other@
    }
}

/// Whether two byte vectors hold the same bytes.
pub fn bytes_eq(a: &Vec<u8>, b: &Vec<u8>) -> (r: bool)
    ensures
        r <==> a@ == b@,
{
    if a.len() != b.len() {
        return false;
    }
    let mut i: usize = 0;
    while i < a.len()
        invariant
            i <= a.len(),
            a@.len() == b@.len(),
            forall|j: int| 0 <= j < i ==> a@[j] == b@[j],
        decreases a.len() - i,
    {
        if a[i] != b[i] {
            return false;
        }
        i = i + 1;
    }
    proof {
        assert(a@ =~= b@);
    }
    true
}

/// One binary field of the persisted JSON form: the bytes in standard
/// base64 under the fixed key of the wrapper object.
#[derive(Clone, Debug)]
pub struct Base64Wrapper {
    pub base64: String,
}

impl Base64Wrapper {
    /// Wrap bytes as their standard base64.
    pub fn from_bytes(v: &Vec<u8>) -> (r: Self)
        ensures
            r.base64@ == ascii_chars(b64_encode(v@)),
    {
        let bytes = base64_encode(v.as_slice());
        proof {
            lemma_b64_encode_ascii(v@);
        }
        let s = ascii_to_string(bytes);
        proof {
            assert(s@ =~= ascii_chars(b64_encode(v@)));
        }
        Base64Wrapper { base64: s }
    }

    /// The bytes back, where the string is a canonical standard-base64
    /// encoding; `None` otherwise.
    pub fn to_bytes(&self) -> (r: Option<Vec<u8>>)
        ensures
            r is Some ==> self.base64@ == ascii_chars(b64_encode(r.unwrap()@)),
            forall|v: Seq<u8>| self.base64@ == ascii_chars(#[trigger] b64_encode(v)) ==> r is Some
                && r.unwrap()@ == v,
    {
        let s = self.base64.as_str();
        if !s.is_ascii() {
            proof {
                assert forall|v: Seq<u8>| self.base64@ == ascii_chars(#[trigger] b64_encode(v))
                    implies false by {
                    lemma_b64_encode_ascii(v);
                    assert(forall|i: int|
                        0 <= i < self.base64@.len() ==> (self.base64@[i] as u32) < 128);
                }
            }
            return None;
        }
        let bytes = s.as_bytes();
        proof {
            vstd::string::is_ascii_spec_bytes(s);
            assert(bytes@ =~= char_bytes(self.base64@));
        }
        match base64_decode(bytes) {
            Some(v) => {
                proof {
                    lemma_b64_decode_canonical(bytes@);
                    assert(self.base64@ =~= ascii_chars(b64_encode(v@)));
                    assert forall|w: Seq<u8>| self.base64@ == ascii_chars(#[trigger] b64_encode(w))
                        implies v@ == w by {
                        lemma_b64_round_trip(w);
                        lemma_b64_encode_ascii(w);
                        assert(bytes@ =~= b64_encode(w));
                    }
                }
                Some(v)
            },
            None => {
                proof {
                    assert forall|v: Seq<u8>| self.base64@ == ascii_chars(#[trigger] b64_encode(v))
                        implies false by {
                        lemma_b64_round_trip(v);
                        lemma_b64_encode_ascii(v);
                        assert(bytes@ =~= b64_encode(v));
                    }
                }
                None
            },
        }
    }
}

} // verus!
