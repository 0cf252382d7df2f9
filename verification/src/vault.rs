//! The persisted vault aggregate and its mutations.
//!
//! A vault is a value: every mutation rewrites the aggregate in place and
//! either completes fully or leaves it untouched, so the caller always
//! holds one consistent snapshot to persist. Entries are kept as a list of
//! uniquely named pairs in insertion order.

use vstd::prelude::*;

use crate::codec::ad_bytes;
use crate::codec::parse_additional_data;
use crate::crypto::GCM_P_MAX;
use crate::data::CredentialId;
use crate::data::UserHandle;
use crate::envelope::EncryptedContent;
use crate::envelope::WrappedKeypair;
use crate::envelope::encrypt;
use crate::envelope::entry_encrypts;
use crate::error::DataError;
use crate::error::VaultError;

verus! {

/// The serialized metadata is a well-formed record naming credential `cid`.
pub open spec fn ad_is(ad: Seq<u8>, cid: Seq<u8>) -> bool {
    exists|pk: Seq<u8>, prf: Seq<u8>, hs: Seq<u8>, hi: Seq<u8>|
        ad == #[trigger] ad_bytes(cid, pk, prf, hs, hi)
}

/// The serialized metadata is some well-formed record.
pub open spec fn ad_ok(ad: Seq<u8>) -> bool {
    exists|cid: Seq<u8>, pk: Seq<u8>, prf: Seq<u8>, hs: Seq<u8>, hi: Seq<u8>|
        ad == #[trigger] ad_bytes(cid, pk, prf, hs, hi)
}

/// Entry names are pairwise distinct.
pub open spec fn names_unique(contents: Seq<(String, EncryptedContent)>) -> bool {
    forall|i: int, j: int|
        0 <= i < j < contents.len() ==> (#[trigger] contents[i]).0@ != (#[trigger] contents[j]).0@
}

/// What renaming a credential does to the keypair list: walk the list; a
/// malformed record fails the whole operation, the first keypair naming the
/// credential gets the new nickname, and a list without the credential is
/// an error.
pub open spec fn rename_keypairs(ks: Seq<WrappedKeypair>, cid: Seq<u8>, name: String) -> Result<
    Seq<WrappedKeypair>,
    VaultError,
>
    decreases ks.len(),
{
    if ks.len() == 0 {
        Err(VaultError::Data(DataError::CredentialNotFound))
    } else if !ad_ok(ks[0].additional_data@) {
        Err(VaultError::Serialization)
    } else if ad_is(ks[0].additional_data@, cid) {
        Ok(seq![WrappedKeypair { nickname: Some(name), ..ks[0] }] + ks.skip(1))
    } else {
        match rename_keypairs(ks.skip(1), cid, name) {
            Ok(rest) => Ok(seq![ks[0]] + rest),
            Err(e) => Err(e),
        }
    }
}

/// The keypairs left after deleting a credential: those whose metadata does
/// not name it (malformed records are kept untouched).
pub open spec fn kept_keypairs(ks: Seq<WrappedKeypair>, cid: Seq<u8>) -> Seq<WrappedKeypair>
    decreases ks.len(),
{
    if ks.len() == 0 {
        Seq::empty()
    } else {
        let rest = kept_keypairs(ks.drop_last(), cid);
        if ad_is(ks.last().additional_data@, cid) {
            rest
        } else {
            rest.push(ks.last())
        }
    }
}

/// The wrapped content keys left in one entry after deleting a credential.
pub open spec fn kept_recipients(
    rs: Seq<crate::envelope::WrappedContentKey>,
    cid: Seq<u8>,
) -> Seq<crate::envelope::WrappedContentKey>
    decreases rs.len(),
{
    if rs.len() == 0 {
        Seq::empty()
    } else {
        let rest = kept_recipients(rs.drop_last(), cid);
        if rs.last().credential_id@ == cid {
            rest
        } else {
            rest.push(rs.last())
        }
    }
}

/// Insert an entry under a name, replacing in place any entry of that name.
pub open spec fn upsert(
    cs: Seq<(String, EncryptedContent)>,
    name: String,
    e: EncryptedContent,
) -> Seq<(String, EncryptedContent)>
    decreases cs.len(),
{
    if cs.len() == 0 {
        seq![(name, e)]
    } else if cs[0].0@ == name@ {
        seq![(name, e)] + cs.skip(1)
    } else {
        seq![cs[0]] + upsert(cs.skip(1), name, e)
    }
}

/// The user's identity and registered authenticator keypairs.
#[derive(Debug)]
pub struct UserConfig {
    /// Format version of the persisted form.
    pub version: u32,
    /// Display name of the vault's user.
    pub username: String,
    /// Stable random identity bound to every credential.
    pub user_handle: UserHandle,
    /// One wrapped keypair per registered authenticator, in registration order.
    pub keypairs: Vec<WrappedKeypair>,
}

impl UserConfig {
    /// Fresh user configuration with no registered authenticators.
    pub fn new(username: String) -> (r: Result<Self, VaultError>)
        ensures
            r is Ok ==> {
                let u = r.unwrap();
                &&& u.version == 2
                &&& u.username == username
                &&& u.user_handle@.len() == 64
                &&& u.keypairs@ =~= Seq::<WrappedKeypair>::empty()
            },
    {
        let user_handle = match UserHandle::generate() {
            Ok(h) => h,
            Err(e) => {
                return Err(VaultError::Crypto(e));
            },
        };
        Ok(UserConfig { version: 2, username, user_handle, keypairs: Vec::new() })
    }
}

/// The persisted aggregate: the user's keypairs and the encrypted entries.
#[derive(Debug)]
pub struct VaultConfig {
    /// Format version of the persisted form.
    pub version: u32,
    /// The user's identity and keypairs.
    pub user: UserConfig,
    /// The encrypted entries, uniquely named, in insertion order.
    pub contents: Vec<(String, EncryptedContent)>,
}

impl VaultConfig {
    /// Entry names are pairwise distinct.
    pub open spec fn wf(self) -> bool {
        names_unique(self.contents@)
    }

    /// Fresh empty vault.
    pub fn new(username: String) -> (r: Result<Self, VaultError>)
        ensures
            r is Ok ==> {
                let v = r.unwrap();
                &&& v.version == 2
                &&& v.user.version == 2
                &&& v.user.username == username
                &&& v.user.user_handle@.len() == 64
                &&& v.user.keypairs@ =~= Seq::<WrappedKeypair>::empty()
                &&& v.contents@ =~= Seq::<(String, EncryptedContent)>::empty()
                &&& v.wf()
            },
    {
        let user = UserConfig::new(username)?;
        Ok(VaultConfig { version: 2, user, contents: Vec::new() })
    }

    /// Register a freshly wrapped keypair.
    pub fn add_keypair(&mut self, kp: WrappedKeypair)
        ensures
            final(self).user.keypairs@ == old(self).user.keypairs@.push(kp),
            final(self).user.version == old(self).user.version,
            final(self).user.username == old(self).user.username,
            final(self).user.user_handle == old(self).user.user_handle,
            final(self).contents@ == old(self).contents@,
            final(self).version == old(self).version,
            old(self).wf() ==> final(self).wf(),
    {
        self.user.keypairs.push(kp);
    }

    /// Set the nickname of the keypair registered under a credential.
    /// On any failure the vault is left untouched.
    #[verifier::rlimit(80)]
    pub fn rename_credential(&mut self, cred_id: &CredentialId, name: String) -> (r: Result<
        (),
        VaultError,
    >)
        ensures
            match rename_keypairs(old(self).user.keypairs@, cred_id@, name) {
                Ok(ks) => r is Ok && final(self).user.keypairs@ == ks,
                Err(e) => r == Err::<(), VaultError>(e) && final(self).user.keypairs@ == old(
                    self,
                ).user.keypairs@,
            },
            final(self).user.version == old(self).user.version,
            final(self).user.username == old(self).user.username,
            final(self).user.user_handle == old(self).user.user_handle,
            final(self).contents@ == old(self).contents@,
            final(self).version == old(self).version,
            old(self).wf() ==> final(self).wf(),
    {
        let n = self.user.keypairs.len();
        let mut i: usize = 0;
        proof {
            assert(self.user.keypairs@.skip(0) =~= self.user.keypairs@);
            match rename_keypairs(self.user.keypairs@, cred_id@, name) {
                Ok(rest) => {
                    assert(self.user.keypairs@.take(0) + rest =~= rest);
                },
                Err(_) => {},
            }
        }
        while i < n
            invariant
                n == self.user.keypairs@.len(),
                i <= n,
                *self == *old(self),
                forall|j: int|
                    0 <= j < i ==> ad_ok(
                        (#[trigger] self.user.keypairs@[j]).additional_data@,
                    ) && !ad_is(self.user.keypairs@[j].additional_data@, cred_id@),
                rename_keypairs(self.user.keypairs@, cred_id@, name) == rename_tail(
                    self.user.keypairs@,
                    cred_id@,
                    name,
                    i as int,
                ),
            decreases n - i,
        {
            match parse_additional_data(self.user.keypairs[i].additional_data.as_slice()) {
                Some(ad) => {
                    proof {
                        assert(ad_ok(self.user.keypairs@[i as int].additional_data@));
                    }
                    if crate::data::bytes_eq(&ad.credential_id, &cred_id.0) {
                        proof {
                            lemma_rename_hits(self.user.keypairs@, cred_id@, name, i as int);
                        }
                        let kp = self.user.keypairs.remove(i);
                        let kp2 = WrappedKeypair { nickname: Some(name), ..kp };
                        self.user.keypairs.insert(i, kp2);
                        proof {
                            assert(final(self).user.keypairs@ =~= rename_keypairs(
                                old(self).user.keypairs@,
                                cred_id@,
                                name,
                            ).unwrap());
                        }
                        return Ok(());
                    }
                    proof {
                        assert(!ad_is(self.user.keypairs@[i as int].additional_data@, cred_id@))
                            by {
                            if ad_is(self.user.keypairs@[i as int].additional_data@, cred_id@) {
                                assert(ad.credential_id@ == cred_id@);
                            }
                        }
                        lemma_rename_step(self.user.keypairs@, cred_id@, name, i as int);
                    }
                },
                None => {
                    proof {
                        lemma_rename_fails(self.user.keypairs@, cred_id@, name, i as int);
                    }
                    return Err(VaultError::Serialization);
                },
            }
            i = i + 1;
        }
        proof {
            lemma_rename_missing(self.user.keypairs@, cred_id@, name);
        }
        Err(VaultError::Data(DataError::CredentialNotFound))
    }
}

/// `cs` holds an entry named `nm`.
pub open spec fn has_name(cs: Seq<(String, EncryptedContent)>, nm: Seq<char>) -> bool {
    exists|j: int| 0 <= j < cs.len() && (#[trigger] cs[j]).0@ == nm
}

impl VaultConfig {
    /// Remove the keypair registered under a credential and strip every
    /// reference to it from every entry's recipients, atomically. Entries
    /// whose last recipient goes away stay in the vault and become
    /// permanently undecryptable, by design.
    pub fn delete_credential(&mut self, cred_id: &CredentialId)
        ensures
            final(self).user.keypairs@ == kept_keypairs(old(self).user.keypairs@, cred_id@),
            final(self).contents@.len() == old(self).contents@.len(),
            forall|k: int|
                0 <= k < old(self).contents@.len() ==> {
                    let o = #[trigger] old(self).contents@[k];
                    let f = final(self).contents@[k];
                    &&& f.0 == o.0
                    &&& f.1.ciphertext == o.1.ciphertext
                    &&& f.1.iv == o.1.iv
                    &&& f.1.additional_data == o.1.additional_data
                    &&& f.1.recipients@ == kept_recipients(o.1.recipients@, cred_id@)
                },
            forall|i: int|
                0 <= i < final(self).user.keypairs@.len() ==> !ad_is(
                    (#[trigger] final(self).user.keypairs@[i]).additional_data@,
                    cred_id@,
                ),
            forall|k: int, j: int|
                0 <= k < final(self).contents@.len() && 0 <= j
                    < final(self).contents@[k].1.recipients@.len() ==> (
                #[trigger] final(self).contents@[k].1.recipients@[j]).credential_id@ != cred_id@,
            final(self).user.version == old(self).user.version,
            final(self).user.username == old(self).user.username,
            final(self).user.user_handle == old(self).user.user_handle,
            final(self).version == old(self).version,
            old(self).wf() ==> final(self).wf(),
    {
        retain_keypairs(&mut self.user.keypairs, cred_id);
        proof {
            lemma_kept_keypairs_cascade(old(self).user.keypairs@, cred_id@);
        }
        let ghost mid_user = self.user;
        let n = self.contents.len();
        let mut k: usize = 0;
        while k < n
            invariant
                n == self.contents@.len(),
                n == old(self).contents@.len(),
                k <= n,
                self.user == mid_user,
                self.version == old(self).version,
                forall|k2: int| k <= k2 < n ==> self.contents@[k2] == old(self).contents@[k2],
                forall|k2: int|
                    0 <= k2 < k ==> {
                        let o = #[trigger] old(self).contents@[k2];
                        let f = self.contents@[k2];
                        &&& f.0 == o.0
                        &&& f.1.ciphertext == o.1.ciphertext
                        &&& f.1.iv == o.1.iv
                        &&& f.1.additional_data == o.1.additional_data
                        &&& f.1.recipients@ == kept_recipients(o.1.recipients@, cred_id@)
                    },
            decreases n - k,
        {
            let (nm, mut e) = self.contents.remove(k);
            retain_recipients(&mut e.recipients, cred_id);
            self.contents.insert(k, (nm, e));
            k = k + 1;
        }
        proof {
            assert forall|k2: int, j: int|
                0 <= k2 < self.contents@.len() && 0 <= j
                    < self.contents@[k2].1.recipients@.len() implies (
            #[trigger] self.contents@[k2].1.recipients@[j]).credential_id@ != cred_id@ by {
                lemma_kept_recipients_cascade(old(self).contents@[k2].1.recipients@, cred_id@);
                assert(self.contents@[k2].1.recipients@ == kept_recipients(
                    old(self).contents@[k2].1.recipients@,
                    cred_id@,
                ));
            }
            if old(self).wf() {
                assert forall|i: int, j: int| 0 <= i < j < self.contents@.len() implies (
                #[trigger] self.contents@[i]).0@ != (#[trigger] self.contents@[j]).0@ by {
                    assert(self.contents@[i].0 == old(self).contents@[i].0);
                    assert(self.contents@[j].0 == old(self).contents@[j].0);
                }
            }
        }
    }

    /// Encrypt `content` to every currently registered keypair and store it
    /// under `name`, replacing any entry of that name in place. On any
    /// failure the vault is left untouched.
    pub fn push_content(&mut self, name: String, content: Vec<u8>) -> (r: Result<(), VaultError>)
        requires
            content@.len() <= GCM_P_MAX,
        ensures
            r is Ok ==> exists|e: EncryptedContent|
                #[trigger] entry_encrypts(e, content@, old(self).user.keypairs@)
                    && final(self).contents@ == upsert(old(self).contents@, name, e)
                    && e.recipients@.len() == old(self).user.keypairs@.len(),
            r is Err ==> *final(self) == *old(self),
            final(self).user == old(self).user,
            final(self).version == old(self).version,
            old(self).wf() ==> final(self).wf(),
    {
        let entry = match encrypt(content, &self.user.keypairs) {
            Ok(e) => e,
            Err(e) => {
                return Err(e);
            },
        };
        let ghost pre = self.contents@;
        let n = self.contents.len();
        let mut k: usize = 0;
        proof {
            assert(pre.skip(0) =~= pre);
            assert(pre.take(0) + upsert(pre.skip(0), name, entry) =~= upsert(pre, name, entry));
        }
        while k < n
            invariant
                n == self.contents@.len(),
                k <= n,
                *self == *old(self),
                pre == self.contents@,
                content@.len() <= GCM_P_MAX,
                entry_encrypts(entry, content@, old(self).user.keypairs@),
                entry.recipients@.len() == old(self).user.keypairs@.len(),
                forall|j: int| 0 <= j < k ==> (#[trigger] pre[j]).0@ != name@,
                upsert(pre, name, entry) == pre.take(k as int) + upsert(
                    pre.skip(k as int),
                    name,
                    entry,
                ),
            decreases n - k,
        {
            if self.contents[k].0 == name {
                proof {
                    lemma_upsert_hit(pre, name, entry, k as int);
                }
                let _ = self.contents.remove(k);
                self.contents.insert(k, (name, entry));
                proof {
                    assert(final(self).contents@ =~= upsert(pre, name, entry));
                    lemma_upsert_names(pre, name, entry);
                }
                return Ok(());
            }
            proof {
                lemma_upsert_step(pre, name, entry, k as int);
            }
            k = k + 1;
        }
        self.contents.push((name, entry));
        proof {
            assert(pre.skip(n as int) =~= Seq::<(String, EncryptedContent)>::empty());
            assert(pre.take(n as int) =~= pre);
            assert(final(self).contents@ =~= upsert(pre, name, entry));
            lemma_upsert_names(pre, name, entry);
        }
        Ok(())
    }
}

/// Keep only the keypairs whose metadata does not name the credential.
fn retain_keypairs(ks: &mut Vec<WrappedKeypair>, cred_id: &CredentialId)
    ensures
        final(ks)@ == kept_keypairs(old(ks)@, cred_id@),
{
    let ghost orig = ks@;
    let mut kept: Vec<WrappedKeypair> = Vec::new();
    let n = ks.len();
    let mut j: usize = 0;
    proof {
        assert(orig.take(0) =~= Seq::<WrappedKeypair>::empty());
    }
    while j < n
        invariant
            n == orig.len(),
            j <= n,
            ks@ == orig.skip(j as int),
            kept@ == kept_keypairs(orig.take(j as int), cred_id@),
        decreases n - j,
    {
        let kp = ks.remove(0);
        proof {
            assert(kp == orig[j as int]);
            assert(ks@ =~= orig.skip(j as int + 1));
            assert(orig.take(j as int + 1).drop_last() =~= orig.take(j as int));
            assert(orig.take(j as int + 1).last() == orig[j as int]);
        }
        match parse_additional_data(kp.additional_data.as_slice()) {
            Some(ad) => {
                if crate::data::bytes_eq(&ad.credential_id, &cred_id.0) {
                    proof {
                        assert(ad_is(kp.additional_data@, cred_id@));
                    }
                } else {
                    proof {
                        assert(!ad_is(kp.additional_data@, cred_id@)) by {
                            if ad_is(kp.additional_data@, cred_id@) {
                                assert(ad.credential_id@ == cred_id@);
                            }
                        }
                    }
                    kept.push(kp);
                }
            },
            None => {
                proof {
                    assert(!ad_is(kp.additional_data@, cred_id@));
                }
                kept.push(kp);
            },
        }
        j = j + 1;
    }
    proof {
        assert(orig.take(n as int) =~= orig);
    }
    *ks = kept;
}

/// Keep only the wrapped content keys that do not name the credential.
fn retain_recipients(rs: &mut Vec<crate::envelope::WrappedContentKey>, cred_id: &CredentialId)
    ensures
        final(rs)@ == kept_recipients(old(rs)@, cred_id@),
{
    let ghost orig = rs@;
    let mut kept: Vec<crate::envelope::WrappedContentKey> = Vec::new();
    let n = rs.len();
    let mut j: usize = 0;
    proof {
        assert(orig.take(0) =~= Seq::<crate::envelope::WrappedContentKey>::empty());
    }
    while j < n
        invariant
            n == orig.len(),
            j <= n,
            rs@ == orig.skip(j as int),
            kept@ == kept_recipients(orig.take(j as int), cred_id@),
        decreases n - j,
    {
        let w = rs.remove(0);
        proof {
            assert(w == orig[j as int]);
            assert(rs@ =~= orig.skip(j as int + 1));
            assert(orig.take(j as int + 1).drop_last() =~= orig.take(j as int));
            assert(orig.take(j as int + 1).last() == orig[j as int]);
        }
        if !crate::data::bytes_eq(&w.credential_id, &cred_id.0) {
            kept.push(w);
        }
        j = j + 1;
    }
    proof {
        assert(orig.take(n as int) =~= orig);
    }
    *rs = kept;
}

/// Deletion cascade: after a credential is deleted, no kept keypair's
/// metadata names it.
pub proof fn lemma_kept_keypairs_cascade(ks: Seq<WrappedKeypair>, cid: Seq<u8>)
    ensures
        forall|i: int|
            0 <= i < kept_keypairs(ks, cid).len() ==> !ad_is(
                (#[trigger] kept_keypairs(ks, cid)[i]).additional_data@,
                cid,
            ),
    decreases ks.len(),
{
    if ks.len() > 0 {
        lemma_kept_keypairs_cascade(ks.drop_last(), cid);
        let kept = kept_keypairs(ks, cid);
        let krest = kept_keypairs(ks.drop_last(), cid);
        assert forall|i: int| 0 <= i < kept.len() implies !ad_is(
            (#[trigger] kept[i]).additional_data@,
            cid,
        ) by {
            if i < krest.len() {
                assert(kept[i] == krest[i]);
            }
        }
    }
}

/// Deletion cascade: after a credential is deleted, no kept wrapped content
/// key of any entry names it.
pub proof fn lemma_kept_recipients_cascade(rs: Seq<crate::envelope::WrappedContentKey>, cid: Seq<u8>)
    ensures
        forall|j: int|
            0 <= j < kept_recipients(rs, cid).len() ==> (#[trigger] kept_recipients(rs, cid)[j]).credential_id@
                != cid,
    decreases rs.len(),
{
    if rs.len() > 0 {
        lemma_kept_recipients_cascade(rs.drop_last(), cid);
        let kept = kept_recipients(rs, cid);
        let krest = kept_recipients(rs.drop_last(), cid);
        assert forall|j: int| 0 <= j < kept.len() implies (#[trigger] kept[j]).credential_id@
            != cid by {
            if j < krest.len() {
                assert(kept[j] == krest[j]);
            }
        }
    }
}

/// Renaming a credential is idempotent: renaming to the same nickname a
/// second time changes nothing, so the aggregate after two renames is the
/// one after the first.
pub proof fn lemma_rename_idempotent(ks: Seq<WrappedKeypair>, cid: Seq<u8>, name: String)
    ensures
        rename_keypairs(ks, cid, name) is Ok ==> rename_keypairs(
            rename_keypairs(ks, cid, name).unwrap(),
            cid,
            name,
        ) == rename_keypairs(ks, cid, name),
    decreases ks.len(),
{
    if ks.len() == 0 || !ad_ok(ks[0].additional_data@) {
    } else if ad_is(ks[0].additional_data@, cid) {
        let k1 = WrappedKeypair { nickname: Some(name), ..ks[0] };
        let ks1 = seq![k1] + ks.skip(1);
        assert(ks1[0] == k1);
        assert(k1.additional_data@ == ks[0].additional_data@);
        assert(WrappedKeypair { nickname: Some(name), ..k1 } == k1);
        assert(ks1.skip(1) =~= ks.skip(1));
        assert(seq![k1] + ks1.skip(1) =~= ks1);
    } else {
        lemma_rename_idempotent(ks.skip(1), cid, name);
        if rename_keypairs(ks, cid, name) is Ok {
            let rest = rename_keypairs(ks.skip(1), cid, name).unwrap();
            let ks1 = seq![ks[0]] + rest;
            assert(ks1[0] == ks[0]);
            assert(ks1.skip(1) =~= rest);
            assert(seq![ks1[0]] + rest =~= ks1);
        }
    }
}

/// The names of an upsert: existing positions keep their names (the
/// replaced one equal to the new name), and a vault without the name gains
/// it at the end; so unique names stay unique.
pub proof fn lemma_upsert_names(cs: Seq<(String, EncryptedContent)>, name: String, e: EncryptedContent)
    ensures
        upsert(cs, name, e).len() == if has_name(cs, name@) {
            cs.len()
        } else {
            cs.len() + 1
        },
        forall|m: int|
            0 <= m < upsert(cs, name, e).len() ==> (#[trigger] upsert(cs, name, e)[m]).0@ == if m
                < cs.len() {
                cs[m].0@
            } else {
                name@
            },
        names_unique(cs) ==> names_unique(upsert(cs, name, e)),
    decreases cs.len(),
{
    if cs.len() == 0 {
    } else if cs[0].0@ == name@ {
        assert(has_name(cs, name@));
    } else {
        lemma_upsert_names(cs.skip(1), name, e);
        let u = upsert(cs, name, e);
        let urest = upsert(cs.skip(1), name, e);
        assert(has_name(cs.skip(1), name@) == has_name(cs, name@)) by {
            if has_name(cs, name@) {
                let j = choose|j: int| 0 <= j < cs.len() && (#[trigger] cs[j]).0@ == name@;
                assert(cs.skip(1)[j - 1] == cs[j]);
            }
            if has_name(cs.skip(1), name@) {
                let j = choose|j: int|
                    0 <= j < cs.skip(1).len() && (#[trigger] cs.skip(1)[j]).0@ == name@;
                assert(cs[j + 1] == cs.skip(1)[j]);
            }
        }
        assert forall|m: int| 0 <= m < u.len() implies (#[trigger] u[m]).0@ == if m < cs.len() {
            cs[m].0@
        } else {
            name@
        } by {
            if m > 0 {
                assert(u[m] == urest[m - 1]);
                if m < cs.len() {
                    assert(cs.skip(1)[m - 1] == cs[m]);
                }
            }
        }
        if names_unique(cs) {
            assert(names_unique(cs.skip(1))) by {
                assert(forall|i: int, j: int|
                    0 <= i < j < cs.skip(1).len() ==> (#[trigger] cs.skip(1)[i]).0@ != (
                    #[trigger] cs.skip(1)[j]).0@) by {
                    assert(forall|i: int|
                        0 <= i < cs.skip(1).len() ==> #[trigger] cs.skip(1)[i] == cs[i + 1]);
                }
            }
            assert forall|i: int, j: int| 0 <= i < j < u.len() implies (#[trigger] u[i]).0@ != (
            #[trigger] u[j]).0@ by {
                if !has_name(cs, name@) && j == u.len() - 1 {
                    assert(u[j].0@ == name@);
                    if cs[i].0@ == name@ {
                        assert(has_name(cs, name@));
                    }
                }
            }
        }
    }
}

/// What upserting does to the list from position `k` on.
pub open spec fn upsert_tail(
    cs: Seq<(String, EncryptedContent)>,
    name: String,
    e: EncryptedContent,
    k: int,
) -> Seq<(String, EncryptedContent)> {
    cs.take(k) + upsert(cs.skip(k), name, e)
}

/// Peeling one differently named entry off the front commutes with the
/// upsert.
proof fn lemma_upsert_step(cs: Seq<(String, EncryptedContent)>, name: String, e: EncryptedContent, k: int)
    requires
        0 <= k < cs.len(),
        cs[k].0@ != name@,
        upsert(cs, name, e) == upsert_tail(cs, name, e, k),
    ensures
        upsert(cs, name, e) == upsert_tail(cs, name, e, k + 1),
{
    let t = cs.skip(k);
    assert(t[0] == cs[k]);
    assert(t.skip(1) =~= cs.skip(k + 1));
    assert(cs.take(k) + (seq![cs[k]] + upsert(cs.skip(k + 1), name, e)) =~= cs.take(k + 1) + upsert(
        cs.skip(k + 1),
        name,
        e,
    ));
}

/// A name match at the scan position replaces exactly that entry.
proof fn lemma_upsert_hit(cs: Seq<(String, EncryptedContent)>, name: String, e: EncryptedContent, k: int)
    requires
        0 <= k < cs.len(),
        cs[k].0@ == name@,
        upsert(cs, name, e) == upsert_tail(cs, name, e, k),
    ensures
        upsert(cs, name, e) == cs.take(k) + seq![(name, e)] + cs.skip(k + 1),
{
    let t = cs.skip(k);
    assert(t[0] == cs[k]);
    assert(t.skip(1) =~= cs.skip(k + 1));
    assert(cs.take(k) + (seq![(name, e)] + cs.skip(k + 1)) =~= cs.take(k) + seq![(name, e)]
        + cs.skip(k + 1));
}

/// What renaming does to the list from position `i` on, where everything
/// before `i` is well-formed and does not name the credential.
pub open spec fn rename_tail(
    ks: Seq<WrappedKeypair>,
    cid: Seq<u8>,
    name: String,
    i: int,
) -> Result<Seq<WrappedKeypair>, VaultError> {
    match rename_keypairs(ks.skip(i), cid, name) {
        Ok(rest) => Ok(ks.take(i) + rest),
        Err(e) => Err(e),
    }
}

/// Peeling one clean keypair off the front commutes with renaming.
proof fn lemma_rename_step(ks: Seq<WrappedKeypair>, cid: Seq<u8>, name: String, i: int)
    requires
        0 <= i < ks.len(),
        ad_ok(ks[i].additional_data@),
        !ad_is(ks[i].additional_data@, cid),
    ensures
        rename_tail(ks, cid, name, i) == rename_tail(ks, cid, name, i + 1),
{
    let t = ks.skip(i);
    assert(t[0] == ks[i]);
    assert(t.skip(1) =~= ks.skip(i + 1));
    match rename_keypairs(ks.skip(i + 1), cid, name) {
        Ok(rest) => {
            assert(rename_keypairs(t, cid, name) == Ok::<Seq<WrappedKeypair>, VaultError>(
                seq![t[0]] + rest,
            ));
            assert(ks.take(i) + (seq![t[0]] + rest) =~= ks.take(i + 1) + rest);
        },
        Err(e) => {},
    }
}

/// A malformed record at the scan position fails the rename.
proof fn lemma_rename_fails(ks: Seq<WrappedKeypair>, cid: Seq<u8>, name: String, i: int)
    requires
        0 <= i < ks.len(),
        !ad_ok(ks[i].additional_data@),
    ensures
        rename_tail(ks, cid, name, i) == Err::<Seq<WrappedKeypair>, VaultError>(
            VaultError::Serialization,
        ),
{
    let t = ks.skip(i);
    assert(t[0] == ks[i]);
}

/// A match at the scan position renames exactly that keypair.
proof fn lemma_rename_hits(ks: Seq<WrappedKeypair>, cid: Seq<u8>, name: String, i: int)
    requires
        0 <= i < ks.len(),
        ad_is(ks[i].additional_data@, cid),
    ensures
        rename_tail(ks, cid, name, i) == Ok::<Seq<WrappedKeypair>, VaultError>(
            ks.take(i) + seq![WrappedKeypair { nickname: Some(name), ..ks[i] }] + ks.skip(i + 1),
        ),
{
    let t = ks.skip(i);
    assert(t[0] == ks[i]);
    assert(t.skip(1) =~= ks.skip(i + 1));
    assert(ks.take(i) + (seq![WrappedKeypair { nickname: Some(name), ..ks[i] }] + ks.skip(i + 1))
        =~= ks.take(i) + seq![WrappedKeypair { nickname: Some(name), ..ks[i] }] + ks.skip(i + 1));
}

/// A scan that exhausts the list without a match is an error.
proof fn lemma_rename_missing(ks: Seq<WrappedKeypair>, cid: Seq<u8>, name: String)
    ensures
        rename_tail(ks, cid, name, ks.len() as int) == Err::<Seq<WrappedKeypair>, VaultError>(
            VaultError::Data(DataError::CredentialNotFound),
        ),
{
    assert(ks.skip(ks.len() as int) =~= Seq::<WrappedKeypair>::empty());
}

} // verus!
