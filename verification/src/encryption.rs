//! An end-to-end encrypted collaborative document: a CRDT text document
//! whose updates travel encrypted under the document's MLS group.

use vstd::prelude::*;

use crate::capability::{
    capability_check, capability_message, fits_u32_prefix, register_message, signature_check, CapabilityError, SubscribeCapability,
};
use crate::document::CollabDocument;
use crate::ed25519::{ed25519_public_key, ed25519_signature, ed25519_zero_nonce};
use crate::error::{fails_mls, Error};
use crate::aead::aes256gcm_open;
use crate::persistence::{all_zeros, fails_encryption, nonce_of, restore_outcome, sealed_of, seals_member};
use crate::mls::{minted_by_a_member, saturating_sum, MlsDocumentGroup, PendingMember};

verus! {

/// An encrypted operation to send over the network.
#[derive(Debug, Clone)]
pub struct EncryptedOp {
    /// The MLS ciphertext.
    pub ciphertext: Vec<u8>,
    /// The MLS epoch it was encrypted at.
    pub epoch: u64,
}

/// An invite to join an encrypted document: the welcome for the new member
/// and the commit that the existing members must process. `epoch` is the
/// group's epoch once the member was added; an invite whose epoch is not
/// the group's current one is stale.
#[derive(Debug, Clone)]
pub struct Invite {
    /// Document identifier.
    pub doc_id: String,
    /// MLS welcome message for the new member.
    pub welcome: Vec<u8>,
    /// MLS commit message for the existing members.
    pub commit: Vec<u8>,
    /// MLS epoch at which the invite was created.
    pub epoch: u64,
}

/// A collaborative document whose updates are encrypted under its MLS
/// group.
pub struct EncryptedDocument {
    doc: CollabDocument,
    mls: MlsDocumentGroup,
}

impl EncryptedDocument {
    /// The document's identifier.
    pub closed spec fn spec_doc_id(&self) -> Seq<char> {
        self.doc.spec_id()
    }

    /// The UTF-8 bytes of the document's text.
    pub closed spec fn text(&self) -> Seq<u8> {
        self.doc.text()
    }

    /// The member's copy of the document.
    pub closed spec fn spec_document(&self) -> CollabDocument {
        self.doc
    }

    /// The member's MLS group.
    pub closed spec fn group(&self) -> MlsDocumentGroup {
        self.mls
    }

    /// This member's identity.
    pub open spec fn spec_user_id(&self) -> Seq<char> {
        self.group().spec_user_id()
    }

    /// The group owner's identity.
    pub open spec fn spec_owner_id(&self) -> Seq<char> {
        self.group().spec_owner_id()
    }

    /// The document and the member's identities are those of `other`.
    pub open spec fn same_parties(&self, other: &EncryptedDocument) -> bool {
        &&& self.spec_doc_id() == other.spec_doc_id()
        &&& self.spec_user_id() == other.spec_user_id()
        &&& self.spec_owner_id() == other.spec_owner_id()
    }

    /// A new, empty document `doc_id` whose group has `user_id` as its only
    /// member and owner.
    pub fn create(doc_id: &str, user_id: &str) -> (r: Result<EncryptedDocument, Error>)
        ensures
            r matches Ok(d) ==> d.spec_doc_id() == doc_id@ && d.text().len() == 0 && d.spec_user_id() == user_id@
                && d.spec_owner_id() == user_id@ && d.group().spec_epoch() == 0,
            r matches Err(e) ==> e is Mls,
    {
        let doc = CollabDocument::new(doc_id.to_owned());
        let (mls, _key_package) = MlsDocumentGroup::create(user_id)?;
        Ok(EncryptedDocument { doc, mls })
    }

    /// Join the document of `invite` as the pending member `pending`, with
    /// an empty text that the members' updates then fill.
    pub fn join(invite: &Invite, pending: PendingMember) -> (r: Result<EncryptedDocument, Error>)
        ensures
            r matches Ok(d) ==> d.spec_doc_id() == invite.doc_id@ && d.text().len() == 0 && d.spec_user_id()
                == pending.spec_user_id(),
            r matches Err(e) ==> e is Mls,
    {
        let doc = CollabDocument::new(invite.doc_id.clone());
        let mls = pending.join(invite.welcome.as_slice())?;
        Ok(EncryptedDocument { doc, mls })
    }

    /// Insert `text` at byte offset `index`.
    pub fn insert(&mut self, index: u32, text: &str)
        requires
            index <= old(self).text().len(),
            vstd::utf8::is_char_boundary(old(self).text(), index as int),
        ensures
            final(self).same_parties(old(self)),
            final(self).text() == old(self).text().subrange(0, index as int) + vstd::utf8::encode_utf8(text@)
                + old(self).text().subrange(index as int, old(self).text().len() as int),
    {
        self.doc.insert(index, text);
    }

    /// Delete `len` bytes of text at byte offset `index`.
    pub fn delete(&mut self, index: u32, len: u32)
        requires
            index + len <= old(self).text().len(),
            vstd::utf8::is_char_boundary(old(self).text(), index as int),
            vstd::utf8::is_char_boundary(old(self).text(), index + len),
        ensures
            final(self).same_parties(old(self)),
            final(self).text() == old(self).text().subrange(0, index as int)
                + old(self).text().subrange(index + len, old(self).text().len() as int),
    {
        self.doc.delete(index, len);
    }

    /// Insert `text` at byte offset `index`, or refuse, changing nothing,
    /// when `index` is past the end or inside a character.
    pub fn try_insert(&mut self, index: u32, text: &str) -> (r: Result<(), Error>)
        ensures
            final(self).same_parties(old(self)),
            final(self).group() == old(self).group(),
            r is Err <==> !(index <= old(self).text().len() && vstd::utf8::is_char_boundary(old(self).text(), index as int)),
            r is Ok ==> final(self).text() == old(self).text().subrange(0, index as int) + vstd::utf8::encode_utf8(text@)
                + old(self).text().subrange(index as int, old(self).text().len() as int),
            r matches Err(e) ==> e is InvalidState && *final(self) == *old(self),
    {
        self.doc.try_insert(index, text)
    }

    /// Delete `len` bytes at byte offset `index`, or refuse, changing
    /// nothing, when the range runs past the end or either end is inside a
    /// character.
    pub fn try_delete(&mut self, index: u32, len: u32) -> (r: Result<(), Error>)
        ensures
            final(self).same_parties(old(self)),
            final(self).group() == old(self).group(),
            r is Err <==> !(index + len <= old(self).text().len() && vstd::utf8::is_char_boundary(old(self).text(), index as int)
                && vstd::utf8::is_char_boundary(old(self).text(), index + len)),
            r is Ok ==> final(self).text() == old(self).text().subrange(0, index as int)
                + old(self).text().subrange(index + len, old(self).text().len() as int),
            r matches Err(e) ==> e is InvalidState && *final(self) == *old(self),
    {
        self.doc.try_delete(index, len)
    }

    /// The current text.
    pub fn get_content(&self) -> (s: String)
        ensures
            vstd::utf8::encode_utf8(s@) == self.text(),
    {
        self.doc.get_content()
    }

    /// The document's full state, encrypted for the other members.
    pub fn get_encrypted_update(&mut self) -> (r: Result<EncryptedOp, Error>)
        ensures
            final(self).same_parties(old(self)),
            final(self).text() == old(self).text(),
            final(self).group().spec_epoch() == old(self).group().spec_epoch(),
            r matches Ok(op) ==> op.epoch == old(self).group().spec_epoch(),
            r matches Ok(op) ==> crate::mls_ops::mls_application_plaintext(old(self).group().spec_group(), op.ciphertext@)
                == Some(old(self).spec_document().full_state()),
            r matches Err(e) ==> e is Mls,
    {
        let update = self.doc.encode_state();
        let ciphertext = self.mls.encrypt(update.as_slice())?;
        let epoch = self.mls.epoch();
        Ok(EncryptedOp { ciphertext, epoch })
    }

    /// Decrypt an update from another member and merge it into the text.
    /// The merge itself is `yrs`'s: an update that decodes but is malformed may
    /// make `yrs` panic while integrating it, which this library does not rule
    /// out.
    pub fn apply_encrypted_update(&mut self, op: &EncryptedOp) -> (r: Result<(), Error>)
        requires
            old(self).group().spec_epoch() < u64::MAX,
        ensures
            final(self).same_parties(old(self)),
            final(self).group().spec_epoch() == old(self).group().spec_epoch(),
            r is Ok ==> exists|update: Seq<u8>| final(self).text() == #[trigger] old(self).spec_document().merged_text(update),
            r matches Err(e) ==> e is Mls || e is Replay || e is Yrs,
            match crate::mls_ops::mls_protocol_message(op.ciphertext@) {
                None => r is Err,
                Some(m) => !crate::mls_ops::mls_meets_key_packages(old(self).group().spec_group(), m) ==> match crate::mls_ops::mls_process(
                    old(self).group().spec_group(),
                    crate::mls_ops::provider_storage(old(self).group().spec_crypto()),
                    m,
                ) {
                    Ok(p) => match crate::mls_ops::mls_content(p) {
                        crate::mls_ops::MessageContent::Application(b) => {
                            &&& (r is Ok) == old(self).spec_document().applies(b@)
                            &&& r is Ok ==> final(self).text() == old(self).spec_document().merged_text(b@)
                        },
                        _ => r is Err,
                    },
                    Err(_) => r is Err,
                },
            },
    {
        let update = self.mls.decrypt(op.ciphertext.as_slice())?;
        let ghost before = self.doc;
        let r = self.doc.apply_update(update.as_slice());
        proof {
            if r is Ok {
                assert(before == old(self).spec_document());
                assert(self.doc.text() == old(self).spec_document().merged_text(update@));
            }
        }
        r
    }

    /// Encrypt caller-supplied bytes under this document's group, leaving the
    /// text alone.
    pub fn encrypt_bytes(&mut self, plaintext: &[u8]) -> (r: Result<EncryptedOp, Error>)
        ensures
            final(self).same_parties(old(self)),
            final(self).text() == old(self).text(),
            final(self).group().spec_epoch() == old(self).group().spec_epoch(),
            r matches Ok(op) ==> op.epoch == old(self).group().spec_epoch(),
            r matches Ok(op) ==> crate::mls_ops::mls_application_plaintext(old(self).group().spec_group(), op.ciphertext@)
                == Some(plaintext@),
            r matches Err(e) ==> e is Mls,
    {
        let ciphertext = self.mls.encrypt(plaintext)?;
        let epoch = self.mls.epoch();
        Ok(EncryptedOp { ciphertext, epoch })
    }

    /// Decrypt bytes another member encrypted with [`Self::encrypt_bytes`],
    /// leaving the text alone. Ciphertext of another group fails to
    /// authenticate.
    pub fn decrypt_bytes(&mut self, ciphertext: &[u8]) -> (r: Result<Vec<u8>, Error>)
        requires
            old(self).group().spec_epoch() < u64::MAX,
        ensures
            final(self).same_parties(old(self)),
            final(self).text() == old(self).text(),
            final(self).group().spec_epoch() == old(self).group().spec_epoch(),
            r matches Err(e) ==> e is Mls || e is Replay,
            match crate::mls_ops::mls_protocol_message(ciphertext@) {
                None => r matches Err(e) && e is Mls,
                Some(m) => !crate::mls_ops::mls_meets_key_packages(old(self).group().spec_group(), m) ==> crate::mls::decrypted(
                    crate::mls_ops::mls_process(old(self).group().spec_group(), crate::mls_ops::provider_storage(old(self).group().spec_crypto()), m),
                    r,
                ),
            },
    {
        self.mls.decrypt(ciphertext)
    }

    /// Add the member whose key package is `key_package`: the invite holds
    /// the welcome for the new member and the commit for the existing ones.
    pub fn create_invite(&mut self, key_package: &[u8]) -> (r: Result<Invite, Error>)
        requires
            old(self).group().spec_epoch() < u64::MAX,
        ensures
            final(self).same_parties(old(self)),
            final(self).text() == old(self).text(),
            r matches Ok(inv) ==> inv.doc_id@ == old(self).spec_doc_id() && inv.epoch == old(self).group().spec_epoch() + 1
                && final(self).group().spec_epoch() == inv.epoch,
            r is Ok ==> crate::mls::adds_key_package_member(
                old(self).group().spec_members(), final(self).group().spec_members(), key_package@),
            r matches Err(e) ==> e is Mls,
    {
        let (commit, welcome) = self.mls.add_member(key_package)?;
        let epoch = self.mls.epoch();
        Ok(Invite { doc_id: self.doc.id().to_owned(), welcome, commit, epoch })
    }

    /// Process a commit from another member; a removal is merged only if
    /// the owner made it and it spares the owner.
    pub fn process_commit(&mut self, commit: &[u8]) -> (r: Result<(), Error>)
        requires
            old(self).group().spec_epoch() < u64::MAX,
        ensures
            final(self).same_parties(old(self)),
            final(self).text() == old(self).text(),
            r is Ok ==> final(self).group().spec_epoch() == old(self).group().spec_epoch() + 1,
            r matches Err(e) ==> e is Mls,
    {
        self.mls.process_commit(commit)
    }

    /// Owner only: remove the member `member_user_id`, returning the commit
    /// for the remaining members.
    pub fn remove_member(&mut self, member_user_id: &str) -> (r: Result<Vec<u8>, Error>)
        requires
            old(self).group().spec_epoch() < u64::MAX,
        ensures
            final(self).same_parties(old(self)),
            final(self).text() == old(self).text(),
            r is Ok ==> final(self).group().spec_epoch() == old(self).group().spec_epoch() + 1,
            old(self).spec_user_id() != old(self).spec_owner_id() ==> fails_mls(r, "only the group owner may remove members"@),
            old(self).spec_user_id() == old(self).spec_owner_id() && member_user_id@ == old(self).spec_owner_id()
                ==> fails_mls(r, "the owner cannot be removed"@),
            r matches Err(e) ==> e is Mls,
    {
        self.mls.remove_member(member_user_id)
    }

    /// This member created the document's group.
    pub fn is_owner(&self) -> (r: bool)
        ensures
            r == (self.spec_user_id() == self.spec_owner_id()),
    {
        self.mls.is_owner()
    }

    /// The group's current epoch.
    pub fn epoch(&self) -> (r: u64)
        ensures
            r == self.group().spec_epoch(),
    {
        self.mls.epoch()
    }

    /// The verifying key of this epoch's subscribe signing key.
    pub fn subscribe_verifying_key(&self) -> (r: Result<[u8; 32], Error>)
        ensures
            r matches Ok(k) ==> exists|seed: Seq<u8>| seed.len() == 32 && k@ == #[trigger] ed25519_public_key(seed),
            r matches Err(e) ==> e is Mls,
            match self.group().spec_subscribe_secret() {
                Some(s) => r matches Ok(k) && k@ == ed25519_public_key(s),
                None => r is Err,
            },
    {
        self.mls.subscribe_verifying_key()
    }

    /// Mint a subscribe capability naming `user_id` for `doc_id` at the
    /// current epoch, valid until `now_unix + ttl_secs` (saturating). It
    /// verifies under [`Self::subscribe_verifying_key`] up to its expiry
    /// (unless signing drew the zero nonce).
    pub fn mint_subscribe_capability(&self, user_id: &str, doc_id: &str, now_unix: u64, ttl_secs: u64) -> (r: Result<SubscribeCapability, Error>)
        requires
            fits_u32_prefix(user_id@),
            fits_u32_prefix(doc_id@),
        ensures
            r matches Ok(cap) ==> minted_by_a_member(user_id@, doc_id@, saturating_sum(now_unix, ttl_secs), cap),
            r matches Err(e) ==> e is Mls,
            match self.group().spec_subscribe_secret() {
                Some(s) => r matches Ok(cap) && cap.epoch == self.group().spec_epoch()
                    && (!ed25519_zero_nonce(s, capability_message(user_id@, doc_id@, cap.epoch, saturating_sum(now_unix, ttl_secs)))
                        ==> forall|now: u64| now <= saturating_sum(now_unix, ttl_secs)
                            ==> #[trigger] capability_check(cap, ed25519_public_key(s), user_id@, doc_id@, cap.epoch, now)
                                == Ok::<(), CapabilityError>(())),
                None => r is Err,
            },
    {
        self.mls.mint_subscribe_capability(user_id, doc_id, now_unix, ttl_secs)
    }

    /// Sign a registration self-proof for `doc_id` at the current epoch; it
    /// verifies under [`Self::subscribe_verifying_key`] (unless signing drew
    /// the zero nonce).
    pub fn sign_doc_key_proof(&self, doc_id: &str) -> (r: Result<Vec<u8>, Error>)
        requires
            fits_u32_prefix(doc_id@),
        ensures
            r matches Ok(p) ==> p@.len() == 64 && exists|seed: Seq<u8>, epoch: u64|
                seed.len() == 32 && p@ == #[trigger] ed25519_signature(seed, register_message(doc_id@, epoch)),
            r matches Err(e) ==> e is Mls,
            match self.group().spec_subscribe_secret() {
                Some(s) => r matches Ok(p) && (!ed25519_zero_nonce(s, register_message(doc_id@, self.group().spec_epoch()))
                    ==> signature_check(ed25519_public_key(s), register_message(doc_id@, self.group().spec_epoch()), p@)
                        == Ok::<(), CapabilityError>(())),
                None => r is Err,
            },
    {
        self.mls.sign_doc_key_proof(doc_id)
    }

    /// Snapshot this member's MLS state, sealed under `key` (an all-zeros
    /// key is refused) and bound to this document: the document's id is the
    /// sealed snapshot's associated data, so it opens only under that id.
    pub fn snapshot_encrypted(&self, key: &[u8; 32]) -> (r: Result<Vec<u8>, Error>)
        ensures
            all_zeros(key@) ==> fails_encryption(r, "refusing all-zeros key"@),
            r matches Ok(out) ==> seals_member(key@, vstd::utf8::encode_utf8(self.spec_doc_id()), out@, self.spec_user_id()),
            r matches Err(e) ==> e is Mls || e is Encryption,
    {
        self.mls.snapshot_sealed(key, self.doc.id().as_bytes())
    }

    /// Restore a member's document `doc_id` from a snapshot sealed under
    /// `key` for that document, with an empty text; `Ok(None)` when the
    /// snapshot is older than `min_epoch` or holds no group. A snapshot
    /// sealed for another document fails to authenticate.
    pub fn restore_encrypted(doc_id: &str, snapshot: &[u8], key: &[u8; 32], min_epoch: u64) -> (r: Result<Option<EncryptedDocument>, Error>)
        ensures
            restored_document(doc_id@, snapshot@, key@, min_epoch, r),
    {
        match MlsDocumentGroup::restore_sealed(snapshot, key, doc_id.as_bytes(), min_epoch) {
            Err(e) => Err(e),
            Ok(None) => Ok(None),
            Ok(Some(mls)) => Ok(Some(EncryptedDocument { doc: CollabDocument::new(doc_id.to_owned()), mls })),
        }
    }
}

/// What restoring the document `doc_id` from `snapshot` under `key` gives,
/// as [`EncryptedDocument::restore_encrypted`] states it: the snapshot opens
/// with the document id as associated data, and past that the outcome is
/// the group restore's, with the document's empty text around the group.
pub open spec fn restored_document(
    doc_id: Seq<char>,
    snapshot: Seq<u8>,
    key: Seq<u8>,
    min_epoch: u64,
    r: Result<Option<EncryptedDocument>, Error>,
) -> bool {
    &&& all_zeros(key) ==> fails_encryption(r, "refusing all-zeros key"@)
    &&& !all_zeros(key) && snapshot.len() < 12 ==> fails_encryption(r, "corrupt snapshot: no nonce"@)
    &&& !all_zeros(key) && snapshot.len() >= 12 ==> match aes256gcm_open(
        key,
        nonce_of(snapshot),
        vstd::utf8::encode_utf8(doc_id),
        sealed_of(snapshot),
    ) {
        None => fails_encryption(r, "AEAD open failed (wrong key or corrupt)"@),
        Some(pt) => restore_outcome(pt, min_epoch, restored_group(r)),
    }
    &&& r matches Ok(Some(d)) ==> d.spec_doc_id() == doc_id && d.text().len() == 0
}

/// The group of a restored document, as [`MlsDocumentGroup::restore_encrypted`]
/// reports it.
pub open spec fn restored_group(r: Result<Option<EncryptedDocument>, Error>) -> Result<Option<MlsDocumentGroup>, Error> {
    match r {
        Err(e) => Err(e),
        Ok(None) => Ok(None),
        Ok(Some(d)) => Ok(Some(d.group())),
    }
}

} // verus!
