//! MLS group membership for a document: creation, joining, adding and
//! removing members, application messages, commit processing with the
//! owner-only removal policy, and the per-epoch subscribe signing key.
//!
//! The MLS state machine itself is `openmls`'s, reached through
//! [`crate::mls_ops`]; what is verified here is the library's own logic
//! around it: which errors come back for which outcome, the removal
//! policy on both the sending and the receiving side, and the member
//! lookup by identity.

use vstd::prelude::*;

use crate::capability::{
    capability_check, capability_message, fits_u32_prefix, minted_capability, register_message, sign_doc_key_proof,
    sign_subscribe_capability, signature_check, CapabilityError, SubscribeCapability,
};
use crate::ed25519::{ed25519_public_key, ed25519_signature, ed25519_zero_nonce, public_key};
use crate::error::{fails_mls, is_mls, mls_error, mls_failure, Error};
use crate::mls_ops::MessageContent;
use crate::text::str_eq;

verus! {

broadcast use vstd::string::group_string_axioms;

/// The number `openmls` gives the ciphersuite
/// `MLS_128_DHKEMX25519_AES128GCM_SHA256_Ed25519`, the one every group uses.
pub const CIPHERSUITE: u16 = 1u16;

/// Groups carry their ratchet tree in the welcome (the ratchet tree
/// extension), so a joiner needs nothing else to build its tree.
pub const RATCHET_TREE_EXTENSION: bool = true;

/// The MLS protocol version key packages are validated for: MLS 1.0.
pub const PROTOCOL_VERSION: u16 = 1u16;

/// How a member's credential identity could not be read: step 0, the
/// credential is not a basic credential; step 1, its identity is not UTF-8;
/// then the underlying error's text.
pub type IdentityError = (u8, String);

/// `e` is the library's error for the identity error `x`.
pub open spec fn is_identity_error(x: IdentityError, e: Error) -> bool {
    if x.0 == 0 {
        is_mls(e, "Expected a basic credential: "@ + x.1@)
    } else {
        is_mls(e, "Credential identity is not valid UTF-8: "@ + x.1@)
    }
}

/// The library's error for a credential identity that could not be read.
pub fn identity_error(x: IdentityError) -> (e: Error)
    ensures
        is_identity_error(x, e),
{
    if x.0 == 0 {
        mls_error("Expected a basic credential: ", x.1.as_str())
    } else {
        mls_error("Credential identity is not valid UTF-8: ", x.1.as_str())
    }
}

/// The leaf of the member named `user_id` among `members`, read from the
/// front: the first identity that could not be read is an error, whatever
/// follows it; otherwise the first member whose identity is `user_id`.
pub open spec fn leaf_lookup(members: Seq<(u32, Result<String, IdentityError>)>, user_id: Seq<char>, i: int) -> Result<Option<u32>, IdentityError>
    decreases members.len() - i,
{
    if i < 0 || i >= members.len() {
        Ok(None)
    } else {
        match members[i].1 {
            Err(x) => Err(x),
            Ok(id) => match leaf_lookup(members, user_id, i + 1) {
                Err(x) => Err(x),
                Ok(found) => Ok(if id@ == user_id { Some(members[i].0) } else { found }),
            },
        }
    }
}

fn lookup_from(members: &Vec<(u32, Result<String, IdentityError>)>, user_id: &str, i: usize) -> (r: Result<Option<u32>, IdentityError>)
    requires
        i <= members@.len(),
    ensures
        r == leaf_lookup(members@, user_id@, i as int),
    decreases members@.len() - i,
{
    if i >= members.len() {
        return Ok(None);
    }
    match &members[i].1 {
        Err(x) => Err((x.0, x.1.clone())),
        Ok(id) => {
            let rest = lookup_from(members, user_id, i + 1);
            match rest {
                Err(x) => Err(x),
                Ok(found) => {
                    if str_eq(id.as_str(), user_id) {
                        Ok(Some(members[i].0))
                    } else {
                        Ok(found)
                    }
                },
            }
        },
    }
}

/// The leaf index of the member whose credential identity is `user_id`,
/// given each member's leaf and identity in the group's order: an error if
/// any identity could not be read, `None` if no member has that identity.
pub fn member_leaf(members: &Vec<(u32, Result<String, IdentityError>)>, user_id: &str) -> (r: Result<Option<u32>, IdentityError>)
    ensures
        r == leaf_lookup(members@, user_id@, 0),
{
    lookup_from(members, user_id, 0)
}

/// What the receive-side removal policy allows of a commit that removes
/// the members at `removed_leaves`, made by `committer`, in a group owned by
/// `owner`: a commit that removes anyone must come from the owner, and no
/// commit may remove the owner's leaf 0.
pub fn commit_policy(removed_leaves: &[u32], committer: &str, owner: &str) -> (r: Result<(), Error>)
    ensures
        removed_leaves@.len() > 0 && committer@ != owner@ ==> fails_mls(r, "removal commit from a non-owner is rejected"@),
        removed_leaves@.len() > 0 && committer@ == owner@ && removed_leaves@.contains(0u32)
            ==> fails_mls(r, "commit removes the group owner; rejected"@),
        removed_leaves@.len() == 0 || (committer@ == owner@ && !removed_leaves@.contains(0u32)) ==> r is Ok,
        (r is Ok) == policy_allows(removed_leaves@, committer@, owner@),
{
    if removed_leaves.len() == 0 {
        return Ok(());
    }
    if !str_eq(committer, owner) {
        return Err(Error::Mls("removal commit from a non-owner is rejected".to_owned()));
    }
    let mut i: usize = 0;
    while i < removed_leaves.len()
        invariant
            i <= removed_leaves@.len(),
            removed_leaves@.len() > 0,
            committer@ == owner@,
            forall|j: int| 0 <= j < i ==> removed_leaves@[j] != 0,
        decreases removed_leaves@.len() - i,
    {
        if removed_leaves[i] == 0 {
            return Err(Error::Mls("commit removes the group owner; rejected".to_owned()));
        }
        i = i + 1;
    }
    Ok(())
}

/// The bytes of an application message, or the error for any other kind of
/// content where an application message was expected.
pub fn application_bytes(content: MessageContent) -> (r: Result<Vec<u8>, Error>)
    ensures
        content matches MessageContent::Application(b) ==> r == Ok::<Vec<u8>, Error>(b),
        content is Proposal ==> fails_mls(r, "Unexpected proposal message"@),
        content is Commit ==> fails_mls(r, "Unexpected commit message"@),
        content is ExternalJoinProposal ==> fails_mls(r, "Unexpected external join proposal"@),
{
    match content {
        MessageContent::Application(b) => Ok(b),
        MessageContent::Proposal => Err(Error::Mls("Unexpected proposal message".to_owned())),
        MessageContent::Commit(_) => Err(Error::Mls("Unexpected commit message".to_owned())),
        MessageContent::ExternalJoinProposal => Err(Error::Mls("Unexpected external join proposal".to_owned())),
    }
}

fn to_array32(bytes: &[u8]) -> (a: [u8; 32])
    requires
        bytes@.len() == 32,
    ensures
        a@ == bytes@,
{
    let mut a: [u8; 32] = [0u8; 32];
    let mut i: usize = 0;
    while i < 32
        invariant
            bytes@.len() == 32,
            i <= 32,
            forall|j: int| 0 <= j < i ==> a@[j] == bytes@[j],
        decreases 32 - i,
    {
        a[i] = bytes[i];
        i = i + 1;
    }
    assert(a@ =~= bytes@);
    a
}

/// The user the group's owner is, read from its members in leaf order:
/// the user named by the first member at leaf 0, the group's creator;
/// `None` when there is no such member or its credential names no user.
pub open spec fn owner_of(members: Seq<(u32, openmls::prelude::Credential)>, i: int) -> Option<Seq<char>>
    decreases members.len() - i,
{
    if i < 0 || i >= members.len() {
        None
    } else if members[i].0 == 0 {
        crate::mls_ops::credential_user(members[i].1)
    } else {
        owner_of(members, i + 1)
    }
}

/// The owner's identity among `members`, or the error when there is no
/// member at leaf 0 or its identity cannot be read.
fn owner_identity(members: &Vec<(u32, openmls::prelude::Credential)>) -> (r: Result<String, Error>)
    ensures
        match owner_of(members@, 0) {
            Some(owner) => r matches Ok(s) && s@ == owner,
            None => r matches Err(e) && e is Mls,
        },
{
    let mut i: usize = 0;
    while i < members.len()
        invariant
            i <= members@.len(),
            owner_of(members@, 0) == owner_of(members@, i as int),
        decreases members@.len() - i,
    {
        if members[i].0 == 0 {
            return match crate::mls_ops::credential_identity(&members[i].1) {
                Ok(id) => Ok(id),
                Err(x) => Err(identity_error(x)),
            };
        }
        i = i + 1;
    }
    Err(Error::Mls("Group has no leaf-0 member (owner)".to_owned()))
}

/// The leaf of the member that names `user` among `members`, read from the
/// front as [`leaf_lookup`] reads identities: `None` when some member's
/// credential names no user, `Some(None)` when none names `user`.
pub open spec fn member_lookup(members: Seq<(u32, openmls::prelude::Credential)>, user: Seq<char>, i: int) -> Option<Option<u32>>
    decreases members.len() - i,
{
    if i < 0 || i >= members.len() {
        Some(None)
    } else {
        match crate::mls_ops::credential_user(members[i].1) {
            None => None,
            Some(id) => match member_lookup(members, user, i + 1) {
                None => None,
                Some(found) => Some(if id == user { Some(members[i].0) } else { found }),
            },
        }
    }
}

/// `ids` reads the identities of `members`: the same leaves, and each
/// identity read exactly when the credential names a user, as that user.
pub open spec fn reads_identities(ids: Seq<(u32, Result<String, IdentityError>)>, members: Seq<(u32, openmls::prelude::Credential)>) -> bool {
    &&& ids.len() == members.len()
    &&& forall|j: int| 0 <= j < ids.len() ==> #[trigger] ids[j].0 == members[j].0 && match ids[j].1 {
        Ok(s) => crate::mls_ops::credential_user(members[j].1) == Some(s@),
        Err(_) => crate::mls_ops::credential_user(members[j].1) is None,
    }
}

/// Looking a user up by the identities read agrees with looking it up by
/// the credentials.
proof fn lemma_lookup_agrees(
    ids: Seq<(u32, Result<String, IdentityError>)>,
    members: Seq<(u32, openmls::prelude::Credential)>,
    user: Seq<char>,
    i: int,
)
    requires
        reads_identities(ids, members),
        0 <= i <= ids.len(),
    ensures
        match member_lookup(members, user, i) {
            None => leaf_lookup(ids, user, i) is Err,
            Some(x) => leaf_lookup(ids, user, i) == Ok::<Option<u32>, IdentityError>(x),
        },
    decreases ids.len() - i,
{
    if i < ids.len() {
        lemma_lookup_agrees(ids, members, user, i + 1);
        assert(ids[i].0 == members[i].0);
    }
}

/// `new` is `old` with one more member, at a leaf `old` does not hold, whose
/// credential is that of the key package `bytes` serialize.
pub open spec fn adds_key_package_member(
    old: Seq<(u32, openmls::prelude::Credential)>,
    new: Seq<(u32, openmls::prelude::Credential)>,
    bytes: Seq<u8>,
) -> bool {
    exists|c: openmls::prelude::Credential, leaf: u32| {
        &&& crate::mls_ops::mls_serialized_key_package_credential(bytes) == Some(c)
        &&& #[trigger] crate::mls_ops::member_added(old, new, leaf, c)
    }
}

/// What the receive-side removal policy allows: a commit that removes
/// anyone comes from the owner and does not remove the owner's leaf 0.
pub open spec fn policy_allows(removed_leaves: Seq<u32>, committer: Seq<char>, owner: Seq<char>) -> bool {
    removed_leaves.len() == 0 || (committer == owner && !removed_leaves.contains(0u32))
}

/// `r` is what decrypting gives for the processing outcome `outcome`: an
/// application message's bytes, the replay error for a reused secret, and
/// an MLS error for any other failure or content.
pub open spec fn decrypted(outcome: Result<openmls::prelude::ProcessedMessage, bool>, r: Result<Vec<u8>, Error>) -> bool {
    match outcome {
        Ok(p) => match crate::mls_ops::mls_content(p) {
            MessageContent::Application(b) => r == Ok::<Vec<u8>, Error>(b),
            _ => r matches Err(e) && e is Mls,
        },
        Err(true) => r == Err::<Vec<u8>, Error>(Error::Replay),
        Err(false) => r matches Err(e) && e is Mls,
    }
}

/// A member waiting to join a group: the crypto state that will process
/// the welcome, and the key package to send to the group's owner.
pub struct PendingMember {
    user_id: String,
    crypto: openmls_rust_crypto::OpenMlsRustCrypto,
    signature_keys: openmls_basic_credential::SignatureKeyPair,
    credential_with_key: openmls::prelude::CredentialWithKey,
    key_package_bytes: Vec<u8>,
}

/// A member's key material: a fresh provider with a stored signature key
/// pair, and a basic credential of `user_id` under that key.
fn member_keys(user_id: &str) -> (r: Result<(openmls_rust_crypto::OpenMlsRustCrypto, openmls_basic_credential::SignatureKeyPair, openmls::prelude::CredentialWithKey), Error>)
    ensures
        r matches Ok((_, _, c)) ==> crate::mls_ops::credential_user(crate::mls_ops::cwk_credential(c)) == Some(user_id@),
        r matches Err(e) ==> mls_failure(e, "Failed to generate signature keys: "@) || mls_failure(e, "Failed to store signature keys: "@),
{
    let mut crypto = crate::mls_ops::provider_new();
    let signature_keys = match crate::mls_ops::signature_keys_new(CIPHERSUITE) {
        Ok(k) => k,
        Err(t) => return Err(mls_error("Failed to generate signature keys: ", t.as_str())),
    };
    if let Err(t) = crate::mls_ops::signature_keys_store(&signature_keys, &mut crypto) {
        return Err(mls_error("Failed to store signature keys: ", t.as_str()));
    }
    let credential_with_key = crate::mls_ops::credential_with_key(user_id, &signature_keys);
    Ok((crypto, signature_keys, credential_with_key))
}

/// A fresh key package of the key material, serialized.
fn serialized_key_package(
    crypto: &mut openmls_rust_crypto::OpenMlsRustCrypto,
    signature_keys: &openmls_basic_credential::SignatureKeyPair,
    credential_with_key: &openmls::prelude::CredentialWithKey,
) -> (r: Result<Vec<u8>, Error>)
    ensures
        r matches Ok(b) ==> crate::mls_ops::mls_serialized_key_package_credential(b@) == Some(crate::mls_ops::cwk_credential(*credential_with_key)),
        r matches Err(e) ==> mls_failure(e, "Failed to create key package: "@) || mls_failure(e, "Failed to serialize key package: "@),
{
    let kp = match crate::mls_ops::key_package_build(crypto, signature_keys, CIPHERSUITE, credential_with_key) {
        Ok(kp) => kp,
        Err(t) => return Err(mls_error("Failed to create key package: ", t.as_str())),
    };
    match crate::mls_ops::key_package_to_bytes(&kp) {
        Ok(b) => Ok(b),
        Err(t) => Err(mls_error("Failed to serialize key package: ", t.as_str())),
    }
}

impl PendingMember {
    /// The identity this member will join under.
    pub closed spec fn spec_user_id(&self) -> Seq<char> {
        self.user_id@
    }

    /// The serialized key package.
    pub closed spec fn spec_key_package(&self) -> Seq<u8> {
        self.key_package_bytes@
    }

    /// The member's crypto provider, whose key store holds the key
    /// package's private keys.
    pub closed spec fn spec_crypto(&self) -> openmls_rust_crypto::OpenMlsRustCrypto {
        self.crypto
    }

    /// A new pending member named `user_id`, with a fresh key package.
    pub fn new(user_id: &str) -> (r: Result<PendingMember, Error>)
        ensures
            r matches Ok(p) ==> p.spec_user_id() == user_id@,
            r matches Ok(p) ==> (crate::mls_ops::mls_serialized_key_package_credential(p.spec_key_package()) matches Some(c)
                && crate::mls_ops::credential_user(c) == Some(user_id@)),
            r matches Err(e) ==> e is Mls,
    {
        let (mut crypto, signature_keys, credential_with_key) = member_keys(user_id)?;
        let key_package_bytes = serialized_key_package(&mut crypto, &signature_keys, &credential_with_key)?;
        Ok(PendingMember { user_id: user_id.to_owned(), crypto, signature_keys, credential_with_key, key_package_bytes })
    }

    /// The identity this member will join under.
    pub fn user_id(&self) -> (r: &str)
        ensures
            r@ == self.spec_user_id(),
    {
        self.user_id.as_str()
    }

    /// The serialized key package to send to the group's owner.
    pub fn key_package(&self) -> (r: &[u8])
        ensures
            r@ == self.spec_key_package(),
    {
        self.key_package_bytes.as_slice()
    }

    /// Join the group that `welcome_bytes` welcomes this member to. The
    /// owner is the member at leaf 0, the group's creator. It succeeds
    /// exactly when the bytes are a welcome, joining from it with this
    /// member's key store gives a group, and that group's leaf-0 member
    /// names a user.
    pub fn join(self, welcome_bytes: &[u8]) -> (r: Result<MlsDocumentGroup, Error>)
        ensures
            r matches Ok(g) ==> g.spec_user_id() == self.spec_user_id()
                && owner_of(g.spec_members(), 0) == Some(g.spec_owner_id()),
            (r is Ok) == ((crate::mls_ops::mls_welcome(welcome_bytes@) matches Some(w)
                && crate::mls_ops::mls_join(crate::mls_ops::provider_storage(self.spec_crypto()), w, RATCHET_TREE_EXTENSION) matches Some(grp)
                && owner_of(crate::mls_ops::mls_group_members(grp), 0) is Some)),
            r matches Err(e) ==> e is Mls,
    {
        let welcome = match crate::mls_ops::welcome_from_bytes(welcome_bytes) {
            Err(t) => return Err(mls_error("Failed to deserialize welcome: ", t.as_str())),
            Ok(None) => return Err(Error::Mls("Expected welcome message".to_owned())),
            Ok(Some(w)) => w,
        };
        let mut crypto = self.crypto;
        let group = match crate::mls_ops::group_from_welcome(&mut crypto, welcome, RATCHET_TREE_EXTENSION) {
            Ok(g) => g,
            Err((step, t)) => {
                if step == 0 {
                    return Err(mls_error("Failed to stage welcome: ", t.as_str()));
                } else {
                    return Err(mls_error("Failed to join group: ", t.as_str()));
                }
            },
        };
        let members = crate::mls_ops::group_members(&group);
        let owner_id = owner_identity(&members)?;
        Ok(MlsDocumentGroup {
            user_id: self.user_id,
            owner_id,
            group,
            crypto,
            signature_keys: self.signature_keys,
            credential_with_key: self.credential_with_key,
        })
    }
}

/// An MLS group for a document: the member's identity, the identity of the
/// group's owner (its creator, the only member that may remove others),
/// and the member's MLS state.
pub struct MlsDocumentGroup {
    user_id: String,
    owner_id: String,
    group: openmls::prelude::MlsGroup,
    crypto: openmls_rust_crypto::OpenMlsRustCrypto,
    signature_keys: openmls_basic_credential::SignatureKeyPair,
    credential_with_key: openmls::prelude::CredentialWithKey,
}

impl MlsDocumentGroup {
    /// This member's identity.
    pub closed spec fn spec_user_id(&self) -> Seq<char> {
        self.user_id@
    }

    /// The group owner's identity.
    pub closed spec fn spec_owner_id(&self) -> Seq<char> {
        self.owner_id@
    }

    /// The member's crypto provider, which holds its key store.
    pub closed spec fn spec_crypto(&self) -> openmls_rust_crypto::OpenMlsRustCrypto {
        self.crypto
    }

    /// The group's current epoch.
    pub closed spec fn spec_epoch(&self) -> u64 {
        crate::mls_ops::mls_group_epoch(self.group)
    }

    /// The group's id.
    pub closed spec fn spec_group_id(&self) -> Seq<u8> {
        crate::mls_ops::mls_group_id(self.group)
    }

    /// The public key of the member's signature key pair.
    pub closed spec fn spec_public_key(&self) -> Seq<u8> {
        crate::mls_ops::mls_keys_public(self.signature_keys)
    }

    /// The member's MLS group state.
    pub closed spec fn spec_group(&self) -> openmls::prelude::MlsGroup {
        self.group
    }

    /// The group's members: each one's leaf index and credential.
    pub open spec fn spec_members(&self) -> Seq<(u32, openmls::prelude::Credential)> {
        crate::mls_ops::mls_group_members(self.spec_group())
    }

    /// This member created the group.
    pub open spec fn spec_is_owner(&self) -> bool {
        self.spec_user_id() == self.spec_owner_id()
    }

    /// Create a group with `user_id` as its only member and owner, and a
    /// serialized key package of the same key material. The one member sits
    /// at leaf 0 with a credential naming `user_id`.
    pub fn create(user_id: &str) -> (r: Result<(MlsDocumentGroup, Vec<u8>), Error>)
        ensures
            r matches Ok((g, _)) ==> g.spec_user_id() == user_id@ && g.spec_owner_id() == user_id@ && g.spec_epoch() == 0,
            r matches Ok((g, _)) ==> g.spec_members().len() == 1 && g.spec_members()[0].0 == 0
                && crate::mls_ops::credential_user(g.spec_members()[0].1) == Some(user_id@),
            r matches Ok((_, kp)) ==> (crate::mls_ops::mls_serialized_key_package_credential(kp@) matches Some(c)
                && crate::mls_ops::credential_user(c) == Some(user_id@)),
            r matches Err(e) ==> e is Mls,
    {
        let (mut crypto, signature_keys, credential_with_key) = member_keys(user_id)?;
        let group = match crate::mls_ops::group_new(&mut crypto, &signature_keys, CIPHERSUITE, RATCHET_TREE_EXTENSION, &credential_with_key) {
            Ok(g) => g,
            Err(t) => return Err(mls_error("Failed to create MLS group: ", t.as_str())),
        };
        let key_package = serialized_key_package(&mut crypto, &signature_keys, &credential_with_key)?;
        let g = MlsDocumentGroup {
            user_id: user_id.to_owned(),
            owner_id: user_id.to_owned(),
            group,
            crypto,
            signature_keys,
            credential_with_key,
        };
        Ok((g, key_package))
    }

    /// A pending member named `user_id`, ready to send its key package.
    pub fn generate_key_package(user_id: &str) -> (r: Result<PendingMember, Error>)
        ensures
            r matches Ok(p) ==> p.spec_user_id() == user_id@,
            r matches Ok(p) ==> (crate::mls_ops::mls_serialized_key_package_credential(p.spec_key_package()) matches Some(c)
                && crate::mls_ops::credential_user(c) == Some(user_id@)),
            r matches Err(e) ==> e is Mls,
    {
        PendingMember::new(user_id)
    }

    /// The group's current epoch.
    pub fn epoch(&self) -> (r: u64)
        ensures
            r == self.spec_epoch(),
    {
        crate::mls_ops::group_epoch(&self.group)
    }

    /// This member's identity.
    pub fn user_id(&self) -> (r: &str)
        ensures
            r@ == self.spec_user_id(),
    {
        self.user_id.as_str()
    }

    /// This member created the group.
    pub fn is_owner(&self) -> (r: bool)
        ensures
            r == self.spec_is_owner(),
    {
        str_eq(self.user_id.as_str(), self.owner_id.as_str())
    }

    /// Add the member whose serialized key package is `key_package_bytes`,
    /// merge the commit, and return the serialized commit (for the other
    /// members) and welcome (for the new member). On success the group holds
    /// its members and one more, at a free leaf, with the key package's
    /// credential.
    pub fn add_member(&mut self, key_package_bytes: &[u8]) -> (r: Result<(Vec<u8>, Vec<u8>), Error>)
        requires
            old(self).spec_epoch() < u64::MAX,
        ensures
            final(self).spec_user_id() == old(self).spec_user_id(),
            final(self).spec_owner_id() == old(self).spec_owner_id(),
            r is Ok ==> final(self).spec_epoch() == old(self).spec_epoch() + 1,
            r is Ok ==> adds_key_package_member(old(self).spec_members(), final(self).spec_members(), key_package_bytes@),
            crate::mls_ops::mls_serialized_key_package_credential(key_package_bytes@) is None ==> r is Err,
            r matches Err(e) ==> e is Mls,
    {
        let kp = match crate::mls_ops::key_package_from_bytes(&self.crypto, key_package_bytes, PROTOCOL_VERSION) {
            Ok(kp) => kp,
            Err((step, t)) => {
                if step == 0 {
                    return Err(mls_error("Failed to deserialize key package: ", t.as_str()));
                } else {
                    return Err(mls_error("Failed to validate key package: ", t.as_str()));
                }
            },
        };
        let ghost members0 = self.spec_members();
        let ghost kpg = kp;
        let ghost credential = crate::mls_ops::mls_key_package_credential(kp);
        let (commit, welcome) = match crate::mls_ops::group_add_member(&mut self.group, &mut self.crypto, &self.signature_keys, kp) {
            Ok(m) => m,
            Err(t) => return Err(mls_error("Failed to add member: ", t.as_str())),
        };
        let ghost staged = self.group;
        if let Err(t) = crate::mls_ops::group_merge_pending(&mut self.group, &mut self.crypto) {
            return Err(mls_error("Failed to merge commit: ", t.as_str()));
        }
        proof {
            let leaf = choose|leaf: u32| #[trigger] crate::mls_ops::member_added(
                members0, crate::mls_ops::mls_pending_members(staged), leaf, credential);
            assert(crate::mls_ops::member_added(old(self).spec_members(), self.spec_members(), leaf,
                crate::mls_ops::mls_key_package_credential(kpg)));
        }
        let commit_bytes = match crate::mls_ops::message_to_bytes(&commit) {
            Ok(b) => b,
            Err(t) => return Err(mls_error("Failed to serialize commit: ", t.as_str())),
        };
        let welcome_bytes = match crate::mls_ops::message_to_bytes(&welcome) {
            Ok(b) => b,
            Err(t) => return Err(mls_error("Failed to serialize welcome: ", t.as_str())),
        };
        Ok((commit_bytes, welcome_bytes))
    }

    /// Each member's leaf index and credential identity, in the group's
    /// order.
    fn member_identities(&self) -> (r: Vec<(u32, Result<String, IdentityError>)>)
        ensures
            reads_identities(r@, self.spec_members()),
    {
        let members = crate::mls_ops::group_members(&self.group);
        let mut out: Vec<(u32, Result<String, IdentityError>)> = Vec::new();
        let mut i: usize = 0;
        while i < members.len()
            invariant
                i <= members@.len(),
                out@.len() == i,
                members@ == self.spec_members(),
                forall|j: int| 0 <= j < i ==> #[trigger] out@[j].0 == members@[j].0 && match out@[j].1 {
                    Ok(s) => crate::mls_ops::credential_user(members@[j].1) == Some(s@),
                    Err(_) => crate::mls_ops::credential_user(members@[j].1) is None,
                },
            decreases members@.len() - i,
        {
            let identity = crate::mls_ops::credential_identity(&members[i].1);
            out.push((members[i].0, identity));
            i = i + 1;
        }
        out
    }

    /// The leaf index of the member whose identity is `user_id`, or `None`;
    /// an error if some member's identity cannot be read.
    fn find_member_leaf(&self, user_id: &str) -> (r: Result<Option<u32>, Error>)
        ensures
            match member_lookup(self.spec_members(), user_id@, 0) {
                Some(found) => r == Ok::<Option<u32>, Error>(found),
                None => r matches Err(e) && e is Mls,
            },
    {
        let members = self.member_identities();
        proof {
            lemma_lookup_agrees(members@, self.spec_members(), user_id@, 0);
        }
        match member_leaf(&members, user_id) {
            Ok(found) => Ok(found),
            Err(x) => Err(identity_error(x)),
        }
    }

    /// Owner only: remove the member whose identity is `member_user_id`,
    /// merge the commit, and return the serialized commit for the remaining
    /// members. The owner cannot be removed, and a user who is not a member
    /// cannot be either. On success the group holds every member but the
    /// removed one's leaf.
    pub fn remove_member(&mut self, member_user_id: &str) -> (r: Result<Vec<u8>, Error>)
        requires
            old(self).spec_epoch() < u64::MAX,
        ensures
            final(self).spec_user_id() == old(self).spec_user_id(),
            final(self).spec_owner_id() == old(self).spec_owner_id(),
            !old(self).spec_is_owner() ==> fails_mls(r, "only the group owner may remove members"@),
            old(self).spec_is_owner() && member_user_id@ == old(self).spec_owner_id()
                ==> fails_mls(r, "the owner cannot be removed"@),
            !old(self).spec_is_owner() || member_user_id@ == old(self).spec_owner_id() ==> *final(self) == *old(self),
            r is Ok ==> old(self).spec_is_owner() && member_user_id@ != old(self).spec_owner_id()
                && final(self).spec_epoch() == old(self).spec_epoch() + 1,
            old(self).spec_is_owner() && member_user_id@ != old(self).spec_owner_id()
                && member_lookup(old(self).spec_members(), member_user_id@, 0) == Some(None::<u32>)
                ==> fails_mls(r, member_user_id@ + " is not a member"@) && *final(self) == *old(self),
            old(self).spec_is_owner() && member_user_id@ != old(self).spec_owner_id()
                && member_lookup(old(self).spec_members(), member_user_id@, 0) is None
                ==> r is Err && *final(self) == *old(self),
            r is Ok ==> (member_lookup(old(self).spec_members(), member_user_id@, 0) matches Some(Some(leaf))
                && final(self).spec_members() == old(self).spec_members().filter(|m: (u32, openmls::prelude::Credential)| m.0 != leaf)),
            r matches Err(e) ==> e is Mls,
    {
        if !self.is_owner() {
            return Err(Error::Mls("only the group owner may remove members".to_owned()));
        }
        if str_eq(member_user_id, self.owner_id.as_str()) {
            return Err(Error::Mls("the owner cannot be removed".to_owned()));
        }
        let leaf = match self.find_member_leaf(member_user_id)? {
            Some(leaf) => leaf,
            None => return Err(mls_error(member_user_id, " is not a member")),
        };
        let commit = match crate::mls_ops::group_remove_member(&mut self.group, &mut self.crypto, &self.signature_keys, leaf) {
            Ok(c) => c,
            Err(t) => return Err(mls_error("Failed to remove member: ", t.as_str())),
        };
        if let Err(t) = crate::mls_ops::group_merge_pending(&mut self.group, &mut self.crypto) {
            return Err(mls_error("Failed to merge removal commit: ", t.as_str()));
        }
        match crate::mls_ops::message_to_bytes(&commit) {
            Ok(b) => Ok(b),
            Err(t) => Err(mls_error("Failed to serialize commit: ", t.as_str())),
        }
    }

    /// Encrypt an application message for the group: the result carries
    /// `plaintext` under this member's current sending keys.
    pub fn encrypt(&mut self, plaintext: &[u8]) -> (r: Result<Vec<u8>, Error>)
        ensures
            final(self).spec_user_id() == old(self).spec_user_id(),
            final(self).spec_owner_id() == old(self).spec_owner_id(),
            final(self).spec_epoch() == old(self).spec_epoch(),
            r matches Err(e) ==> mls_failure(e, "Failed to encrypt message: "@) || mls_failure(e, "Failed to serialize ciphertext: "@),
            r matches Ok(c) ==> crate::mls_ops::mls_application_plaintext(old(self).spec_group(), c@) == Some(plaintext@),
    {
        match crate::mls_ops::group_create_message(&mut self.group, &mut self.crypto, &self.signature_keys, plaintext) {
            Ok(b) => Ok(b),
            Err((step, t)) => {
                if step == 0 {
                    Err(mls_error("Failed to encrypt message: ", t.as_str()))
                } else {
                    Err(mls_error("Failed to serialize ciphertext: ", t.as_str()))
                }
            },
        }
    }

    /// Decrypt an application message from the group. A message presented
    /// a second time is a replay: its one-use generation key is gone. The
    /// result is what processing the message gives: its bytes for an
    /// application message, [`Error::Replay`] when the secret was already
    /// used, an MLS error otherwise.
    pub fn decrypt(&mut self, ciphertext: &[u8]) -> (r: Result<Vec<u8>, Error>)
        requires
            old(self).spec_epoch() < u64::MAX,
        ensures
            final(self).spec_user_id() == old(self).spec_user_id(),
            final(self).spec_owner_id() == old(self).spec_owner_id(),
            final(self).spec_epoch() == old(self).spec_epoch(),
            r matches Err(e) ==> e is Mls || e is Replay,
            match crate::mls_ops::mls_protocol_message(ciphertext@) {
                None => r matches Err(e) && e is Mls,
                Some(m) => !crate::mls_ops::mls_meets_key_packages(old(self).spec_group(), m) ==> decrypted(
                    crate::mls_ops::mls_process(old(self).spec_group(), crate::mls_ops::provider_storage(old(self).spec_crypto()), m),
                    r,
                ),
            },
    {
        let message = match crate::mls_ops::protocol_message_from_bytes(ciphertext) {
            Ok(m) => m,
            Err((step, t)) => {
                if step == 0 {
                    return Err(mls_error("Failed to deserialize ciphertext: ", t.as_str()));
                } else {
                    return Err(Error::Mls("Expected protocol message".to_owned()));
                }
            },
        };
        let processed = match crate::mls_ops::group_process_message(&mut self.group, &mut self.crypto, message) {
            Ok(p) => p,
            Err((replay, t)) => {
                if replay {
                    return Err(Error::Replay);
                } else {
                    return Err(mls_error("Failed to process message: ", t.as_str()));
                }
            },
        };
        application_bytes(crate::mls_ops::processed_content(processed))
    }

    /// Process a commit from another member and merge it. A commit that
    /// removes anyone is merged only if the owner made it, and never if it
    /// removes the owner; a merged commit moves the group to the next epoch.
    pub fn process_commit(&mut self, commit_bytes: &[u8]) -> (r: Result<(), Error>)
        requires
            old(self).spec_epoch() < u64::MAX,
        ensures
            final(self).spec_user_id() == old(self).spec_user_id(),
            final(self).spec_owner_id() == old(self).spec_owner_id(),
            r is Ok ==> final(self).spec_epoch() == old(self).spec_epoch() + 1,
            r matches Err(e) ==> e is Mls,
            crate::mls_ops::mls_protocol_message(commit_bytes@) matches Some(m)
                ==> (!crate::mls_ops::mls_meets_key_packages(old(self).spec_group(), m)
                ==> (crate::mls_ops::mls_process(old(self).spec_group(), crate::mls_ops::provider_storage(old(self).spec_crypto()), m) matches Ok(p)
                ==> (crate::mls_ops::mls_content(p) matches MessageContent::Commit(c)
                ==> (crate::mls_ops::credential_user(crate::mls_ops::mls_sender(p)) matches Some(committer)
                ==> if policy_allows(crate::mls_ops::mls_removed_leaves(c), committer, old(self).spec_owner_id()) {
                    r is Ok || (r matches Err(e) && mls_failure(e, "Failed to merge staged commit: "@))
                } else {
                    r is Err && final(self).spec_epoch() == old(self).spec_epoch()
                        && final(self).spec_members() == old(self).spec_members()
                })))),
    {
        let message = match crate::mls_ops::protocol_message_from_bytes(commit_bytes) {
            Ok(m) => m,
            Err((step, t)) => {
                if step == 0 {
                    return Err(mls_error("Failed to deserialize commit: ", t.as_str()));
                } else {
                    return Err(Error::Mls("Expected protocol message".to_owned()));
                }
            },
        };
        let processed = match crate::mls_ops::group_process_message(&mut self.group, &mut self.crypto, message) {
            Ok(p) => p,
            Err((_, t)) => return Err(mls_error("Failed to process commit: ", t.as_str())),
        };
        let sender = crate::mls_ops::processed_sender(&processed);
        let committer = match crate::mls_ops::credential_identity(&sender) {
            Ok(id) => id,
            Err(x) => return Err(identity_error(x)),
        };
        let staged = match crate::mls_ops::processed_content(processed) {
            MessageContent::Commit(c) => c,
            _ => return Err(Error::Mls("Expected commit message".to_owned())),
        };
        let removed = crate::mls_ops::commit_removed_leaves(&staged);
        commit_policy(removed.as_slice(), committer.as_str(), self.owner_id.as_str())?;
        match crate::mls_ops::group_merge_staged(&mut self.group, &mut self.crypto, staged) {
            Ok(()) => Ok(()),
            Err(t) => Err(mls_error("Failed to merge staged commit: ", t.as_str())),
        }
    }

    /// The 32-byte secret of this epoch's subscribe signing key: the MLS
    /// exporter secret under the subscribe-capability label, with an empty
    /// context, which every member derives alike and which changes every
    /// epoch; `None` when exporting fails or gives another length.
    pub open spec fn spec_subscribe_secret(&self) -> Option<Seq<u8>> {
        match crate::mls_ops::mls_exported_secret(self.spec_group(), subscribe_export_label(), Seq::empty(), 32) {
            Some(s) => if s.len() == 32 { Some(s) } else { None },
            None => None,
        }
    }

    /// The 32-byte secret of this epoch's subscribe signing key.
    fn subscribe_seed(&self) -> (r: Result<[u8; 32], Error>)
        ensures
            match self.spec_subscribe_secret() {
                Some(s) => r matches Ok(a) && a@ == s,
                None => r matches Err(e) && e is Mls,
            },
    {
        let no_context: [u8; 0] = [];
        assert(no_context@ =~= Seq::<u8>::empty());
        let label = "obsidian-ee/subscribe-capability/v1";
        assert(label@ == subscribe_export_label());
        let secret = match crate::mls_ops::group_export_secret(&self.group, &self.crypto, label, no_context.as_slice(), 32) {
            Ok(s) => s,
            Err(t) => return Err(mls_error("Failed to export subscribe secret: ", t.as_str())),
        };
        if secret.len() != 32 {
            return Err(Error::Mls("Exported subscribe secret was not 32 bytes".to_owned()));
        }
        Ok(to_array32(secret.as_slice()))
    }

    /// The `Ed25519` verifying key of this epoch's subscribe signing key.
    pub fn subscribe_verifying_key(&self) -> (r: Result<[u8; 32], Error>)
        ensures
            r matches Ok(k) ==> exists|seed: Seq<u8>| seed.len() == 32 && k@ == #[trigger] ed25519_public_key(seed),
            match self.spec_subscribe_secret() {
                Some(s) => r matches Ok(k) && k@ == ed25519_public_key(s),
                None => r matches Err(e) && e is Mls,
            },
    {
        let seed = self.subscribe_seed()?;
        Ok(public_key(&seed))
    }

    /// Mint a capability naming `user_id` for `doc_id` at the current epoch,
    /// valid until `now_unix + ttl_secs` (saturating), signed with this
    /// epoch's subscribe key. It verifies against those expectations, under
    /// the verifying key [`Self::subscribe_verifying_key`] reports for the
    /// same group state, at any time up to its expiry (unless signing drew
    /// the zero nonce).
    pub fn mint_subscribe_capability(&self, user_id: &str, doc_id: &str, now_unix: u64, ttl_secs: u64) -> (r: Result<SubscribeCapability, Error>)
        requires
            fits_u32_prefix(user_id@),
            fits_u32_prefix(doc_id@),
        ensures
            r matches Ok(cap) ==> minted_by_a_member(user_id@, doc_id@, saturating_sum(now_unix, ttl_secs), cap),
            match self.spec_subscribe_secret() {
                Some(s) => r matches Ok(cap) && cap.epoch == self.spec_epoch()
                    && minted_capability(s, user_id@, doc_id@, cap.epoch, saturating_sum(now_unix, ttl_secs), cap)
                    && (!ed25519_zero_nonce(s, capability_message(user_id@, doc_id@, cap.epoch, saturating_sum(now_unix, ttl_secs)))
                        ==> forall|now: u64| now <= saturating_sum(now_unix, ttl_secs)
                            ==> #[trigger] capability_check(cap, ed25519_public_key(s), user_id@, doc_id@, cap.epoch, now)
                                == Ok::<(), CapabilityError>(())),
                None => r matches Err(e) && e is Mls,
            },
    {
        let seed = self.subscribe_seed()?;
        let expiry = now_unix.saturating_add(ttl_secs);
        let epoch = self.epoch();
        let cap = sign_subscribe_capability(&seed, user_id, doc_id, epoch, expiry);
        proof {
            let s = seed@;
            assert(s.len() == 32 && minted_capability(s, user_id@, doc_id@, cap.epoch, saturating_sum(now_unix, ttl_secs), cap));
        }
        Ok(cap)
    }

    /// Sign a registration self-proof for `doc_id` at the current epoch
    /// with this epoch's subscribe signing key. It verifies under the key
    /// [`Self::subscribe_verifying_key`] reports for the same group state
    /// (unless signing drew the zero nonce).
    pub fn sign_doc_key_proof(&self, doc_id: &str) -> (r: Result<Vec<u8>, Error>)
        requires
            fits_u32_prefix(doc_id@),
        ensures
            r matches Ok(p) ==> p@.len() == 64 && exists|seed: Seq<u8>, epoch: u64|
                seed.len() == 32 && p@ == #[trigger] ed25519_signature(seed, register_message(doc_id@, epoch)),
            match self.spec_subscribe_secret() {
                Some(s) => r matches Ok(p) && p@ == ed25519_signature(s, register_message(doc_id@, self.spec_epoch()))
                    && (!ed25519_zero_nonce(s, register_message(doc_id@, self.spec_epoch()))
                        ==> signature_check(ed25519_public_key(s), register_message(doc_id@, self.spec_epoch()), p@)
                            == Ok::<(), CapabilityError>(())),
                None => r matches Err(e) && e is Mls,
            },
    {
        let seed = self.subscribe_seed()?;
        let epoch = self.epoch();
        let proof = sign_doc_key_proof(&seed, doc_id, epoch);
        assert(proof@ == ed25519_signature(seed@, register_message(doc_id@, epoch)));
        Ok(proof)
    }

    /// The group's id bytes.
    pub(crate) fn group_id_bytes(&self) -> (r: Vec<u8>)
        ensures
            r@ == self.spec_group_id(),
    {
        crate::mls_ops::group_id_bytes(&self.group)
    }

    /// The signature key pair's scheme number.
    pub(crate) fn signature_scheme(&self) -> (r: u16)
        ensures
            crate::mls_ops::known_signature_scheme(r),
    {
        crate::mls_ops::signature_scheme(&self.signature_keys)
    }

    /// The signature key pair's public key.
    pub(crate) fn signature_public_key(&self) -> (r: Vec<u8>)
        ensures
            r@ == self.spec_public_key(),
    {
        crate::mls_ops::signature_public_key(&self.signature_keys)
    }

    /// The member's crypto provider.
    pub(crate) fn crypto_provider(&self) -> (r: &openmls_rust_crypto::OpenMlsRustCrypto)
        ensures
            *r == self.spec_crypto(),
    {
        &self.crypto
    }

    /// A group of the member `user_id` from restored parts; the owner is the
    /// member at leaf 0.
    pub(crate) fn from_parts(
        user_id: String,
        group: openmls::prelude::MlsGroup,
        crypto: openmls_rust_crypto::OpenMlsRustCrypto,
        signature_keys: openmls_basic_credential::SignatureKeyPair,
        credential_with_key: openmls::prelude::CredentialWithKey,
    ) -> (r: Result<MlsDocumentGroup, Error>)
        ensures
            r matches Ok(g) ==> g.spec_user_id() == user_id@ && g.spec_epoch() == crate::mls_ops::mls_group_epoch(group)
                && g.spec_crypto() == crypto && g.spec_group() == group,
            (r is Ok) == (owner_of(crate::mls_ops::mls_group_members(group), 0) is Some),
            r matches Err(e) ==> e is Mls,
    {
        let members = crate::mls_ops::group_members(&group);
        let owner_id = owner_identity(&members)?;
        Ok(MlsDocumentGroup { user_id, owner_id, group, crypto, signature_keys, credential_with_key })
    }
}

/// The label the subscribe signing key's secret is exported under.
pub open spec fn subscribe_export_label() -> Seq<char> {
    "obsidian-ee/subscribe-capability/v1"@
}

/// `cap` names `user_id` and `doc_id`, expires at `expiry_unix`, and is
/// signed with some 32-byte subscribe key at the epoch it records.
pub open spec fn minted_by_a_member(user_id: Seq<char>, doc_id: Seq<char>, expiry_unix: u64, cap: SubscribeCapability) -> bool {
    exists|seed: Seq<u8>| seed.len() == 32 && #[trigger] minted_capability(seed, user_id, doc_id, cap.epoch, expiry_unix, cap)
}

/// `a + b`, or `u64::MAX` where the sum does not fit.
pub open spec fn saturating_sum(a: u64, b: u64) -> u64 {
    if a + b > u64::MAX { u64::MAX } else { (a + b) as u64 }
}

} // verus!
