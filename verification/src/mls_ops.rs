//! The MLS operations this library performs, each a call into `openmls`.
//!
//! Every item here is trusted: it makes one `openmls` operation (with the
//! (de)serialization around it) and converts its error to the error's
//! `Debug` text. Key generation, group state and message processing are
//! `openmls`'s own: results that depend only on their inputs are named
//! (uninterpreted spec functions), with the few facts about them that the
//! source shows, and the library's verified code decides what to do with
//! each outcome. Fresh keys and outgoing messages draw randomness and get
//! no name.

use vstd::prelude::*;

use openmls::prelude::tls_codec::{Deserialize, Serialize};
use openmls::prelude::OpenMlsProvider;

verus! {

/// An `openmls` crypto and storage provider.
#[verifier::external_type_specification]
#[verifier::external_body]
pub struct ExProvider(openmls_rust_crypto::OpenMlsRustCrypto);

/// A signature key pair.
#[verifier::external_type_specification]
#[verifier::external_body]
pub struct ExSignatureKeyPair(openmls_basic_credential::SignatureKeyPair);

/// A credential with its signature key.
#[verifier::external_type_specification]
#[verifier::external_body]
pub struct ExCredentialWithKey(openmls::prelude::CredentialWithKey);

/// An MLS group.
#[verifier::external_type_specification]
#[verifier::external_body]
pub struct ExMlsGroup(openmls::prelude::MlsGroup);

/// A validated key package.
#[verifier::external_type_specification]
#[verifier::external_body]
pub struct ExKeyPackage(openmls::prelude::KeyPackage);

/// A welcome message.
#[verifier::external_type_specification]
#[verifier::external_body]
pub struct ExWelcome(openmls::prelude::Welcome);

/// An outgoing MLS message.
#[verifier::external_type_specification]
#[verifier::external_body]
pub struct ExMlsMessageOut(openmls::prelude::MlsMessageOut);

/// An incoming protocol message.
#[verifier::external_type_specification]
#[verifier::external_body]
pub struct ExProtocolMessage(openmls::prelude::ProtocolMessage);

/// A processed incoming message.
#[verifier::external_type_specification]
#[verifier::external_body]
pub struct ExProcessedMessage(openmls::prelude::ProcessedMessage);

/// A staged commit awaiting merge.
#[verifier::external_type_specification]
#[verifier::external_body]
pub struct ExStagedCommit(openmls::prelude::StagedCommit);

/// A member's credential.
#[verifier::external_type_specification]
#[verifier::external_body]
pub struct ExCredential(openmls::prelude::Credential);

/// The content of a processed message.
pub enum MessageContent {
    /// An application message's bytes.
    Application(Vec<u8>),
    /// A standalone proposal.
    Proposal,
    /// A commit, staged.
    Commit(openmls::prelude::StagedCommit),
    /// An external join proposal.
    ExternalJoinProposal,
}

/// The contents of a provider's key store: the key/value map of its
/// `MemoryStorage`.
pub uninterp spec fn provider_storage(p: openmls_rust_crypto::OpenMlsRustCrypto) -> Map<Seq<u8>, Seq<u8>>;

/// A fresh provider (`OpenMlsRustCrypto::default`).
#[verifier::external_body]
pub(crate) fn provider_new() -> openmls_rust_crypto::OpenMlsRustCrypto {
    openmls_rust_crypto::OpenMlsRustCrypto::default()
}

/// `SignatureKeyPair::new` for the signature algorithm of the ciphersuite
/// numbered `suite`, or the error's text.
#[verifier::external_body]
pub(crate) fn signature_keys_new(suite: u16) -> Result<openmls_basic_credential::SignatureKeyPair, String> {
    let cs = openmls::prelude::Ciphersuite::try_from(suite).map_err(|e| format!("{e:?}"))?;
    openmls_basic_credential::SignatureKeyPair::new(cs.signature_algorithm()).map_err(|e| format!("{e:?}"))
}

/// `SignatureKeyPair::store` into the provider's storage.
#[verifier::external_body]
pub(crate) fn signature_keys_store(
    keys: &openmls_basic_credential::SignatureKeyPair,
    crypto: &mut openmls_rust_crypto::OpenMlsRustCrypto,
) -> Result<(), String> {
    keys.store(crypto.storage()).map_err(|e| format!("{e:?}"))
}

/// The user a credential names: `Some(s)` when it is a basic credential
/// whose identity bytes are the UTF-8 encoding of `s`, `None` otherwise
/// (another credential type, or an identity that is not UTF-8).
pub uninterp spec fn credential_user(c: openmls::prelude::Credential) -> Option<Seq<char>>;

/// The `credential` field of a credential with its key.
pub uninterp spec fn cwk_credential(c: openmls::prelude::CredentialWithKey) -> openmls::prelude::Credential;

/// A `BasicCredential` of the UTF-8 bytes of `identity` with the key pair's
/// public key. Claims what the source shows: converting a basic credential
/// to a `Credential` keeps its identity bytes and marks it basic, so the
/// credential names `identity`.
#[verifier::external_body]
pub(crate) fn credential_with_key(
    identity: &str,
    keys: &openmls_basic_credential::SignatureKeyPair,
) -> (r: openmls::prelude::CredentialWithKey)
    ensures
        credential_user(cwk_credential(r)) == Some(identity@),
{
    let credential = openmls::prelude::BasicCredential::new(identity.as_bytes().to_vec());
    openmls::prelude::CredentialWithKey { credential: credential.into(), signature_key: keys.public().into() }
}

/// The epoch of a group: the epoch field of its group context
/// (`MlsGroup::epoch`).
pub uninterp spec fn mls_group_epoch(group: openmls::prelude::MlsGroup) -> u64;

/// Whether a group holds a pending commit of its own
/// (`MlsGroupState::PendingCommit`), which `merge_pending_commit` merges.
pub uninterp spec fn mls_group_pending(group: openmls::prelude::MlsGroup) -> bool;

/// A group's members as `MlsGroup::members` lists them: each one's leaf
/// index and credential, in leaf order.
pub uninterp spec fn mls_group_members(group: openmls::prelude::MlsGroup) -> Seq<(u32, openmls::prelude::Credential)>;

/// The members a group's pending commit leaves it with: its staged tree's
/// members, which `merge_pending_commit` installs.
pub uninterp spec fn mls_pending_members(group: openmls::prelude::MlsGroup) -> Seq<(u32, openmls::prelude::Credential)>;

/// `MlsGroup::new` with the ciphersuite numbered `suite` and the ratchet
/// tree extension on when `ratchet_tree_extension`, or the error's text. Claims what the source shows: a
/// new group starts at epoch 0 with no pending commit, its creator the one
/// member, at leaf 0.
#[verifier::external_body]
pub(crate) fn group_new(
    crypto: &mut openmls_rust_crypto::OpenMlsRustCrypto,
    keys: &openmls_basic_credential::SignatureKeyPair,
    suite: u16,
    ratchet_tree_extension: bool,
    credential: &openmls::prelude::CredentialWithKey,
) -> (r: Result<openmls::prelude::MlsGroup, String>)
    ensures
        r matches Ok(g) ==> mls_group_epoch(g) == 0 && !mls_group_pending(g)
            && mls_group_members(g) == seq![(0u32, cwk_credential(*credential))],
{
    let cs = openmls::prelude::Ciphersuite::try_from(suite).map_err(|e| format!("{e:?}"))?;
    let config = openmls::prelude::MlsGroupCreateConfig::builder().ciphersuite(cs).use_ratchet_tree_extension(ratchet_tree_extension).build();
    openmls::prelude::MlsGroup::new(crypto, keys, &config, credential.clone()).map_err(|e| format!("{e:?}"))
}

/// `KeyPackage::builder().build` for the ciphersuite numbered `suite`, or
/// the error's text. Claims what the source shows: the key package's leaf
/// node carries the given credential.
#[verifier::external_body]
pub(crate) fn key_package_build(
    crypto: &mut openmls_rust_crypto::OpenMlsRustCrypto,
    keys: &openmls_basic_credential::SignatureKeyPair,
    suite: u16,
    credential: &openmls::prelude::CredentialWithKey,
) -> (r: Result<openmls::prelude::KeyPackage, String>)
    ensures
        r matches Ok(kp) ==> mls_key_package_credential(kp) == cwk_credential(*credential),
{
    let cs = openmls::prelude::Ciphersuite::try_from(suite).map_err(|e| format!("{e:?}"))?;
    openmls::prelude::KeyPackage::builder()
        .build(cs, crypto, keys, credential.clone())
        .map(|bundle| bundle.key_package().clone())
        .map_err(|e| format!("{e:?}"))
}

/// TLS serialization of a key package, or the error's text. Claims that the
/// bytes deserialize again to a key package with the same leaf node
/// credential (TLS encoding round-trips).
#[verifier::external_body]
pub(crate) fn key_package_to_bytes(kp: &openmls::prelude::KeyPackage) -> (r: Result<Vec<u8>, String>)
    ensures
        r matches Ok(b) ==> mls_serialized_key_package_credential(b@) == Some(mls_key_package_credential(*kp)),
{
    kp.tls_serialize_detached().map_err(|e| format!("{e:?}"))
}

/// The credential of the leaf node of the key package that `bytes`
/// deserialize to (`KeyPackageIn::tls_deserialize_exact`), or `None` when
/// they do not deserialize.
pub uninterp spec fn mls_serialized_key_package_credential(bytes: Seq<u8>) -> Option<openmls::prelude::Credential>;

/// The credential of a key package's leaf node.
pub uninterp spec fn mls_key_package_credential(kp: openmls::prelude::KeyPackage) -> openmls::prelude::Credential;

/// `new` is `old` with one more member at `leaf`, a leaf none of `old`
/// holds, whose credential is `credential`.
pub open spec fn member_added(
    old: Seq<(u32, openmls::prelude::Credential)>,
    new: Seq<(u32, openmls::prelude::Credential)>,
    leaf: u32,
    credential: openmls::prelude::Credential,
) -> bool {
    &&& forall|i: int| 0 <= i < old.len() ==> #[trigger] old[i].0 != leaf
    &&& new.len() == old.len() + 1
    &&& forall|m: (u32, openmls::prelude::Credential)| #[trigger] new.contains(m) <==> (old.contains(m) || m == (leaf, credential))
}

/// TLS deserialization (`KeyPackageIn::tls_deserialize_exact`, failing with
/// step 0) and validation (`KeyPackageIn::validate` for the protocol
/// version numbered `version`, failing with step 1) of a key package.
/// Claims what the source shows: bytes that do not deserialize fail, and a
/// key package that validates is the one deserialized, with its leaf
/// node's credential. Whether validation succeeds is not named: it checks
/// the leaf node's lifetime against the clock.
#[verifier::external_body]
pub(crate) fn key_package_from_bytes(
    crypto: &openmls_rust_crypto::OpenMlsRustCrypto,
    bytes: &[u8],
    version: u16,
) -> (r: Result<openmls::prelude::KeyPackage, (u8, String)>)
    ensures
        mls_serialized_key_package_credential(bytes@) is None ==> r is Err,
        r matches Ok(kp) ==> mls_serialized_key_package_credential(bytes@) == Some(mls_key_package_credential(kp)),
{
    let kp_in = openmls::prelude::KeyPackageIn::tls_deserialize_exact(bytes).map_err(|e| (0u8, format!("{e:?}")))?;
    kp_in.validate(crypto.crypto(), openmls::prelude::ProtocolVersion::from(version)).map_err(|e| (1u8, format!("{e:?}")))
}

/// The group's epoch (`MlsGroup::epoch`, read as a `u64`).
#[verifier::external_body]
pub(crate) fn group_epoch(group: &openmls::prelude::MlsGroup) -> (r: u64)
    ensures
        r == mls_group_epoch(*group),
{
    group.epoch().as_u64()
}

/// `MlsGroup::add_members` of one key package: the commit and the welcome,
/// or the error's text. Claims what the source shows: the epoch is kept
/// (the commit is only staged; staging computes the next epoch, so the
/// current one must not be the last), and on success the commit is pending
/// and its staged tree adds the key package's leaf at a free leaf (the
/// first blank one, or a new one at the right), the other members kept
/// with their credentials.
#[verifier::external_body]
pub(crate) fn group_add_member(
    group: &mut openmls::prelude::MlsGroup,
    crypto: &mut openmls_rust_crypto::OpenMlsRustCrypto,
    keys: &openmls_basic_credential::SignatureKeyPair,
    kp: openmls::prelude::KeyPackage,
) -> (r: Result<(openmls::prelude::MlsMessageOut, openmls::prelude::MlsMessageOut), String>)
    requires
        mls_group_epoch(*old(group)) < u64::MAX,
    ensures
        mls_group_epoch(*final(group)) == mls_group_epoch(*old(group)),
        r is Ok ==> mls_group_pending(*final(group)),
        r is Ok ==> exists|leaf: u32|
            #[trigger] member_added(mls_group_members(*old(group)), mls_pending_members(*final(group)), leaf, mls_key_package_credential(kp)),
{
    group.add_members(crypto, keys, &[kp]).map(|(commit, welcome, _)| (commit, welcome)).map_err(|e| format!("{e:?}"))
}

/// `MlsGroup::remove_members` of the member at leaf `leaf`: the commit, or
/// the error's text. Claims what the source shows: the epoch is kept (the
/// commit is only staged, at the next epoch), and on success the commit is
/// pending and its staged tree holds every member but the one at `leaf`,
/// in the same order and with the same credentials.
#[verifier::external_body]
pub(crate) fn group_remove_member(
    group: &mut openmls::prelude::MlsGroup,
    crypto: &mut openmls_rust_crypto::OpenMlsRustCrypto,
    keys: &openmls_basic_credential::SignatureKeyPair,
    leaf: u32,
) -> (r: Result<openmls::prelude::MlsMessageOut, String>)
    requires
        mls_group_epoch(*old(group)) < u64::MAX,
    ensures
        mls_group_epoch(*final(group)) == mls_group_epoch(*old(group)),
        r is Ok ==> mls_group_pending(*final(group)),
        r is Ok ==> mls_pending_members(*final(group))
            == mls_group_members(*old(group)).filter(|m: (u32, openmls::prelude::Credential)| m.0 != leaf),
{
    group
        .remove_members(crypto, keys, &[openmls::prelude::LeafNodeIndex::new(leaf)])
        .map(|(commit, _, _)| commit)
        .map_err(|e| format!("{e:?}"))
}

/// `MlsGroup::merge_pending_commit`, or the error's text. Claims what the
/// source shows of a success: a pending commit, staged at the next epoch,
/// is merged and the group moves to that epoch and its staged members;
/// without one nothing changes.
#[verifier::external_body]
pub(crate) fn group_merge_pending(
    group: &mut openmls::prelude::MlsGroup,
    crypto: &mut openmls_rust_crypto::OpenMlsRustCrypto,
) -> (r: Result<(), String>)
    ensures
        r is Ok && mls_group_pending(*old(group)) ==> mls_group_epoch(*final(group)) == mls_group_epoch(*old(group)) + 1
            && !mls_group_pending(*final(group)) && mls_group_members(*final(group)) == mls_pending_members(*old(group)),
        r is Ok && !mls_group_pending(*old(group)) ==> *final(group) == *old(group),
{
    group.merge_pending_commit(crypto).map_err(|e| format!("{e:?}"))
}

/// TLS serialization of an outgoing message, or the error's text.
#[verifier::external_body]
pub(crate) fn message_to_bytes(m: &openmls::prelude::MlsMessageOut) -> Result<Vec<u8>, String> {
    m.tls_serialize_detached().map_err(|e| format!("{e:?}"))
}

/// The welcome that `bytes` serializes: `Some` when they deserialize as an
/// `MlsMessageIn` whose body is a welcome.
pub uninterp spec fn mls_welcome(bytes: Seq<u8>) -> Option<openmls::prelude::Welcome>;

/// TLS deserialization of an incoming message (`MlsMessageIn`), then its
/// welcome body: `Ok(None)` when it is another kind of message. Claims that
/// the welcome found is the named one for the bytes.
#[verifier::external_body]
pub(crate) fn welcome_from_bytes(bytes: &[u8]) -> (r: Result<Option<openmls::prelude::Welcome>, String>)
    ensures
        match r {
            Ok(Some(w)) => mls_welcome(bytes@) == Some(w),
            _ => mls_welcome(bytes@) is None,
        },
{
    let m = openmls::prelude::MlsMessageIn::tls_deserialize_exact(bytes).map_err(|e| format!("{e:?}"))?;
    match m.extract() {
        openmls::prelude::MlsMessageBodyIn::Welcome(w) => Ok(Some(w)),
        _ => Ok(None),
    }
}

/// The group that joining from `welcome` with the key store `storage`
/// gives (the ratchet tree extension on when `ratchet_tree_extension`), or
/// `None` when staging or building the group fails.
pub uninterp spec fn mls_join(storage: Map<Seq<u8>, Seq<u8>>, welcome: openmls::prelude::Welcome, ratchet_tree_extension: bool) -> Option<openmls::prelude::MlsGroup>;

/// Join a group from a welcome (`StagedWelcome::new_from_welcome`, with the
/// ratchet tree extension on when `ratchet_tree_extension`, failing with
/// step 0, then `into_group`, failing with step 1). Claims that the outcome
/// is the named one for the provider's key store: staging decrypts the
/// welcome with the stored key package's keys and draws no randomness.
#[verifier::external_body]
pub(crate) fn group_from_welcome(
    crypto: &mut openmls_rust_crypto::OpenMlsRustCrypto,
    welcome: openmls::prelude::Welcome,
    ratchet_tree_extension: bool,
) -> (r: Result<openmls::prelude::MlsGroup, (u8, String)>)
    ensures
        match r {
            Ok(g) => mls_join(provider_storage(*old(crypto)), welcome, ratchet_tree_extension) == Some(g),
            Err(_) => mls_join(provider_storage(*old(crypto)), welcome, ratchet_tree_extension) is None,
        },
{
    let config = openmls::prelude::MlsGroupJoinConfig::builder().use_ratchet_tree_extension(ratchet_tree_extension).build();
    let staged = openmls::prelude::StagedWelcome::new_from_welcome(crypto, &config, welcome, None)
        .map_err(|e| (0u8, format!("{e:?}")))?;
    staged.into_group(crypto).map_err(|e| (1u8, format!("{e:?}")))
}

/// The group's members (`MlsGroup::members`): each one's leaf index and
/// credential, in the order the group lists them.
#[verifier::external_body]
pub(crate) fn group_members(group: &openmls::prelude::MlsGroup) -> (r: Vec<(u32, openmls::prelude::Credential)>)
    ensures
        r@ == mls_group_members(*group),
{
    group.members().map(|m| (m.index.u32(), m.credential)).collect()
}

/// The identity of a basic credential read as UTF-8
/// (`BasicCredential::try_from`, failing with step 0, then
/// `String::from_utf8`, failing with step 1), or the error's text. Claims
/// that it is read exactly when the credential names a user, and is that
/// user.
#[verifier::external_body]
pub(crate) fn credential_identity(c: &openmls::prelude::Credential) -> (r: Result<String, (u8, String)>)
    ensures
        match r {
            Ok(s) => credential_user(*c) == Some(s@),
            Err(_) => credential_user(*c) is None,
        },
{
    let basic = openmls::prelude::BasicCredential::try_from(c.clone()).map_err(|e| (0u8, format!("{e:?}")))?;
    String::from_utf8(basic.identity().to_vec()).map_err(|e| (1u8, format!("{e:?}")))
}

/// The protocol message that `bytes` serialize, or `None` when they do not
/// deserialize as an `MlsMessageIn` that converts to one.
pub uninterp spec fn mls_protocol_message(bytes: Seq<u8>) -> Option<openmls::prelude::ProtocolMessage>;

/// TLS deserialization of an incoming message (step 0) and its conversion
/// to a protocol message (`try_into_protocol_message`, step 1). Claims that
/// the message is the named one for the bytes.
#[verifier::external_body]
pub(crate) fn protocol_message_from_bytes(bytes: &[u8]) -> (r: Result<openmls::prelude::ProtocolMessage, (u8, String)>)
    ensures
        match r {
            Ok(m) => mls_protocol_message(bytes@) == Some(m),
            Err(_) => mls_protocol_message(bytes@) is None,
        },
{
    let m = openmls::prelude::MlsMessageIn::tls_deserialize_exact(bytes).map_err(|e| (0u8, format!("{e:?}")))?;
    m.try_into_protocol_message().map_err(|e| (1u8, format!("{e:?}")))
}

/// What `MlsGroup::process_message` makes of `message` in the group
/// `group` with the key store `storage`, for a message that carries no key
/// package to validate: the processed message, or whether the failure is
/// the secret tree's `SecretReuseError` (a replay).
pub uninterp spec fn mls_process(
    group: openmls::prelude::MlsGroup,
    storage: Map<Seq<u8>, Seq<u8>>,
    message: openmls::prelude::ProtocolMessage,
) -> Result<openmls::prelude::ProcessedMessage, bool>;

/// Whether processing `message` in `group` validates key packages: the
/// message carries add proposals, and `KeyPackageIn::validate` checks each
/// key package's lifetime against the clock, so that outcome is not a
/// function of the arguments.
pub uninterp spec fn mls_meets_key_packages(group: openmls::prelude::MlsGroup, message: openmls::prelude::ProtocolMessage) -> bool;

/// The content of a processed message (`ProcessedMessage::into_content`).
pub uninterp spec fn mls_content(p: openmls::prelude::ProcessedMessage) -> MessageContent;

/// The epoch a staged commit moves its group to: the epoch of its staged
/// group context.
pub uninterp spec fn mls_staged_epoch(c: openmls::prelude::StagedCommit) -> u64;

/// `MlsGroup::process_message`; an error says whether it is the secret
/// tree's `SecretReuseError` (a replay) and gives its text. Claims what the
/// source shows: for a message that carries no key package (whose lifetime
/// validation reads the clock), the outcome is the named one for the group,
/// its key store and the message (processing draws no randomness); processing never
/// changes the epoch or the members (the ratchet tree changes only when a
/// staged commit is merged), and a commit is staged at the next one (staging
/// increments the epoch, so the current one must not be the last).
#[verifier::external_body]
pub(crate) fn group_process_message(
    group: &mut openmls::prelude::MlsGroup,
    crypto: &mut openmls_rust_crypto::OpenMlsRustCrypto,
    message: openmls::prelude::ProtocolMessage,
) -> (r: Result<openmls::prelude::ProcessedMessage, (bool, String)>)
    requires
        mls_group_epoch(*old(group)) < u64::MAX,
    ensures
        mls_group_epoch(*final(group)) == mls_group_epoch(*old(group)),
        mls_group_members(*final(group)) == mls_group_members(*old(group)),
        !mls_meets_key_packages(*old(group), message) ==> match r {
            Ok(p) => mls_process(*old(group), provider_storage(*old(crypto)), message) == Ok::<openmls::prelude::ProcessedMessage, bool>(p),
            Err((replay, _)) => mls_process(*old(group), provider_storage(*old(crypto)), message) == Err::<openmls::prelude::ProcessedMessage, bool>(replay),
        },
        r matches Ok(p) ==> (mls_content(p) matches MessageContent::Commit(c)
            ==> mls_staged_epoch(c) == mls_group_epoch(*old(group)) + 1),
{
    group.process_message(crypto, message).map_err(|e| {
        let replay = matches!(
            e,
            openmls::prelude::ProcessMessageError::ValidationError(
                openmls::prelude::ValidationError::UnableToDecrypt(
                    openmls::framing::errors::MessageDecryptionError::SecretTreeError(
                        openmls::framing::errors::SecretTreeError::SecretReuseError
                    )
                )
            )
        );
        (replay, format!("{e:?}"))
    })
}

/// The credential of a processed message's sender.
pub uninterp spec fn mls_sender(p: openmls::prelude::ProcessedMessage) -> openmls::prelude::Credential;

/// The credential of a processed message's sender
/// (`ProcessedMessage::credential`).
#[verifier::external_body]
pub(crate) fn processed_sender(p: &openmls::prelude::ProcessedMessage) -> (r: openmls::prelude::Credential)
    ensures
        r == mls_sender(*p),
{
    p.credential().clone()
}

/// The content of a processed message (`ProcessedMessage::into_content`),
/// one variant for each of the crate's.
#[verifier::external_body]
pub(crate) fn processed_content(p: openmls::prelude::ProcessedMessage) -> (r: MessageContent)
    ensures
        r == mls_content(p),
{
    match p.into_content() {
        openmls::prelude::ProcessedMessageContent::ApplicationMessage(m) => MessageContent::Application(m.into_bytes()),
        openmls::prelude::ProcessedMessageContent::ProposalMessage(_) => MessageContent::Proposal,
        openmls::prelude::ProcessedMessageContent::StagedCommitMessage(c) => MessageContent::Commit(*c),
        openmls::prelude::ProcessedMessageContent::ExternalJoinProposalMessage(_) => MessageContent::ExternalJoinProposal,
    }
}

/// The leaf indices a staged commit's remove proposals remove, in order.
pub uninterp spec fn mls_removed_leaves(c: openmls::prelude::StagedCommit) -> Seq<u32>;

/// The leaf indices a staged commit removes (`remove_proposals`).
#[verifier::external_body]
pub(crate) fn commit_removed_leaves(c: &openmls::prelude::StagedCommit) -> (r: Vec<u32>)
    ensures
        r@ == mls_removed_leaves(*c),
{
    c.remove_proposals().map(|p| p.remove_proposal().removed().u32()).collect()
}

/// `MlsGroup::merge_staged_commit`, or the error's text. Claims what the
/// source shows of a success: the group takes the staged group context,
/// and with it the staged epoch.
#[verifier::external_body]
pub(crate) fn group_merge_staged(
    group: &mut openmls::prelude::MlsGroup,
    crypto: &mut openmls_rust_crypto::OpenMlsRustCrypto,
    commit: openmls::prelude::StagedCommit,
) -> (r: Result<(), String>)
    ensures
        r is Ok ==> mls_group_epoch(*final(group)) == mls_staged_epoch(commit),
{
    group.merge_staged_commit(crypto, commit).map_err(|e| format!("{e:?}"))
}

/// The application plaintext that the serialized private message
/// `ciphertext` carries under the keys of `group`: its content opened with
/// the key and nonce that `group`'s own sender ratchet gives for the
/// message's generation, or `None` when it does not open to an application
/// message. A function of the group's secrets and the bytes.
pub uninterp spec fn mls_application_plaintext(group: openmls::prelude::MlsGroup, ciphertext: Seq<u8>) -> Option<Seq<u8>>;

/// `MlsGroup::create_message` of `plaintext` serialized, failing with step
/// 0 (creation) or 1 (serialization). Claims what the source shows: the
/// epoch is kept, and the message is `plaintext` sealed as application
/// content with the sending group's keys (the reuse guard mixed into the
/// nonce is random, so the bytes are not named, only what they carry).
#[verifier::external_body]
pub(crate) fn group_create_message(
    group: &mut openmls::prelude::MlsGroup,
    crypto: &mut openmls_rust_crypto::OpenMlsRustCrypto,
    keys: &openmls_basic_credential::SignatureKeyPair,
    plaintext: &[u8],
) -> (r: Result<Vec<u8>, (u8, String)>)
    ensures
        mls_group_epoch(*final(group)) == mls_group_epoch(*old(group)),
        r matches Ok(c) ==> mls_application_plaintext(*old(group), c@) == Some(plaintext@),
{
    let m = group.create_message(crypto, keys, plaintext).map_err(|e| (0u8, format!("{e:?}")))?;
    m.tls_serialize_detached().map_err(|e| (1u8, format!("{e:?}")))
}

/// The secret `MlsGroup::export_secret` derives from the group `group`'s
/// exporter secret for `label`, `context` and `length`, or `None` when it
/// fails.
pub uninterp spec fn mls_exported_secret(group: openmls::prelude::MlsGroup, label: Seq<char>, context: Seq<u8>, length: usize) -> Option<Seq<u8>>;

/// `MlsGroup::export_secret` of `length` bytes under `label` with the
/// context `context`, or the error's text. Claims that the outcome is the
/// named one: the derivation is the key schedule's exporter, a function of
/// the group's current epoch secrets and the arguments (every member of the
/// group derives the same secret in the same epoch).
#[verifier::external_body]
pub(crate) fn group_export_secret(
    group: &openmls::prelude::MlsGroup,
    crypto: &openmls_rust_crypto::OpenMlsRustCrypto,
    label: &str,
    context: &[u8],
    length: usize,
) -> (r: Result<Vec<u8>, String>)
    ensures
        match r {
            Ok(v) => mls_exported_secret(*group, label@, context@, length) == Some(v@),
            Err(_) => mls_exported_secret(*group, label@, context@, length) is None,
        },
{
    group.export_secret(crypto, label, context, length).map_err(|e| format!("{e:?}"))
}

/// The id of a group (`MlsGroup::group_id`).
pub uninterp spec fn mls_group_id(group: openmls::prelude::MlsGroup) -> Seq<u8>;

/// The public key of a signature key pair (`SignatureKeyPair::public`).
pub uninterp spec fn mls_keys_public(keys: openmls_basic_credential::SignatureKeyPair) -> Seq<u8>;

/// The group's id bytes (`MlsGroup::group_id`).
#[verifier::external_body]
pub(crate) fn group_id_bytes(group: &openmls::prelude::MlsGroup) -> (r: Vec<u8>)
    ensures
        r@ == mls_group_id(*group),
{
    group.group_id().as_slice().to_vec()
}

/// The key pair's public key bytes.
#[verifier::external_body]
pub(crate) fn signature_public_key(keys: &openmls_basic_credential::SignatureKeyPair) -> (r: Vec<u8>)
    ensures
        r@ == mls_keys_public(*keys),
{
    keys.public().to_vec()
}

/// The key pair's signature scheme, as its IANA number: one of the
/// `SignatureScheme` enum's discriminants, all of them known schemes.
#[verifier::external_body]
pub(crate) fn signature_scheme(keys: &openmls_basic_credential::SignatureKeyPair) -> (r: u16)
    ensures
        known_signature_scheme(r),
{
    keys.signature_scheme() as u16
}

/// The entries of the provider's storage map (`MemoryStorage::values`), in
/// its own order; a poisoned lock is recovered. Claims what walking a map
/// gives: each key once, with its value, and no other entry. Nothing is
/// claimed of the order.
#[verifier::external_body]
pub(crate) fn storage_entries(crypto: &openmls_rust_crypto::OpenMlsRustCrypto) -> (r: Vec<(Vec<u8>, Vec<u8>)>)
    ensures
        crate::assoc::distinct_keys(crate::persistence::entries_view(r@)),
        crate::assoc::to_map(crate::persistence::entries_view(r@)) == provider_storage(*crypto),
{
    let values = crypto.storage().values.read().unwrap_or_else(std::sync::PoisonError::into_inner);
    values.iter().map(|(k, v)| (k.clone(), v.clone())).collect()
}

/// Replace the provider's storage map by `entries` (a later entry wins on a
/// repeated key); a poisoned lock is recovered.
#[verifier::external_body]
pub(crate) fn storage_replace(crypto: &mut openmls_rust_crypto::OpenMlsRustCrypto, entries: Vec<(Vec<u8>, Vec<u8>)>)
    ensures
        provider_storage(*final(crypto)) == crate::assoc::to_map(crate::persistence::entries_view(entries@)),
{
    let map: std::collections::HashMap<Vec<u8>, Vec<u8>> = entries.into_iter().collect();
    let mut values = crypto.storage().values.write().unwrap_or_else(std::sync::PoisonError::into_inner);
    *values = map;
}

/// What `MlsGroup::load` finds for the group `group_id` in the storage map
/// `storage`: `None` when reading fails, `Some(false)` when the group's state
/// is not all there, `Some(true)` when the group loads.
pub uninterp spec fn mls_group_load(storage: Map<Seq<u8>, Seq<u8>>, group_id: Seq<u8>) -> Option<bool>;

/// The group `MlsGroup::load` builds for the id `group_id` from the storage
/// map `storage` when it loads.
pub uninterp spec fn mls_loaded_group(storage: Map<Seq<u8>, Seq<u8>>, group_id: Seq<u8>) -> openmls::prelude::MlsGroup;

/// `MlsGroup::load` of the group with id `group_id` from the provider's
/// storage, or the error's text. Claims that the outcome is the named one
/// for the provider's storage map: loading only reads it.
#[verifier::external_body]
pub(crate) fn group_load(
    crypto: &openmls_rust_crypto::OpenMlsRustCrypto,
    group_id: &[u8],
) -> (r: Result<Option<openmls::prelude::MlsGroup>, String>)
    ensures
        (r is Err) == (mls_group_load(provider_storage(*crypto), group_id@) is None),
        (r matches Ok(Some(_))) == (mls_group_load(provider_storage(*crypto), group_id@) == Some(true)),
        r matches Ok(Some(g)) ==> g == mls_loaded_group(provider_storage(*crypto), group_id@),
{
    openmls::prelude::MlsGroup::load(crypto.storage(), &openmls::prelude::GroupId::from_slice(group_id))
        .map_err(|e| format!("{e:?}"))
}

/// The signature schemes `SignatureScheme::try_from(u16)` accepts: ECDSA
/// over P-256, P-384 and P-521, Ed25519 and Ed448, by their IANA numbers.
pub open spec fn known_signature_scheme(scheme: u16) -> bool {
    scheme == 0x0403 || scheme == 0x0503 || scheme == 0x0603 || scheme == 0x0807 || scheme == 0x0808
}

/// Calls `SignatureScheme::try_from(scheme)`. Claims what `openmls_traits`'
/// source shows: it accepts exactly the known schemes, and otherwise fails
/// with the text `Unsupported SignatureScheme: ` and the number in decimal.
#[verifier::external_body]
pub(crate) fn signature_scheme_known(scheme: u16) -> (r: Result<(), String>)
    ensures
        (r is Ok) == known_signature_scheme(scheme),
        r matches Err(t) ==> t@ == "Unsupported SignatureScheme: "@ + crate::decimal::decimal(scheme as nat),
{
    openmls::prelude::SignatureScheme::try_from(scheme).map(|_| ())
}

/// Whether `SignatureKeyPair::read` finds the pair with `public_key` and the
/// signature scheme numbered `scheme` in the storage map `storage`.
pub uninterp spec fn mls_keypair_stored(storage: Map<Seq<u8>, Seq<u8>>, public_key: Seq<u8>, scheme: u16) -> bool;

/// `SignatureKeyPair::read` of the pair with `public_key` and `scheme` from
/// the provider's storage (`None` for an unknown scheme). Claims that it is
/// found exactly when the named predicate holds of the provider's storage
/// map.
#[verifier::external_body]
pub(crate) fn signature_keys_read(
    crypto: &openmls_rust_crypto::OpenMlsRustCrypto,
    public_key: &[u8],
    scheme: u16,
) -> (r: Option<openmls_basic_credential::SignatureKeyPair>)
    ensures
        (r is Some) == mls_keypair_stored(provider_storage(*crypto), public_key@, scheme),
{
    let s = openmls::prelude::SignatureScheme::try_from(scheme).ok()?;
    openmls_basic_credential::SignatureKeyPair::read(crypto.storage(), public_key, s)
}

} // verus!
