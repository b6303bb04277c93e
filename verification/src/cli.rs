//! What the command-line client computes: the in-memory demonstration,
//! document creation, invites, joins, the `Subscribe` frame of a session,
//! restoring a persisted group, the at-rest key rules, and the connect
//! loop's decisions. Reading and writing files and sockets is the
//! program's part.

use vstd::prelude::*;

use crate::base64::{base64_decoded, base64_encoded, standard_decode, standard_encode};
use crate::capability::fits_u32_prefix;
use crate::connection::{ConnectionAction, ConnectionStateMachine, StateView};
use crate::encryption::{restored_document, EncryptedDocument};
use crate::error::{error_text, prefixed, Error};
use crate::mls::{minted_by_a_member, saturating_sum, MlsDocumentGroup};
use crate::persistence::{all_zeros, seals_member};
use crate::proto::{ClientMessage, Invite};
use crate::text::str_eq;

verus! {

broadcast use vstd::string::group_string_axioms;

/// Lifetime in seconds of a subscribe capability a session mints.
pub const CAPABILITY_TTL_SECS: u64 = 300u64;

/// How long, in milliseconds, a session must stay up to count as stable and
/// refill the retry budget.
pub const MIN_STABLE_CONNECTION_MILLIS: u64 = 10000u64;

/// Result of the demonstration.
#[derive(Debug, Clone)]
pub struct DemoResult {
    /// The document identifier.
    pub doc_id: String,
    /// Alice's view of the content.
    pub alice_content: String,
    /// Bob's view of the content.
    pub bob_content: String,
    /// Human-readable message.
    pub message: String,
}

/// The full collaboration flow in memory: Alice creates the document, Bob
/// joins it by invite, each writes a line and the other decrypts and merges
/// it; both then hold the same text.
pub fn demo(doc_id: &str) -> (r: Result<DemoResult, Error>)
    ensures
        r matches Ok(d) ==> d.doc_id@ == doc_id@ && d.alice_content@ == d.bob_content@
            && d.message@ == "Demo completed successfully! E2E encryption working."@,
{
    let mut alice_doc = EncryptedDocument::create(doc_id, "alice")?;
    let bob_pending = MlsDocumentGroup::generate_key_package("bob")?;
    let invite = alice_doc.create_invite(bob_pending.key_package())?;
    let mut bob_doc = EncryptedDocument::join(&invite, bob_pending)?;

    alice_doc.try_insert(0, "Hello from Alice!")?;
    let encrypted_update = alice_doc.get_encrypted_update()?;
    if bob_doc.epoch() == u64::MAX {
        // Processing at the last epoch could not stage a further commit.
        return Err(Error::Mls("group epoch exhausted".to_owned()));
    }
    bob_doc.apply_encrypted_update(&encrypted_update)?;

    bob_doc.try_insert(17, " Hi from Bob!")?;
    let bob_update = bob_doc.get_encrypted_update()?;
    alice_doc.apply_encrypted_update(&bob_update)?;
    let final_content = alice_doc.get_content();

    Ok(DemoResult {
        doc_id: doc_id.to_owned(),
        alice_content: final_content.clone(),
        bob_content: final_content,
        message: "Demo completed successfully! E2E encryption working.".to_owned(),
    })
}

/// Result of creating a document.
#[derive(Debug, Clone)]
pub struct InitResult {
    /// The document identifier.
    pub doc_id: String,
    /// The owner's identity.
    pub user_id: String,
    /// Human-readable message.
    pub message: String,
}

/// Create the document `doc_id` owned by `user_id`; with `persist`, also its
/// group's snapshot sealed under `key`, for the state file.
pub fn init(doc_id: &str, user_id: &str, persist: bool, key: &[u8; 32]) -> (r: Result<(InitResult, Option<Vec<u8>>), Error>)
    ensures
        r matches Ok((res, snapshot)) ==> {
            &&& res.doc_id@ == doc_id@
            &&& res.user_id@ == user_id@
            &&& res.message@ == "Created document '"@ + doc_id@ + "' as owner. Share invites with collaborators."@
            &&& persist ==> (snapshot matches Some(b) && seals_member(key@, vstd::utf8::encode_utf8(doc_id@), b@, user_id@))
            &&& !persist ==> snapshot is None
        },
        persist && all_zeros(key@) ==> r is Err,
        r matches Err(e) ==> e is Mls || e is Encryption,
{
    let doc = EncryptedDocument::create(doc_id, user_id)?;
    let snapshot = if persist {
        Some(doc.snapshot_encrypted(key)?)
    } else {
        None
    };
    let message = prefixed("Created document '", doc_id);
    let message = prefixed(message.as_str(), "' as owner. Share invites with collaborators.");
    Ok((InitResult { doc_id: doc_id.to_owned(), user_id: user_id.to_owned(), message }, snapshot))
}

/// The invite for the member whose key package is `key_package`, to a new
/// document `doc_id` owned by `owner_user_id`, with no relay address.
pub fn create_invite(doc_id: &str, owner_user_id: &str, key_package: &[u8]) -> (r: Result<Invite, Error>)
    ensures
        r matches Ok(inv) ==> inv.doc_id@ == doc_id@ && inv.relay_url@.len() == 0,
        r matches Err(e) ==> e is Mls,
{
    let mut doc = EncryptedDocument::create(doc_id, owner_user_id)?;
    let invite = doc.create_invite(key_package)?;
    Ok(Invite {
        doc_id: invite.doc_id,
        welcome: invite.welcome,
        commit: invite.commit,
        epoch: invite.epoch,
        relay_url: String::new(),
    })
}

/// Result of joining a document.
#[derive(Debug, Clone)]
pub struct JoinResult {
    /// The document identifier.
    pub doc_id: String,
    /// The joiner's identity.
    pub user_id: String,
    /// Whether the join succeeded.
    pub success: bool,
    /// Human-readable message.
    pub message: String,
}

/// Join the document of `invite` as `user_id` with a freshly generated key
/// package. The welcome was made for the key package that `keygen` wrote,
/// whose private state does not survive the process, so the join fails
/// unless the same member state produced both.
pub fn join(invite: &Invite, user_id: &str) -> (r: Result<JoinResult, Error>)
    ensures
        r matches Ok(j) ==> j.doc_id@ == invite.doc_id@ && j.user_id@ == user_id@ && j.success
            && j.message@ == "Successfully joined document"@,
        r matches Err(e) ==> e is Mls,
{
    let pending = MlsDocumentGroup::generate_key_package(user_id)?;
    match pending.join(invite.welcome.as_slice()) {
        Ok(_group) => Ok(JoinResult {
            doc_id: invite.doc_id.clone(),
            user_id: user_id.to_owned(),
            success: true,
            message: "Successfully joined document".to_owned(),
        }),
        Err(e) => {
            let m = prefixed("Failed to join document '", invite.doc_id.as_str());
            let m = prefixed(m.as_str(), "': ");
            let m = prefixed(m.as_str(), e.message().as_str());
            let m = prefixed(
                m.as_str(),
                ". The file-based join flow requires the key-package state produced by `keygen`, which is not yet persisted across processes. See `collab-cli demo` for the working flow.",
            );
            Err(Error::Mls(m))
        },
    }
}

/// The `Subscribe` frame of a session at time `now_unix`: with a restored
/// group, carrying a capability naming `user_id` for `doc_id` that expires
/// [`CAPABILITY_TTL_SECS`] later; without one, handshake-only.
pub fn subscribe_frame_at(user_id: &str, doc_id: &str, doc: Option<&EncryptedDocument>, now_unix: u64) -> (r: Result<ClientMessage, Error>)
    requires
        fits_u32_prefix(user_id@),
        fits_u32_prefix(doc_id@),
    ensures
        r matches Ok(m) ==> m matches ClientMessage::Subscribe { doc_id: d, capability: c } && d@ == doc_id@ && (match doc {
            None => c is None,
            Some(_) => c matches Some(cap) && minted_by_a_member(user_id@, doc_id@, saturating_sum(now_unix, CAPABILITY_TTL_SECS), cap),
        }),
        doc is None ==> r is Ok,
        r matches Err(e) ==> e is Mls,
{
    let capability = match doc {
        None => None,
        Some(d) => Some(d.mint_subscribe_capability(user_id, doc_id, now_unix, CAPABILITY_TTL_SECS)?),
    };
    Ok(ClientMessage::Subscribe { doc_id: doc_id.to_owned(), capability })
}

/// The `Subscribe` frame of a session now, by the wall clock.
pub fn subscribe_frame(user_id: &str, doc_id: &str, doc: Option<&EncryptedDocument>) -> (r: Result<ClientMessage, Error>)
    requires
        fits_u32_prefix(user_id@),
        fits_u32_prefix(doc_id@),
    ensures
        r matches Ok(m) ==> m matches ClientMessage::Subscribe { doc_id: d, capability: c } && d@ == doc_id@ && (doc is None
            <==> c is None),
        doc is None ==> r is Ok,
        r matches Err(e) ==> e is Mls,
{
    subscribe_frame_at(user_id, doc_id, doc, crate::relay::now_unix())
}

/// The ASCII whitespace bytes `char::is_ascii_whitespace` names: space, tab,
/// line feed, form feed and carriage return.
pub open spec fn is_ascii_ws_byte(b: u8) -> bool {
    b == 0x20 || b == 0x09 || b == 0x0A || b == 0x0C || b == 0x0D
}

/// `bytes` without its ASCII whitespace.
pub open spec fn without_ascii_ws(bytes: Seq<u8>) -> Seq<u8> {
    bytes.filter(|b: u8| !is_ascii_ws_byte(b))
}

/// Standard base64 of `data`.
pub fn base64_encode(data: &[u8]) -> (s: String)
    requires
        data@.len() <= usize::MAX / 2,
    ensures
        s@ == base64_encoded(data@),
        base64_decoded(vstd::utf8::encode_utf8(s@)) == Some(data@),
{
    standard_encode(data)
}

/// Decode standard base64, ignoring ASCII whitespace.
pub fn base64_decode(s: &str) -> (r: Result<Vec<u8>, Error>)
    ensures
        match base64_decoded(without_ascii_ws(vstd::utf8::encode_utf8(s@))) {
            Some(v) => r matches Ok(w) && w@ == v,
            None => r matches Err(Error::InvalidState(_)),
        },
{
    let bytes = s.as_bytes();
    let mut cleaned: Vec<u8> = Vec::new();
    let mut i: usize = 0;
    while i < bytes.len()
        invariant
            i <= bytes@.len(),
            cleaned@ == without_ascii_ws(bytes@.subrange(0, i as int)),
        decreases bytes@.len() - i,
    {
        let b = bytes[i];
        proof {
            let done = bytes@.subrange(0, i as int);
            assert(bytes@.subrange(0, i + 1) =~= done.push(b));
            reveal(Seq::filter);
            assert(done.push(b).drop_last() =~= done);
        }
        if !(b == 0x20 || b == 0x09 || b == 0x0A || b == 0x0C || b == 0x0D) {
            cleaned.push(b);
        }
        i = i + 1;
    }
    assert(bytes@.subrange(0, bytes@.len() as int) =~= bytes@);
    match standard_decode(cleaned.as_slice()) {
        Ok(v) => Ok(v),
        Err(t) => Err(Error::InvalidState(prefixed("invalid base64 input: ", t.as_str()))),
    }
}

/// Restore the document `doc_id` from a state file's base64 snapshot sealed
/// under `key`: `None` for an empty snapshot (a joiner, which has no group
/// to save) or a snapshot that holds no group.
pub fn restore_state(doc_id: &str, snapshot: &str, key: &[u8; 32]) -> (r: Result<Option<EncryptedDocument>, Error>)
    ensures
        snapshot@.len() == 0 ==> r matches Ok(None),
        r matches Ok(Some(d)) ==> d.spec_doc_id() == doc_id@ && d.text().len() == 0,
        snapshot@.len() > 0 && base64_decoded(without_ascii_ws(vstd::utf8::encode_utf8(snapshot@))) is None ==> r is Err,
        snapshot@.len() > 0 && all_zeros(key@) ==> r is Err,
        snapshot@.len() > 0 ==> (base64_decoded(without_ascii_ws(vstd::utf8::encode_utf8(snapshot@))) matches Some(blob)
            ==> exists|inner: Result<Option<EncryptedDocument>, Error>|
                #[trigger] restored_document(doc_id@, blob, key@, 0, inner) && restored_state(inner, r)),
{
    if snapshot.is_empty() {
        return Ok(None);
    }
    let blob = base64_decode(snapshot)?;
    let inner = EncryptedDocument::restore_encrypted(doc_id, blob.as_slice(), key, 0);
    let ghost kept = inner;
    let r = match inner {
        Ok(d) => Ok(d),
        Err(e) => Err(Error::InvalidState(prefixed("cannot restore the persisted group: ", e.message().as_str()))),
    };
    assert(restored_state(kept, r));
    r
}

/// `r` is what a state file's restore reports for the document restore
/// `inner`: the same document, or its error as an invalid state.
pub open spec fn restored_state(inner: Result<Option<EncryptedDocument>, Error>, r: Result<Option<EncryptedDocument>, Error>) -> bool {
    match inner {
        Ok(d) => r == Ok::<Option<EncryptedDocument>, Error>(d),
        Err(e) => r matches Err(Error::InvalidState(m)) && m@ == "cannot restore the persisted group: "@ + error_text(e),
    }
}

/// The at-rest key held in a key file's bytes: exactly 32 of them, or none.
pub fn at_rest_key_from(bytes: &[u8]) -> (r: Option<[u8; 32]>)
    ensures
        (r is Some) == (bytes@.len() == 32),
        r matches Some(k) ==> k@ == bytes@,
{
    if bytes.len() != 32 {
        return None;
    }
    let mut k: [u8; 32] = [0u8; 32];
    let mut i: usize = 0;
    while i < 32
        invariant
            i <= 32,
            bytes@.len() == 32,
            forall|j: int| 0 <= j < i ==> k@[j] == bytes@[j],
        decreases 32 - i,
    {
        k[i] = bytes[i];
        i = i + 1;
    }
    assert(k@ =~= bytes@);
    Some(k)
}

/// The group and other-user permission bits of a file mode; a key file with
/// any of them set is refused.
pub fn loose_permission_bits(mode: u32) -> (r: u32)
    ensures
        r == mode & 0o077,
{
    mode & 0o077
}

/// Result of a two-client session check.
#[derive(Debug, Clone)]
pub struct SessionCheckResult {
    /// The document identifier.
    pub doc_id: String,
    /// Whether the receiving peer decrypted exactly the expected text.
    pub matched: bool,
    /// What the receiving peer decrypted.
    pub received: String,
    /// What it was expected to decrypt.
    pub expected: String,
}

/// The outcome of a session check in which the receiver decrypted
/// `received` where `expect` was expected.
pub fn session_result(doc_id: &str, received: String, expect: &str) -> (r: SessionCheckResult)
    ensures
        r.doc_id@ == doc_id@,
        r.matched == (received@ == expect@),
        r.received@ == received@,
        r.expected@ == expect@,
{
    let matched = str_eq(received.as_str(), expect);
    SessionCheckResult { doc_id: doc_id.to_owned(), matched, received, expected: expect.to_owned() }
}

/// After a connection was accepted: the identity and document to identify
/// and subscribe with.
pub fn begin_session(sm: &mut ConnectionStateMachine) -> (r: (String, String))
    requires
        old(sm).wf(),
        !(old(sm).spec_state() is Failed),
    ensures
        final(sm).wf(),
        final(sm).config() == old(sm).config(),
        final(sm).retry_count() == old(sm).retry_count(),
        final(sm).spec_state() == StateView::Connected,
        r.0@ == old(sm).config().spec_user_id(),
        r.1@ == old(sm).config().spec_doc_id(),
{
    sm.on_connected();
    match sm.next_action() {
        ConnectionAction::IdentifyAndSubscribe { user_id, doc_id } => (user_id, doc_id),
        _ => {
            proof {
                assert(false);
            }
            (String::new(), String::new())
        },
    }
}

/// After a session of `lasted_millis` ended cleanly (`Ok`) or with an error:
/// a session that stayed up [`MIN_STABLE_CONNECTION_MILLIS`] refills the
/// retry budget; a clean end stops the connect loop (`true`), an error is
/// counted as a failure and the loop goes on.
pub fn finish_session(sm: &mut ConnectionStateMachine, lasted_millis: u64, end: Result<(), String>) -> (stop: bool)
    requires
        old(sm).wf(),
        old(sm).spec_state() is Connected,
        old(sm).retry_count() < u32::MAX,
    ensures
        final(sm).wf(),
        final(sm).config() == old(sm).config(),
        stop == (end is Ok),
        end is Ok ==> final(sm).spec_state() == old(sm).spec_state(),
        ({
            let count = if lasted_millis >= MIN_STABLE_CONNECTION_MILLIS { 0 } else { old(sm).retry_count() };
            &&& end is Ok ==> final(sm).retry_count() == count
            &&& end matches Err(t) ==> final(sm).retry_count() == count + 1 && final(sm).spec_state()
                == crate::connection::after_failure(count, old(sm).config().spec_max_retries(), t@)
        }),
{
    if lasted_millis >= MIN_STABLE_CONNECTION_MILLIS {
        sm.on_stable_connection();
    }
    match end {
        Ok(()) => true,
        Err(t) => {
            sm.on_error(t.as_str());
            false
        },
    }
}

} // verus!
