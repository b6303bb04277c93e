//! The relay server's decisions.
//!
//! The relay is a zero-knowledge router: it never sees plaintext. It
//! authenticates identities when configured with a bearer token, scopes each
//! session to its connection id so a stale connection can never evict a newer
//! one, and bounds every resource it holds: connections, identifier lengths,
//! subscriptions, anchors and offline messages.
//!
//! This module holds everything the server decides. Reading and writing
//! WebSocket frames, the per-connection channels and the accept loop are the
//! caller's: it hands each decoded [`ClientMessage`] to
//! [`RelayServer::handle_message`] and carries out the returned [`Outcome`].

use vstd::prelude::*;
use vstd::string::StringExecFns;

use crate::capability::{capability_check, fits_u32_prefix, register_message, rotation_message, signature_check, verify_anchor_rotation, verify_doc_key_proof, verify_subscribe_capability, SubscribeCapability};
use crate::proto::{ClientMessage, ErrorCode, ServerMessage, ServerMessageView};
use crate::routing::{anchor_accepts, subscribe_result, unsubscribe_result, DocAnchor, FanOut, MessageRouter, RouteEffects};

verus! {

broadcast use vstd::string::group_string_axioms;

/// Capacity of each client's outbound message channel; a consumer that lets
/// it fill is treated as too slow and disconnected.
pub const CHANNEL_CAPACITY: usize = 1024;

/// Maximum WebSocket message and frame size accepted from a client (1 MiB).
pub const MAX_MESSAGE_SIZE: usize = 1048576;

/// Maximum accepted length, in bytes, of a `doc_id` or `user_id`.
pub const MAX_ID_LEN: usize = 256;

/// Default maximum number of concurrent connections.
pub const DEFAULT_MAX_CONNECTIONS: usize = 10000;

/// An error reply.
pub open spec fn error_view(code: ErrorCode, message: Seq<char>) -> ServerMessageView {
    ServerMessageView::Error { code, message }
}

/// The values of a list of messages.
pub open spec fn messages_view(v: Seq<ServerMessage>) -> Seq<ServerMessageView> {
    v.map_values(|m: ServerMessage| m@)
}

/// An identifier is short enough: at most [`MAX_ID_LEN`] bytes of UTF-8.
pub open spec fn id_ok(s: Seq<char>) -> bool {
    vstd::utf8::encode_utf8(s).len() <= MAX_ID_LEN
}

/// One client connection as the server sees it: its id and, once it has
/// identified, its user id.
pub struct Connection {
    conn_id: u64,
    user_id: Option<String>,
}

impl Connection {
    /// The connection's id.
    pub closed spec fn id(&self) -> u64 {
        self.conn_id
    }

    /// The user this connection identified as, if it has.
    pub closed spec fn user(&self) -> Option<Seq<char>> {
        match self.user_id {
            Some(u) => Some(u@),
            None => None,
        }
    }

    /// A connection's identified user id is always within the length limit.
    pub closed spec fn wf(&self) -> bool {
        self.user_id matches Some(u) ==> id_ok(u@)
    }

    /// A fresh, unidentified connection.
    pub fn new(conn_id: u64) -> (c: Connection)
        ensures
            c.wf(),
            c.id() == conn_id,
            c.user() is None,
    {
        Connection { conn_id, user_id: None }
    }

    /// The connection's id.
    pub fn conn_id(&self) -> (r: u64)
        ensures
            r == self.id(),
    {
        self.conn_id
    }

    /// The user this connection identified as, if it has.
    pub fn user_id(&self) -> (r: Option<String>)
        ensures
            r matches Some(u) ==> self.user() == Some(u@),
            r is None ==> self.user() is None,
    {
        match &self.user_id {
            Some(u) => Some(u.clone()),
            None => None,
        }
    }
}

/// A message to fan out to the subscribers of a document.
pub struct RouteRequest {
    /// The document.
    pub doc_id: String,
    /// The sender, who never receives its own message.
    pub from: String,
    /// The message.
    pub message: ServerMessage,
}

/// What handling one client message requires of the caller.
pub struct Outcome {
    /// Replies to send on this connection, in order.
    pub replies: Vec<ServerMessage>,
    /// A connection of the same user that this one took over: send it a
    /// `SessionReplaced` error and close it.
    pub replaced: Option<u64>,
    /// A message to route to the document's subscribers.
    pub route: Option<RouteRequest>,
}

/// `Outcome` values: replies, replaced connection, and the route request as
/// (document, sender, message).
pub open spec fn outcome_is(
    o: Outcome,
    replies: Seq<ServerMessageView>,
    replaced: Option<u64>,
    route: Option<(Seq<char>, Seq<char>, ServerMessageView)>,
) -> bool {
    &&& messages_view(o.replies@) == replies
    &&& o.replaced == replaced
    &&& match route {
        None => o.route is None,
        Some(r) => o.route matches Some(q) && q.doc_id@ == r.0 && q.from@ == r.1 && q.message@ == r.2,
    }
}

/// A reply-only outcome.
pub open spec fn replies_only(o: Outcome, replies: Seq<ServerMessageView>) -> bool {
    outcome_is(o, replies, None, None)
}

/// The messages queued for `user` in the offline state `q`, oldest first.
pub open spec fn queued_for(q: Seq<crate::storage::UserQueueView>, user: Seq<char>) -> Seq<ServerMessageView> {
    match crate::storage::index_of(q, user) {
        Some(i) => q[i].messages,
        None => Seq::empty(),
    }
}

/// The offline state `q` once `user`'s queue is drained.
pub open spec fn drained_for(q: Seq<crate::storage::UserQueueView>, user: Seq<char>) -> Seq<crate::storage::UserQueueView> {
    match crate::storage::index_of(q, user) {
        Some(i) => q.remove(i),
        None => q,
    }
}

/// The content-authorization state a `Subscribe` from `uid` for `doc`
/// carrying `cap` earns at time `now`, or the reason it is refused. With
/// authorization off, or without a capability, the subscription carries the
/// handshake only. A presented capability must verify against the
/// document's anchor, whose epoch it then records: never the capability's
/// own claims.
pub open spec fn authorize_result(
    authz: bool,
    anchors: Map<Seq<char>, DocAnchor>,
    uid: Seq<char>,
    doc: Seq<char>,
    cap: Option<SubscribeCapability>,
    now: u64,
) -> Result<Option<u64>, Seq<char>> {
    if !authz {
        Ok(None)
    } else {
        match cap {
            None => Ok(None),
            Some(c) => if !anchors.dom().contains(doc) {
                Err("no subscribe anchor registered for this document"@)
            } else if capability_check(c, anchors[doc].verifying_key@, uid, doc, anchors[doc].epoch, now) is Err {
                Err("subscribe capability verification failed"@)
            } else {
                Ok(Some(anchors[doc].epoch))
            },
        }
    }
}

/// Why a `RegisterDocKey` for `doc` at `epoch` with `public_key`, `proof`
/// and `rotation_proof` is refused, if it is: a key that is not 32 bytes, a
/// self-proof that does not verify under the new key, a rotation not signed
/// by the current anchor key, or an anchor the router does not accept.
pub open spec fn register_refusal(
    anchors: Map<Seq<char>, DocAnchor>,
    doc: Seq<char>,
    epoch: u64,
    public_key: Seq<u8>,
    proof: Seq<u8>,
    rotation_proof: Seq<u8>,
    max_documents: nat,
) -> Option<Seq<char>> {
    if public_key.len() != 32 {
        Some("public_key must be 32 bytes"@)
    } else if signature_check(public_key, register_message(doc, epoch), proof) is Err {
        Some("doc key proof verification failed"@)
    } else if anchors.dom().contains(doc) && signature_check(anchors[doc].verifying_key@, rotation_message(doc, epoch, public_key), rotation_proof) is Err {
        Some("anchor rotation continuity proof verification failed"@)
    } else if !crate::routing::anchor_accepts(anchors, doc, epoch, max_documents) {
        Some("stale or equal epoch for document anchor"@)
    } else {
        None
    }
}

/// `b` has the configuration, connection accounting and router limits of `a`.
pub open spec fn keeps_config(a: RelayServer, b: RelayServer) -> bool {
    &&& b.auth_token() == a.auth_token()
    &&& b.authz() == a.authz()
    &&& b.max_connections() == a.max_connections()
    &&& b.active_connections() == a.active_connections()
    &&& b.next_conn_id() == a.next_conn_id()
    &&& b.router().gating() == a.router().gating()
    &&& b.router().max_documents() == a.router().max_documents()
    &&& b.router().max_subscribers_per_doc() == a.router().max_subscribers_per_doc()
}

/// An error reply with `code` and `text`.
pub fn error(code: ErrorCode, text: &str) -> (m: ServerMessage)
    ensures
        m@ == error_view(code, text@),
{
    ServerMessage::Error { code, message: text.to_owned() }
}

/// An outcome that only replies `m`.
fn reply(m: ServerMessage) -> (o: Outcome)
    ensures
        replies_only(o, seq![m@]),
{
    let mut replies: Vec<ServerMessage> = Vec::new();
    replies.push(m);
    let o = Outcome { replies, replaced: None, route: None };
    assert(messages_view(o.replies@) =~= seq![m@]);
    o
}

/// An outcome that does nothing.
fn nothing() -> (o: Outcome)
    ensures
        replies_only(o, Seq::empty()),
{
    let o = Outcome { replies: Vec::new(), replaced: None, route: None };
    assert(messages_view(o.replies@) =~= Seq::<ServerMessageView>::empty());
    o
}

/// `None` when `doc_id` is within the length limit, else the
/// `LimitExceeded` error to reply.
pub fn validate_doc_id(doc_id: &str) -> (r: Option<ServerMessage>)
    ensures
        r is None <==> id_ok(doc_id@),
        r matches Some(e) ==> e@ == error_view(ErrorCode::LimitExceeded, "doc_id exceeds maximum length of 256"@),
{
    if doc_id.as_bytes().len() > MAX_ID_LEN {
        return Some(error(ErrorCode::LimitExceeded, "doc_id exceeds maximum length of 256"));
    }
    None
}

/// The value of an optional string.
pub open spec fn opt_str(o: Option<String>) -> Option<Seq<char>> {
    match o {
        Some(s) => Some(s@),
        None => None,
    }
}

/// Whether `token` satisfies the expected bearer token, if any.
pub open spec fn token_ok(expected: Option<Seq<char>>, token: Option<Seq<char>>) -> bool {
    match expected {
        None => true,
        Some(t) => token == Some(t),
    }
}

/// A 32-byte key as an array, or `None` for any other length.
pub fn key_array(bytes: &[u8]) -> (r: Option<[u8; 32]>)
    ensures
        r is Some <==> bytes@.len() == 32,
        r matches Some(a) ==> a@ == bytes@,
{
    if bytes.len() != 32 {
        return None;
    }
    let mut a: [u8; 32] = [0u8; 32];
    let mut i: usize = 0;
    while i < 32
        invariant
            bytes@.len() == 32,
            i <= 32,
            forall|j: int| 0 <= j < i ==> a@[j] == bytes@[j],
        decreases 32 - i,
    {
        a[i] = bytes[i];
        i = i + 1;
    }
    assert(a@ =~= bytes@);
    Some(a)
}

/// What handling `Identify` from `uid` with `token` on connection `c0` does:
/// the server goes from `a` to `b`, the connection to `c1`, and `o` is
/// returned. A bad token or an over-long user id is refused and changes
/// nothing; otherwise the connection becomes the user's session (replacing
/// an older one) and receives `Identified` and then the user's queued
/// offline messages, which leave the queue.
pub open spec fn identify_post(a: RelayServer, b: RelayServer, c0: Connection, c1: Connection, uid: Seq<char>, token: Option<Seq<char>>, o: Outcome) -> bool {
    &&& (c1.id() == c0.id())
    &&& (keeps_config(a, b))
    &&& (!token_ok(a.auth_token(), token) ==> {
            &&& replies_only(o, seq![error_view(ErrorCode::Unauthorized, "Invalid or missing authentication token"@)])
            &&& b == a
            &&& c1 == c0
        })
    &&& (token_ok(a.auth_token(), token) && !id_ok(uid) ==> {
            &&& replies_only(o, seq![error_view(ErrorCode::LimitExceeded, "user_id exceeds maximum length of 256"@)])
            &&& b == a
            &&& c1 == c0
        })
    &&& (token_ok(a.auth_token(), token) && id_ok(uid) ==> {
            let sessions = a.router().sessions();
            let stale = sessions.dom().contains(uid) && sessions[uid] != c0.id();
            &&& outcome_is(
                o,
                seq![ServerMessageView::Identified { user_id: uid }] + queued_for(a.router().offline(), uid),
                if stale { Some(sessions[uid]) } else { None },
                None,
            )
            &&& c1.user() == Some(uid)
            &&& b.router().sessions() == sessions.insert(uid, c0.id())
            &&& b.router().offline() == drained_for(a.router().offline(), uid)
            &&& b.router().subscriptions() == a.router().subscriptions()
            &&& b.router().anchors() == a.router().anchors()
        })
}

/// What handling `Subscribe` for `doc_id` with `capability` at time `now`
/// on `conn` does to the server (`a` to `b`), returning `o`.
pub open spec fn subscribe_post(a: RelayServer, b: RelayServer, conn: Connection, doc_id: Seq<char>, capability: Option<SubscribeCapability>, now: u64, o: Outcome) -> bool {
    &&& (keeps_config(a, b))
    &&& (match conn.user() {
            None => replies_only(o, seq![error_view(ErrorCode::NotIdentified, "Must identify before subscribing"@)])
                && b == a,
            Some(uid) => if !id_ok(doc_id) {
                replies_only(o, seq![error_view(ErrorCode::LimitExceeded, "doc_id exceeds maximum length of 256"@)])
                    && b == a
            } else {
                match authorize_result(a.authz(), a.router().anchors(), uid, doc_id, capability, now) {
                    Err(m) => replies_only(o, seq![error_view(ErrorCode::Unauthorized, m)]) && b == a,
                    Ok(auth) => {
                        let r = subscribe_result(a.router().subscriptions(), uid, doc_id, auth,
                            a.router().max_documents(), a.router().max_subscribers_per_doc());
                        &&& replies_only(o, if r.0 {
                            seq![ServerMessageView::Subscribed { doc_id: doc_id }]
                        } else {
                            seq![error_view(ErrorCode::LimitExceeded, "Subscription limit reached"@)]
                        })
                        &&& b.router().subscriptions() == r.1
                        &&& b.router().sessions() == a.router().sessions()
                        &&& b.router().anchors() == a.router().anchors()
                        &&& b.router().offline() == a.router().offline()
                    },
                }
            }
    })
}

/// What handling `RegisterDocKey` on `conn` does to the server (`a` to
/// `b`), returning `o`: refused with the reason of [`register_refusal`], or
/// silently anchoring `public_key` at `epoch`.
pub open spec fn register_post(a: RelayServer, b: RelayServer, conn: Connection, doc_id: Seq<char>, epoch: u64, public_key: Seq<u8>, proof: Seq<u8>, rotation_proof: Seq<u8>, o: Outcome) -> bool {
    &&& (keeps_config(a, b))
    &&& (b.router().subscriptions() == a.router().subscriptions())
    &&& (b.router().sessions() == a.router().sessions())
    &&& (b.router().offline() == a.router().offline())
    &&& (conn.user() is None ==> replies_only(o, seq![error_view(ErrorCode::NotIdentified, "Must identify before registering a document key"@)])
            && b == a)
    &&& (conn.user() is Some && !id_ok(doc_id) ==> replies_only(o, seq![error_view(ErrorCode::LimitExceeded, "doc_id exceeds maximum length of 256"@)])
            && b == a)
    &&& (conn.user() is Some && id_ok(doc_id) ==> match register_refusal(a.router().anchors(), doc_id, epoch, public_key, proof, rotation_proof, a.router().max_documents()) {
            Some(m) => replies_only(o, seq![error_view(ErrorCode::Unauthorized, m)])
                && b.router().anchors() == a.router().anchors(),
            None => replies_only(o, Seq::empty())
                && b.router().anchors().dom() == a.router().anchors().dom().insert(doc_id)
                && b.router().anchors()[doc_id].epoch == epoch
                && b.router().anchors()[doc_id].verifying_key@ == public_key
                && forall|d: Seq<char>| d != doc_id && #[trigger] a.router().anchors().dom().contains(d)
                    ==> b.router().anchors()[d] == a.router().anchors()[d],
    })
}

/// What handling `Unsubscribe` for `doc_id` on `conn` does to the server
/// (`a` to `b`), returning `o`.
pub open spec fn unsubscribe_post(a: RelayServer, b: RelayServer, conn: Connection, doc_id: Seq<char>, o: Outcome) -> bool {
    &&& (keeps_config(a, b))
    &&& (match conn.user() {
            None => replies_only(o, seq![error_view(ErrorCode::NotIdentified, "Must identify before unsubscribing"@)])
                && b == a,
            Some(uid) => {
                &&& replies_only(o, seq![ServerMessageView::Unsubscribed { doc_id: doc_id }])
                &&& b.router().subscriptions() == unsubscribe_result(a.router().subscriptions(), uid, doc_id)
                &&& b.router().sessions() == a.router().sessions()
                &&& b.router().anchors() == a.router().anchors()
                &&& b.router().offline() == a.router().offline()
            }
    })
}

/// What handling `YrsUpdate` on `conn` returns: an error, or a request to
/// route the update stamped with the sender.
pub open spec fn update_post(conn: Connection, doc_id: Seq<char>, encrypted: Seq<u8>, epoch: u64, o: Outcome) -> bool {
    &&& (match conn.user() {
            None => replies_only(o, seq![error_view(ErrorCode::NotIdentified, "Must identify before sending updates"@)]),
            Some(uid) => if !id_ok(doc_id) {
                replies_only(o, seq![error_view(ErrorCode::LimitExceeded, "doc_id exceeds maximum length of 256"@)])
            } else {
                outcome_is(o, Seq::empty(), None, Some((doc_id, uid, ServerMessageView::YrsUpdate {
                    doc_id: doc_id,
                    from: uid,
                    encrypted: encrypted,
                    epoch,
                })))
            }
    })
}

/// What handling `MlsHandshake` on `conn` returns: an error, or a request
/// to route the handshake message stamped with the sender.
pub open spec fn handshake_post(conn: Connection, doc_id: Seq<char>, payload: Seq<u8>, message_type: crate::proto::MlsMessageType, o: Outcome) -> bool {
    &&& (match conn.user() {
            None => replies_only(o, seq![error_view(ErrorCode::NotIdentified, "Must identify before sending MLS handshake"@)]),
            Some(uid) => if !id_ok(doc_id) {
                replies_only(o, seq![error_view(ErrorCode::LimitExceeded, "doc_id exceeds maximum length of 256"@)])
            } else {
                outcome_is(o, Seq::empty(), None, Some((doc_id, uid, ServerMessageView::MlsHandshake {
                    doc_id: doc_id,
                    from: uid,
                    payload: payload,
                    message_type,
                })))
            }
    })
}

/// `Some(secs)` maps to `secs`; a clock before the Unix epoch maps to
/// `u64::MAX`, the far future, so every capability compares as expired: a
/// broken clock fails closed.
pub fn secs_or_far_future(t: Option<u64>) -> (r: u64)
    ensures
        r == match t {
            Some(s) => s,
            None => u64::MAX,
        },
{
    match t {
        Some(s) => s,
        None => u64::MAX,
    }
}

/// The system clock as whole seconds since the Unix epoch, or `None` when
/// the clock reads earlier than it.
fn unix_clock_secs() -> (r: Option<u64>) {
    let now = crate::clock::system_now();
    match crate::clock::since_unix_epoch(&now) {
        Some(d) => Some(crate::clock::duration_secs(&d)),
        None => None,
    }
}

/// Current wall-clock time in whole seconds since the Unix epoch, used for
/// capability expiry; see [`secs_or_far_future`] for a clock before 1970.
pub fn now_unix() -> u64 {
    secs_or_far_future(unix_clock_secs())
}

/// A Unicode `White_Space` character, the set `str::trim` strips.
pub open spec fn is_unicode_ws(c: char) -> bool {
    let n = c as u32;
    ||| 0x09 <= n <= 0x0D
    ||| n == 0x20
    ||| n == 0x85
    ||| n == 0xA0
    ||| n == 0x1680
    ||| 0x2000 <= n <= 0x200A
    ||| n == 0x2028
    ||| n == 0x2029
    ||| n == 0x202F
    ||| n == 0x205F
    ||| n == 0x3000
}

/// `s` without leading and trailing white space.
pub open spec fn trim_ws(s: Seq<char>) -> Seq<char>
    decreases s.len(),
{
    if s.len() > 0 && is_unicode_ws(s[0]) {
        trim_ws(s.drop_first())
    } else if s.len() > 0 && is_unicode_ws(s.last()) {
        trim_ws(s.drop_last())
    } else {
        s
    }
}

/// The code point of `c` with ASCII upper case mapped to lower case.
pub open spec fn lower_code(c: char) -> u32 {
    if 'A' <= c && c <= 'Z' { ((c as u32) + 32) as u32 } else { c as u32 }
}

/// The code points of a word.
pub open spec fn codes(w: Seq<char>) -> Seq<u32> {
    w.map_values(|c: char| c as u32)
}

/// Whether a setting value is an explicit "off": `0`, `false`, `no` or
/// `off`, ignoring ASCII case and surrounding white space.
pub open spec fn is_explicit_off(v: Seq<char>) -> bool {
    let t = trim_ws(v).map_values(|c: char| lower_code(c));
    ||| t == codes(seq!['0'])
    ||| t == codes(seq!['f', 'a', 'l', 's', 'e'])
    ||| t == codes(seq!['n', 'o'])
    ||| t == codes(seq!['o', 'f', 'f'])
}

fn is_ws_char(c: char) -> (r: bool)
    ensures
        r == is_unicode_ws(c),
{
    let n = c as u32;
    (0x09 <= n && n <= 0x0D) || n == 0x20 || n == 0x85 || n == 0xA0 || n == 0x1680 || (0x2000 <= n && n <= 0x200A)
        || n == 0x2028 || n == 0x2029 || n == 0x202F || n == 0x205F || n == 0x3000
}

fn lower_char(c: char) -> (r: u32)
    ensures
        r == lower_code(c),
{
    if 'A' <= c && c <= 'Z' {
        (c as u32) + 32
    } else {
        c as u32
    }
}

/// Whether `cs[start..end]`, lower-cased, is exactly `word`.
fn lowered_equals(cs: &Vec<char>, start: usize, end: usize, word: &[char]) -> (r: bool)
    requires
        start <= end <= cs@.len(),
    ensures
        r == (cs@.subrange(start as int, end as int).map_values(|c: char| lower_code(c)) == codes(word@)),
{
    let ghost t = cs@.subrange(start as int, end as int).map_values(|c: char| lower_code(c));
    if end - start != word.len() {
        assert(t.len() != codes(word@).len());
        return false;
    }
    let mut i: usize = 0;
    while i < word.len()
        invariant
            start <= end <= cs@.len(),
            end - start == word@.len(),
            t == cs@.subrange(start as int, end as int).map_values(|c: char| lower_code(c)),
            i <= word@.len(),
            forall|j: int| 0 <= j < i ==> t[j] == codes(word@)[j],
        decreases word@.len() - i,
    {
        if lower_char(cs[start + i]) != word[i] as u32 {
            assert(t[i as int] != codes(word@)[i as int]);
            return false;
        }
        i = i + 1;
    }
    assert(t =~= codes(word@));
    true
}

/// Read the subscribe-authorization setting: unset leaves authorization on,
/// and only an explicit "off" ([`is_explicit_off`]) turns it off. An
/// unrecognised value stays on, the more restrictive state, so a typo fails
/// closed.
pub fn subscribe_authz_enabled(value: Option<&str>) -> (r: bool)
    ensures
        r == match value {
            None => true,
            Some(v) => !is_explicit_off(v@),
        },
{
    let v = match value {
        None => return true,
        Some(v) => v,
    };
    let cs = crate::text::chars_of(v);
    let n = cs.len();
    assert(cs@.subrange(0, n as int) =~= cs@);
    let mut i: usize = 0;
    while i < n && is_ws_char(cs[i])
        invariant
            n == cs@.len(),
            i <= n,
            trim_ws(cs@) == trim_ws(cs@.subrange(i as int, n as int)),
        decreases n - i,
    {
        proof {
            assert(cs@.subrange(i as int, n as int).drop_first() =~= cs@.subrange(i + 1, n as int));
        }
        i = i + 1;
    }
    let mut j: usize = n;
    while j > i && is_ws_char(cs[j - 1])
        invariant
            n == cs@.len(),
            i <= j <= n,
            i < j ==> !is_unicode_ws(cs@[i as int]),
            trim_ws(cs@) == trim_ws(cs@.subrange(i as int, j as int)),
        decreases j - i,
    {
        proof {
            assert(cs@.subrange(i as int, j as int).drop_last() =~= cs@.subrange(i as int, j - 1));
        }
        j = j - 1;
    }
    proof {
        let sub = cs@.subrange(i as int, j as int);
        if i < j {
            assert(sub[0] == cs@[i as int]);
            assert(sub.last() == cs@[j - 1]);
        }
        assert(trim_ws(sub) == sub);
    }
    let w0: [char; 1] = ['0'];
    let w1: [char; 5] = ['f', 'a', 'l', 's', 'e'];
    let w2: [char; 2] = ['n', 'o'];
    let w3: [char; 3] = ['o', 'f', 'f'];
    assert(w0@ =~= seq!['0']);
    assert(w1@ =~= seq!['f', 'a', 'l', 's', 'e']);
    assert(w2@ =~= seq!['n', 'o']);
    assert(w3@ =~= seq!['o', 'f', 'f']);
    let off = lowered_equals(&cs, i, j, w0.as_slice()) || lowered_equals(&cs, i, j, w1.as_slice())
        || lowered_equals(&cs, i, j, w2.as_slice()) || lowered_equals(&cs, i, j, w3.as_slice());
    !off
}

/// The relay server's state: configuration, routing state and connection
/// accounting.
pub struct RelayServer {
    router: MessageRouter,
    auth_token: Option<String>,
    require_subscribe_authz: bool,
    max_connections: usize,
    active_connections: usize,
    conn_counter: u64,
}

impl RelayServer {
    /// The routing state.
    pub closed spec fn router(&self) -> MessageRouter {
        self.router
    }

    /// The bearer token `Identify` must carry, if authentication is on.
    pub closed spec fn auth_token(&self) -> Option<Seq<char>> {
        match self.auth_token {
            Some(t) => Some(t@),
            None => None,
        }
    }

    /// Whether presented subscribe capabilities are checked and content is
    /// gated.
    pub closed spec fn authz(&self) -> bool {
        self.require_subscribe_authz
    }

    /// The connection cap.
    pub closed spec fn max_connections(&self) -> nat {
        self.max_connections as nat
    }

    /// The number of open connections.
    pub closed spec fn active_connections(&self) -> nat {
        self.active_connections as nat
    }

    /// The id the next accepted connection gets.
    pub closed spec fn next_conn_id(&self) -> u64 {
        self.conn_counter
    }

    /// The server's invariant: a well-formed router whose content gating
    /// follows the authorization switch, and never an empty token.
    pub closed spec fn wf(&self) -> bool {
        &&& self.router.wf()
        &&& self.router.gating() == self.require_subscribe_authz
        &&& (self.auth_token matches Some(t) ==> t@.len() > 0)
    }

    /// A server with default limits, no authentication, authorization off,
    /// and no connections.
    pub fn new() -> (s: RelayServer)
        ensures
            s.wf(),
            s.auth_token() is None,
            !s.authz(),
            s.max_connections() == DEFAULT_MAX_CONNECTIONS,
            s.active_connections() == 0,
            s.next_conn_id() == 0,
            s.router().subscriptions().is_empty(),
            s.router().sessions().is_empty(),
            s.router().anchors().is_empty(),
            s.router().offline().len() == 0,
    {
        let router = MessageRouter::new();
        RelayServer {
            router,
            auth_token: None,
            require_subscribe_authz: false,
            max_connections: DEFAULT_MAX_CONNECTIONS,
            active_connections: 0,
            conn_counter: 0,
        }
    }

    /// Require clients to present `token` in `Identify`; `None` or an empty
    /// token leaves authentication off.
    pub fn with_auth_token(self, token: Option<String>) -> (s: RelayServer)
        requires
            self.wf(),
        ensures
            s.wf(),
            s.auth_token() == match token {
                Some(t) => if t@.len() > 0 { Some(t@) } else { None },
                None => None,
            },
            s.router() == self.router(),
            s.authz() == self.authz(),
            s.max_connections() == self.max_connections(),
            s.active_connections() == self.active_connections(),
            s.next_conn_id() == self.next_conn_id(),
    {
        let mut s = self;
        s.auth_token = match token {
            Some(t) => if !t.as_str().is_empty() { Some(t) } else { None },
            None => None,
        };
        s
    }

    /// Turn per-document subscribe authorization on or off. When on, a
    /// presented capability must verify against the document's anchor, and
    /// `YrsUpdate` reaches only subscribers authorized at the current anchor
    /// epoch.
    pub fn with_subscribe_authz(self, enabled: bool) -> (s: RelayServer)
        requires
            self.wf(),
        ensures
            s.wf(),
            s.authz() == enabled,
            s.router().gating() == enabled,
            s.router().subscriptions() == self.router().subscriptions(),
            s.router().sessions() == self.router().sessions(),
            s.router().anchors() == self.router().anchors(),
            s.router().offline() == self.router().offline(),
            s.auth_token() == self.auth_token(),
            s.max_connections() == self.max_connections(),
            s.active_connections() == self.active_connections(),
            s.next_conn_id() == self.next_conn_id(),
    {
        let mut s = self;
        s.require_subscribe_authz = enabled;
        s.router.set_content_gating(enabled);
        s
    }

    /// Set the maximum number of concurrent connections.
    pub fn with_max_connections(self, max: usize) -> (s: RelayServer)
        requires
            self.wf(),
        ensures
            s.wf(),
            s.max_connections() == max,
            s.router() == self.router(),
            s.auth_token() == self.auth_token(),
            s.authz() == self.authz(),
            s.active_connections() == self.active_connections(),
            s.next_conn_id() == self.next_conn_id(),
    {
        let mut s = self;
        s.max_connections = max;
        s
    }

    /// Admit a new connection, or refuse it at the connection cap. An
    /// admitted connection gets the next connection id.
    pub fn accept_connection(&mut self) -> (r: Option<u64>)
        requires
            old(self).wf(),
        ensures
            final(self).wf(),
            final(self).router() == old(self).router(),
            final(self).auth_token() == old(self).auth_token(),
            final(self).authz() == old(self).authz(),
            final(self).max_connections() == old(self).max_connections(),
            old(self).active_connections() + 1 > old(self).max_connections() ==> {
                &&& r is None
                &&& final(self).active_connections() == old(self).active_connections()
                &&& final(self).next_conn_id() == old(self).next_conn_id()
            },
            old(self).active_connections() + 1 <= old(self).max_connections() ==> {
                &&& r == Some(old(self).next_conn_id())
                &&& final(self).active_connections() == old(self).active_connections() + 1
                &&& final(self).next_conn_id() == (old(self).next_conn_id() + 1) % 0x1_0000_0000_0000_0000
            },
    {
        if self.active_connections >= self.max_connections {
            return None;
        }
        self.active_connections = self.active_connections + 1;
        let id = self.conn_counter;
        self.conn_counter = self.conn_counter.wrapping_add(1);
        Some(id)
    }

    /// Handle `Identify`: authenticate, register this connection as the
    /// user's session (taking over an older one), then reply `Identified`
    /// followed by every message queued while the user was offline.
    pub fn handle_identify(&mut self, conn: &mut Connection, uid: String, token: Option<String>) -> (o: Outcome)
        requires
            old(self).wf(),
            old(conn).wf(),
        ensures
            final(self).wf(),
            final(conn).wf(),
            identify_post(*old(self), *final(self), *old(conn), *final(conn), uid@, opt_str(token), o),

    {
        let unauthorized = match &self.auth_token {
            Some(expected) => match &token {
                Some(t) => !crate::text::str_eq(t.as_str(), expected.as_str()),
                None => true,
            },
            None => false,
        };
        if unauthorized {
            return reply(error(ErrorCode::Unauthorized, "Invalid or missing authentication token"));
        }
        if uid.as_str().as_bytes().len() > MAX_ID_LEN {
            return reply(error(ErrorCode::LimitExceeded, "user_id exceeds maximum length of 256"));
        }
        // With authentication off there is no identity to protect, so a
        // duplicate Identify is the same user reconnecting; with it on, the
        // token was checked above. Either way the newer connection wins.
        let allow_takeover = !unauthorized;
        let registered = self.router.register_client(uid.as_str(), conn.conn_id, allow_takeover);
        if !registered.registered {
            return reply(error(ErrorCode::Unauthorized, "user_id already has an active session"));
        }
        conn.user_id = Some(uid.clone());
        let mut replies: Vec<ServerMessage> = Vec::new();
        replies.push(ServerMessage::Identified { user_id: uid.clone() });
        let ghost q0 = self.router.offline();
        proof { crate::storage::lemma_index_of(q0, uid@); }
        let mut queued = self.router.drain_offline(uid.as_str());
        proof {
            assert(messages_view(queued@) =~= queued@.map_values(crate::storage::message_view()));
            assert(messages_view(queued@) == queued_for(q0, uid@));
            assert(self.router.offline() == drained_for(q0, uid@));
        }
        let ghost first = messages_view(replies@);
        assert(first =~= seq![ServerMessageView::Identified { user_id: uid@ }]);
        replies.append(&mut queued);
        proof {
            assert(messages_view(replies@) =~= first + queued_for(q0, uid@));
        }
        Outcome { replies, replaced: registered.replaced, route: None }
    }

    /// Check a presented subscribe capability against the document's anchor
    /// (authorization on): the content-authorization state the subscription
    /// earns, or the reason it is refused.
    pub fn authorize_subscribe(&self, uid: &str, doc_id: &str, capability: Option<SubscribeCapability>, now: u64) -> (r: Result<Option<u64>, String>)
        requires
            self.wf(),
            id_ok(uid@),
            id_ok(doc_id@),
        ensures
            match authorize_result(true, self.router().anchors(), uid@, doc_id@, capability, now) {
                Ok(a) => r == Ok::<Option<u64>, String>(a),
                Err(m) => r matches Err(e) && e@ == m,
            },
    {
        let cap = match capability {
            None => return Ok(None),
            Some(c) => c,
        };
        let anchor = match self.router.get_anchor(doc_id) {
            None => return Err("no subscribe anchor registered for this document".to_owned()),
            Some(a) => a,
        };
        // The expected values are the connection's own user id, the subscribe
        // target and the locally stored anchor: never the capability's claims.
        match verify_subscribe_capability(&cap, &anchor.verifying_key, uid, doc_id, anchor.epoch, now) {
            Err(_) => Err("subscribe capability verification failed".to_owned()),
            Ok(()) => Ok(Some(anchor.epoch)),
        }
    }

    /// Handle `Subscribe`. Without a capability (or with authorization off)
    /// the subscription carries the MLS handshake only, which is what lets a
    /// joiner receive its `Welcome`; a presented capability must verify, or
    /// the client is refused and not subscribed.
    pub fn handle_subscribe(&mut self, conn: &Connection, doc_id: String, capability: Option<SubscribeCapability>, now: u64) -> (o: Outcome)
        requires
            old(self).wf(),
            conn.wf(),
        ensures
            final(self).wf(),
            subscribe_post(*old(self), *final(self), *conn, doc_id@, capability, now, o),

    {
        let uid = match &conn.user_id {
            None => return reply(error(ErrorCode::NotIdentified, "Must identify before subscribing")),
            Some(u) => u,
        };
        if let Some(e) = validate_doc_id(doc_id.as_str()) {
            return reply(e);
        }
        let authorized_epoch = if self.require_subscribe_authz {
            match self.authorize_subscribe(uid.as_str(), doc_id.as_str(), capability, now) {
                Ok(a) => a,
                Err(m) => return reply(error(ErrorCode::Unauthorized, m.as_str())),
            }
        } else {
            None
        };
        if self.router.subscribe(uid.as_str(), doc_id.as_str(), authorized_epoch) {
            reply(ServerMessage::Subscribed { doc_id })
        } else {
            reply(error(ErrorCode::LimitExceeded, "Subscription limit reached"))
        }
    }

    /// Handle `RegisterDocKey`: (re)anchor a document's subscribe
    /// verification key. The `proof` must be a self-signature over
    /// `(doc_id, epoch)` under the new key, which proves possession of the key
    /// (not group membership: first registration wins). A rotation must also
    /// be signed by the current anchor key (`rotation_proof`). The router then
    /// enforces monotonic epochs and the document cap. Success is silent.
    pub fn handle_register_doc_key(
        &mut self,
        conn: &Connection,
        doc_id: String,
        epoch: u64,
        public_key: Vec<u8>,
        proof: Vec<u8>,
        rotation_proof: Vec<u8>,
    ) -> (o: Outcome)
        requires
            old(self).wf(),
            conn.wf(),
        ensures
            final(self).wf(),
            register_post(*old(self), *final(self), *conn, doc_id@, epoch, public_key@, proof@, rotation_proof@, o),

    {
        if conn.user_id.is_none() {
            return reply(error(ErrorCode::NotIdentified, "Must identify before registering a document key"));
        }
        if let Some(e) = validate_doc_id(doc_id.as_str()) {
            return reply(e);
        }
        let key = match key_array(public_key.as_slice()) {
            None => return reply(error(ErrorCode::Unauthorized, "public_key must be 32 bytes")),
            Some(k) => k,
        };
        if verify_doc_key_proof(doc_id.as_str(), epoch, &key, proof.as_slice()).is_err() {
            return reply(error(ErrorCode::Unauthorized, "doc key proof verification failed"));
        }
        if let Some(current) = self.router.get_anchor(doc_id.as_str()) {
            if verify_anchor_rotation(doc_id.as_str(), epoch, &key, &current.verifying_key, rotation_proof.as_slice()).is_err() {
                return reply(error(ErrorCode::Unauthorized, "anchor rotation continuity proof verification failed"));
            }
        }
        if !self.router.set_anchor(doc_id.as_str(), epoch, key) {
            return reply(error(ErrorCode::Unauthorized, "stale or equal epoch for document anchor"));
        }
        nothing()
    }

    /// Handle `Unsubscribe`.
    pub fn handle_unsubscribe(&mut self, conn: &Connection, doc_id: String) -> (o: Outcome)
        requires
            old(self).wf(),
            conn.wf(),
        ensures
            final(self).wf(),
            unsubscribe_post(*old(self), *final(self), *conn, doc_id@, o),

    {
        let uid = match &conn.user_id {
            None => return reply(error(ErrorCode::NotIdentified, "Must identify before unsubscribing")),
            Some(u) => u,
        };
        self.router.unsubscribe(uid.as_str(), doc_id.as_str());
        reply(ServerMessage::Unsubscribed { doc_id })
    }

    /// Handle `YrsUpdate`: route the encrypted update, stamped with the
    /// sender, to the document's subscribers.
    pub fn handle_yrs_update(&self, conn: &Connection, doc_id: String, encrypted: Vec<u8>, epoch: u64) -> (o: Outcome)
        requires
            conn.wf(),
        ensures
            update_post(*conn, doc_id@, encrypted@, epoch, o),

    {
        let uid = match &conn.user_id {
            None => return reply(error(ErrorCode::NotIdentified, "Must identify before sending updates")),
            Some(u) => u,
        };
        if let Some(e) = validate_doc_id(doc_id.as_str()) {
            return reply(e);
        }
        let message = ServerMessage::YrsUpdate { doc_id: doc_id.clone(), from: uid.clone(), encrypted, epoch };
        let o = Outcome { replies: Vec::new(), replaced: None, route: Some(RouteRequest { doc_id, from: uid.clone(), message }) };
        assert(messages_view(o.replies@) =~= Seq::<ServerMessageView>::empty());
        o
    }

    /// Handle `MlsHandshake`: route the handshake message, stamped with the
    /// sender, to the document's subscribers.
    pub fn handle_mls_handshake(
        &self,
        conn: &Connection,
        doc_id: String,
        payload: Vec<u8>,
        message_type: crate::proto::MlsMessageType,
    ) -> (o: Outcome)
        requires
            conn.wf(),
        ensures
            handshake_post(*conn, doc_id@, payload@, message_type, o),

    {
        let uid = match &conn.user_id {
            None => return reply(error(ErrorCode::NotIdentified, "Must identify before sending MLS handshake")),
            Some(u) => u,
        };
        if let Some(e) = validate_doc_id(doc_id.as_str()) {
            return reply(e);
        }
        let message = ServerMessage::MlsHandshake { doc_id: doc_id.clone(), from: uid.clone(), payload, message_type };
        let o = Outcome { replies: Vec::new(), replaced: None, route: Some(RouteRequest { doc_id, from: uid.clone(), message }) };
        assert(messages_view(o.replies@) =~= Seq::<ServerMessageView>::empty());
        o
    }

    /// Handle one client message on `conn` at time `now` (seconds since the
    /// Unix epoch, for capability expiry).
    pub fn handle_message(&mut self, conn: &mut Connection, msg: ClientMessage, now: u64) -> (o: Outcome)
        requires
            old(self).wf(),
            old(conn).wf(),
        ensures
            final(self).wf(),
            final(conn).wf(),
            match msg {
                ClientMessage::Identify { user_id, token } =>
                    identify_post(*old(self), *final(self), *old(conn), *final(conn), user_id@, opt_str(token), o),
                ClientMessage::Subscribe { doc_id, capability } =>
                    subscribe_post(*old(self), *final(self), *old(conn), doc_id@, capability, now, o) && *final(conn) == *old(conn),
                ClientMessage::RegisterDocKey { doc_id, epoch, public_key, proof, rotation_proof } =>
                    register_post(*old(self), *final(self), *old(conn), doc_id@, epoch, public_key@, proof@, rotation_proof@, o)
                        && *final(conn) == *old(conn),
                ClientMessage::Unsubscribe { doc_id } =>
                    unsubscribe_post(*old(self), *final(self), *old(conn), doc_id@, o) && *final(conn) == *old(conn),
                ClientMessage::YrsUpdate { doc_id, encrypted, epoch } =>
                    update_post(*old(conn), doc_id@, encrypted@, epoch, o) && *final(self) == *old(self) && *final(conn) == *old(conn),
                ClientMessage::MlsHandshake { doc_id, payload, message_type } =>
                    handshake_post(*old(conn), doc_id@, payload@, message_type, o) && *final(self) == *old(self)
                        && *final(conn) == *old(conn),
            },
    {
        match msg {
            ClientMessage::Identify { user_id, token } => self.handle_identify(conn, user_id, token),
            ClientMessage::Subscribe { doc_id, capability } => self.handle_subscribe(conn, doc_id, capability, now),
            ClientMessage::RegisterDocKey { doc_id, epoch, public_key, proof, rotation_proof } =>
                self.handle_register_doc_key(conn, doc_id, epoch, public_key, proof, rotation_proof),
            ClientMessage::Unsubscribe { doc_id } => self.handle_unsubscribe(conn, doc_id),
            ClientMessage::YrsUpdate { doc_id, encrypted, epoch } => self.handle_yrs_update(conn, doc_id, encrypted, epoch),
            ClientMessage::MlsHandshake { doc_id, payload, message_type } =>
                self.handle_mls_handshake(conn, doc_id, payload, message_type),
        }
    }

    /// Clean up after a connection closed: remove its session, but only if
    /// the user's session is still this connection. Subscriptions stay, so
    /// the now-offline user's updates are queued for reconnect.
    pub fn handle_disconnect(&mut self, conn: &Connection)
        requires
            old(self).wf(),
        ensures
            final(self).wf(),
            keeps_config(*old(self), *final(self)),
            final(self).router().sessions() == match conn.user() {
                Some(u) => if old(self).router().sessions().get(u) == Some(conn.id()) {
                    old(self).router().sessions().remove(u)
                } else {
                    old(self).router().sessions()
                },
                None => old(self).router().sessions(),
            },
            final(self).router().subscriptions() == old(self).router().subscriptions(),
            final(self).router().anchors() == old(self).router().anchors(),
            final(self).router().offline() == old(self).router().offline(),
    {
        if let Some(uid) = &conn.user_id {
            self.router.unregister_client(uid.as_str(), conn.conn_id);
        }
    }

    /// The routing state, for computing recipients and classifying delivery.
    pub fn router_state(&self) -> (r: &MessageRouter)
        ensures
            *r == self.router(),
    {
        &self.router
    }

    /// Finish routing a message once delivery was tried; see
    /// [`MessageRouter::finish_route`].
    pub fn finish_route(&mut self, message: &ServerMessage, fan: FanOut) -> (e: RouteEffects)
        requires
            old(self).wf(),
        ensures
            final(self).wf(),
            keeps_config(*old(self), *final(self)),
            final(self).router().sessions() == crate::routing::drop_slow(old(self).router().sessions(), crate::routing::slow_view(fan.slow@)),
            e.closed@ == crate::routing::closed_conns(old(self).router().sessions(), crate::routing::slow_view(fan.slow@)),
            e.evicted@.len() == 0 ==> final(self).router().subscriptions() == old(self).router().subscriptions(),
            e.evicted@.len() > 0 ==> final(self).router().subscriptions() == crate::routing::without_users(
                old(self).router().subscriptions(),
                crate::routing::strs_view(e.evicted@).to_set(),
            ),
            final(self).router().anchors() == old(self).router().anchors(),
            crate::routing::enqueued_in_turn(
                old(self).router().offline(),
                final(self).router().offline(),
                old(self).router().offline_limits(),
                crate::routing::strs_view(fan.offline@) + crate::routing::slow_users(fan.slow@),
                message@,
            ),
    {
        self.router.finish_route(message, fan)
    }

    /// A connection ended.
    pub fn release_connection(&mut self)
        requires
            old(self).wf(),
            old(self).active_connections() > 0,
        ensures
            final(self).wf(),
            final(self).active_connections() == old(self).active_connections() - 1,
            final(self).router() == old(self).router(),
            final(self).auth_token() == old(self).auth_token(),
            final(self).authz() == old(self).authz(),
            final(self).max_connections() == old(self).max_connections(),
            final(self).next_conn_id() == old(self).next_conn_id(),
    {
        self.active_connections = self.active_connections - 1;
    }
}

} // verus!
