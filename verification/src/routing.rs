//! Message routing between subscribed clients.
//!
//! The router is the single source of truth for three things:
//! - **client sessions**: the connection id of each currently-connected user,
//!   so a stale connection can never evict a newer one;
//! - **subscriptions**: which users are subscribed to which documents, with
//!   each subscription's content-authorization state. They are retained across
//!   disconnect so that updates for a briefly-offline subscriber are queued
//!   rather than dropped;
//! - the **offline queue** (see [`crate::storage::OfflineQueue`]).
//!
//! Subscriptions and anchors are bounded: the number of documents and the
//! subscribers per document are capped.
//!
//! Delivering a message to a live connection is the caller's I/O: it asks for
//! the [`MessageRouter::recipients`], tries each live connection, and hands the
//! outcomes back to [`MessageRouter::fan_out`] and
//! [`MessageRouter::finish_route`], which queue what could not be delivered and
//! drop too-slow sessions.

use vstd::prelude::*;

use crate::assoc::{distinct_keys, lemma_distinct_push, lemma_to_map_dom, lemma_to_map_index, lemma_to_map_len, lemma_to_map_push, lemma_to_map_remove, lemma_to_map_update, to_map};
use crate::proto::{ServerMessage, ServerMessageView};
use crate::storage::{OfflineQueue, UserQueueView};
use crate::text::str_eq;

verus! {

/// A per-document subscribe-authorization anchor: the current MLS `epoch` and
/// the `Ed25519` verifying key derived from that epoch's exporter secret.
/// Public, non-secret data.
#[derive(Debug, Clone, Copy)]
pub struct DocAnchor {
    /// MLS epoch this anchor is bound to; capabilities must match it exactly.
    pub epoch: u64,
    /// `Ed25519` verifying key for this epoch.
    pub verifying_key: [u8; 32],
}

/// One subscriber of a document with its content-authorization state:
/// `None` for the MLS handshake only, `Some(epoch)` once a subscribe
/// capability was verified at that anchor epoch.
struct Member {
    user: String,
    authorized: Option<u64>,
}

/// The subscribers of one document.
struct DocSubs {
    doc_id: String,
    members: Vec<Member>,
}

/// The anchor of one document.
struct AnchorEntry {
    doc_id: String,
    anchor: DocAnchor,
}

/// The live connection of one user.
struct Session {
    user: String,
    conn_id: u64,
}

/// The (user, authorization) pairs of a subscriber list.
pub closed spec fn member_pairs(ms: Seq<Member>) -> Seq<(Seq<char>, Option<u64>)> {
    ms.map_values(|m: Member| (m.user@, m.authorized))
}

/// The (document, subscribers) pairs of the subscription table.
pub closed spec fn sub_pairs(ds: Seq<DocSubs>) -> Seq<(Seq<char>, Map<Seq<char>, Option<u64>>)> {
    ds.map_values(|d: DocSubs| (d.doc_id@, to_map(member_pairs(d.members@))))
}

/// The (document, anchor) pairs of the anchor table.
pub closed spec fn anchor_pairs(es: Seq<AnchorEntry>) -> Seq<(Seq<char>, DocAnchor)> {
    es.map_values(|e: AnchorEntry| (e.doc_id@, e.anchor))
}

/// The (user, connection) pairs of the session table.
pub closed spec fn session_pairs(ss: Seq<Session>) -> Seq<(Seq<char>, u64)> {
    ss.map_values(|s: Session| (s.user@, s.conn_id))
}

/// What [`MessageRouter::register_client`] decided.
#[derive(Debug, PartialEq, Eq)]
pub struct RegisterOutcome {
    /// The connection is now the user's registered session.
    pub registered: bool,
    /// An older connection of the same user that was replaced: the caller
    /// sends it a `SessionReplaced` error and closes it.
    pub replaced: Option<u64>,
}

/// The values of a list of strings.
pub open spec fn strs_view(v: Seq<String>) -> Seq<Seq<char>> {
    v.map_values(|s: String| s@)
}

/// No string occurs twice.
pub open spec fn no_dups(v: Seq<Seq<char>>) -> bool {
    forall|i: int, j: int| 0 <= i < j < v.len() ==> v[i] != v[j]
}

/// Whether `user`, a subscriber with the authorization state recorded in
/// `members`, should receive a message from `from`: never the sender itself,
/// and for gated content only a subscriber authorized at the current anchor
/// epoch `epoch`.
pub open spec fn eligible(members: Map<Seq<char>, Option<u64>>, from: Seq<char>, gated: bool, epoch: u64, user: Seq<char>) -> bool {
    selected(members, from, true, gated, epoch, user)
}

/// Whether `user` is a subscriber in `members`, other than `from` when
/// `exclude`, and authorized at `epoch` when `gated`.
pub open spec fn selected(members: Map<Seq<char>, Option<u64>>, from: Seq<char>, exclude: bool, gated: bool, epoch: u64, user: Seq<char>) -> bool {
    &&& members.dom().contains(user)
    &&& (exclude ==> user != from)
    &&& (gated ==> members[user] == Some(epoch))
}

/// Whether content gating applies to `m` under the gating flag `gating`:
/// only `YrsUpdate` is ever gated, never handshake traffic.
pub open spec fn is_gated(gating: bool, m: ServerMessageView) -> bool {
    gating && m is YrsUpdate
}

/// The subscription table with `users` removed from every document, and
/// documents left without subscribers pruned.
pub open spec fn without_users(m: Map<Seq<char>, Map<Seq<char>, Option<u64>>>, users: Set<Seq<char>>) -> Map<Seq<char>, Map<Seq<char>, Option<u64>>> {
    Map::new(
        |d: Seq<char>| m.dom().contains(d) && m[d].remove_keys(users).dom().len() > 0,
        |d: Seq<char>| m[d].remove_keys(users),
    )
}

/// How many of the first `n` subscribers were delivered to a live session.
pub open spec fn fan_sent(subs: Seq<Seq<char>>, delivered: Seq<bool>, sess: Map<Seq<char>, u64>, n: nat) -> nat
    decreases n,
{
    if n == 0 {
        0
    } else {
        let prev = fan_sent(subs, delivered, sess, (n - 1) as nat);
        if sess.dom().contains(subs[n - 1]) && delivered[n - 1] { prev + 1 } else { prev }
    }
}

/// The first `n` subscribers that have no live session, in order.
pub open spec fn fan_offline(subs: Seq<Seq<char>>, sess: Map<Seq<char>, u64>, n: nat) -> Seq<Seq<char>>
    decreases n,
{
    if n == 0 {
        Seq::empty()
    } else {
        let prev = fan_offline(subs, sess, (n - 1) as nat);
        if !sess.dom().contains(subs[n - 1]) { prev.push(subs[n - 1]) } else { prev }
    }
}

/// The first `n` subscribers whose live session did not take the message,
/// with that session's connection id, in order.
pub open spec fn fan_slow(subs: Seq<Seq<char>>, delivered: Seq<bool>, sess: Map<Seq<char>, u64>, n: nat) -> Seq<(Seq<char>, u64)>
    decreases n,
{
    if n == 0 {
        Seq::empty()
    } else {
        let prev = fan_slow(subs, delivered, sess, (n - 1) as nat);
        if sess.dom().contains(subs[n - 1]) && !delivered[n - 1] { prev.push((subs[n - 1], sess[subs[n - 1]])) } else { prev }
    }
}

/// The sessions left once each slow (user, connection) pair is dropped, in
/// turn, if the user's session is still that connection.
pub open spec fn drop_slow(sess: Map<Seq<char>, u64>, slow: Seq<(Seq<char>, u64)>) -> Map<Seq<char>, u64>
    decreases slow.len(),
{
    if slow.len() == 0 {
        sess
    } else {
        let prev = drop_slow(sess, slow.drop_last());
        if prev.get(slow.last().0) == Some(slow.last().1) { prev.remove(slow.last().0) } else { prev }
    }
}

/// The connections dropped by [`drop_slow`], in order.
pub open spec fn closed_conns(sess: Map<Seq<char>, u64>, slow: Seq<(Seq<char>, u64)>) -> Seq<u64>
    decreases slow.len(),
{
    if slow.len() == 0 {
        Seq::empty()
    } else {
        let prev = closed_conns(sess, slow.drop_last());
        if drop_slow(sess, slow.drop_last()).get(slow.last().0) == Some(slow.last().1) { prev.push(slow.last().1) } else { prev }
    }
}

/// The queues `qn` result from `q0` by enqueueing `m` for each of `users`
/// in turn, each step as [`crate::storage::enqueue_step`] states it.
pub open spec fn enqueued_in_turn(
    q0: Seq<UserQueueView>,
    qn: Seq<UserQueueView>,
    lim: crate::storage::QueueLimits,
    users: Seq<Seq<char>>,
    m: ServerMessageView,
) -> bool {
    exists|chain: Seq<Seq<UserQueueView>>| {
        &&& chain.len() == users.len() + 1
        &&& chain[0] == q0
        &&& chain.last() == qn
        &&& forall|j: int| 0 <= j < users.len() ==> #[trigger] crate::storage::enqueue_step(chain[j], chain[j + 1], lim, users[j], m)
    }
}

/// The users of a list of (user, connection) pairs.
pub open spec fn slow_users(v: Seq<(String, u64)>) -> Seq<Seq<char>> {
    v.map_values(|p: (String, u64)| p.0@)
}

/// The values of a list of (user, connection) pairs.
pub open spec fn slow_view(v: Seq<(String, u64)>) -> Seq<(Seq<char>, u64)> {
    v.map_values(|p: (String, u64)| (p.0@, p.1))
}

/// How subscribers fared when a message was offered to their live sessions.
pub struct FanOut {
    /// How many live sessions took the message.
    pub sent: usize,
    /// Subscribers without a live session.
    pub offline: Vec<String>,
    /// Subscribers whose live session did not take the message, with that
    /// session's connection id.
    pub slow: Vec<(String, u64)>,
}

/// What finishing a route did beyond delivery.
pub struct RouteEffects {
    /// Connections of too-slow consumers that were dropped; the caller closes
    /// them.
    pub closed: Vec<u64>,
    /// Users whose whole offline queue was evicted at capacity; their
    /// subscriptions were dropped.
    pub evicted: Vec<String>,
}

/// Whether `u` occurs in `users`.
pub fn contains_str(users: &Vec<String>, u: &str) -> (r: bool)
    ensures
        r == strs_view(users@).contains(u@),
{
    let mut i: usize = 0;
    while i < users.len()
        invariant
            i <= users@.len(),
            forall|j: int| 0 <= j < i ==> strs_view(users@)[j] != u@,
        decreases users@.len() - i,
    {
        if str_eq(users[i].as_str(), u) {
            assert(strs_view(users@)[i as int] == u@);
            return true;
        }
        i = i + 1;
    }
    false
}

/// Dropping `users` commutes with adding a fresh document.
pub proof fn lemma_without_users_insert(
    m: Map<Seq<char>, Map<Seq<char>, Option<u64>>>,
    d: Seq<char>,
    members: Map<Seq<char>, Option<u64>>,
    users: Set<Seq<char>>,
)
    requires
        !m.dom().contains(d),
    ensures
        without_users(m.insert(d, members), users) == (if members.remove_keys(users).dom().len() > 0 {
            without_users(m, users).insert(d, members.remove_keys(users))
        } else {
            without_users(m, users)
        }),
{
    let lhs = without_users(m.insert(d, members), users);
    if members.remove_keys(users).dom().len() > 0 {
        assert(lhs =~= without_users(m, users).insert(d, members.remove_keys(users)));
    } else {
        assert(lhs =~= without_users(m, users));
    }
}

/// Removing a key that is absent from a map changes nothing, and removing
/// keys commutes with inserting one outside them.
pub proof fn lemma_remove_keys_insert(m: Map<Seq<char>, Option<u64>>, k: Seq<char>, v: Option<u64>, users: Set<Seq<char>>)
    ensures
        users.contains(k) ==> m.insert(k, v).remove_keys(users) == m.remove_keys(users),
        !users.contains(k) ==> m.insert(k, v).remove_keys(users) == m.remove_keys(users).insert(k, v),
{
    if users.contains(k) {
        assert(m.insert(k, v).remove_keys(users) =~= m.remove_keys(users));
    } else {
        assert(m.insert(k, v).remove_keys(users) =~= m.remove_keys(users).insert(k, v));
    }
}

/// The subscribers of `ms` other than `users`, in order.
fn without_members(ms: &Vec<Member>, users: &Vec<String>) -> (out: Vec<Member>)
    requires
        distinct_keys(member_pairs(ms@)),
    ensures
        distinct_keys(member_pairs(out@)),
        to_map(member_pairs(out@)) == to_map(member_pairs(ms@)).remove_keys(strs_view(users@).to_set()),
        out@.len() <= ms@.len(),
{
    let ghost pairs = member_pairs(ms@);
    let ghost us = strs_view(users@).to_set();
    let mut out: Vec<Member> = Vec::new();
    let mut j: usize = 0;
    proof {
        assert(pairs.take(0) =~= Seq::<(Seq<char>, Option<u64>)>::empty());
        assert(member_pairs(out@) =~= Seq::<(Seq<char>, Option<u64>)>::empty());
        assert(to_map(Seq::<(Seq<char>, Option<u64>)>::empty()).remove_keys(us) =~= Map::<Seq<char>, Option<u64>>::empty());
    }
    while j < ms.len()
        invariant
            pairs == member_pairs(ms@),
            us == strs_view(users@).to_set(),
            distinct_keys(pairs),
            j <= ms@.len(),
            out@.len() <= j,
            distinct_keys(member_pairs(out@)),
            to_map(member_pairs(out@)) == to_map(pairs.take(j as int)).remove_keys(us),
        decreases ms@.len() - j,
    {
        let ghost before = member_pairs(out@);
        let ghost k = pairs[j as int].0;
        let ghost v = pairs[j as int].1;
        proof {
            assert(pairs.take(j + 1) =~= pairs.take(j as int).push((k, v)));
            lemma_to_map_push(pairs.take(j as int), k, v);
            lemma_remove_keys_insert(to_map(pairs.take(j as int)), k, v, us);
            assert(ms@[j as int].user@ == k && ms@[j as int].authorized == v);
        }
        let drop = contains_str(users, ms[j].user.as_str());
        if !drop {
            proof {
                lemma_to_map_dom(pairs.take(j as int));
                lemma_to_map_dom(before);
                assert forall|x: int| 0 <= x < before.len() implies before[x].0 != k by {
                    if before[x].0 == k {
                        assert(to_map(before).dom().contains(k));
                        let y = choose|y: int| 0 <= y < j && pairs.take(j as int)[y].0 == k;
                        assert(pairs[y].0 == k);
                    }
                }
                lemma_distinct_push(before, k, v);
                lemma_to_map_push(before, k, v);
            }
            out.push(Member { user: ms[j].user.clone(), authorized: ms[j].authorized });
            proof { assert(member_pairs(out@) =~= before.push((k, v))); }
        }
        j = j + 1;
    }
    proof { assert(pairs.take(ms@.len() as int) =~= pairs); }
    out
}

/// What subscribing `user` to `doc` with authorization `auth` does to the
/// subscription table `m`: whether it succeeds, and the resulting table.
/// Re-subscribing a member re-states its authorization; otherwise a new
/// document is refused at the document cap (changing nothing) and a new
/// member at the per-document cap (a new document keeps its empty entry).
pub open spec fn subscribe_result(
    m: Map<Seq<char>, Map<Seq<char>, Option<u64>>>,
    user: Seq<char>,
    doc: Seq<char>,
    auth: Option<u64>,
    max_documents: nat,
    max_per_doc: nat,
) -> (bool, Map<Seq<char>, Map<Seq<char>, Option<u64>>>) {
    let has_doc = m.dom().contains(doc);
    let members = if has_doc { m[doc] } else { Map::<Seq<char>, Option<u64>>::empty() };
    if has_doc && members.dom().contains(user) {
        (true, m.insert(doc, members.insert(user, auth)))
    } else if !has_doc && m.len() >= max_documents {
        (false, m)
    } else if members.len() < max_per_doc {
        (true, m.insert(doc, members.insert(user, auth)))
    } else {
        (false, m.insert(doc, members))
    }
}

/// The subscription table `m` once `user` unsubscribes from `doc`; a document
/// left without subscribers is pruned.
pub open spec fn unsubscribe_result(m: Map<Seq<char>, Map<Seq<char>, Option<u64>>>, user: Seq<char>, doc: Seq<char>) -> Map<Seq<char>, Map<Seq<char>, Option<u64>>> {
    if !m.dom().contains(doc) {
        m
    } else if m[doc].remove(user).len() == 0 {
        m.remove(doc)
    } else {
        m.insert(doc, m[doc].remove(user))
    }
}

/// Whether an anchor for `doc` at `epoch` is accepted: a rotation needs a
/// strictly higher epoch; a first registration needs room under the
/// document cap and an epoch no higher than the initial-epoch ceiling.
pub open spec fn anchor_accepts(anchors: Map<Seq<char>, DocAnchor>, doc: Seq<char>, epoch: u64, max_documents: nat) -> bool {
    match anchors.get(doc) {
        Some(a) => epoch > a.epoch,
        None => anchors.len() < max_documents && epoch <= MessageRouter::MAX_INITIAL_ANCHOR_EPOCH,
    }
}

/// Routes messages to the appropriate subscribers.
pub struct MessageRouter {
    subscriptions: Vec<DocSubs>,
    anchors: Vec<AnchorEntry>,
    clients: Vec<Session>,
    offline: OfflineQueue,
    max_documents: usize,
    max_subscribers_per_doc: usize,
    content_gating: bool,
}

impl MessageRouter {
    /// Default maximum number of distinct documents tracked.
    pub const DEFAULT_MAX_DOCUMENTS: usize = 100000;

    /// Default maximum number of subscribers per document.
    pub const DEFAULT_MAX_SUBSCRIBERS_PER_DOC: usize = 1000;

    /// Largest epoch accepted for a first (trust-on-first-use) anchor
    /// registration. A real MLS group starts at epoch 1 and advances by one
    /// per commit, so a first-seen anchor claiming a huge epoch is bogus;
    /// capping it stops an attacker who wins the first registration with
    /// `u64::MAX` from locking out every real rotation.
    pub const MAX_INITIAL_ANCHOR_EPOCH: u64 = 1000000;

    /// Subscriptions: document -> user -> content-authorization state.
    pub closed spec fn subscriptions(&self) -> Map<Seq<char>, Map<Seq<char>, Option<u64>>> {
        to_map(sub_pairs(self.subscriptions@))
    }

    /// Anchors: document -> anchor.
    pub closed spec fn anchors(&self) -> Map<Seq<char>, DocAnchor> {
        to_map(anchor_pairs(self.anchors@))
    }

    /// Live sessions: user -> connection id.
    pub closed spec fn sessions(&self) -> Map<Seq<char>, u64> {
        to_map(session_pairs(self.clients@))
    }

    /// The offline queue's state.
    pub closed spec fn offline(&self) -> Seq<UserQueueView> {
        self.offline@
    }

    /// The offline queue's limits.
    pub closed spec fn offline_limits(&self) -> crate::storage::QueueLimits {
        self.offline.limits()
    }

    /// Whether `YrsUpdate` fan-out is restricted to content-authorized
    /// subscribers.
    pub closed spec fn gating(&self) -> bool {
        self.content_gating
    }

    /// The cap on distinct documents.
    pub closed spec fn max_documents(&self) -> nat {
        self.max_documents as nat
    }

    /// The cap on subscribers per document.
    pub closed spec fn max_subscribers_per_doc(&self) -> nat {
        self.max_subscribers_per_doc as nat
    }

    /// The router's internal invariant: every table keyed without repeats,
    /// every bound held, and a well-formed offline queue.
    pub closed spec fn wf(&self) -> bool {
        &&& distinct_keys(sub_pairs(self.subscriptions@))
        &&& forall|i: int| 0 <= i < self.subscriptions@.len() ==> distinct_keys(member_pairs(#[trigger] self.subscriptions@[i].members@))
        &&& forall|i: int| 0 <= i < self.subscriptions@.len() ==> (#[trigger] self.subscriptions@[i]).members@.len() <= self.max_subscribers_per_doc
        &&& self.subscriptions@.len() <= self.max_documents
        &&& distinct_keys(anchor_pairs(self.anchors@))
        &&& self.anchors@.len() <= self.max_documents
        &&& distinct_keys(session_pairs(self.clients@))
        &&& self.offline.wf()
    }

    /// A router with the given caps and offline queue, no sessions,
    /// subscriptions or anchors, and content gating off.
    pub fn with_limits(max_documents: usize, max_subscribers_per_doc: usize, offline: OfflineQueue) -> (r: MessageRouter)
        requires
            offline.wf(),
        ensures
            r.wf(),
            r.subscriptions() == Map::<Seq<char>, Map<Seq<char>, Option<u64>>>::empty(),
            r.anchors() == Map::<Seq<char>, DocAnchor>::empty(),
            r.sessions() == Map::<Seq<char>, u64>::empty(),
            r.offline() == offline@,
            !r.gating(),
            r.max_documents() == max_documents,
            r.max_subscribers_per_doc() == max_subscribers_per_doc,
    {
        let r = MessageRouter {
            subscriptions: Vec::new(),
            anchors: Vec::new(),
            clients: Vec::new(),
            offline,
            max_documents,
            max_subscribers_per_doc,
            content_gating: false,
        };
        assert(sub_pairs(r.subscriptions@) =~= Seq::empty());
        assert(anchor_pairs(r.anchors@) =~= Seq::empty());
        assert(session_pairs(r.clients@) =~= Seq::empty());
        r
    }

    /// A router with default limits.
    pub fn new() -> (r: MessageRouter)
        ensures
            r.wf(),
            r.subscriptions() == Map::<Seq<char>, Map<Seq<char>, Option<u64>>>::empty(),
            r.anchors() == Map::<Seq<char>, DocAnchor>::empty(),
            r.sessions() == Map::<Seq<char>, u64>::empty(),
            r.offline() == Seq::<UserQueueView>::empty(),
            !r.gating(),
            r.max_documents() == 100000,
            r.max_subscribers_per_doc() == 1000,
    {
        Self::with_limits(Self::DEFAULT_MAX_DOCUMENTS, Self::DEFAULT_MAX_SUBSCRIBERS_PER_DOC, OfflineQueue::new())
    }

    /// Restrict `YrsUpdate` fan-out to content-authorized subscribers, or lift
    /// the restriction.
    pub fn set_content_gating(&mut self, enabled: bool)
        requires
            old(self).wf(),
        ensures
            final(self).wf(),
            final(self).gating() == enabled,
            final(self).subscriptions() == old(self).subscriptions(),
            final(self).anchors() == old(self).anchors(),
            final(self).sessions() == old(self).sessions(),
            final(self).offline() == old(self).offline(),
            final(self).max_documents() == old(self).max_documents(),
            final(self).max_subscribers_per_doc() == old(self).max_subscribers_per_doc(),
    {
        self.content_gating = enabled;
    }

    /// The index of `doc_id`'s anchor entry.
    fn find_anchor(&self, doc_id: &str) -> (r: Option<usize>)
        requires
            distinct_keys(anchor_pairs(self.anchors@)),
        ensures
            r matches Some(i) ==> i < self.anchors@.len() && self.anchors@[i as int].doc_id@ == doc_id@
                && self.anchors().dom().contains(doc_id@) && self.anchors()[doc_id@] == self.anchors@[i as int].anchor,
            r is None ==> !self.anchors().dom().contains(doc_id@),
    {
        let ghost pairs = anchor_pairs(self.anchors@);
        proof { lemma_to_map_dom(pairs); }
        let mut i: usize = 0;
        while i < self.anchors.len()
            invariant
                pairs == anchor_pairs(self.anchors@),
                distinct_keys(pairs),
                i <= self.anchors@.len(),
                forall|j: int| 0 <= j < i ==> pairs[j].0 != doc_id@,
            decreases self.anchors@.len() - i,
        {
            if str_eq(self.anchors[i].doc_id.as_str(), doc_id) {
                proof { lemma_to_map_index(pairs, i as int); }
                return Some(i);
            }
            i = i + 1;
        }
        None
    }

    /// The subscribe-authorization anchor of a document, if one is set.
    pub fn get_anchor(&self, doc_id: &str) -> (r: Option<DocAnchor>)
        requires
            self.wf(),
        ensures
            r == self.anchors().get(doc_id@),
    {
        match self.find_anchor(doc_id) {
            Some(i) => Some(self.anchors[i].anchor),
            None => None,
        }
    }

    /// Whether a first (trust-on-first-use) anchor at `epoch` is acceptable
    /// when `current_len` documents are anchored: below the document cap and
    /// no higher than [`Self::MAX_INITIAL_ANCHOR_EPOCH`].
    fn accept_first_anchor(&self, epoch: u64, current_len: usize) -> (r: bool)
        ensures
            r == (current_len < self.max_documents && epoch <= Self::MAX_INITIAL_ANCHOR_EPOCH),
    {
        if current_len >= self.max_documents {
            return false;
        }
        if epoch > Self::MAX_INITIAL_ANCHOR_EPOCH {
            return false;
        }
        true
    }

    /// Set (or rotate) a document's subscribe-authorization anchor.
    ///
    /// Accepts a rotation of an existing anchor iff `epoch` is strictly
    /// greater than its epoch; accepts a first registration iff fewer than
    /// `max_documents` documents are anchored and `epoch` is at most
    /// [`Self::MAX_INITIAL_ANCHOR_EPOCH`]. A refusal leaves every anchor as it
    /// was. The registrant's self-proof is checked by the caller.
    pub fn set_anchor(&mut self, doc_id: &str, epoch: u64, verifying_key: [u8; 32]) -> (accepted: bool)
        requires
            old(self).wf(),
        ensures
            final(self).wf(),
            accepted == anchor_accepts(old(self).anchors(), doc_id@, epoch, old(self).max_documents()),
            accepted ==> final(self).anchors() == old(self).anchors().insert(doc_id@, DocAnchor { epoch, verifying_key }),
            !accepted ==> final(self).anchors() == old(self).anchors(),
            final(self).subscriptions() == old(self).subscriptions(),
            final(self).sessions() == old(self).sessions(),
            final(self).offline() == old(self).offline(),
            final(self).gating() == old(self).gating(),
            final(self).max_documents() == old(self).max_documents(),
            final(self).max_subscribers_per_doc() == old(self).max_subscribers_per_doc(),
    {
        let ghost pairs = anchor_pairs(self.anchors@);
        proof { lemma_to_map_len(pairs); }
        let anchor = DocAnchor { epoch, verifying_key };
        match self.find_anchor(doc_id) {
            Some(i) => {
                if epoch <= self.anchors[i].anchor.epoch {
                    return false;
                }
                let ghost old_entry = self.anchors@[i as int];
                self.anchors.set(i, AnchorEntry { doc_id: doc_id.to_owned(), anchor });
                proof {
                    lemma_to_map_update(pairs, i as int, anchor);
                    assert(anchor_pairs(self.anchors@) =~= pairs.update(i as int, (pairs[i as int].0, anchor)));
                }
                true
            },
            None => {
                let current_len = self.anchors.len();
                if !self.accept_first_anchor(epoch, current_len) {
                    return false;
                }
                proof {
                    lemma_to_map_dom(pairs);
                    assert forall|j: int| 0 <= j < pairs.len() implies pairs[j].0 != doc_id@ by {
                        if pairs[j].0 == doc_id@ {
                            assert(self.anchors().dom().contains(doc_id@));
                        }
                    }
                    lemma_distinct_push(pairs, doc_id@, anchor);
                    lemma_to_map_push(pairs, doc_id@, anchor);
                }
                self.anchors.push(AnchorEntry { doc_id: doc_id.to_owned(), anchor });
                proof {
                    assert(anchor_pairs(self.anchors@) =~= pairs.push((doc_id@, anchor)));
                }
                true
            },
        }
    }

    /// The index of `user_id`'s session.
    fn find_session(&self, user_id: &str) -> (r: Option<usize>)
        requires
            distinct_keys(session_pairs(self.clients@)),
        ensures
            r matches Some(i) ==> i < self.clients@.len() && self.clients@[i as int].user@ == user_id@
                && self.sessions().dom().contains(user_id@) && self.sessions()[user_id@] == self.clients@[i as int].conn_id,
            r is None ==> !self.sessions().dom().contains(user_id@),
    {
        let ghost pairs = session_pairs(self.clients@);
        proof { lemma_to_map_dom(pairs); }
        let mut i: usize = 0;
        while i < self.clients.len()
            invariant
                pairs == session_pairs(self.clients@),
                distinct_keys(pairs),
                i <= self.clients@.len(),
                forall|j: int| 0 <= j < i ==> pairs[j].0 != user_id@,
            decreases self.clients@.len() - i,
        {
            if str_eq(self.clients[i].user.as_str(), user_id) {
                proof { lemma_to_map_index(pairs, i as int); }
                return Some(i);
            }
            i = i + 1;
        }
        None
    }

    /// Remove the session at index `i`.
    fn remove_session(&mut self, i: usize)
        requires
            old(self).wf(),
            i < old(self).clients@.len(),
        ensures
            final(self).wf(),
            final(self).sessions() == old(self).sessions().remove(old(self).clients@[i as int].user@),
            final(self).subscriptions() == old(self).subscriptions(),
            final(self).anchors() == old(self).anchors(),
            final(self).offline() == old(self).offline(),
            final(self).offline_limits() == old(self).offline_limits(),
            final(self).gating() == old(self).gating(),
            final(self).max_documents() == old(self).max_documents(),
            final(self).max_subscribers_per_doc() == old(self).max_subscribers_per_doc(),
    {
        let ghost pairs = session_pairs(self.clients@);
        proof { lemma_to_map_remove(pairs, i as int); }
        self.clients.remove(i);
        proof { assert(session_pairs(self.clients@) =~= pairs.remove(i as int)); }
    }

    /// Register `conn_id` as `user_id`'s session.
    ///
    /// When a different connection holds the user id, it is replaced if
    /// `allow_takeover` (the caller then sends it a `SessionReplaced` error and
    /// closes it); otherwise the existing session is left untouched and the
    /// new connection is refused. Re-registering the same connection is
    /// idempotent.
    pub fn register_client(&mut self, user_id: &str, conn_id: u64, allow_takeover: bool) -> (r: RegisterOutcome)
        requires
            old(self).wf(),
        ensures
            final(self).wf(),
            ({
                let stale = old(self).sessions().dom().contains(user_id@) && old(self).sessions()[user_id@] != conn_id;
                &&& r.registered == (!stale || allow_takeover)
                &&& r.replaced == (if stale && allow_takeover { Some(old(self).sessions()[user_id@]) } else { None })
                &&& r.registered ==> final(self).sessions() == old(self).sessions().insert(user_id@, conn_id)
                &&& !r.registered ==> final(self).sessions() == old(self).sessions()
            }),
            final(self).subscriptions() == old(self).subscriptions(),
            final(self).anchors() == old(self).anchors(),
            final(self).offline() == old(self).offline(),
            final(self).gating() == old(self).gating(),
            final(self).max_documents() == old(self).max_documents(),
            final(self).max_subscribers_per_doc() == old(self).max_subscribers_per_doc(),
    {
        let ghost pairs = session_pairs(self.clients@);
        match self.find_session(user_id) {
            Some(i) => {
                let previous = self.clients[i].conn_id;
                if previous != conn_id && !allow_takeover {
                    return RegisterOutcome { registered: false, replaced: None };
                }
                self.clients.set(i, Session { user: user_id.to_owned(), conn_id });
                proof {
                    lemma_to_map_update(pairs, i as int, conn_id);
                    assert(session_pairs(self.clients@) =~= pairs.update(i as int, (pairs[i as int].0, conn_id)));
                }
                let replaced = if previous != conn_id { Some(previous) } else { None };
                RegisterOutcome { registered: true, replaced }
            },
            None => {
                proof {
                    lemma_to_map_dom(pairs);
                    assert forall|j: int| 0 <= j < pairs.len() implies pairs[j].0 != user_id@ by {
                        if pairs[j].0 == user_id@ {
                            assert(self.sessions().dom().contains(user_id@));
                        }
                    }
                    lemma_distinct_push(pairs, user_id@, conn_id);
                    lemma_to_map_push(pairs, user_id@, conn_id);
                }
                self.clients.push(Session { user: user_id.to_owned(), conn_id });
                proof { assert(session_pairs(self.clients@) =~= pairs.push((user_id@, conn_id))); }
                RegisterOutcome { registered: true, replaced: None }
            },
        }
    }

    /// Unregister a user's session on disconnect, but only if it still
    /// belongs to `conn_id`: a stale connection's teardown never evicts a
    /// newer session. Subscriptions are kept, so updates for the now-offline
    /// user are queued.
    pub fn unregister_client(&mut self, user_id: &str, conn_id: u64)
        requires
            old(self).wf(),
        ensures
            final(self).wf(),
            final(self).sessions() == (if old(self).sessions().get(user_id@) == Some(conn_id) {
                old(self).sessions().remove(user_id@)
            } else {
                old(self).sessions()
            }),
            final(self).subscriptions() == old(self).subscriptions(),
            final(self).anchors() == old(self).anchors(),
            final(self).offline() == old(self).offline(),
            final(self).gating() == old(self).gating(),
            final(self).max_documents() == old(self).max_documents(),
            final(self).max_subscribers_per_doc() == old(self).max_subscribers_per_doc(),
    {
        if let Some(i) = self.find_session(user_id) {
            if self.clients[i].conn_id == conn_id {
                self.remove_session(i);
            }
        }
    }

    /// The number of live sessions.
    pub fn client_count(&self) -> (n: usize)
        requires
            self.wf(),
        ensures
            n == self.sessions().len(),
    {
        proof { lemma_to_map_len(session_pairs(self.clients@)); }
        self.clients.len()
    }

    /// The connection id of a user's live session.
    pub fn get_client(&self, user_id: &str) -> (r: Option<u64>)
        requires
            self.wf(),
        ensures
            r == self.sessions().get(user_id@),
    {
        match self.find_session(user_id) {
            Some(i) => Some(self.clients[i].conn_id),
            None => None,
        }
    }

    /// The index of `doc_id`'s subscriber list.
    fn find_doc(&self, doc_id: &str) -> (r: Option<usize>)
        requires
            distinct_keys(sub_pairs(self.subscriptions@)),
        ensures
            r matches Some(i) ==> i < self.subscriptions@.len() && self.subscriptions@[i as int].doc_id@ == doc_id@
                && self.subscriptions().dom().contains(doc_id@)
                && self.subscriptions()[doc_id@] == to_map(member_pairs(self.subscriptions@[i as int].members@)),
            r is None ==> !self.subscriptions().dom().contains(doc_id@),
    {
        let ghost pairs = sub_pairs(self.subscriptions@);
        proof { lemma_to_map_dom(pairs); }
        let mut i: usize = 0;
        while i < self.subscriptions.len()
            invariant
                pairs == sub_pairs(self.subscriptions@),
                distinct_keys(pairs),
                i <= self.subscriptions@.len(),
                forall|j: int| 0 <= j < i ==> pairs[j].0 != doc_id@,
            decreases self.subscriptions@.len() - i,
        {
            if str_eq(self.subscriptions[i].doc_id.as_str(), doc_id) {
                proof { lemma_to_map_index(pairs, i as int); }
                return Some(i);
            }
            i = i + 1;
        }
        None
    }

    /// The index of `user_id` among the subscribers of the document at `di`.
    fn find_member(&self, di: usize, user_id: &str) -> (r: Option<usize>)
        requires
            di < self.subscriptions@.len(),
            distinct_keys(member_pairs(self.subscriptions@[di as int].members@)),
        ensures
            ({
                let ms = self.subscriptions@[di as int].members@;
                &&& r matches Some(j) ==> j < ms.len() && ms[j as int].user@ == user_id@
                    && to_map(member_pairs(ms)).dom().contains(user_id@)
                    && to_map(member_pairs(ms))[user_id@] == ms[j as int].authorized
                &&& r is None ==> !to_map(member_pairs(ms)).dom().contains(user_id@)
            }),
    {
        let ghost pairs = member_pairs(self.subscriptions@[di as int].members@);
        proof { lemma_to_map_dom(pairs); }
        let mut j: usize = 0;
        while j < self.subscriptions[di].members.len()
            invariant
                di < self.subscriptions@.len(),
                pairs == member_pairs(self.subscriptions@[di as int].members@),
                distinct_keys(pairs),
                j <= pairs.len(),
                forall|k: int| 0 <= k < j ==> pairs[k].0 != user_id@,
            decreases pairs.len() - j,
        {
            if str_eq(self.subscriptions[di].members[j].user.as_str(), user_id) {
                proof { lemma_to_map_index(pairs, j as int); }
                return Some(j);
            }
            j = j + 1;
        }
        None
    }

    /// Subscribe a user to a document with the given content-authorization
    /// state (`None`: handshake only; `Some(epoch)`: a capability verified at
    /// that anchor epoch).
    ///
    /// Re-subscribing an existing member always succeeds and re-states its
    /// authorization (an upgrade or a downgrade). Otherwise a new document is
    /// refused at the document cap, and a new member at the per-document cap;
    /// the refusal leaves the subscriptions unchanged, except that a new
    /// document that passed the document cap keeps its (empty) entry.
    pub fn subscribe(&mut self, user_id: &str, doc_id: &str, authorized_epoch: Option<u64>) -> (ok: bool)
        requires
            old(self).wf(),
        ensures
            final(self).wf(),
            ok == subscribe_result(old(self).subscriptions(), user_id@, doc_id@, authorized_epoch, old(self).max_documents(), old(self).max_subscribers_per_doc()).0,
            final(self).subscriptions() == subscribe_result(old(self).subscriptions(), user_id@, doc_id@, authorized_epoch, old(self).max_documents(), old(self).max_subscribers_per_doc()).1,
            final(self).anchors() == old(self).anchors(),
            final(self).sessions() == old(self).sessions(),
            final(self).offline() == old(self).offline(),
            final(self).gating() == old(self).gating(),
            final(self).max_documents() == old(self).max_documents(),
            final(self).max_subscribers_per_doc() == old(self).max_subscribers_per_doc(),
    {
        let ghost pairs = sub_pairs(self.subscriptions@);
        proof { lemma_to_map_len(pairs); lemma_to_map_dom(pairs); }
        let di = match self.find_doc(doc_id) {
            Some(di) => {
                let ghost mpairs = member_pairs(self.subscriptions@[di as int].members@);
                match self.find_member(di, user_id) {
                    Some(mi) => {
                        let ghost before = self.subscriptions@;
                        self.subscriptions[di].members.set(mi, Member { user: user_id.to_owned(), authorized: authorized_epoch });
                        proof {
                            lemma_to_map_update(mpairs, mi as int, authorized_epoch);
                            let nm = self.subscriptions@[di as int].members@;
                            assert(member_pairs(nm) =~= mpairs.update(mi as int, (mpairs[mi as int].0, authorized_epoch)));
                            let inner = to_map(member_pairs(nm));
                            lemma_to_map_update(pairs, di as int, inner);
                            assert(sub_pairs(self.subscriptions@) =~= pairs.update(di as int, (pairs[di as int].0, inner)));
                            assert forall|i: int| 0 <= i < self.subscriptions@.len() && i != di implies #[trigger] self.subscriptions@[i] == before[i] by {}
                        }
                        return true;
                    },
                    None => di,
                }
            },
            None => {
                if self.subscriptions.len() >= self.max_documents {
                    return false;
                }
                proof {
                    assert forall|j: int| 0 <= j < pairs.len() implies pairs[j].0 != doc_id@ by {
                        if pairs[j].0 == doc_id@ {
                            assert(self.subscriptions().dom().contains(doc_id@));
                        }
                    }
                    lemma_distinct_push(pairs, doc_id@, Map::<Seq<char>, Option<u64>>::empty());
                    lemma_to_map_push(pairs, doc_id@, Map::<Seq<char>, Option<u64>>::empty());
                }
                let ghost before = self.subscriptions@;
                self.subscriptions.push(DocSubs { doc_id: doc_id.to_owned(), members: Vec::new() });
                proof {
                    let nd = self.subscriptions@.last();
                    assert(member_pairs(nd.members@) =~= Seq::<(Seq<char>, Option<u64>)>::empty());
                    assert(to_map(member_pairs(nd.members@)) == Map::<Seq<char>, Option<u64>>::empty());
                    assert(sub_pairs(self.subscriptions@) =~= pairs.push((doc_id@, Map::<Seq<char>, Option<u64>>::empty())));
                    assert forall|i: int| 0 <= i < before.len() implies #[trigger] self.subscriptions@[i] == before[i] by {}
                    assert(self.subscriptions().insert(doc_id@, Map::<Seq<char>, Option<u64>>::empty()) =~= self.subscriptions());
                }
                self.subscriptions.len() - 1
            },
        };
        let ghost mid = self.subscriptions@;
        let ghost mpairs = member_pairs(self.subscriptions@[di as int].members@);
        let ghost mpairs_old_pairs = sub_pairs(self.subscriptions@);
        proof {
            lemma_to_map_len(mpairs);
            lemma_to_map_dom(mpairs);
            lemma_to_map_index(mpairs_old_pairs, di as int);
        }
        if self.subscriptions[di].members.len() >= self.max_subscribers_per_doc {
            return false;
        }
        proof {
            assert forall|j: int| 0 <= j < mpairs.len() implies mpairs[j].0 != user_id@ by {
                if mpairs[j].0 == user_id@ {
                    assert(to_map(mpairs).dom().contains(user_id@));
                }
            }
            lemma_distinct_push(mpairs, user_id@, authorized_epoch);
            lemma_to_map_push(mpairs, user_id@, authorized_epoch);
        }
        self.subscriptions[di].members.push(Member { user: user_id.to_owned(), authorized: authorized_epoch });
        proof {
            let nm = self.subscriptions@[di as int].members@;
            assert(member_pairs(nm) =~= mpairs.push((user_id@, authorized_epoch)));
            let inner = to_map(member_pairs(nm));
            lemma_to_map_update(mpairs_old_pairs, di as int, inner);
            assert(sub_pairs(self.subscriptions@) =~= mpairs_old_pairs.update(di as int, (mpairs_old_pairs[di as int].0, inner)));
            assert forall|i: int| 0 <= i < self.subscriptions@.len() && i != di implies #[trigger] self.subscriptions@[i] == mid[i] by {}
        }
        true
    }

    /// Unsubscribe a user from a document, pruning the document once it has
    /// no subscribers.
    pub fn unsubscribe(&mut self, user_id: &str, doc_id: &str)
        requires
            old(self).wf(),
        ensures
            final(self).wf(),
            final(self).subscriptions() == unsubscribe_result(old(self).subscriptions(), user_id@, doc_id@),
            final(self).anchors() == old(self).anchors(),
            final(self).sessions() == old(self).sessions(),
            final(self).offline() == old(self).offline(),
            final(self).gating() == old(self).gating(),
            final(self).max_documents() == old(self).max_documents(),
            final(self).max_subscribers_per_doc() == old(self).max_subscribers_per_doc(),
    {
        let ghost pairs = sub_pairs(self.subscriptions@);
        let di = match self.find_doc(doc_id) {
            Some(di) => di,
            None => return,
        };
        let ghost mpairs = member_pairs(self.subscriptions@[di as int].members@);
        proof { lemma_to_map_index(pairs, di as int); }
        let ghost before = self.subscriptions@;
        match self.find_member(di, user_id) {
            Some(mi) => {
                self.subscriptions[di].members.remove(mi);
                proof {
                    lemma_to_map_remove(mpairs, mi as int);
                    let nm = self.subscriptions@[di as int].members@;
                    assert(member_pairs(nm) =~= mpairs.remove(mi as int));
                    let inner = to_map(member_pairs(nm));
                    lemma_to_map_update(pairs, di as int, inner);
                    assert(sub_pairs(self.subscriptions@) =~= pairs.update(di as int, (pairs[di as int].0, inner)));
                    assert forall|i: int| 0 <= i < self.subscriptions@.len() && i != di implies #[trigger] self.subscriptions@[i] == before[i] by {}
                    lemma_to_map_len(member_pairs(nm));
                }
            },
            None => {
                proof {
                    assert(to_map(mpairs).remove(user_id@) =~= to_map(mpairs));
                    assert(self.subscriptions().insert(doc_id@, to_map(mpairs)) =~= self.subscriptions());
                    lemma_to_map_len(mpairs);
                }
            },
        }
        let ghost mid_pairs = sub_pairs(self.subscriptions@);
        if self.subscriptions[di].members.len() == 0 {
            proof {
                lemma_to_map_remove(mid_pairs, di as int);
                assert(mid_pairs[di as int].0 == doc_id@);
            }
            let ghost mid = self.subscriptions@;
            self.subscriptions.remove(di);
            proof {
                assert(sub_pairs(self.subscriptions@) =~= mid_pairs.remove(di as int));
                assert forall|i: int| 0 <= i < self.subscriptions@.len() implies #[trigger] self.subscriptions@[i] == (if i < di { mid[i] } else { mid[i + 1] }) by {}
                assert(to_map(mid_pairs).remove(doc_id@) =~= old(self).subscriptions().remove(doc_id@));
            }
        }
    }

    /// Whether a user is subscribed to a document, at any authorization state.
    pub fn is_subscribed(&self, user_id: &str, doc_id: &str) -> (r: bool)
        requires
            self.wf(),
        ensures
            r == (self.subscriptions().dom().contains(doc_id@) && self.subscriptions()[doc_id@].dom().contains(user_id@)),
    {
        match self.find_doc(doc_id) {
            Some(di) => self.find_member(di, user_id).is_some(),
            None => false,
        }
    }

    /// The subscribers of a document matching `gated`/`epoch` eligibility for
    /// a message from `from`, each once.
    fn eligible_members(&self, di: usize, from: &str, exclude: bool, gated: bool, epoch: u64) -> (out: Vec<String>)
        requires
            self.wf(),
            di < self.subscriptions@.len(),
        ensures
            ({
                let members = to_map(member_pairs(self.subscriptions@[di as int].members@));
                &&& no_dups(strs_view(out@))
                &&& forall|u: Seq<char>| strs_view(out@).contains(u) <==> selected(members, from@, exclude, gated, epoch, u)
            }),
    {
        let ghost ms = self.subscriptions@[di as int].members@;
        let ghost pairs = member_pairs(ms);
        let ghost members = to_map(pairs);
        proof { lemma_to_map_dom(pairs); }
        let mut out: Vec<String> = Vec::new();
        let mut j: usize = 0;
        let n = self.subscriptions[di].members.len();
        while j < n
            invariant
                di < self.subscriptions@.len(),
                ms == self.subscriptions@[di as int].members@,
                pairs == member_pairs(ms),
                members == to_map(pairs),
                n == ms.len(),
                distinct_keys(pairs),
                j <= n,
                no_dups(strs_view(out@)),
                forall|x: int| 0 <= x < out@.len() ==> exists|k: int| 0 <= k < j && pairs[k].0 == #[trigger] strs_view(out@)[x],
                forall|u: Seq<char>| strs_view(out@).contains(u) ==> selected(members, from@, exclude, gated, epoch, u),
                forall|k: int| 0 <= k < j && selected(members, from@, exclude, gated, epoch, #[trigger] pairs[k].0) ==> strs_view(out@).contains(pairs[k].0),
            decreases n - j,
        {
            let m = &self.subscriptions[di].members[j];
            proof { lemma_to_map_index(pairs, j as int); }
            proof { assert(pairs[j as int] == (m.user@, m.authorized)); }
            let auth_ok = match m.authorized {
                Some(e) => e == epoch,
                None => false,
            };
            let is_from = exclude && str_eq(m.user.as_str(), from);
            let keep = !is_from && (!gated || auth_ok);
            if keep {
                let ghost before = strs_view(out@);
                proof {
                    assert(selected(members, from@, exclude, gated, epoch, pairs[j as int].0));
                    assert forall|x: int| 0 <= x < before.len() implies before[x] != pairs[j as int].0 by {
                        let k = choose|k: int| 0 <= k < j && pairs[k].0 == before[x];
                    }
                }
                out.push(m.user.clone());
                proof {
                    assert(strs_view(out@) =~= before.push(pairs[j as int].0));
                    assert forall|x: int| 0 <= x < out@.len() implies exists|k: int| 0 <= k < j + 1 && pairs[k].0 == #[trigger] strs_view(out@)[x] by {
                        if x < before.len() {
                            let k = choose|k: int| 0 <= k < j && pairs[k].0 == before[x];
                            assert(pairs[k].0 == strs_view(out@)[x]);
                        } else {
                            assert(pairs[j as int].0 == strs_view(out@)[x]);
                        }
                    }
                    assert forall|u: Seq<char>| strs_view(out@).contains(u) implies selected(members, from@, exclude, gated, epoch, u) by {
                        if u != pairs[j as int].0 {
                            let x = choose|x: int| 0 <= x < strs_view(out@).len() && strs_view(out@)[x] == u;
                            assert(before[x] == u);
                            assert(before.contains(u));
                        }
                    }
                    assert forall|k: int| 0 <= k < j + 1 && selected(members, from@, exclude, gated, epoch, #[trigger] pairs[k].0) implies strs_view(out@).contains(pairs[k].0) by {
                        if k < j {
                            let x = choose|x: int| 0 <= x < before.len() && before[x] == pairs[k].0;
                            assert(strs_view(out@)[x] == pairs[k].0);
                        } else {
                            assert(strs_view(out@)[before.len() as int] == pairs[k].0);
                        }
                    }
                }
            } else {
                proof {
                    assert(!selected(members, from@, exclude, gated, epoch, pairs[j as int].0));
                }
            }
            j = j + 1;
        }
        proof {
            assert forall|u: Seq<char>| selected(members, from@, exclude, gated, epoch, u) implies strs_view(out@).contains(u) by {
                let k = choose|k: int| 0 <= k < pairs.len() && pairs[k].0 == u;
            }
        }
        out
    }

    /// All subscribers of a document, each once (none for an unknown document).
    pub fn get_subscribers(&self, doc_id: &str) -> (out: Vec<String>)
        requires
            self.wf(),
        ensures
            no_dups(strs_view(out@)),
            forall|u: Seq<char>| strs_view(out@).contains(u) <==> (self.subscriptions().dom().contains(doc_id@)
                && self.subscriptions()[doc_id@].dom().contains(u)),
    {
        match self.find_doc(doc_id) {
            Some(di) => {
                self.eligible_members(di, doc_id, false, false, 0)
            },
            None => {
                let out: Vec<String> = Vec::new();
                assert(strs_view(out@) =~= Seq::<Seq<char>>::empty());
                out
            },
        }
    }

    /// The subscribers of `doc_id` eligible for `message` from `from_user`,
    /// each once; `None` when the document has no subscribers, or when the
    /// message is gated content and the document has no anchor.
    ///
    /// With content gating off this is every subscriber but the sender. With
    /// it on, a `YrsUpdate` additionally requires the subscriber to have been
    /// authorized at the document's current anchor epoch, so rotating the
    /// anchor revokes every older authorization. Handshake traffic is never
    /// gated: a joiner must receive its `Welcome` before it can be authorized.
    pub fn recipients(&self, doc_id: &str, from_user: &str, message: &ServerMessage) -> (r: Option<Vec<String>>)
        requires
            self.wf(),
        ensures
            ({
                let gated = is_gated(self.gating(), message@);
                if gated && !self.anchors().dom().contains(doc_id@) {
                    r is None
                } else if !self.subscriptions().dom().contains(doc_id@) {
                    r is None
                } else {
                    let epoch = if gated { self.anchors()[doc_id@].epoch } else { 0 };
                    &&& r is Some
                    &&& no_dups(strs_view(r->0@))
                    &&& forall|u: Seq<char>| strs_view(r->0@).contains(u)
                        <==> eligible(self.subscriptions()[doc_id@], from_user@, gated, epoch, u)
                }
            }),
    {
        let is_update = match message {
            ServerMessage::YrsUpdate { .. } => true,
            _ => false,
        };
        let gated = self.content_gating && is_update;
        let epoch = if gated {
            match self.get_anchor(doc_id) {
                Some(a) => a.epoch,
                None => return None,
            }
        } else {
            0
        };
        match self.find_doc(doc_id) {
            Some(di) => Some(self.eligible_members(di, from_user, true, gated, epoch)),
            None => None,
        }
    }

    /// Classify each subscriber by the outcome of offering it the message:
    /// `delivered[i]` says whether the live session of `subscribers[i]`, if it
    /// has one, took the message. Subscribers without a session are offline;
    /// those whose session did not take it are slow and carry that session's
    /// connection id, so dropping them never evicts a newer session.
    pub fn fan_out(&self, subscribers: &Vec<String>, delivered: &Vec<bool>) -> (f: FanOut)
        requires
            self.wf(),
            subscribers.len() == delivered.len(),
        ensures
            f.sent == fan_sent(strs_view(subscribers@), delivered@, self.sessions(), subscribers@.len()),
            strs_view(f.offline@) == fan_offline(strs_view(subscribers@), self.sessions(), subscribers@.len()),
            slow_view(f.slow@) == fan_slow(strs_view(subscribers@), delivered@, self.sessions(), subscribers@.len()),
    {
        let ghost subs = strs_view(subscribers@);
        let ghost sess = self.sessions();
        let mut sent: usize = 0;
        let mut offline: Vec<String> = Vec::new();
        let mut slow: Vec<(String, u64)> = Vec::new();
        let mut i: usize = 0;
        while i < subscribers.len()
            invariant
                self.wf(),
                subs == strs_view(subscribers@),
                sess == self.sessions(),
                subscribers.len() == delivered.len(),
                i <= subscribers.len(),
                sent == fan_sent(subs, delivered@, sess, i as nat),
                sent <= i,
                strs_view(offline@) == fan_offline(subs, sess, i as nat),
                slow_view(slow@) == fan_slow(subs, delivered@, sess, i as nat),
            decreases subscribers.len() - i,
        {
            let ghost off_before = strs_view(offline@);
            let ghost slow_before = slow_view(slow@);
            assert(subs[i as int] == subscribers@[i as int]@);
            match self.get_client(subscribers[i].as_str()) {
                Some(conn) => {
                    if delivered[i] {
                        sent = sent + 1;
                    } else {
                        slow.push((subscribers[i].clone(), conn));
                        proof { assert(slow_view(slow@) =~= slow_before.push((subs[i as int], sess[subs[i as int]]))); }
                    }
                },
                None => {
                    offline.push(subscribers[i].clone());
                    proof { assert(strs_view(offline@) =~= off_before.push(subs[i as int])); }
                },
            }
            i = i + 1;
        }
        FanOut { sent, offline, slow }
    }

    /// Remove too-slow consumers, each only if the user's session is still
    /// the connection that was slow, returning the connections removed (the
    /// caller closes them).
    pub fn disconnect_slow(&mut self, slow: &Vec<(String, u64)>) -> (closed: Vec<u64>)
        requires
            old(self).wf(),
        ensures
            final(self).wf(),
            final(self).sessions() == drop_slow(old(self).sessions(), slow_view(slow@)),
            closed@ == closed_conns(old(self).sessions(), slow_view(slow@)),
            final(self).subscriptions() == old(self).subscriptions(),
            final(self).anchors() == old(self).anchors(),
            final(self).offline() == old(self).offline(),
            final(self).offline_limits() == old(self).offline_limits(),
            final(self).gating() == old(self).gating(),
            final(self).max_documents() == old(self).max_documents(),
            final(self).max_subscribers_per_doc() == old(self).max_subscribers_per_doc(),
    {
        let ghost sess0 = self.sessions();
        let ghost sv = slow_view(slow@);
        let mut closed: Vec<u64> = Vec::new();
        let mut i: usize = 0;
        while i < slow.len()
            invariant
                self.wf(),
                sv == slow_view(slow@),
                i <= slow.len(),
                self.sessions() == drop_slow(sess0, sv.take(i as int)),
                closed@ == closed_conns(sess0, sv.take(i as int)),
                self.subscriptions() == old(self).subscriptions(),
                self.anchors() == old(self).anchors(),
                self.offline_limits() == old(self).offline_limits(),
                self.offline() == old(self).offline(),
                self.gating() == old(self).gating(),
                self.max_documents() == old(self).max_documents(),
                self.max_subscribers_per_doc() == old(self).max_subscribers_per_doc(),
            decreases slow.len() - i,
        {
            proof {
                assert(sv.take(i + 1).drop_last() =~= sv.take(i as int));
                assert(sv.take(i + 1).last() == sv[i as int]);
            }
            let user = slow[i].0.as_str();
            let conn = slow[i].1;
            match self.find_session(user) {
                Some(si) => {
                    if self.clients[si].conn_id == conn {
                        self.remove_session(si);
                        closed.push(conn);
                    }
                },
                None => {},
            }
            i = i + 1;
        }
        proof { assert(sv.take(slow.len() as int) =~= sv); }
        closed
    }

    /// Remove `users` from every subscription set, pruning documents left
    /// without subscribers. A user's subscriptions live only as long as its
    /// offline-queue retention, so this runs when the queue evicts a user.
    pub fn drop_subscriptions(&mut self, users: &Vec<String>)
        requires
            old(self).wf(),
        ensures
            final(self).wf(),
            final(self).subscriptions() == without_users(old(self).subscriptions(), strs_view(users@).to_set()),
            final(self).anchors() == old(self).anchors(),
            final(self).sessions() == old(self).sessions(),
            final(self).offline() == old(self).offline(),
            final(self).offline_limits() == old(self).offline_limits(),
            final(self).gating() == old(self).gating(),
            final(self).max_documents() == old(self).max_documents(),
            final(self).max_subscribers_per_doc() == old(self).max_subscribers_per_doc(),
    {
        let ghost us = strs_view(users@).to_set();
        let ghost pairs = sub_pairs(self.subscriptions@);
        let mut old_subs: Vec<DocSubs> = Vec::new();
        std::mem::swap(&mut old_subs, &mut self.subscriptions);
        assert(old_subs@ == old(self).subscriptions@);
        let mut kept: Vec<DocSubs> = Vec::new();
        let mut i: usize = 0;
        proof {
            assert(pairs.take(0) =~= Seq::<(Seq<char>, Map<Seq<char>, Option<u64>>)>::empty());
            assert(sub_pairs(kept@) =~= Seq::<(Seq<char>, Map<Seq<char>, Option<u64>>)>::empty());
            assert(without_users(to_map(pairs.take(0)), us) =~= Map::<Seq<char>, Map<Seq<char>, Option<u64>>>::empty());
        }
        while i < old_subs.len()
            invariant
                pairs == sub_pairs(old_subs@),
                us == strs_view(users@).to_set(),
                distinct_keys(pairs),
                forall|x: int| 0 <= x < old_subs@.len() ==> distinct_keys(member_pairs(#[trigger] old_subs@[x].members@)),
                forall|x: int| 0 <= x < old_subs@.len() ==> (#[trigger] old_subs@[x]).members@.len() <= self.max_subscribers_per_doc,
                old_subs@.len() <= self.max_documents,
                i <= old_subs@.len(),
                kept@.len() <= i,
                distinct_keys(sub_pairs(kept@)),
                forall|x: int| 0 <= x < kept@.len() ==> distinct_keys(member_pairs(#[trigger] kept@[x].members@)),
                forall|x: int| 0 <= x < kept@.len() ==> (#[trigger] kept@[x]).members@.len() <= self.max_subscribers_per_doc,
                to_map(sub_pairs(kept@)) == without_users(to_map(pairs.take(i as int)), us),
                self.anchors@ == old(self).anchors@,
                self.clients@ == old(self).clients@,
                self.offline == old(self).offline,
                self.content_gating == old(self).content_gating,
                self.max_documents == old(self).max_documents,
                self.max_subscribers_per_doc == old(self).max_subscribers_per_doc,
            decreases old_subs@.len() - i,
        {
            let ghost before = sub_pairs(kept@);
            let ghost d = pairs[i as int].0;
            let ghost inner = pairs[i as int].1;
            let filtered = without_members(&old_subs[i].members, users);
            proof {
                assert(pairs.take(i + 1) =~= pairs.take(i as int).push((d, inner)));
                lemma_to_map_push(pairs.take(i as int), d, inner);
                lemma_to_map_dom(pairs.take(i as int));
                assert(!to_map(pairs.take(i as int)).dom().contains(d)) by {
                    if to_map(pairs.take(i as int)).dom().contains(d) {
                        let y = choose|y: int| 0 <= y < i && pairs.take(i as int)[y].0 == d;
                        assert(pairs[y].0 == d);
                    }
                }
                lemma_without_users_insert(to_map(pairs.take(i as int)), d, inner, us);
                lemma_to_map_len(member_pairs(filtered@));
                assert(old_subs@[i as int].doc_id@ == d);
            }
            if filtered.len() > 0 {
                proof {
                    lemma_to_map_dom(before);
                    assert forall|x: int| 0 <= x < before.len() implies before[x].0 != d by {
                        if before[x].0 == d {
                            assert(to_map(before).dom().contains(d));
                        }
                    }
                    lemma_distinct_push(before, d, to_map(member_pairs(filtered@)));
                    lemma_to_map_push(before, d, to_map(member_pairs(filtered@)));
                }
                kept.push(DocSubs { doc_id: old_subs[i].doc_id.clone(), members: filtered });
                proof { assert(sub_pairs(kept@) =~= before.push((d, to_map(member_pairs(kept@.last().members@))))); }
            }
            i = i + 1;
        }
        proof { assert(pairs.take(old_subs@.len() as int) =~= pairs); }
        self.subscriptions = kept;
    }

    /// Queue `message` for `user_id`, noting a user the queue evicted.
    fn enqueue_for(&mut self, user_id: &str, message: &ServerMessage, evicted: &mut Vec<String>)
        requires
            old(self).wf(),
        ensures
            final(self).wf(),
            final(self).offline_limits() == old(self).offline_limits(),
            crate::storage::enqueue_step(old(self).offline(), final(self).offline(), old(self).offline_limits(), user_id@, message@),
            ({
                let lim = old(self).offline_limits().bytes;
                let kind = crate::storage::view_kind(message@);
                let size = crate::storage::view_bytes(message@);
                let refused = size > crate::storage::per_user_of(lim, kind) || size > crate::storage::budget_of(lim, kind);
                &&& refused ==> final(self).offline() == old(self).offline() && final(evicted)@ == old(evicted)@
                &&& !refused ==> exists|i: int| {
                    &&& 0 <= i < final(self).offline().len()
                    &&& final(self).offline()[i].user == user_id@
                    &&& old(self).offline_limits().max_per_user > 0 ==> final(self).offline()[i].messages.last() == message@
                }
                &&& !refused ==> (final(evicted)@ == old(evicted)@ || ({
                    &&& final(evicted)@.len() == old(evicted)@.len() + 1
                    &&& final(evicted)@.drop_last() == old(evicted)@
                    &&& final(evicted)@.last()@ == old(self).offline()[0].user
                    &&& final(evicted)@.last()@ != user_id@
                }))
            }),
            final(self).subscriptions() == old(self).subscriptions(),
            final(self).sessions() == old(self).sessions(),
            final(self).anchors() == old(self).anchors(),
            final(self).gating() == old(self).gating(),
            final(self).max_documents() == old(self).max_documents(),
            final(self).max_subscribers_per_doc() == old(self).max_subscribers_per_doc(),
    {
        let outcome = self.offline.enqueue(user_id, message.duplicate());
        proof {
            if !outcome.refused {
                let q = self.offline@;
                let i = choose|i: int| {
                    &&& 0 <= i < q.len()
                    &&& q[i].user == user_id@
                    &&& old(self).offline.limits().max_per_user > 0 ==> q[i].messages.last() == message@
                };
                assert(self.offline()[i] == q[i]);
            }
        }
        if let Some(u) = outcome.evicted_user {
            evicted.push(u);
            proof { assert(evicted@.drop_last() =~= old(evicted)@); }
        }
    }

    /// Finish routing a message once delivery to live sessions was tried:
    /// drop the too-slow sessions, queue the message for every offline and
    /// slow subscriber, and drop the subscriptions of any user the offline
    /// queue evicted at capacity.
    pub fn finish_route(&mut self, message: &ServerMessage, fan: FanOut) -> (e: RouteEffects)
        requires
            old(self).wf(),
        ensures
            final(self).wf(),
            final(self).sessions() == drop_slow(old(self).sessions(), slow_view(fan.slow@)),
            e.closed@ == closed_conns(old(self).sessions(), slow_view(fan.slow@)),
            e.evicted@.len() == 0 ==> final(self).subscriptions() == old(self).subscriptions(),
            e.evicted@.len() > 0 ==> final(self).subscriptions() == without_users(old(self).subscriptions(), strs_view(e.evicted@).to_set()),
            final(self).anchors() == old(self).anchors(),
            final(self).gating() == old(self).gating(),
            final(self).max_documents() == old(self).max_documents(),
            final(self).max_subscribers_per_doc() == old(self).max_subscribers_per_doc(),
            final(self).offline_limits() == old(self).offline_limits(),
            enqueued_in_turn(
                old(self).offline(),
                final(self).offline(),
                old(self).offline_limits(),
                strs_view(fan.offline@) + slow_users(fan.slow@),
                message@,
            ),
    {
        let closed = self.disconnect_slow(&fan.slow);
        let ghost subs0 = self.subscriptions();
        let ghost q0 = self.offline();
        let ghost lim = self.offline_limits();
        let ghost us = strs_view(fan.offline@) + slow_users(fan.slow@);
        let ghost n_off = fan.offline@.len() as int;
        let ghost mut chain: Seq<Seq<UserQueueView>> = seq![q0];
        let mut evicted: Vec<String> = Vec::new();
        let mut i: usize = 0;
        while i < fan.offline.len()
            invariant
                self.wf(),
                q0 == old(self).offline(),
                lim == old(self).offline_limits(),
                self.offline_limits() == lim,
                us == strs_view(fan.offline@) + slow_users(fan.slow@),
                n_off == fan.offline@.len(),
                chain.len() == i + 1,
                chain[0] == q0,
                chain.last() == self.offline(),
                forall|j: int| 0 <= j < i ==> #[trigger] crate::storage::enqueue_step(chain[j], chain[j + 1], lim, us[j], message@),
                i <= fan.offline@.len(),
                self.subscriptions() == subs0,
                self.sessions() == drop_slow(old(self).sessions(), slow_view(fan.slow@)),
                self.anchors() == old(self).anchors(),
                self.gating() == old(self).gating(),
                self.max_documents() == old(self).max_documents(),
                self.max_subscribers_per_doc() == old(self).max_subscribers_per_doc(),
            decreases fan.offline@.len() - i,
        {
            let ghost before = chain;
            proof { assert(us[i as int] == fan.offline@[i as int]@); }
            self.enqueue_for(fan.offline[i].as_str(), message, &mut evicted);
            proof {
                chain = chain.push(self.offline());
                assert forall|j: int| 0 <= j < i + 1 implies #[trigger] crate::storage::enqueue_step(chain[j], chain[j + 1], lim, us[j], message@) by {
                    if j < i {
                        assert(chain[j] == before[j] && chain[j + 1] == before[j + 1]);
                    }
                }
            }
            i = i + 1;
        }
        let mut i: usize = 0;
        while i < fan.slow.len()
            invariant
                self.wf(),
                q0 == old(self).offline(),
                lim == old(self).offline_limits(),
                self.offline_limits() == lim,
                us == strs_view(fan.offline@) + slow_users(fan.slow@),
                n_off == fan.offline@.len(),
                i <= fan.slow@.len(),
                chain.len() == n_off + i + 1,
                chain[0] == q0,
                chain.last() == self.offline(),
                forall|j: int| 0 <= j < n_off + i ==> #[trigger] crate::storage::enqueue_step(chain[j], chain[j + 1], lim, us[j], message@),
                i <= fan.slow@.len(),
                self.subscriptions() == subs0,
                self.sessions() == drop_slow(old(self).sessions(), slow_view(fan.slow@)),
                self.anchors() == old(self).anchors(),
                self.gating() == old(self).gating(),
                self.max_documents() == old(self).max_documents(),
                self.max_subscribers_per_doc() == old(self).max_subscribers_per_doc(),
            decreases fan.slow@.len() - i,
        {
            let ghost before = chain;
            proof { assert(us[n_off + i] == fan.slow@[i as int].0@); }
            self.enqueue_for(fan.slow[i].0.as_str(), message, &mut evicted);
            proof {
                chain = chain.push(self.offline());
                assert forall|j: int| 0 <= j < n_off + i + 1 implies #[trigger] crate::storage::enqueue_step(chain[j], chain[j + 1], lim, us[j], message@) by {
                    if j < n_off + i {
                        assert(chain[j] == before[j] && chain[j + 1] == before[j + 1]);
                    }
                }
            }
            i = i + 1;
        }
        if evicted.len() > 0 {
            self.drop_subscriptions(&evicted);
        }
        proof {
            assert(chain.len() == us.len() + 1);
        }
        RouteEffects { closed, evicted }
    }

    /// Drain the queued offline messages of a user (on reconnect), oldest
    /// first; the user stops being tracked by the offline queue.
    pub fn drain_offline(&mut self, user_id: &str) -> (out: Vec<ServerMessage>)
        requires
            old(self).wf(),
        ensures
            final(self).wf(),
            match crate::storage::index_of(old(self).offline(), user_id@) {
                Some(i) => {
                    &&& out@.map_values(crate::storage::message_view()) == old(self).offline()[i].messages
                    &&& final(self).offline() == old(self).offline().remove(i)
                },
                None => {
                    &&& out@.len() == 0
                    &&& final(self).offline() == old(self).offline()
                },
            },
            final(self).subscriptions() == old(self).subscriptions(),
            final(self).anchors() == old(self).anchors(),
            final(self).sessions() == old(self).sessions(),
            final(self).gating() == old(self).gating(),
            final(self).max_documents() == old(self).max_documents(),
            final(self).max_subscribers_per_doc() == old(self).max_subscribers_per_doc(),
    {
        self.offline.drain(user_id)
    }

    /// Whether a user has queued offline messages.
    pub fn has_offline_messages(&self, user_id: &str) -> (r: bool)
        requires
            self.wf(),
        ensures
            r == match crate::storage::index_of(self.offline(), user_id@) {
                Some(i) => self.offline()[i].messages.len() > 0,
                None => false,
            },
    {
        self.offline.has_messages(user_id)
    }

    /// Law (bounded memory): a well-formed router tracks at most
    /// `max_documents` documents and anchors, and at most
    /// `max_subscribers_per_doc` subscribers per document.
    pub proof fn lemma_bounded(&self)
        requires
            self.wf(),
        ensures
            self.subscriptions().len() <= self.max_documents(),
            self.anchors().len() <= self.max_documents(),
            forall|d: Seq<char>| #[trigger] self.subscriptions().dom().contains(d) ==> self.subscriptions()[d].len() <= self.max_subscribers_per_doc(),
    {
        let pairs = sub_pairs(self.subscriptions@);
        lemma_to_map_len(pairs);
        lemma_to_map_len(anchor_pairs(self.anchors@));
        lemma_to_map_dom(pairs);
        assert forall|d: Seq<char>| #[trigger] self.subscriptions().dom().contains(d) implies self.subscriptions()[d].len() <= self.max_subscribers_per_doc() by {
            let i = choose|i: int| 0 <= i < pairs.len() && pairs[i].0 == d;
            lemma_to_map_index(pairs, i);
            lemma_to_map_len(member_pairs(self.subscriptions@[i].members@));
        }
    }
}

/// A sender is never among the recipients of its own message, whatever the
/// subscriptions, gating and anchor epoch.
pub proof fn lemma_sender_never_receives_own_message(
    members: Map<Seq<char>, Option<u64>>,
    from: Seq<char>,
    gated: bool,
    epoch: u64,
)
    ensures
        !eligible(members, from, gated, epoch, from),
{
}

/// Handshake traffic is never gated: with or without content gating, any
/// message other than a `YrsUpdate` reaches every subscriber but the
/// sender, authorized or not.
pub proof fn lemma_handshake_is_never_gated(gating: bool, m: ServerMessageView, members: Map<Seq<char>, Option<u64>>, from: Seq<char>, epoch: u64, user: Seq<char>)
    requires
        !(m is YrsUpdate),
    ensures
        !is_gated(gating, m),
        eligible(members, from, is_gated(gating, m), epoch, user) <==> (members.dom().contains(user) && user != from),
{
}

/// The anchor epoch of a document only grows: a registration for a
/// document that already has an anchor is accepted only at a strictly
/// later epoch.
pub proof fn lemma_anchor_epoch_only_grows(anchors: Map<Seq<char>, DocAnchor>, doc: Seq<char>, epoch: u64, max_documents: nat)
    requires
        anchors.dom().contains(doc),
        anchor_accepts(anchors, doc, epoch, max_documents),
    ensures
        epoch > anchors[doc].epoch,
{
}

/// Rotating the anchor revokes content authorization: a subscriber
/// authorized at the document's anchor epoch is no longer eligible for
/// gated content once a rotation of that anchor is accepted.
pub proof fn lemma_rotation_revokes_authorization(
    anchors: Map<Seq<char>, DocAnchor>,
    doc: Seq<char>,
    new_epoch: u64,
    new_key: [u8; 32],
    max_documents: nat,
    members: Map<Seq<char>, Option<u64>>,
    from: Seq<char>,
    user: Seq<char>,
)
    requires
        anchors.dom().contains(doc),
        members.dom().contains(user),
        members[user] == Some(anchors[doc].epoch),
        anchor_accepts(anchors, doc, new_epoch, max_documents),
    ensures
        !eligible(members, from, true, anchors.insert(doc, DocAnchor { epoch: new_epoch, verifying_key: new_key })[doc].epoch, user),
{
}

/// The first registration of a document's anchor is trusted on first use:
/// it is accepted at any epoch up to
/// [`MessageRouter::MAX_INITIAL_ANCHOR_EPOCH`] while the document table
/// has room, with no proof of an earlier key.
pub proof fn lemma_first_anchor_is_trusted_on_first_use(anchors: Map<Seq<char>, DocAnchor>, doc: Seq<char>, epoch: u64, max_documents: nat)
    requires
        !anchors.dom().contains(doc),
        anchors.len() < max_documents,
        epoch <= MessageRouter::MAX_INITIAL_ANCHOR_EPOCH,
    ensures
        anchor_accepts(anchors, doc, epoch, max_documents),
{
}

} // verus!
