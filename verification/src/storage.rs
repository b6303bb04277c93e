//! Bounded in-memory storage for messages to offline subscribers.
//!
//! Messages destined for a subscribed-but-disconnected user are buffered here
//! and drained, first in first out, when the user reconnects. Memory is bounded
//! on three axes: `max_per_user` messages per user (oldest dropped first),
//! `max_users` distinct users (least-recently-inserted user evicted), and byte
//! budgets for the variable-length payloads. The byte ceiling is split by kind
//! (document content vs. MLS handshake traffic) so a flood of one kind cannot
//! consume the budget of the other, and by user: admitting a message over the
//! budget evicts the oldest message of that kind from whichever user holds the
//! most of it.

use std::collections::VecDeque;

use vstd::prelude::*;

use crate::proto::{ServerMessage, ServerMessageView};
use crate::seqsum::{lemma_sum_pointwise_le, lemma_sum_drop_first, lemma_sum_elem_le, lemma_sum_positive, lemma_sum_push, lemma_sum_remove, lemma_sum_update, lemma_sum_zero, seq_sum};
use crate::text::str_eq;

verus! {

/// Which byte budget a message is charged against.
#[derive(Debug, Clone, Copy, PartialEq, Eq, Structural)]
pub enum Kind {
    /// `YrsUpdate`: document content.
    Content,
    /// `MlsHandshake`: group handshake traffic.
    Handshake,
    /// Fixed-size control frames: never budgeted.
    Unbudgeted,
}

/// The budget kind of a message.
pub open spec fn view_kind(m: ServerMessageView) -> Kind {
    match m {
        ServerMessageView::YrsUpdate { .. } => Kind::Content,
        ServerMessageView::MlsHandshake { .. } => Kind::Handshake,
        _ => Kind::Unbudgeted,
    }
}

/// The payload bytes a message is charged: its ciphertext or handshake payload.
pub open spec fn view_bytes(m: ServerMessageView) -> nat {
    match m {
        ServerMessageView::YrsUpdate { encrypted, .. } => encrypted.len(),
        ServerMessageView::MlsHandshake { payload, .. } => payload.len(),
        _ => 0,
    }
}

/// The bytes `m` contributes to the budget of `k`.
pub open spec fn charge_of(k: Kind) -> spec_fn(ServerMessageView) -> nat {
    |m: ServerMessageView| if view_kind(m) == k { view_bytes(m) } else { 0 }
}

/// The bytes of kind `k` held by a sequence of messages.
pub open spec fn kind_bytes(ms: Seq<ServerMessageView>, k: Kind) -> nat {
    seq_sum(ms, charge_of(k))
}

/// One user's queued messages, oldest first.
pub struct UserQueueView {
    pub user: Seq<char>,
    pub messages: Seq<ServerMessageView>,
}

/// The bytes of kind `k` one user holds.
pub open spec fn queue_bytes(k: Kind) -> spec_fn(UserQueueView) -> nat {
    |q: UserQueueView| kind_bytes(q.messages, k)
}

/// The number of messages one user holds.
pub open spec fn queue_len() -> spec_fn(UserQueueView) -> nat {
    |q: UserQueueView| q.messages.len()
}

/// The bytes of kind `k` held across all users.
pub open spec fn total_bytes(qs: Seq<UserQueueView>, k: Kind) -> nat {
    seq_sum(qs, queue_bytes(k))
}

/// The number of messages held across all users.
pub open spec fn total_messages(qs: Seq<UserQueueView>) -> nat {
    seq_sum(qs, queue_len())
}

/// Byte budgets, split by message kind and by user.
#[derive(Debug, Clone, Copy)]
pub struct ByteLimits {
    /// Aggregate `YrsUpdate` payload bytes retained across all users.
    pub content: usize,
    /// Aggregate `MlsHandshake` payload bytes retained across all users.
    pub handshake: usize,
    /// `YrsUpdate` payload bytes retained for any single user.
    pub user_content: usize,
    /// `MlsHandshake` payload bytes retained for any single user.
    pub user_handshake: usize,
}

impl Default for ByteLimits {
    /// The default budgets: 112 MiB of content, 16 MiB of handshake traffic,
    /// at most 8 MiB of content and 1 MiB of handshake traffic per user.
    fn default() -> (b: ByteLimits)
        ensures
            b.content == 117440512,
            b.handshake == 16777216,
            b.user_content == 8388608,
            b.user_handshake == 1048576,
    {
        ByteLimits {
            content: OfflineQueue::DEFAULT_MAX_CONTENT_BYTES,
            handshake: OfflineQueue::DEFAULT_MAX_HANDSHAKE_BYTES,
            user_content: OfflineQueue::DEFAULT_MAX_USER_CONTENT_BYTES,
            user_handshake: OfflineQueue::DEFAULT_MAX_USER_HANDSHAKE_BYTES,
        }
    }
}

/// Aggregate budget of kind `k`; unbudgeted messages are never charged.
pub open spec fn budget_of(b: ByteLimits, k: Kind) -> nat {
    match k {
        Kind::Content => b.content as nat,
        Kind::Handshake => b.handshake as nat,
        Kind::Unbudgeted => usize::MAX as nat,
    }
}

/// Per-user cap of kind `k`.
pub open spec fn per_user_of(b: ByteLimits, k: Kind) -> nat {
    match k {
        Kind::Content => b.user_content as nat,
        Kind::Handshake => b.user_handshake as nat,
        Kind::Unbudgeted => usize::MAX as nat,
    }
}

impl ByteLimits {
    /// Aggregate budget for `kind`.
    pub fn budget(&self, kind: Kind) -> (n: usize)
        ensures
            n == budget_of(*self, kind),
    {
        match kind {
            Kind::Content => self.content,
            Kind::Handshake => self.handshake,
            Kind::Unbudgeted => usize::MAX,
        }
    }

    /// Per-user cap for `kind`.
    pub fn per_user(&self, kind: Kind) -> (n: usize)
        ensures
            n == per_user_of(*self, kind),
    {
        match kind {
            Kind::Content => self.user_content,
            Kind::Handshake => self.user_handshake,
            Kind::Unbudgeted => usize::MAX,
        }
    }
}

/// The budget kind of a message.
pub fn message_kind(message: &ServerMessage) -> (k: Kind)
    ensures
        k == view_kind(message@),
{
    match message {
        ServerMessage::YrsUpdate { .. } => Kind::Content,
        ServerMessage::MlsHandshake { .. } => Kind::Handshake,
        _ => Kind::Unbudgeted,
    }
}

/// The payload bytes a message is charged.
pub fn message_bytes(message: &ServerMessage) -> (n: usize)
    ensures
        n == view_bytes(message@),
{
    match message {
        ServerMessage::YrsUpdate { encrypted, .. } => encrypted.len(),
        ServerMessage::MlsHandshake { payload, .. } => payload.len(),
        _ => 0,
    }
}

/// Unbudgeted messages are charged nothing.
pub proof fn lemma_unbudgeted_is_free(ms: Seq<ServerMessageView>)
    ensures
        kind_bytes(ms, Kind::Unbudgeted) == 0,
{
    assert forall|i: int| 0 <= i < ms.len() implies (charge_of(Kind::Unbudgeted))(#[trigger] ms[i]) == 0 by {}
    lemma_sum_zero(ms, charge_of(Kind::Unbudgeted));
}

/// One user's queue with its per-kind byte counters.
struct UserQueue {
    user: String,
    messages: VecDeque<ServerMessage>,
    content_bytes: usize,
    handshake_bytes: usize,
}

/// The value of a message.
pub open spec fn message_view() -> spec_fn(ServerMessage) -> ServerMessageView {
    |m: ServerMessage| m@
}

impl UserQueue {
    closed spec fn qview(self) -> UserQueueView {
        UserQueueView { user: self.user@, messages: self.messages@.map_values(message_view()) }
    }

    closed spec fn counters_ok(self) -> bool {
        &&& self.content_bytes == kind_bytes(self.qview().messages, Kind::Content)
        &&& self.handshake_bytes == kind_bytes(self.qview().messages, Kind::Handshake)
    }

    fn bytes(&self, kind: Kind) -> (n: usize)
        requires
            self.counters_ok(),
        ensures
            n == kind_bytes(self.qview().messages, kind),
    {
        proof {
            lemma_unbudgeted_is_free(self.qview().messages);
        }
        match kind {
            Kind::Content => self.content_bytes,
            Kind::Handshake => self.handshake_bytes,
            Kind::Unbudgeted => 0,
        }
    }
}

/// Limits an [`OfflineQueue`] enforces.
#[derive(Debug, Clone, Copy)]
pub struct QueueLimits {
    /// Maximum messages retained per user.
    pub max_per_user: usize,
    /// Maximum number of distinct users tracked.
    pub max_users: usize,
    /// Payload byte budgets.
    pub bytes: ByteLimits,
}

/// The user ids of a queue state are pairwise distinct.
pub open spec fn distinct_users(qs: Seq<UserQueueView>) -> bool {
    forall|i: int, j: int| 0 <= i < j < qs.len() ==> qs[i].user != qs[j].user
}

/// Every bound of `lim` holds of the queue state `qs`.
pub open spec fn bounded(qs: Seq<UserQueueView>, lim: QueueLimits) -> bool {
    &&& distinct_users(qs)
    &&& forall|i: int| 0 <= i < qs.len() ==> (#[trigger] qs[i]).messages.len() <= lim.max_per_user
    &&& forall|i: int| 0 <= i < qs.len() ==> kind_bytes((#[trigger] qs[i]).messages, Kind::Content) <= lim.bytes.user_content
    &&& forall|i: int| 0 <= i < qs.len() ==> kind_bytes((#[trigger] qs[i]).messages, Kind::Handshake) <= lim.bytes.user_handshake
    &&& total_bytes(qs, Kind::Content) <= lim.bytes.content
    &&& total_bytes(qs, Kind::Handshake) <= lim.bytes.handshake
    &&& qs.len() <= if lim.max_users == 0 { 1 } else { lim.max_users as int }
}

/// Every per-user bound of `lim` holds of one user's queue.
pub open spec fn bounded_entry(q: UserQueueView, lim: QueueLimits) -> bool {
    &&& q.messages.len() <= lim.max_per_user
    &&& kind_bytes(q.messages, Kind::Content) <= lim.bytes.user_content
    &&& kind_bytes(q.messages, Kind::Handshake) <= lim.bytes.user_handshake
}

/// The bytes of kind `k` that `user` holds in `qs` (zero when it holds no queue).
pub open spec fn kind_bytes_of_user(qs: Seq<UserQueueView>, user: Seq<char>, k: Kind) -> nat {
    match index_of(qs, user) {
        Some(i) => kind_bytes(qs[i].messages, k),
        None => 0,
    }
}

pub proof fn lemma_user_bytes(qs: Seq<UserQueueView>, user: Seq<char>, i: int, k: Kind)
    requires
        distinct_users(qs),
        0 <= i < qs.len(),
        qs[i].user == user,
    ensures
        kind_bytes_of_user(qs, user, k) == kind_bytes(qs[i].messages, k),
{
    let c = choose|j: int| 0 <= j < qs.len() && qs[j].user == user;
    assert(c == i);
}

/// What `index_of` finds.
pub proof fn lemma_index_of(qs: Seq<UserQueueView>, user: Seq<char>)
    ensures
        index_of(qs, user) matches Some(i) ==> 0 <= i < qs.len() && qs[i].user == user,
        index_of(qs, user) is None ==> forall|j: int| 0 <= j < qs.len() ==> qs[j].user != user,
{
}

/// With distinct users, `index_of` finds the one queue of `user`.
pub proof fn lemma_index_of_unique(qs: Seq<UserQueueView>, user: Seq<char>, i: int)
    requires
        distinct_users(qs),
        0 <= i < qs.len(),
        qs[i].user == user,
    ensures
        index_of(qs, user) == Some(i),
{
    lemma_index_of(qs, user);
}

/// Removing a user's queue keeps every bound.
pub proof fn lemma_remove_bounded(a: Seq<UserQueueView>, i: int, lim: QueueLimits)
    requires
        bounded(a, lim),
        0 <= i < a.len(),
    ensures
        bounded(a.remove(i), lim),
        forall|k: Kind| #[trigger] total_bytes(a.remove(i), k) + kind_bytes(a[i].messages, k) == total_bytes(a, k),
{
    let b = a.remove(i);
    assert forall|k: Kind| #[trigger] total_bytes(b, k) + kind_bytes(a[i].messages, k) == total_bytes(a, k) by {
        lemma_sum_remove(a, i, queue_bytes(k));
    }
    assert(total_bytes(b, Kind::Content) + kind_bytes(a[i].messages, Kind::Content) == total_bytes(a, Kind::Content));
    assert(total_bytes(b, Kind::Handshake) + kind_bytes(a[i].messages, Kind::Handshake) == total_bytes(a, Kind::Handshake));
    assert forall|j: int| 0 <= j < b.len() implies #[trigger] b[j] == (if j < i { a[j] } else { a[j + 1] }) by {}
    assert forall|x: int, y: int| 0 <= x < y < b.len() implies b[x].user != b[y].user by {
        assert(b[x] == (if x < i { a[x] } else { a[x + 1] }));
        assert(b[y] == (if y < i { a[y] } else { a[y + 1] }));
    }
}

/// In a bounded state no user holds more than its per-user caps.
pub proof fn lemma_user_within_caps(qs: Seq<UserQueueView>, user: Seq<char>, lim: QueueLimits)
    requires
        bounded(qs, lim),
    ensures
        kind_bytes_of_user(qs, user, Kind::Content) <= lim.bytes.user_content,
        kind_bytes_of_user(qs, user, Kind::Handshake) <= lim.bytes.user_handshake,
{
    lemma_index_of(qs, user);
    if let Some(i) = index_of(qs, user) {
        assert(kind_bytes(qs[i].messages, Kind::Content) <= lim.bytes.user_content);
        assert(kind_bytes(qs[i].messages, Kind::Handshake) <= lim.bytes.user_handshake);
    }
}

/// The index of `user`'s queue, if it has one.
pub open spec fn index_of(qs: Seq<UserQueueView>, user: Seq<char>) -> Option<int> {
    if exists|i: int| 0 <= i < qs.len() && qs[i].user == user {
        Some(choose|i: int| 0 <= i < qs.len() && qs[i].user == user)
    } else {
        None
    }
}

/// Admitting `m` for `user` needs no room to be made: the user's bytes of
/// its kind and the aggregate bytes of its kind leave space for it.
pub open spec fn no_pressure(qs: Seq<UserQueueView>, lim: QueueLimits, user: Seq<char>, m: ServerMessageView) -> bool {
    &&& kind_bytes_of_user(qs, user, view_kind(m)) + view_bytes(m) <= per_user_of(lim.bytes, view_kind(m))
    &&& total_bytes(qs, view_kind(m)) + view_bytes(m) <= budget_of(lim.bytes, view_kind(m))
}

/// How many of `n` messages exceed a cap of `cap`.
pub open spec fn count_excess(n: nat, cap: usize) -> nat {
    if n > cap { (n - cap) as nat } else { 0 }
}

/// The queues once `mv` was admitted for `user` without making room: the
/// user's queue, or a new one, gains `mv` at its end and drops its oldest
/// `trimmed` messages; nothing else changes for an existing user.
pub open spec fn admitted_without_pressure(
    v0: Seq<UserQueueView>,
    v6: Seq<UserQueueView>,
    user: Seq<char>,
    mv: ServerMessageView,
    lim: QueueLimits,
    trimmed: nat,
    evicted_none: bool,
) -> bool {
    match index_of(v0, user) {
        Some(i) => {
            &&& evicted_none
            &&& trimmed == count_excess(v0[i].messages.len() + 1, lim.max_per_user)
            &&& v6 == v0.update(i, UserQueueView {
                user: user,
                messages: v0[i].messages.push(mv).subrange(trimmed as int, v0[i].messages.len() + 1int),
            })
        },
        None => {
            &&& trimmed == count_excess(1, lim.max_per_user)
            &&& exists|j: int| {
                &&& 0 <= j < v6.len()
                &&& v6[j].user == user
                &&& v6[j].messages == seq![mv].subrange(trimmed as int, 1)
            }
        },
    }
}

proof fn lemma_admitted_after_drops(
    v2: Seq<UserQueueView>,
    v4: Seq<UserQueueView>,
    v5: Seq<UserQueueView>,
    v6: Seq<UserQueueView>,
    qi: int,
    user: Seq<char>,
    mv: ServerMessageView,
    lim: QueueLimits,
    trimmed: nat,
    evicted: bool,
)
    requires
        0 <= qi < v4.len(),
        v4[qi].user == user,
        index_of(v2, user) matches Some(i) ==> qi == i && v4 == v2 && !evicted,
        index_of(v2, user) is None ==> qi == v4.len() - 1 && v4 == (if evicted {
            v2.subrange(1, v2.len() as int)
        } else {
            v2
        }).push(UserQueueView { user: user, messages: Seq::empty() }),
        v5 == v4.update(qi, UserQueueView { user: v4[qi].user, messages: v4[qi].messages.push(mv) }),
        v5[qi].messages.len() <= lim.max_per_user ==> trimmed == 0,
        v5[qi].messages.len() > lim.max_per_user ==> trimmed == v5[qi].messages.len() - lim.max_per_user,
        v6 == v5.update(qi, UserQueueView {
            user: v5[qi].user,
            messages: v5[qi].messages.subrange(trimmed as int, v5[qi].messages.len() as int),
        }),
    ensures
        admitted_after_drops(v2, v6, user, mv, lim, trimmed, evicted),
{
    match index_of(v2, user) {
        Some(i) => {
            let nq = UserQueueView {
                user: user,
                messages: v2[i].messages.push(mv).subrange(trimmed as int, v2[i].messages.len() + 1int),
            };
            assert(v5[qi].messages == v2[i].messages.push(mv));
            assert(v6[qi] == nq);
            assert(v6 =~= v2.update(i, nq));
        },
        None => {
            let base = if evicted { v2.subrange(1, v2.len() as int) } else { v2 };
            let nq = UserQueueView { user: user, messages: seq![mv].subrange(trimmed as int, 1) };
            assert(v4[qi].messages.push(mv) =~= seq![mv]);
            assert(v6[qi] == nq);
            assert(v6 =~= base.push(nq));
        },
    }
}

proof fn lemma_admitted_without_pressure(
    v0: Seq<UserQueueView>,
    v4: Seq<UserQueueView>,
    v5: Seq<UserQueueView>,
    v6: Seq<UserQueueView>,
    qi: int,
    user: Seq<char>,
    mv: ServerMessageView,
    lim: QueueLimits,
    trimmed: nat,
    evicted_none: bool,
)
    requires
        0 <= qi < v4.len(),
        v4[qi].user == user,
        index_of(v0, user) matches Some(i) ==> qi == i && v4 == v0 && evicted_none,
        index_of(v0, user) is None ==> v4[qi].messages.len() == 0,
        v5 == v4.update(qi, UserQueueView { user: v4[qi].user, messages: v4[qi].messages.push(mv) }),
        v5[qi].messages.len() <= lim.max_per_user ==> trimmed == 0,
        v5[qi].messages.len() > lim.max_per_user ==> trimmed == v5[qi].messages.len() - lim.max_per_user,
        v6 == v5.update(qi, UserQueueView {
            user: v5[qi].user,
            messages: v5[qi].messages.subrange(trimmed as int, v5[qi].messages.len() as int),
        }),
    ensures
        admitted_without_pressure(v0, v6, user, mv, lim, trimmed, evicted_none),
{
    match index_of(v0, user) {
        Some(i) => {
            let nq = UserQueueView {
                user: user,
                messages: v0[i].messages.push(mv).subrange(trimmed as int, v0[i].messages.len() + 1int),
            };
            assert(v5[qi].messages == v0[i].messages.push(mv));
            assert(v6[qi] == nq);
            assert(v6 =~= v0.update(i, nq));
        },
        None => {
            assert(v4[qi].messages.push(mv) =~= seq![mv]);
            assert(v6[qi].messages =~= seq![mv].subrange(trimmed as int, 1));
            assert(v6[qi].user == user);
        },
    }
}

/// What [`OfflineQueue::enqueue`] of `m` for `user` makes of the queues
/// `q` under `lim`, as far as it is stated: a refused message changes
/// nothing; an admitted one ends the user's queue (when the per-user cap is
/// not zero); and one admitted without making room is appended exactly.
pub open spec fn enqueue_step(q: Seq<UserQueueView>, q2: Seq<UserQueueView>, lim: QueueLimits, user: Seq<char>, m: ServerMessageView) -> bool {
    let refused = view_bytes(m) > per_user_of(lim.bytes, view_kind(m)) || view_bytes(m) > budget_of(lim.bytes, view_kind(m));
    &&& refused ==> q2 == q
    &&& !refused ==> exists|i: int| {
        &&& 0 <= i < q2.len()
        &&& q2[i].user == user
        &&& lim.max_per_user > 0 ==> q2[i].messages.last() == m
    }
    &&& !refused && no_pressure(q, lim, user, m) ==> exists|t: nat, e: bool| #[trigger] admitted_without_pressure(q, q2, user, m, lim, t, e)
}

/// The queues once `mv` was admitted for `user` into `v2`, the queues left
/// after room was made: the user's queue gains `mv` at its end, or a new
/// queue holding it is added last (after the oldest user was evicted, when
/// `evicted`), and the oldest `trimmed` messages of that queue are dropped.
pub open spec fn admitted_after_drops(
    v2: Seq<UserQueueView>,
    v6: Seq<UserQueueView>,
    user: Seq<char>,
    mv: ServerMessageView,
    lim: QueueLimits,
    trimmed: nat,
    evicted: bool,
) -> bool {
    match index_of(v2, user) {
        Some(i) => {
            &&& !evicted
            &&& trimmed == count_excess(v2[i].messages.len() + 1, lim.max_per_user)
            &&& v6 == v2.update(i, UserQueueView {
                user: user,
                messages: v2[i].messages.push(mv).subrange(trimmed as int, v2[i].messages.len() + 1int),
            })
        },
        None => {
            &&& trimmed == count_excess(1, lim.max_per_user)
            &&& v6 == (if evicted { v2.subrange(1, v2.len() as int) } else { v2 }).push(
                UserQueueView { user: user, messages: seq![mv].subrange(trimmed as int, 1) },
            )
        },
    }
}

/// The messages queued for `user` in `qs`, oldest first.
pub open spec fn queued_for(qs: Seq<UserQueueView>, user: Seq<char>) -> Seq<ServerMessageView> {
    match index_of(qs, user) {
        Some(i) => qs[i].messages,
        None => Seq::empty(),
    }
}

/// Law (first in, first out): once room was made (the queues `v2`), an
/// admitted message `mv` that trims nothing ends `user`'s queue: the
/// messages queued for `user` are those queued in `v2`, then `mv`. As
/// [`OfflineQueue::drain`] hands out a user's queue in order, a user whose
/// messages were neither displaced nor trimmed receives them in the order
/// they were admitted.
pub proof fn lemma_enqueue_appends_last(
    v2: Seq<UserQueueView>,
    v6: Seq<UserQueueView>,
    user: Seq<char>,
    mv: ServerMessageView,
    lim: QueueLimits,
    evicted: bool,
)
    requires
        admitted_after_drops(v2, v6, user, mv, lim, 0, evicted),
        distinct_users(v6),
    ensures
        queued_for(v6, user) == queued_for(v2, user).push(mv),
{
    lemma_index_of(v2, user);
    match index_of(v2, user) {
        Some(i) => {
            lemma_index_of_unique(v6, user, i);
            assert(v2[i].messages.push(mv).subrange(0, v2[i].messages.len() + 1int) =~= v2[i].messages.push(mv));
        },
        None => {
            let last = v6.len() - 1;
            lemma_index_of_unique(v6, user, last);
            assert(seq![mv].subrange(0, 1) =~= seq![mv]);
            assert(Seq::<ServerMessageView>::empty().push(mv) =~= seq![mv]);
        },
    }
}

/// What an [`OfflineQueue::enqueue`] did.
#[derive(Debug, PartialEq, Eq)]
pub struct EnqueueOutcome {
    /// The whole queue of this user was evicted at `max_users` capacity.
    pub evicted_user: Option<String>,
    /// The message could not be queued at all.
    pub refused: bool,
    /// Previously-queued messages dropped under byte-budget pressure.
    pub displaced: usize,
    /// Previously-queued messages dropped by the `max_per_user` count cap.
    pub trimmed: usize,
}

impl Default for EnqueueOutcome {
    /// Nothing evicted, refused, displaced or trimmed.
    fn default() -> (o: EnqueueOutcome)
        ensures
            o.evicted_user is None,
            !o.refused,
            o.displaced == 0,
            o.trimmed == 0,
    {
        EnqueueOutcome { evicted_user: None, refused: false, displaced: 0, trimmed: 0 }
    }
}

/// Stores messages for offline clients.
pub struct OfflineQueue {
    /// Per-user queues in insertion order of the users.
    queues: Vec<UserQueue>,
    content_bytes: usize,
    handshake_bytes: usize,
    limits: QueueLimits,
}

impl View for OfflineQueue {
    type V = Seq<UserQueueView>;

    closed spec fn view(&self) -> Seq<UserQueueView> {
        self.queues@.map_values(|q: UserQueue| q.qview())
    }
}

/// `new` is `old` with some messages removed from some queues: the same users
/// in the same order, none holding more messages or more bytes of any kind.
pub open spec fn shrinks(old: Seq<UserQueueView>, new: Seq<UserQueueView>) -> bool {
    &&& new.len() == old.len()
    &&& forall|i: int| 0 <= i < old.len() ==> (#[trigger] new[i]).user == old[i].user
    &&& forall|i: int| 0 <= i < old.len() ==> (#[trigger] new[i]).messages.len() <= old[i].messages.len()
    &&& forall|i: int, k: Kind| 0 <= i < old.len() ==> #[trigger] kind_bytes(new[i].messages, k) <= kind_bytes(old[i].messages, k)
}

/// Between `old` and `new` no user's bytes of a kind other than `k` changed.
pub open spec fn keeps_other_kinds(old: Seq<UserQueueView>, new: Seq<UserQueueView>, k: Kind) -> bool {
    forall|i: int, k2: Kind| 0 <= i < old.len() && k2 != k ==> #[trigger] kind_bytes(new[i].messages, k2) == kind_bytes(old[i].messages, k2)
}

/// `old` with the message at `idx` of queue `qi` removed.
pub open spec fn without_message(old: Seq<UserQueueView>, qi: int, idx: int) -> Seq<UserQueueView> {
    old.update(qi, UserQueueView { user: old[qi].user, messages: old[qi].messages.remove(idx) })
}

/// One step of making room for `kind`: from a user holding the most bytes
/// of `kind`, the oldest message of `kind` is dropped.
pub open spec fn room_step(a: Seq<UserQueueView>, b: Seq<UserQueueView>, kind: Kind) -> bool {
    exists|v: int, j: int| {
        &&& 0 <= v < a.len()
        &&& forall|u: int| 0 <= u < a.len() ==> #[trigger] kind_bytes(a[u].messages, kind) <= kind_bytes(a[v].messages, kind)
        &&& 0 <= j < a[v].messages.len()
        &&& view_kind(a[v].messages[j]) == kind
        &&& forall|j2: int| 0 <= j2 < j ==> view_kind(#[trigger] a[v].messages[j2]) != kind
        &&& b == #[trigger] without_message(a, v, j)
    }
}

/// `b` is `a` with one message of `kind` removed.
pub open spec fn kind_drop_step(a: Seq<UserQueueView>, b: Seq<UserQueueView>, kind: Kind) -> bool {
    exists|v: int, j: int| {
        &&& 0 <= v < a.len()
        &&& 0 <= j < a[v].messages.len()
        &&& view_kind(a[v].messages[j]) == kind
        &&& b == #[trigger] without_message(a, v, j)
    }
}

/// `b` results from `a` by removing messages of `kind`, one at a time.
pub open spec fn kind_drops(a: Seq<UserQueueView>, b: Seq<UserQueueView>, kind: Kind) -> bool {
    exists|chain: Seq<Seq<UserQueueView>>| {
        &&& chain.len() >= 1
        &&& chain[0] == a
        &&& chain.last() == b
        &&& forall|i: int| 0 <= i < chain.len() - 1 ==> #[trigger] kind_drop_step(chain[i], chain[i + 1], kind)
    }
}

pub proof fn lemma_kind_drops_refl(a: Seq<UserQueueView>, kind: Kind)
    ensures
        kind_drops(a, a, kind),
{
    let chain = seq![a];
    assert(chain.last() == a);
}

pub proof fn lemma_kind_drops_trans(a: Seq<UserQueueView>, b: Seq<UserQueueView>, c: Seq<UserQueueView>, kind: Kind)
    requires
        kind_drops(a, b, kind),
        kind_drops(b, c, kind),
    ensures
        kind_drops(a, c, kind),
{
    let c1 = choose|chain: Seq<Seq<UserQueueView>>| {
        &&& chain.len() >= 1
        &&& chain[0] == a
        &&& chain.last() == b
        &&& forall|i: int| 0 <= i < chain.len() - 1 ==> #[trigger] kind_drop_step(chain[i], chain[i + 1], kind)
    };
    let c2 = choose|chain: Seq<Seq<UserQueueView>>| {
        &&& chain.len() >= 1
        &&& chain[0] == b
        &&& chain.last() == c
        &&& forall|i: int| 0 <= i < chain.len() - 1 ==> #[trigger] kind_drop_step(chain[i], chain[i + 1], kind)
    };
    let chain = c1 + c2.drop_first();
    assert forall|i: int| 0 <= i < chain.len() - 1 implies #[trigger] kind_drop_step(chain[i], chain[i + 1], kind) by {
        if i < c1.len() - 1 {
            assert(chain[i] == c1[i] && chain[i + 1] == c1[i + 1]);
        } else {
            let k = i - (c1.len() - 1);
            assert(chain[i] == c2[k]);
            assert(chain[i + 1] == c2[k + 1]);
        }
    }
    if c2.len() == 1 {
        assert(chain =~= c1);
    } else {
        assert(chain.last() == c2.last());
    }
}

/// Room-making steps are removals of messages of the kind.
pub proof fn lemma_made_room_drops(a: Seq<UserQueueView>, b: Seq<UserQueueView>, kind: Kind)
    requires
        made_room(a, b, kind),
    ensures
        kind_drops(a, b, kind),
{
    let chain = choose|chain: Seq<Seq<UserQueueView>>| {
        &&& chain.len() >= 1
        &&& chain[0] == a
        &&& chain.last() == b
        &&& forall|i: int| 0 <= i < chain.len() - 1 ==> #[trigger] room_step(chain[i], chain[i + 1], kind)
    };
    assert forall|i: int| 0 <= i < chain.len() - 1 implies #[trigger] kind_drop_step(chain[i], chain[i + 1], kind) by {
        assert(room_step(chain[i], chain[i + 1], kind));
        let (v, j) = choose|v: int, j: int| {
            &&& 0 <= v < chain[i].len()
            &&& forall|u: int| 0 <= u < chain[i].len() ==> #[trigger] kind_bytes(chain[i][u].messages, kind) <= kind_bytes(chain[i][v].messages, kind)
            &&& 0 <= j < chain[i][v].messages.len()
            &&& view_kind(chain[i][v].messages[j]) == kind
            &&& forall|j2: int| 0 <= j2 < j ==> view_kind(#[trigger] chain[i][v].messages[j2]) != kind
            &&& chain[i + 1] == #[trigger] without_message(chain[i], v, j)
        };
    }
}

/// `b` results from `a` by dropping messages of `kind` from `user`'s queue
/// alone: every other queue is kept as it was.
pub open spec fn own_drops(a: Seq<UserQueueView>, b: Seq<UserQueueView>, user: Seq<char>, kind: Kind) -> bool {
    &&& kind_drops(a, b, kind)
    &&& b.len() == a.len()
    &&& forall|i: int| 0 <= i < a.len() && a[i].user != user ==> #[trigger] b[i] == a[i]
}

/// Whether a message is of a kind other than `k`.
pub open spec fn not_of_kind(k: Kind) -> spec_fn(ServerMessageView) -> bool {
    |m: ServerMessageView| view_kind(m) != k
}

/// The messages of `ms` of any kind but `k`, in order.
pub open spec fn other_kinds(ms: Seq<ServerMessageView>, k: Kind) -> Seq<ServerMessageView> {
    ms.filter(not_of_kind(k))
}

/// Removing a message of kind `k` keeps the messages of the other kinds.
proof fn lemma_remove_keeps_other_kinds(ms: Seq<ServerMessageView>, j: int, k: Kind)
    requires
        0 <= j < ms.len(),
        view_kind(ms[j]) == k,
    ensures
        other_kinds(ms.remove(j), k) == other_kinds(ms, k),
{
    let p = not_of_kind(k);
    let a = ms.subrange(0, j);
    let b = ms.subrange(j + 1, ms.len() as int);
    assert(ms =~= a + (seq![ms[j]] + b));
    assert(ms.remove(j) =~= a + b);
    Seq::filter_distributes_over_add(a, seq![ms[j]] + b, p);
    Seq::filter_distributes_over_add(a, b, p);
    b.lemma_filter_prepend(ms[j], p);
    assert(Seq::<ServerMessageView>::empty() + b.filter(p) =~= b.filter(p));
}

/// The first `n + 1` states of a chain of drops of `kind` keep every
/// queue's messages of the other kinds.
proof fn lemma_chain_keeps_other_kinds(chain: Seq<Seq<UserQueueView>>, kind: Kind, n: int)
    requires
        0 <= n < chain.len(),
        forall|i: int| 0 <= i < chain.len() - 1 ==> #[trigger] kind_drop_step(chain[i], chain[i + 1], kind),
    ensures
        chain[n].len() == chain[0].len(),
        forall|i: int| 0 <= i < chain[0].len() ==> (#[trigger] chain[n][i]).user == chain[0][i].user
            && other_kinds(chain[n][i].messages, kind) == other_kinds(chain[0][i].messages, kind),
    decreases n,
{
    if n > 0 {
        lemma_chain_keeps_other_kinds(chain, kind, n - 1);
        let m = n - 1;
        let x = chain[m];
        assert(kind_drop_step(chain[m], chain[m + 1], kind));
        assert(chain[m + 1] == chain[n]);
        let (v, j) = choose|v: int, j: int| {
            &&& 0 <= v < x.len()
            &&& 0 <= j < x[v].messages.len()
            &&& view_kind(x[v].messages[j]) == kind
            &&& chain[n] == #[trigger] without_message(x, v, j)
        };
        lemma_remove_keeps_other_kinds(x[v].messages, j, kind);
        assert forall|i: int| 0 <= i < chain[0].len() implies (#[trigger] chain[n][i]).user == chain[0][i].user
            && other_kinds(chain[n][i].messages, kind) == other_kinds(chain[0][i].messages, kind) by {
            assert(x[i].user == chain[0][i].user);
            if i != v {
                assert(chain[n][i] == x[i]);
            }
        }
    }
}

/// Law (a flood of one kind cannot displace the other): removing messages
/// of `kind`, however many and from whichever queues, keeps every queue's
/// messages of the other kinds, in order. Making room for a message drops
/// only messages of its own kind ([`OfflineQueue::enqueue`]), so a flood of
/// handshakes never displaces content, nor content handshakes.
pub proof fn lemma_kind_drops_keep_other_kinds(a: Seq<UserQueueView>, b: Seq<UserQueueView>, kind: Kind)
    requires
        kind_drops(a, b, kind),
    ensures
        b.len() == a.len(),
        forall|i: int| 0 <= i < a.len() ==> (#[trigger] b[i]).user == a[i].user
            && other_kinds(b[i].messages, kind) == other_kinds(a[i].messages, kind),
{
    let chain = choose|chain: Seq<Seq<UserQueueView>>| {
        &&& chain.len() >= 1
        &&& chain[0] == a
        &&& chain.last() == b
        &&& forall|i: int| 0 <= i < chain.len() - 1 ==> #[trigger] kind_drop_step(chain[i], chain[i + 1], kind)
    };
    lemma_chain_keeps_other_kinds(chain, kind, chain.len() - 1);
}

/// Whether a message is of kind `k`.
pub open spec fn of_kind_pred(k: Kind) -> spec_fn(ServerMessageView) -> bool {
    |m: ServerMessageView| view_kind(m) == k
}

/// The messages of `ms` of kind `k`, in order.
pub open spec fn of_kind(ms: Seq<ServerMessageView>, k: Kind) -> Seq<ServerMessageView> {
    ms.filter(of_kind_pred(k))
}

/// One step of trimming the queue at `qi` for `kind` under the per-user cap
/// `cap`: the queue's bytes of `kind` plus `needed` do not fit under `cap`,
/// and its oldest message of `kind` is dropped.
pub open spec fn own_trim_step(a: Seq<UserQueueView>, b: Seq<UserQueueView>, qi: int, kind: Kind, needed: int, cap: int) -> bool {
    &&& 0 <= qi < a.len()
    &&& kind_bytes(a[qi].messages, kind) + needed > cap
    &&& exists|j: int| {
        &&& 0 <= j < a[qi].messages.len()
        &&& view_kind(a[qi].messages[j]) == kind
        &&& forall|j2: int| 0 <= j2 < j ==> view_kind(#[trigger] a[qi].messages[j2]) != kind
        &&& b == #[trigger] without_message(a, qi, j)
    }
}

/// `b` results from `a` by trimming steps of the queue at `qi`, one after
/// another.
pub open spec fn own_trimmed(a: Seq<UserQueueView>, b: Seq<UserQueueView>, qi: int, kind: Kind, needed: int, cap: int) -> bool {
    exists|chain: Seq<Seq<UserQueueView>>| {
        &&& chain.len() >= 1
        &&& chain[0] == a
        &&& chain.last() == b
        &&& forall|i: int| 0 <= i < chain.len() - 1 ==> #[trigger] own_trim_step(chain[i], chain[i + 1], qi, kind, needed, cap)
    }
}

/// What making room under `user`'s own cap did, from `a` to `b`: nothing
/// for a user with no queue; otherwise the user's queue was trimmed, oldest
/// first, until `needed` more bytes of `kind` fit under `cap`.
pub open spec fn user_trimmed(a: Seq<UserQueueView>, b: Seq<UserQueueView>, user: Seq<char>, kind: Kind, needed: int, cap: int) -> bool {
    match index_of(a, user) {
        Some(i) => own_trimmed(a, b, i, kind, needed, cap) && kind_bytes(b[i].messages, kind) + needed <= cap,
        None => b == a,
    }
}

/// A sequence none of whose elements meets `p` filters to nothing.
proof fn lemma_filter_none(a: Seq<ServerMessageView>, p: spec_fn(ServerMessageView) -> bool)
    requires
        forall|i: int| 0 <= i < a.len() ==> !p(#[trigger] a[i]),
    ensures
        a.filter(p) == Seq::<ServerMessageView>::empty(),
    decreases a.len(),
{
    if a.len() > 0 {
        let t = a.drop_first();
        assert forall|i: int| 0 <= i < t.len() implies !p(#[trigger] t[i]) by {
            assert(t[i] == a[i + 1]);
        }
        lemma_filter_none(t, p);
        assert(a =~= seq![a[0]] + t);
        t.lemma_filter_prepend(a[0], p);
        assert(Seq::<ServerMessageView>::empty() + Seq::<ServerMessageView>::empty() =~= Seq::<ServerMessageView>::empty());
    } else {
        assert(a.filter(p) =~= Seq::<ServerMessageView>::empty()) by {
            reveal(Seq::filter);
        }
    }
}

/// Dropping the first message of kind `k` drops the first of the messages
/// of kind `k`, and keeps the others.
proof fn lemma_remove_first_of_kind(ms: Seq<ServerMessageView>, j: int, k: Kind)
    requires
        0 <= j < ms.len(),
        view_kind(ms[j]) == k,
        forall|j2: int| 0 <= j2 < j ==> view_kind(#[trigger] ms[j2]) != k,
    ensures
        of_kind(ms, k).len() >= 1,
        of_kind(ms, k)[0] == ms[j],
        of_kind(ms.remove(j), k) == of_kind(ms, k).drop_first(),
        other_kinds(ms.remove(j), k) == other_kinds(ms, k),
{
    let p = of_kind_pred(k);
    let a = ms.subrange(0, j);
    let b = ms.subrange(j + 1, ms.len() as int);
    assert forall|i: int| 0 <= i < a.len() implies !p(#[trigger] a[i]) by {
        assert(a[i] == ms[i]);
    }
    lemma_filter_none(a, p);
    assert(ms =~= a + (seq![ms[j]] + b));
    assert(ms.remove(j) =~= a + b);
    Seq::filter_distributes_over_add(a, seq![ms[j]] + b, p);
    Seq::filter_distributes_over_add(a, b, p);
    b.lemma_filter_prepend(ms[j], p);
    assert(of_kind(ms, k) =~= seq![ms[j]] + b.filter(p));
    assert(of_kind(ms.remove(j), k) =~= b.filter(p));
    assert((seq![ms[j]] + b.filter(p)).drop_first() =~= b.filter(p));
    lemma_remove_keeps_other_kinds(ms, j, k);
}

/// What `n` trimming steps of a chain did, in terms of its first state.
proof fn lemma_trim_chain(chain: Seq<Seq<UserQueueView>>, qi: int, kind: Kind, needed: int, cap: int, n: int)
    requires
        0 <= n < chain.len(),
        0 <= qi < chain[0].len(),
        forall|i: int| 0 <= i < chain.len() - 1 ==> #[trigger] own_trim_step(chain[i], chain[i + 1], qi, kind, needed, cap),
    ensures
        chain[n].len() == chain[0].len(),
        forall|i: int| 0 <= i < chain[0].len() && i != qi ==> #[trigger] chain[n][i] == chain[0][i],
        chain[n][qi].user == chain[0][qi].user,
        chain[n][qi].messages.len() + n == chain[0][qi].messages.len(),
        n <= of_kind(chain[0][qi].messages, kind).len(),
        of_kind(chain[n][qi].messages, kind) == of_kind(chain[0][qi].messages, kind).skip(n),
        other_kinds(chain[n][qi].messages, kind) == other_kinds(chain[0][qi].messages, kind),
        n > 0 ==> kind_bytes(chain[n][qi].messages, kind) + view_bytes(of_kind(chain[0][qi].messages, kind)[n - 1]) + needed > cap,
    decreases n,
{
    if n == 0 {
        assert(of_kind(chain[0][qi].messages, kind).skip(0) =~= of_kind(chain[0][qi].messages, kind));
    } else {
        let m = n - 1;
        lemma_trim_chain(chain, qi, kind, needed, cap, m);
        let c = chain[m];
        assert(own_trim_step(chain[m], chain[m + 1], qi, kind, needed, cap));
        assert(chain[m + 1] == chain[n]);
        let j = choose|j: int| {
            &&& 0 <= j < c[qi].messages.len()
            &&& view_kind(c[qi].messages[j]) == kind
            &&& forall|j2: int| 0 <= j2 < j ==> view_kind(#[trigger] c[qi].messages[j2]) != kind
            &&& chain[n] == #[trigger] without_message(c, qi, j)
        };
        lemma_without_message(c, qi, j);
        lemma_remove_first_of_kind(c[qi].messages, j, kind);
        let k0 = of_kind(chain[0][qi].messages, kind);
        assert(of_kind(c[qi].messages, kind) == k0.skip(m));
        assert(k0.skip(m)[0] == k0[m]);
        assert(k0.skip(m).drop_first() =~= k0.skip(n));
        assert forall|i: int| 0 <= i < chain[0].len() && i != qi implies #[trigger] chain[n][i] == chain[0][i] by {
            assert(chain[n][i] == c[i]);
        }
        assert((charge_of(kind))(c[qi].messages[j]) == view_bytes(k0[m]));
    }
}

/// Law (the per-user cap drops a user's oldest messages of a kind, and no
/// more than needed): trimming the queue at `qi` to make `needed` more bytes
/// of `kind` fit under `cap` changes no other queue and no message of
/// another kind of this one; of its messages of `kind`, the `d` oldest are
/// dropped and the rest kept in order, where `d` is how many were dropped;
/// and had the newest of the dropped ones been kept, `needed` more bytes
/// would not have fit.
pub proof fn lemma_own_trim_drops_oldest(a: Seq<UserQueueView>, b: Seq<UserQueueView>, qi: int, kind: Kind, needed: int, cap: int)
    requires
        0 <= qi < a.len(),
        own_trimmed(a, b, qi, kind, needed, cap),
    ensures
        b.len() == a.len(),
        forall|i: int| 0 <= i < a.len() && i != qi ==> #[trigger] b[i] == a[i],
        b[qi].user == a[qi].user,
        other_kinds(b[qi].messages, kind) == other_kinds(a[qi].messages, kind),
        b[qi].messages.len() <= a[qi].messages.len(),
        a[qi].messages.len() - b[qi].messages.len() <= of_kind(a[qi].messages, kind).len(),
        of_kind(b[qi].messages, kind) == of_kind(a[qi].messages, kind).skip(a[qi].messages.len() - b[qi].messages.len()),
        b[qi].messages.len() < a[qi].messages.len() ==> kind_bytes(b[qi].messages, kind)
            + view_bytes(of_kind(a[qi].messages, kind)[a[qi].messages.len() - b[qi].messages.len() - 1]) + needed > cap,
{
    let chain = choose|chain: Seq<Seq<UserQueueView>>| {
        &&& chain.len() >= 1
        &&& chain[0] == a
        &&& chain.last() == b
        &&& forall|i: int| 0 <= i < chain.len() - 1 ==> #[trigger] own_trim_step(chain[i], chain[i + 1], qi, kind, needed, cap)
    };
    lemma_trim_chain(chain, qi, kind, needed, cap, chain.len() - 1);
}

/// One room-making step taken only while `needed` more bytes of `kind` do
/// not fit under the aggregate `budget`.
pub open spec fn room_step_for(a: Seq<UserQueueView>, b: Seq<UserQueueView>, kind: Kind, needed: int, budget: int) -> bool {
    &&& total_bytes(a, kind) + needed > budget
    &&& room_step(a, b, kind)
}

/// `b` results from `a` by room-making steps for `kind`, each taken only
/// while `needed` more bytes did not fit under `budget`.
pub open spec fn made_room_for(a: Seq<UserQueueView>, b: Seq<UserQueueView>, kind: Kind, needed: int, budget: int) -> bool {
    exists|chain: Seq<Seq<UserQueueView>>| {
        &&& chain.len() >= 1
        &&& chain[0] == a
        &&& chain.last() == b
        &&& forall|i: int| 0 <= i < chain.len() - 1 ==> #[trigger] room_step_for(chain[i], chain[i + 1], kind, needed, budget)
    }
}

/// Law (the sender's own cap trims its oldest messages first): when room was
/// made under `user`'s per-user cap for `needed` more bytes of `kind`
/// ([`OfflineQueue::enqueue`] states this of its first phase), the user's
/// queue then fits them; of its messages of `kind`, only the oldest were
/// dropped, the rest kept in order, and no more than needed: keeping the
/// newest dropped one would not have fit. Every other queue, and every
/// message of another kind, is as it was.
pub proof fn lemma_sender_keeps_newest(a: Seq<UserQueueView>, b: Seq<UserQueueView>, user: Seq<char>, kind: Kind, needed: int, cap: int)
    requires
        user_trimmed(a, b, user, kind, needed, cap),
    ensures
        index_of(a, user) is None ==> b == a,
        index_of(a, user) matches Some(i) ==> {
            let d = a[i].messages.len() - b[i].messages.len();
            &&& b.len() == a.len()
            &&& forall|j: int| 0 <= j < a.len() && j != i ==> #[trigger] b[j] == a[j]
            &&& b[i].user == a[i].user
            &&& kind_bytes(b[i].messages, kind) + needed <= cap
            &&& other_kinds(b[i].messages, kind) == other_kinds(a[i].messages, kind)
            &&& 0 <= d <= of_kind(a[i].messages, kind).len()
            &&& of_kind(b[i].messages, kind) == of_kind(a[i].messages, kind).skip(d)
            &&& d > 0 ==> kind_bytes(b[i].messages, kind) + view_bytes(of_kind(a[i].messages, kind)[d - 1]) + needed > cap
        },
{
    lemma_index_of(a, user);
    if let Some(i) = index_of(a, user) {
        lemma_own_trim_drops_oldest(a, b, i, kind, needed, cap);
    }
}

/// Law (room is made only while needed): room-making steps for `needed`
/// more bytes of `kind` under `budget` change nothing when they already
/// fit, and each step drops the oldest message of `kind` of a user holding
/// the most of it.
pub proof fn lemma_room_only_while_needed(a: Seq<UserQueueView>, b: Seq<UserQueueView>, kind: Kind, needed: int, budget: int)
    requires
        made_room_for(a, b, kind, needed, budget),
    ensures
        total_bytes(a, kind) + needed <= budget ==> b == a,
        made_room(a, b, kind),
{
    let chain = choose|chain: Seq<Seq<UserQueueView>>| {
        &&& chain.len() >= 1
        &&& chain[0] == a
        &&& chain.last() == b
        &&& forall|i: int| 0 <= i < chain.len() - 1 ==> #[trigger] room_step_for(chain[i], chain[i + 1], kind, needed, budget)
    };
    if chain.len() > 1 {
        let z: int = 0;
        assert(room_step_for(chain[z], chain[z + 1], kind, needed, budget));
    }
    assert forall|i: int| 0 <= i < chain.len() - 1 implies #[trigger] room_step(chain[i], chain[i + 1], kind) by {
        assert(room_step_for(chain[i], chain[i + 1], kind, needed, budget));
    }
}

/// `b` results from `a` by room-making steps for `kind`, one after another.
pub open spec fn made_room(a: Seq<UserQueueView>, b: Seq<UserQueueView>, kind: Kind) -> bool {
    exists|chain: Seq<Seq<UserQueueView>>| {
        &&& chain.len() >= 1
        &&& chain[0] == a
        &&& chain.last() == b
        &&& forall|i: int| 0 <= i < chain.len() - 1 ==> #[trigger] room_step(chain[i], chain[i + 1], kind)
    }
}

/// Removing a message shrinks the state, changes the other kinds not at all,
/// and removes exactly one message.
pub proof fn lemma_without_message(old: Seq<UserQueueView>, qi: int, idx: int)
    requires
        0 <= qi < old.len(),
        0 <= idx < old[qi].messages.len(),
    ensures
        shrinks(old, without_message(old, qi, idx)),
        keeps_other_kinds(old, without_message(old, qi, idx), view_kind(old[qi].messages[idx])),
        total_messages(without_message(old, qi, idx)) + 1 == total_messages(old),
        forall|k: Kind| #[trigger] total_bytes(without_message(old, qi, idx), k) + (charge_of(k))(old[qi].messages[idx]) == total_bytes(old, k),
        forall|k: Kind| #[trigger] kind_bytes(without_message(old, qi, idx)[qi].messages, k) + (charge_of(k))(old[qi].messages[idx])
            == kind_bytes(old[qi].messages, k),
{
    let new = without_message(old, qi, idx);
    let m = old[qi].messages[idx];
    assert forall|k: Kind| #[trigger] kind_bytes(new[qi].messages, k) + (charge_of(k))(m) == kind_bytes(old[qi].messages, k) by {
        lemma_sum_remove(old[qi].messages, idx, charge_of(k));
    }
    assert forall|i: int, k: Kind| 0 <= i < old.len() implies #[trigger] kind_bytes(new[i].messages, k) <= kind_bytes(old[i].messages, k) by {
        if i == qi {
            assert(kind_bytes(new[qi].messages, k) + (charge_of(k))(m) == kind_bytes(old[qi].messages, k));
        }
    }
    assert forall|i: int, k2: Kind| 0 <= i < old.len() && k2 != view_kind(m) implies #[trigger] kind_bytes(new[i].messages, k2) == kind_bytes(old[i].messages, k2) by {
        if i == qi {
            assert(kind_bytes(new[qi].messages, k2) + (charge_of(k2))(m) == kind_bytes(old[qi].messages, k2));
        }
    }
    lemma_sum_update(old, qi, new[qi], queue_len());
    assert forall|k: Kind| #[trigger] total_bytes(new, k) + (charge_of(k))(m) == total_bytes(old, k) by {
        lemma_sum_update(old, qi, new[qi], queue_bytes(k));
        assert(kind_bytes(new[qi].messages, k) + (charge_of(k))(m) == kind_bytes(old[qi].messages, k));
    }
}

/// Shrinking never raises a total.
pub proof fn lemma_shrinks_totals(a: Seq<UserQueueView>, b: Seq<UserQueueView>)
    requires
        shrinks(a, b),
    ensures
        forall|k: Kind| #[trigger] total_bytes(b, k) <= total_bytes(a, k),
        total_messages(b) <= total_messages(a),
{
    assert forall|k: Kind| #[trigger] total_bytes(b, k) <= total_bytes(a, k) by {
        assert forall|i: int| 0 <= i < b.len() implies (queue_bytes(k))(#[trigger] b[i]) <= (queue_bytes(k))(a[i]) by {
            assert(kind_bytes(b[i].messages, k) <= kind_bytes(a[i].messages, k));
        }
        lemma_sum_pointwise_le(b, a, queue_bytes(k));
    }
    assert forall|i: int| 0 <= i < b.len() implies (queue_len())(#[trigger] b[i]) <= (queue_len())(a[i]) by {}
    lemma_sum_pointwise_le(b, a, queue_len());
}

/// Shrinking keeps every bound.
pub proof fn lemma_shrinks_bounded(a: Seq<UserQueueView>, b: Seq<UserQueueView>, lim: QueueLimits)
    requires
        shrinks(a, b),
        bounded(a, lim),
    ensures
        bounded(b, lim),
{
    lemma_shrinks_totals(a, b);
    assert(total_bytes(b, Kind::Content) <= total_bytes(a, Kind::Content));
    assert(total_bytes(b, Kind::Handshake) <= total_bytes(a, Kind::Handshake));
    assert forall|i: int| 0 <= i < b.len() implies kind_bytes((#[trigger] b[i]).messages, Kind::Content) <= lim.bytes.user_content by {
        assert(kind_bytes(b[i].messages, Kind::Content) <= kind_bytes(a[i].messages, Kind::Content));
    }
    assert forall|i: int| 0 <= i < b.len() implies kind_bytes((#[trigger] b[i]).messages, Kind::Handshake) <= lim.bytes.user_handshake by {
        assert(kind_bytes(b[i].messages, Kind::Handshake) <= kind_bytes(a[i].messages, Kind::Handshake));
    }
    assert forall|x: int, y: int| 0 <= x < y < b.len() implies b[x].user != b[y].user by {
        assert(b[x].user == a[x].user);
        assert(b[y].user == a[y].user);
    }
}

/// Dropping the first user keeps every bound.
pub proof fn lemma_drop_first_bounded(a: Seq<UserQueueView>, lim: QueueLimits)
    requires
        bounded(a, lim),
        a.len() > 0,
    ensures
        bounded(a.subrange(1, a.len() as int), lim),
{
    let b = a.subrange(1, a.len() as int);
    lemma_sum_drop_first(a, queue_bytes(Kind::Content));
    lemma_sum_drop_first(a, queue_bytes(Kind::Handshake));
    assert forall|i: int| 0 <= i < b.len() implies (#[trigger] b[i]) == a[i + 1] by {}
    assert forall|x: int, y: int| 0 <= x < y < b.len() implies b[x].user != b[y].user by {
        assert(b[x] == a[x + 1]);
        assert(b[y] == a[y + 1]);
    }
}

/// `n`, or `usize::MAX` when `n` does not fit.
pub open spec fn saturated(n: int) -> usize {
    if n >= usize::MAX { usize::MAX } else { n as usize }
}

/// `shrinks` composes.
pub proof fn lemma_shrinks_only_trans(a: Seq<UserQueueView>, b: Seq<UserQueueView>, c: Seq<UserQueueView>)
    requires
        shrinks(a, b),
        shrinks(b, c),
    ensures
        shrinks(a, c),
{
    assert forall|i: int, k2: Kind| 0 <= i < a.len() implies #[trigger] kind_bytes(c[i].messages, k2) <= kind_bytes(a[i].messages, k2) by {
        assert(kind_bytes(c[i].messages, k2) <= kind_bytes(b[i].messages, k2));
    }
}

/// `shrinks` and `keeps_other_kinds` compose.
pub proof fn lemma_shrinks_trans(a: Seq<UserQueueView>, b: Seq<UserQueueView>, c: Seq<UserQueueView>, k: Kind)
    requires
        shrinks(a, b),
        shrinks(b, c),
        keeps_other_kinds(a, b, k),
        keeps_other_kinds(b, c, k),
    ensures
        shrinks(a, c),
        keeps_other_kinds(a, c, k),
{
    assert forall|i: int, k2: Kind| 0 <= i < a.len() implies #[trigger] kind_bytes(c[i].messages, k2) <= kind_bytes(a[i].messages, k2) by {
        assert(kind_bytes(c[i].messages, k2) <= kind_bytes(b[i].messages, k2));
    }
    assert forall|i: int, k2: Kind| 0 <= i < a.len() && k2 != k implies #[trigger] kind_bytes(c[i].messages, k2) == kind_bytes(a[i].messages, k2) by {
        assert(kind_bytes(c[i].messages, k2) == kind_bytes(b[i].messages, k2));
    }
}

pub proof fn lemma_shrinks_refl(a: Seq<UserQueueView>, k: Kind)
    ensures
        shrinks(a, a),
        keeps_other_kinds(a, a, k),
{
}

/// The bounds survive admitting one message: `v2` is the state once room was
/// made, `v4` once the user has a slot `qi`, `v5` once the message is
/// appended to it and `v6` once that queue is trimmed to its count cap.
proof fn lemma_admitted_bounded(
    v2: Seq<UserQueueView>,
    v4: Seq<UserQueueView>,
    v5: Seq<UserQueueView>,
    v6: Seq<UserQueueView>,
    qi: int,
    user: Seq<char>,
    msg: ServerMessageView,
    lim: QueueLimits,
)
    requires
        bounded(v2, lim),
        kind_bytes_of_user(v2, user, view_kind(msg)) + view_bytes(msg) <= per_user_of(lim.bytes, view_kind(msg)),
        total_bytes(v2, view_kind(msg)) + view_bytes(msg) <= budget_of(lim.bytes, view_kind(msg)),
        0 <= qi < v4.len(),
        v4[qi].user == user,
        forall|i: int| 0 <= i < v4.len() && i != qi ==> bounded_entry(#[trigger] v4[i], lim),
        forall|k: Kind| kind_bytes(v4[qi].messages, k) <= #[trigger] kind_bytes_of_user(v2, user, k),
        forall|k: Kind| #[trigger] total_bytes(v4, k) <= total_bytes(v2, k),
        distinct_users(v4),
        v4.len() <= if lim.max_users == 0 { 1 } else { lim.max_users as int },
        v5 == v4.update(qi, UserQueueView { user: v4[qi].user, messages: v4[qi].messages.push(msg) }),
        forall|k: Kind| #[trigger] kind_bytes(v5[qi].messages, k) == kind_bytes(v4[qi].messages, k) + (if k == view_kind(msg) { view_bytes(msg) } else { 0 }),
        forall|k: Kind| #[trigger] total_bytes(v5, k) == total_bytes(v4, k) + (if k == view_kind(msg) { view_bytes(msg) } else { 0 }),
        shrinks(v5, v6),
        v6[qi].messages.len() <= lim.max_per_user,
        forall|i: int| 0 <= i < v5.len() && i != qi ==> v6[i] == v5[i],
    ensures
        bounded(v6, lim),
{
    let kind = view_kind(msg);
    lemma_user_within_caps(v2, user, lim);
    lemma_shrinks_totals(v5, v6);
    assert(kind_bytes_of_user(v2, user, Kind::Content) >= kind_bytes(v4[qi].messages, Kind::Content));
    assert(kind_bytes_of_user(v2, user, Kind::Handshake) >= kind_bytes(v4[qi].messages, Kind::Handshake));
    assert(kind_bytes(v6[qi].messages, Kind::Content) <= kind_bytes(v5[qi].messages, Kind::Content));
    assert(kind_bytes(v6[qi].messages, Kind::Handshake) <= kind_bytes(v5[qi].messages, Kind::Handshake));
    assert(total_bytes(v5, Kind::Content) == total_bytes(v4, Kind::Content) + (if Kind::Content == kind { view_bytes(msg) } else { 0 }));
    assert(total_bytes(v5, Kind::Handshake) == total_bytes(v4, Kind::Handshake) + (if Kind::Handshake == kind { view_bytes(msg) } else { 0 }));
    assert(total_bytes(v4, Kind::Content) <= total_bytes(v2, Kind::Content));
    assert(total_bytes(v4, Kind::Handshake) <= total_bytes(v2, Kind::Handshake));
    assert(total_bytes(v6, Kind::Content) <= total_bytes(v5, Kind::Content));
    assert(total_bytes(v6, Kind::Handshake) <= total_bytes(v5, Kind::Handshake));
    assert forall|i: int| 0 <= i < v6.len() && i != qi implies #[trigger] v6[i] == v4[i] by {
        assert(v5[i] == v4[i]);
    }
    assert forall|i: int| 0 <= i < v6.len() implies (#[trigger] v6[i]).messages.len() <= lim.max_per_user by {
        if i != qi { assert(v6[i] == v4[i]); assert(bounded_entry(v4[i], lim)); }
    }
    assert forall|i: int| 0 <= i < v6.len() implies kind_bytes((#[trigger] v6[i]).messages, Kind::Content) <= lim.bytes.user_content by {
        if i != qi { assert(v6[i] == v4[i]); assert(bounded_entry(v4[i], lim)); }
    }
    assert forall|i: int| 0 <= i < v6.len() implies kind_bytes((#[trigger] v6[i]).messages, Kind::Handshake) <= lim.bytes.user_handshake by {
        if i != qi { assert(v6[i] == v4[i]); assert(bounded_entry(v4[i], lim)); }
    }
    assert forall|x: int, y: int| 0 <= x < y < v6.len() implies v6[x].user != v6[y].user by {
        assert(v6[x].user == v5[x].user);
        assert(v6[y].user == v5[y].user);
    }
}

impl OfflineQueue {
    /// Default maximum messages per user.
    pub const DEFAULT_MAX_PER_USER: usize = 1000;
    /// Default maximum number of distinct users tracked.
    pub const DEFAULT_MAX_USERS: usize = 10000;
    /// Total payload byte ceiling: 128 MiB, the sum of the content and
    /// handshake budgets.
    pub const DEFAULT_MAX_TOTAL_BYTES: usize = 134217728;
    /// Default `MlsHandshake` byte budget: 16 MiB.
    pub const DEFAULT_MAX_HANDSHAKE_BYTES: usize = 16777216;
    /// Default `YrsUpdate` byte budget: the rest of the total, 112 MiB.
    pub const DEFAULT_MAX_CONTENT_BYTES: usize = 117440512;
    /// Default per-user `YrsUpdate` byte cap: 8 MiB.
    pub const DEFAULT_MAX_USER_CONTENT_BYTES: usize = 8388608;
    /// Default per-user `MlsHandshake` byte cap: 1 MiB.
    pub const DEFAULT_MAX_USER_HANDSHAKE_BYTES: usize = 1048576;

    closed spec fn core_wf(&self) -> bool {
        &&& forall|i: int| 0 <= i < self.queues@.len() ==> (#[trigger] self.queues@[i]).counters_ok()
        &&& self.content_bytes == total_bytes(self@, Kind::Content)
        &&& self.handshake_bytes == total_bytes(self@, Kind::Handshake)
        &&& distinct_users(self@)
    }

    /// The queue's internal invariant: exact byte accounting and every bound
    /// of its limits.
    pub closed spec fn wf(&self) -> bool {
        self.core_wf() && bounded(self@, self.limits)
    }

    /// The limits this queue enforces.
    pub closed spec fn limits(&self) -> QueueLimits {
        self.limits
    }

    /// Law (bounded memory): a well-formed queue holds every bound of its
    /// limits: per-user message count, per-user and aggregate bytes of each
    /// kind, and the number of users.
    pub proof fn lemma_bounded(&self)
        requires
            self.wf(),
        ensures
            bounded(self@, self.limits()),
    {
    }

    proof fn lemma_view_index(&self, i: int)
        requires
            0 <= i < self.queues@.len(),
        ensures
            self@[i] == self.queues@[i].qview(),
            self@.len() == self.queues@.len(),
    {
    }

    /// A queue with the given limits and no messages.
    pub fn with_queue_limits(limits: QueueLimits) -> (q: OfflineQueue)
        ensures
            q.wf(),
            q@ == Seq::<UserQueueView>::empty(),
            q.limits() == limits,
    {
        let q = OfflineQueue { queues: Vec::new(), content_bytes: 0, handshake_bytes: 0, limits };
        assert(q@ =~= Seq::<UserQueueView>::empty());
        q
    }

    /// A queue with default settings.
    pub fn new() -> (q: OfflineQueue)
        ensures
            q.wf(),
            q@ == Seq::<UserQueueView>::empty(),
            q.limits().max_per_user == 1000,
            q.limits().max_users == 10000,
            q.limits().bytes.content == 117440512,
            q.limits().bytes.handshake == 16777216,
            q.limits().bytes.user_content == 8388608,
            q.limits().bytes.user_handshake == 1048576,
    {
        Self::with_queue_limits(QueueLimits {
            max_per_user: Self::DEFAULT_MAX_PER_USER,
            max_users: Self::DEFAULT_MAX_USERS,
            bytes: ByteLimits::default(),
        })
    }

    /// A queue with custom per-user and user-count caps and default byte budgets.
    pub fn with_limits(max_per_user: usize, max_users: usize) -> (q: OfflineQueue)
        ensures
            q.wf(),
            q@ == Seq::<UserQueueView>::empty(),
            q.limits().max_per_user == max_per_user,
            q.limits().max_users == max_users,
            q.limits().bytes.content == 117440512,
            q.limits().bytes.handshake == 16777216,
            q.limits().bytes.user_content == 8388608,
            q.limits().bytes.user_handshake == 1048576,
    {
        Self::with_queue_limits(QueueLimits { max_per_user, max_users, bytes: ByteLimits::default() })
    }

    /// A queue with custom per-user, user-count and byte caps.
    pub fn with_byte_limits(max_per_user: usize, max_users: usize, bytes: ByteLimits) -> (q: OfflineQueue)
        ensures
            q.wf(),
            q@ == Seq::<UserQueueView>::empty(),
            q.limits().max_per_user == max_per_user,
            q.limits().max_users == max_users,
            q.limits().bytes == bytes,
    {
        Self::with_queue_limits(QueueLimits { max_per_user, max_users, bytes })
    }

    /// The index of `user`'s queue.
    fn find(&self, user: &str) -> (r: Option<usize>)
        ensures
            r matches Some(i) ==> i < self@.len() && self@[i as int].user == user@,
            r is None ==> forall|j: int| 0 <= j < self@.len() ==> self@[j].user != user@,
    {
        let mut i: usize = 0;
        while i < self.queues.len()
            invariant
                i <= self.queues@.len(),
                self@.len() == self.queues@.len(),
                forall|j: int| 0 <= j < i ==> self@[j].user != user@,
            decreases self.queues@.len() - i,
        {
            proof { self.lemma_view_index(i as int); }
            if str_eq(self.queues[i].user.as_str(), user) {
                assert(self@[i as int].user == user@);
                return Some(i);
            }
            i = i + 1;
        }
        None
    }

    /// Remove the message at `idx` of queue `qi`, crediting both the per-user
    /// and the aggregate counters: the single removal path keeps the two in step.
    fn remove_at(&mut self, qi: usize, idx: usize) -> (m: ServerMessage)
        requires
            old(self).core_wf(),
            qi < old(self)@.len(),
            idx < old(self)@[qi as int].messages.len(),
        ensures
            final(self).core_wf(),
            final(self).limits == old(self).limits,
            m@ == old(self)@[qi as int].messages[idx as int],
            final(self)@ == without_message(old(self)@, qi as int, idx as int),
    {
        let ghost old_view = self@;
        proof {
            self.lemma_view_index(qi as int);
            lemma_without_message(old_view, qi as int, idx as int);
        }
        let message = self.queues[qi].messages.remove(idx).unwrap();
        let kind = message_kind(&message);
        let n = message_bytes(&message);
        let ghost mv = message@;
        proof {
            let q = old(self).queues@[qi as int];
            assert(q.qview().messages[idx as int] == mv);
            lemma_sum_remove(q.qview().messages, idx as int, charge_of(Kind::Content));
            lemma_sum_remove(q.qview().messages, idx as int, charge_of(Kind::Handshake));
            lemma_sum_elem_le(old_view, qi as int, queue_bytes(Kind::Content));
            lemma_sum_elem_le(old_view, qi as int, queue_bytes(Kind::Handshake));
            assert(q.qview().messages.remove(idx as int) =~= q.messages@.remove(idx as int).map_values(message_view()));
        }
        match kind {
            Kind::Content => {
                self.queues[qi].content_bytes = self.queues[qi].content_bytes - n;
                self.content_bytes = self.content_bytes - n;
            },
            Kind::Handshake => {
                self.queues[qi].handshake_bytes = self.queues[qi].handshake_bytes - n;
                self.handshake_bytes = self.handshake_bytes - n;
            },
            Kind::Unbudgeted => {},
        }
        proof {
            assert(self@ =~= without_message(old_view, qi as int, idx as int));
            assert forall|i: int| 0 <= i < self.queues@.len() implies (#[trigger] self.queues@[i]).counters_ok() by {
                if i != qi as int {
                    assert(self.queues@[i] == old(self).queues@[i]);
                } else {
                    assert(self.queues@[i].qview() == without_message(old_view, qi as int, idx as int)[i]);
                }
            }
            assert(distinct_users(self@)) by {
                assert forall|a: int, b: int| 0 <= a < b < self@.len() implies self@[a].user != self@[b].user by {
                    assert(self@[a].user == old_view[a].user);
                    assert(self@[b].user == old_view[b].user);
                }
            }
        }
        message
    }


    /// Drop the oldest message of `kind` from queue `qi`. Returns false, and
    /// changes nothing, when that queue holds none.
    fn drop_oldest_of(&mut self, qi: usize, kind: Kind) -> (dropped: bool)
        requires
            old(self).core_wf(),
            qi < old(self)@.len(),
        ensures
            final(self).core_wf(),
            final(self).limits == old(self).limits,
            !dropped ==> final(self)@ == old(self)@,
            !dropped ==> forall|j: int| 0 <= j < old(self)@[qi as int].messages.len() ==> view_kind(#[trigger] old(self)@[qi as int].messages[j]) != kind,
            dropped ==> exists|j: int| {
                &&& 0 <= j < old(self)@[qi as int].messages.len()
                &&& view_kind(old(self)@[qi as int].messages[j]) == kind
                &&& forall|j2: int| 0 <= j2 < j ==> view_kind(#[trigger] old(self)@[qi as int].messages[j2]) != kind
                &&& final(self)@ == without_message(old(self)@, qi as int, j)
            },
    {
        proof { self.lemma_view_index(qi as int); }
        let ghost msgs = self@[qi as int].messages;
        let n = self.queues[qi].messages.len();
        let mut i: usize = 0;
        while i < n
            invariant
                n == msgs.len(),
                self.core_wf(),
                self.limits == old(self).limits,
                self@ == old(self)@,
                qi < self.queues@.len(),
                self@[qi as int].messages == msgs,
                msgs == self.queues@[qi as int].messages@.map_values(message_view()),
                i <= n,
                forall|j2: int| 0 <= j2 < i ==> view_kind(#[trigger] msgs[j2]) != kind,
            decreases n - i,
        {
            let k = message_kind(&self.queues[qi].messages[i]);
            assert(msgs[i as int] == self.queues@[qi as int].messages@[i as int]@);
            if k == kind {
                self.remove_at(qi, i);
                return true;
            }
            i = i + 1;
        }
        false
    }

    /// The queue holding the most bytes of `kind`, if any holds more than zero.
    fn largest_holder(&self, kind: Kind) -> (r: Option<usize>)
        requires
            self.core_wf(),
        ensures
            r matches Some(i) ==> {
                &&& i < self@.len()
                &&& kind_bytes(self@[i as int].messages, kind) > 0
                &&& forall|j: int| 0 <= j < self@.len() ==> #[trigger] kind_bytes(self@[j].messages, kind) <= kind_bytes(self@[i as int].messages, kind)
            },
            r is None ==> forall|j: int| 0 <= j < self@.len() ==> #[trigger] kind_bytes(self@[j].messages, kind) == 0,
    {
        let mut best: Option<usize> = None;
        let mut best_bytes: usize = 0;
        let mut i: usize = 0;
        while i < self.queues.len()
            invariant
                self.core_wf(),
                i <= self@.len(),
                self@.len() == self.queues@.len(),
                best matches Some(b) ==> b < i && best_bytes == kind_bytes(self@[b as int].messages, kind) && best_bytes > 0,
                best is None ==> best_bytes == 0,
                forall|j: int| 0 <= j < i ==> #[trigger] kind_bytes(self@[j].messages, kind) <= best_bytes,
            decreases self@.len() - i,
        {
            proof { self.lemma_view_index(i as int); }
            let b = self.queues[i].bytes(kind);
            if b > best_bytes {
                best = Some(i);
                best_bytes = b;
            }
            i = i + 1;
        }
        best
    }

    /// Drop the oldest messages of queue `qi` until it holds at most `cap`,
    /// returning how many were dropped.
    fn trim_to_cap(&mut self, qi: usize, cap: usize) -> (dropped: usize)
        requires
            old(self).core_wf(),
            qi < old(self)@.len(),
        ensures
            final(self).core_wf(),
            final(self).limits == old(self).limits,
            old(self)@[qi as int].messages.len() <= cap ==> dropped == 0,
            old(self)@[qi as int].messages.len() > cap ==> dropped == old(self)@[qi as int].messages.len() - cap,
            final(self)@ == old(self)@.update(qi as int, UserQueueView {
                user: old(self)@[qi as int].user,
                messages: old(self)@[qi as int].messages.subrange(dropped as int, old(self)@[qi as int].messages.len() as int),
            }),
            shrinks(old(self)@, final(self)@),
            total_messages(final(self)@) + dropped == total_messages(old(self)@),
    {
        let ghost old_view = self@;
        let ghost msgs = old_view[qi as int].messages;
        let mut dropped: usize = 0;
        let n0 = self.queues[qi].messages.len();
        proof {
            self.lemma_view_index(qi as int);
            assert(msgs.subrange(0, msgs.len() as int) =~= msgs);
            assert(self@ =~= old_view.update(qi as int, UserQueueView { user: old_view[qi as int].user, messages: msgs.subrange(0, msgs.len() as int) }));
        }
        while self.queues[qi].messages.len() > cap
            invariant
                self.core_wf(),
                self.limits == old(self).limits,
                qi < self@.len(),
                self@.len() == self.queues@.len(),
                dropped <= msgs.len(),
                n0 == msgs.len(),
                self@ == old_view.update(qi as int, UserQueueView {
                    user: old_view[qi as int].user,
                    messages: msgs.subrange(dropped as int, msgs.len() as int),
                }),
                shrinks(old_view, self@),
                total_messages(self@) + dropped == total_messages(old_view),
                msgs.len() > cap ==> dropped <= msgs.len() - cap,
                msgs.len() <= cap ==> dropped == 0,
            decreases msgs.len() - dropped,
        {
            proof { self.lemma_view_index(qi as int); }
            let ghost before = self@;
            proof { lemma_without_message(before, qi as int, 0); }
            self.remove_at(qi, 0);
            proof {
                assert(msgs.subrange(dropped as int, msgs.len() as int).remove(0) =~= msgs.subrange(dropped + 1, msgs.len() as int));
                lemma_shrinks_only_trans(old_view, before, self@);
            }
            dropped = dropped + 1;
        }
        proof {
            self.lemma_view_index(qi as int);
        }
        dropped
    }

    /// Drop the oldest `kind` messages of queue `qi` until `needed` more bytes
    /// fit under the per-user `cap`, returning how many were dropped.
    fn trim_user_budget(&mut self, qi: usize, kind: Kind, needed: usize, cap: usize) -> (dropped: usize)
        requires
            old(self).core_wf(),
            qi < old(self)@.len(),
            needed <= cap,
        ensures
            final(self).core_wf(),
            final(self).limits == old(self).limits,
            kind_bytes(final(self)@[qi as int].messages, kind) + needed <= cap,
            shrinks(old(self)@, final(self)@),
            keeps_other_kinds(old(self)@, final(self)@, kind),
            forall|i: int| 0 <= i < old(self)@.len() && i != qi ==> final(self)@[i] == old(self)@[i],
            total_messages(final(self)@) + dropped == total_messages(old(self)@),
            kind_bytes(old(self)@[qi as int].messages, kind) + needed <= cap ==> final(self)@ == old(self)@ && dropped == 0,
            kind_drops(old(self)@, final(self)@, kind),
            own_trimmed(old(self)@, final(self)@, qi as int, kind, needed as int, cap as int),
    {
        let ghost old_view = self@;
        let ghost mut chain: Seq<Seq<UserQueueView>> = seq![old_view];
        let mut dropped: usize = 0;
        proof { self.lemma_view_index(qi as int); }
        if self.queues[qi].bytes(kind) <= cap - needed {
            proof {
                lemma_shrinks_refl(old_view, kind);
                lemma_kind_drops_refl(old_view, kind);
                assert(chain.last() == old_view);
            }
            return 0;
        }
        let n0 = self.queues[qi].messages.len();
        loop
            invariant
                self.core_wf(),
                self.limits == old(self).limits,
                qi < self@.len(),
                needed <= cap,
                self@[qi as int].messages.len() + dropped == n0,
                shrinks(old_view, self@),
                keeps_other_kinds(old_view, self@, kind),
                forall|i: int| 0 <= i < old_view.len() && i != qi ==> self@[i] == old_view[i],
                total_messages(self@) + dropped == total_messages(old_view),
                chain.len() >= 1,
                chain[0] == old_view,
                chain.last() == self@,
                forall|i: int| 0 <= i < chain.len() - 1 ==> #[trigger] kind_drop_step(chain[i], chain[i + 1], kind),
                forall|i: int| 0 <= i < chain.len() - 1 ==> #[trigger] own_trim_step(chain[i], chain[i + 1], qi as int, kind, needed as int, cap as int),
            ensures
                self.core_wf(),
                kind_bytes(self@[qi as int].messages, kind) + needed <= cap,
                shrinks(old_view, self@),
                keeps_other_kinds(old_view, self@, kind),
                forall|i: int| 0 <= i < old_view.len() && i != qi ==> self@[i] == old_view[i],
                total_messages(self@) + dropped == total_messages(old_view),
                chain.len() >= 1,
                chain[0] == old_view,
                chain.last() == self@,
                forall|i: int| 0 <= i < chain.len() - 1 ==> #[trigger] kind_drop_step(chain[i], chain[i + 1], kind),
                forall|i: int| 0 <= i < chain.len() - 1 ==> #[trigger] own_trim_step(chain[i], chain[i + 1], qi as int, kind, needed as int, cap as int),
            decreases total_messages(self@),
        {
            proof { self.lemma_view_index(qi as int); }
            let held = self.queues[qi].bytes(kind);
            if held <= cap - needed {
                break;
            }
            let ghost before = self@;
            let ok = self.drop_oldest_of(qi, kind);
            if !ok {
                proof {
                    assert forall|j: int| 0 <= j < before[qi as int].messages.len() implies (charge_of(kind))(#[trigger] before[qi as int].messages[j]) == 0 by {
                        assert(view_kind(before[qi as int].messages[j]) != kind);
                    }
                    lemma_sum_zero(before[qi as int].messages, charge_of(kind));
                }
                break;
            }
            proof {
                let j = choose|j: int| {
                    &&& 0 <= j < before[qi as int].messages.len()
                    &&& view_kind(before[qi as int].messages[j]) == kind
                    &&& forall|j2: int| 0 <= j2 < j ==> view_kind(#[trigger] before[qi as int].messages[j2]) != kind
                    &&& self@ == without_message(before, qi as int, j)
                };
                lemma_without_message(before, qi as int, j);
                lemma_shrinks_trans(old_view, before, self@, kind);
                assert(total_messages(self@) + 1 == total_messages(before));
                assert(self@[qi as int].messages.len() + 1 == before[qi as int].messages.len());
                let prev = chain;
                assert(kind_drop_step(before, self@, kind));
                assert(own_trim_step(before, self@, qi as int, kind, needed as int, cap as int));
                chain = chain.push(self@);
                assert forall|i: int| 0 <= i < chain.len() - 1 implies #[trigger] kind_drop_step(chain[i], chain[i + 1], kind) by {
                    if i < prev.len() - 1 {
                        assert(chain[i] == prev[i] && chain[i + 1] == prev[i + 1]);
                    }
                }
                assert forall|i: int| 0 <= i < chain.len() - 1 implies #[trigger] own_trim_step(chain[i], chain[i + 1], qi as int, kind, needed as int, cap as int) by {
                    if i < prev.len() - 1 {
                        assert(chain[i] == prev[i] && chain[i + 1] == prev[i + 1]);
                    }
                }
            }
            dropped = dropped + 1;
        }
        proof { assert(chain.last() == self@); }
        dropped
    }

    /// Free space in the `kind` budget until `needed` more bytes fit, dropping
    /// the oldest message of that kind from whichever user holds the most of
    /// it, one at a time. Returns how many messages were dropped.
    fn make_room(&mut self, kind: Kind, needed: usize, budget: usize) -> (dropped: usize)
        requires
            old(self).core_wf(),
            needed <= budget,
        ensures
            final(self).core_wf(),
            final(self).limits == old(self).limits,
            total_bytes(final(self)@, kind) + needed <= budget,
            shrinks(old(self)@, final(self)@),
            keeps_other_kinds(old(self)@, final(self)@, kind),
            total_messages(final(self)@) <= total_messages(old(self)@),
            dropped == saturated(total_messages(old(self)@) - total_messages(final(self)@)),
            total_bytes(old(self)@, kind) + needed <= budget ==> final(self)@ == old(self)@ && dropped == 0,
            made_room(old(self)@, final(self)@, kind),
            made_room_for(old(self)@, final(self)@, kind, needed as int, budget as int),
    {
        let ghost old_view = self@;
        let ghost mut chain: Seq<Seq<UserQueueView>> = seq![old_view];
        if self.total(kind) <= budget - needed {
            proof {
                lemma_shrinks_refl(old_view, kind);
                assert(chain.last() == self@);
            }
            return 0;
        }
        let mut dropped: usize = 0;
        loop
            invariant
                self.core_wf(),
                self.limits == old(self).limits,
                needed <= budget,
                chain.len() >= 1,
                chain[0] == old_view,
                chain.last() == self@,
                forall|i: int| 0 <= i < chain.len() - 1 ==> #[trigger] room_step(chain[i], chain[i + 1], kind),
                forall|i: int| 0 <= i < chain.len() - 1 ==> #[trigger] room_step_for(chain[i], chain[i + 1], kind, needed as int, budget as int),
                shrinks(old_view, self@),
                keeps_other_kinds(old_view, self@, kind),
                total_messages(self@) <= total_messages(old_view),
                dropped == saturated(total_messages(old_view) - total_messages(self@)),
            ensures
                self.core_wf(),
                total_bytes(self@, kind) + needed <= budget,
                shrinks(old_view, self@),
                keeps_other_kinds(old_view, self@, kind),
                total_messages(self@) <= total_messages(old_view),
                dropped == saturated(total_messages(old_view) - total_messages(self@)),
                chain.len() >= 1,
                chain[0] == old_view,
                chain.last() == self@,
                forall|i: int| 0 <= i < chain.len() - 1 ==> #[trigger] room_step(chain[i], chain[i + 1], kind),
                forall|i: int| 0 <= i < chain.len() - 1 ==> #[trigger] room_step_for(chain[i], chain[i + 1], kind, needed as int, budget as int),
            decreases total_messages(self@),
        {
            let held = self.total(kind);
            if held <= budget - needed {
                break;
            }
            let victim = self.largest_holder(kind);
            match victim {
                None => {
                    proof {
                        assert forall|j: int| 0 <= j < self@.len() implies (queue_bytes(kind))(#[trigger] self@[j]) == 0 by {
                            assert(kind_bytes(self@[j].messages, kind) == 0);
                        }
                        lemma_sum_zero(self@, queue_bytes(kind));
                    }
                    break;
                },
                Some(v) => {
                    let ghost before = self@;
                    let ok = self.drop_oldest_of(v, kind);
                    if !ok {
                        proof {
                            assert forall|j: int| 0 <= j < before[v as int].messages.len() implies (charge_of(kind))(#[trigger] before[v as int].messages[j]) == 0 by {
                                assert(view_kind(before[v as int].messages[j]) != kind);
                            }
                            lemma_sum_zero(before[v as int].messages, charge_of(kind));
                        }
                        break;
                    }
                    proof {
                        let j = choose|j: int| {
                            &&& 0 <= j < before[v as int].messages.len()
                            &&& view_kind(before[v as int].messages[j]) == kind
                            &&& forall|j2: int| 0 <= j2 < j ==> view_kind(#[trigger] before[v as int].messages[j2]) != kind
                            &&& self@ == without_message(before, v as int, j)
                        };
                        lemma_without_message(before, v as int, j);
                        lemma_shrinks_trans(old_view, before, self@, kind);
                        let prev = chain;
                        assert(room_step(before, self@, kind));
                        assert(room_step_for(before, self@, kind, needed as int, budget as int));
                        chain = chain.push(self@);
                        assert forall|i: int| 0 <= i < chain.len() - 1 implies #[trigger] room_step(chain[i], chain[i + 1], kind) by {
                            if i < prev.len() - 1 {
                                assert(chain[i] == prev[i] && chain[i + 1] == prev[i + 1]);
                            }
                        }
                        assert forall|i: int| 0 <= i < chain.len() - 1 implies #[trigger] room_step_for(chain[i], chain[i + 1], kind, needed as int, budget as int) by {
                            if i < prev.len() - 1 {
                                assert(chain[i] == prev[i] && chain[i + 1] == prev[i + 1]);
                            }
                        }
                    }
                    dropped = dropped.saturating_add(1);
                },
            }
        }
        dropped
    }

    /// The aggregate bytes of `kind` held.
    fn total(&self, kind: Kind) -> (n: usize)
        requires
            self.core_wf(),
        ensures
            n == total_bytes(self@, kind),
    {
        proof {
            assert forall|i: int| 0 <= i < self@.len() implies (queue_bytes(Kind::Unbudgeted))(#[trigger] self@[i]) == 0 by {
                lemma_unbudgeted_is_free(self@[i].messages);
            }
            lemma_sum_zero(self@, queue_bytes(Kind::Unbudgeted));
        }
        match kind {
            Kind::Content => self.content_bytes,
            Kind::Handshake => self.handshake_bytes,
            Kind::Unbudgeted => 0,
        }
    }

    /// Evict the least-recently-inserted user's queue when at or above
    /// `max_users`, returning the evicted user id.
    fn evict_if_full(&mut self) -> (evicted: Option<String>)
        requires
            old(self).core_wf(),
        ensures
            final(self).core_wf(),
            final(self).limits == old(self).limits,
            old(self)@.len() >= old(self).limits.max_users && old(self)@.len() > 0 ==> {
                &&& evicted matches Some(u) && u@ == old(self)@[0].user
                &&& final(self)@ == old(self)@.subrange(1, old(self)@.len() as int)
            },
            !(old(self)@.len() >= old(self).limits.max_users && old(self)@.len() > 0) ==> {
                &&& evicted is None
                &&& final(self)@ == old(self)@
            },
    {
        if self.queues.len() >= self.limits.max_users && self.queues.len() > 0 {
            let ghost old_view = self@;
            proof {
                self.lemma_view_index(0);
                lemma_sum_drop_first(old_view, queue_bytes(Kind::Content));
                lemma_sum_drop_first(old_view, queue_bytes(Kind::Handshake));
            }
            let q = self.queues.remove(0);
            self.content_bytes = self.content_bytes - q.content_bytes;
            self.handshake_bytes = self.handshake_bytes - q.handshake_bytes;
            proof {
                assert(self@ =~= old_view.subrange(1, old_view.len() as int));
                assert forall|i: int| 0 <= i < self.queues@.len() implies (#[trigger] self.queues@[i]).counters_ok() by {
                    assert(self.queues@[i] == old(self).queues@[i + 1]);
                }
            }
            Some(q.user)
        } else {
            None
        }
    }

    /// Queue a message for an offline user.
    ///
    /// The message is refused, changing nothing, exactly when it alone exceeds
    /// the per-user cap or the aggregate budget of its kind. Otherwise room is
    /// made for it at the cost of OTHER messages of the same kind (the user's
    /// own oldest first, then the oldest from whichever user holds the most),
    /// a new user at `max_users` capacity evicts the least-recently-inserted
    /// one, and the user's queue is trimmed to `max_per_user` messages. Every
    /// drop is counted: byte-budget drops in `displaced`, count-cap drops in
    /// `trimmed`.
    #[verifier::spinoff_prover]
    #[verifier::rlimit(100)]
    pub fn enqueue(&mut self, user_id: &str, message: ServerMessage) -> (out: EnqueueOutcome)
        requires
            old(self).wf(),
        ensures
            final(self).wf(),
            final(self).limits() == old(self).limits(),
            out.refused == (view_bytes(message@) > per_user_of(old(self).limits().bytes, view_kind(message@))
                || view_bytes(message@) > budget_of(old(self).limits().bytes, view_kind(message@))),
            out.refused ==> final(self)@ == old(self)@ && out.evicted_user is None && out.displaced == 0 && out.trimmed == 0,
            !out.refused ==> exists|i: int| {
                &&& 0 <= i < final(self)@.len()
                &&& final(self)@[i].user == user_id@
                &&& old(self).limits().max_per_user > 0 ==> final(self)@[i].messages.last() == message@
            },
            !out.refused ==> (out.evicted_user matches Some(u) ==> u@ == old(self)@[0].user && u@ != user_id@),
            !out.refused && no_pressure(old(self)@, old(self).limits(), user_id@, message@) ==> out.displaced == 0,
            enqueue_step(old(self)@, final(self)@, old(self).limits(), user_id@, message@),
            !out.refused ==> exists|v2: Seq<UserQueueView>| {
                &&& kind_drops(old(self)@, v2, view_kind(message@))
                &&& #[trigger] admitted_after_drops(v2, final(self)@, user_id@, message@, old(self).limits(), out.trimmed as nat, out.evicted_user is Some)
            },
            !out.refused ==> exists|v1: Seq<UserQueueView>, v2: Seq<UserQueueView>| {
                &&& #[trigger] own_drops(old(self)@, v1, user_id@, view_kind(message@))
                &&& made_room(v1, v2, view_kind(message@))
                &&& out.displaced == saturated(total_messages(old(self)@) - total_messages(v2))
                &&& #[trigger] admitted_after_drops(v2, final(self)@, user_id@, message@, old(self).limits(), out.trimmed as nat, out.evicted_user is Some)
            },
            !out.refused ==> exists|v1: Seq<UserQueueView>, v2: Seq<UserQueueView>| {
                &&& #[trigger] user_trimmed(old(self)@, v1, user_id@, view_kind(message@), view_bytes(message@) as int,
                    per_user_of(old(self).limits().bytes, view_kind(message@)) as int)
                &&& own_drops(old(self)@, v1, user_id@, view_kind(message@))
                &&& made_room(v1, v2, view_kind(message@))
                &&& made_room_for(v1, v2, view_kind(message@), view_bytes(message@) as int,
                    budget_of(old(self).limits().bytes, view_kind(message@)) as int)
                &&& out.displaced == saturated(total_messages(old(self)@) - total_messages(v2))
                &&& #[trigger] admitted_after_drops(v2, final(self)@, user_id@, message@, old(self).limits(), out.trimmed as nat, out.evicted_user is Some)
            },
            !out.refused && no_pressure(old(self)@, old(self).limits(), user_id@, message@) ==> admitted_without_pressure(
                old(self)@, final(self)@, user_id@, message@, old(self).limits(), out.trimmed as nat, out.evicted_user is None),
            !out.refused ==> forall|i: int, j: int, k: Kind|
                0 <= i < old(self)@.len() && 0 <= j < final(self)@.len()
                && final(self)@[j].user == old(self)@[i].user && old(self)@[i].user != user_id@
                && k != view_kind(message@)
                ==> #[trigger] kind_bytes(final(self)@[j].messages, k) == #[trigger] kind_bytes(old(self)@[i].messages, k),
    {
        let kind = message_kind(&message);
        let msg_bytes = message_bytes(&message);
        let cap = self.limits.bytes.per_user(kind);
        let budget = self.limits.bytes.budget(kind);
        if msg_bytes > cap || msg_bytes > budget {
            return EnqueueOutcome { evicted_user: None, refused: true, displaced: 0, trimmed: 0 };
        }
        let ghost v0 = self@;
        let displaced = self.make_space(user_id, kind, msg_bytes, cap, budget);
        let ghost v2 = self@;
        let (qi, evicted) = self.slot_for(user_id, kind);
        let ghost v4 = self@;
        let ghost mv = message@;
        self.append_message(qi, message, kind, msg_bytes);
        let ghost v5 = self@;
        let trimmed = self.trim_to_cap(qi, self.limits.max_per_user);
        let ghost v6 = self@;
        proof {
            let lim = self.limits;
            assert(v6[qi as int].messages.len() <= lim.max_per_user);
            assert forall|i: int| 0 <= i < v5.len() && i != qi as int implies v6[i] == v5[i] by {}
            lemma_admitted_bounded(v2, v4, v5, v6, qi as int, user_id@, mv, lim);
            if lim.max_per_user > 0 {
                assert(v6[qi as int].messages.last() == v5[qi as int].messages.last());
            }
            assert(v6[qi as int].user == user_id@);
            if evicted is Some {
                assert(v2[0].user == v0[0].user);
            }
            assert forall|i: int, j: int, k: Kind|
                0 <= i < v0.len() && 0 <= j < v6.len()
                && v6[j].user == v0[i].user && v0[i].user != user_id@
                && k != kind
                implies #[trigger] kind_bytes(v6[j].messages, k) == #[trigger] kind_bytes(v0[i].messages, k) by {
                assert(j != qi as int);
                assert(v6[j] == v5[j]);
                assert(v5[j] == v4[j]);
                assert(v4[j].user == v2[i].user);
            }
        }
        proof {
            lemma_admitted_after_drops(v2, v4, v5, v6, qi as int, user_id@, mv, self.limits, trimmed as nat, evicted is Some);
            if no_pressure(v0, self.limits, user_id@, mv) {
                lemma_admitted_without_pressure(v0, v4, v5, v6, qi as int, user_id@, mv, self.limits, trimmed as nat, evicted is None);
            }
        }
        let out = EnqueueOutcome { evicted_user: evicted, refused: false, displaced, trimmed };
        proof {
            assert(kind_drops(old(self)@, v2, view_kind(message@)));
            assert(admitted_after_drops(v2, self@, user_id@, message@, old(self).limits(), out.trimmed as nat, out.evicted_user is Some));
            let v1 = choose|v1: Seq<UserQueueView>| #[trigger] own_drops(v0, v1, user_id@, kind) && made_room(v1, v2, kind);
            assert(own_drops(old(self)@, v1, user_id@, view_kind(message@)));
            let w1 = choose|v1: Seq<UserQueueView>| #[trigger] user_trimmed(v0, v1, user_id@, kind, msg_bytes as int, cap as int)
                && own_drops(v0, v1, user_id@, kind) && made_room(v1, v2, kind)
                && made_room_for(v1, v2, kind, msg_bytes as int, budget as int);
            assert(user_trimmed(old(self)@, w1, user_id@, view_kind(message@), view_bytes(message@) as int,
                per_user_of(old(self).limits().bytes, view_kind(message@)) as int));
        }
        out
    }

    /// Make room for `msg_bytes` more bytes of `kind` for `user_id`: first
    /// within the user's own cap, then within the aggregate budget.
    fn make_space(&mut self, user_id: &str, kind: Kind, msg_bytes: usize, cap: usize, budget: usize) -> (displaced: usize)
        requires
            old(self).wf(),
            msg_bytes <= cap,
            msg_bytes <= budget,
            cap == per_user_of(old(self).limits.bytes, kind),
            budget == budget_of(old(self).limits.bytes, kind),
        ensures
            final(self).wf(),
            final(self).limits == old(self).limits,
            shrinks(old(self)@, final(self)@),
            keeps_other_kinds(old(self)@, final(self)@, kind),
            forall|i: int| 0 <= i < final(self)@.len() && final(self)@[i].user == user_id@ ==> kind_bytes(#[trigger] final(self)@[i].messages, kind) + msg_bytes <= cap,
            total_bytes(final(self)@, kind) + msg_bytes <= budget,
            kind_bytes_of_user(final(self)@, user_id@, kind) + msg_bytes <= cap,
            kind_bytes_of_user(old(self)@, user_id@, kind) + msg_bytes <= cap && total_bytes(old(self)@, kind) + msg_bytes <= budget
                ==> final(self)@ == old(self)@ && displaced == 0,
            kind_drops(old(self)@, final(self)@, kind),
            exists|v1: Seq<UserQueueView>| #[trigger] own_drops(old(self)@, v1, user_id@, kind) && made_room(v1, final(self)@, kind),
            exists|v1: Seq<UserQueueView>| #[trigger] user_trimmed(old(self)@, v1, user_id@, kind, msg_bytes as int, cap as int)
                && own_drops(old(self)@, v1, user_id@, kind) && made_room(v1, final(self)@, kind)
                && made_room_for(v1, final(self)@, kind, msg_bytes as int, budget as int),
            displaced == saturated(total_messages(old(self)@) - total_messages(final(self)@)),
    {
        let ghost v0 = self@;
        let found = self.find(user_id);
        proof {
            if let Some(q0) = found {
                lemma_user_bytes(v0, user_id@, q0 as int, kind);
            }
        }
        let mut displaced: usize = match found {
            Some(qi) => self.trim_user_budget(qi, kind, msg_bytes, cap),
            None => 0,
        };
        let ghost v1 = self@;
        proof {
            if found is None {
                lemma_shrinks_refl(v0, kind);
            }
        }
        let made = self.make_room(kind, msg_bytes, budget);
        displaced = displaced.saturating_add(made);
        proof {
            let v2 = self@;
            if found is None {
                lemma_kind_drops_refl(v0, kind);
            }
            lemma_made_room_drops(v1, v2, kind);
            lemma_kind_drops_trans(v0, v1, v2, kind);
            assert(user_trimmed(v0, v1, user_id@, kind, msg_bytes as int, cap as int)) by {
                lemma_index_of(v0, user_id@);
                if let Some(q0) = found {
                    lemma_index_of_unique(v0, user_id@, q0 as int);
                } else {
                    if let Some(q) = index_of(v0, user_id@) {
                        assert(v0[q].user == user_id@);
                    }
                }
            }
            assert(own_drops(v0, v1, user_id@, kind)) by {
                if let Some(q0) = found {
                    assert forall|i: int| 0 <= i < v0.len() && v0[i].user != user_id@ implies #[trigger] v1[i] == v0[i] by {
                        assert(i != q0);
                    }
                } else {
                    lemma_kind_drops_refl(v0, kind);
                }
            }
            lemma_shrinks_trans(v0, v1, v2, kind);
            lemma_shrinks_bounded(v0, v2, self.limits);
            assert forall|i: int| 0 <= i < v2.len() && v2[i].user == user_id@ implies kind_bytes(#[trigger] v2[i].messages, kind) + msg_bytes <= cap by {
                assert(v1[i].user == user_id@);
                if let Some(q1) = found {
                    assert(v1[q1 as int].user == user_id@);
                    assert(i == q1);
                } else {
                    assert(v0[i].user == v1[i].user);
                }
                assert(kind_bytes(v2[i].messages, kind) <= kind_bytes(v1[i].messages, kind));
            }
            lemma_index_of(v2, user_id@);
        }
        displaced
    }

    /// The index of `user_id`'s queue, creating it (after evicting the
    /// least-recently-inserted user at capacity) when the user has none.
    fn slot_for(&mut self, user_id: &str, kind: Kind) -> (r: (usize, Option<String>))
        requires
            old(self).wf(),
        ensures
            final(self).core_wf(),
            final(self).limits == old(self).limits,
            r.0 < final(self)@.len(),
            final(self)@[r.0 as int].user == user_id@,
            forall|i: int| 0 <= i < final(self)@.len() && i != r.0 ==> bounded_entry(#[trigger] final(self)@[i], final(self).limits),
            kind_bytes(final(self)@[r.0 as int].messages, kind) <= kind_bytes_of_user(old(self)@, user_id@, kind),
            forall|k: Kind| kind_bytes(final(self)@[r.0 as int].messages, k) <= #[trigger] kind_bytes_of_user(old(self)@, user_id@, k),
            forall|k: Kind| #[trigger] total_bytes(final(self)@, k) <= total_bytes(old(self)@, k),
            distinct_users(final(self)@),
            final(self)@.len() <= if final(self).limits.max_users == 0 { 1 } else { final(self).limits.max_users as int },
            final(self)@[r.0 as int].messages.len() <= final(self).limits.max_per_user,
            r.1 matches Some(u) ==> old(self)@.len() > 0 && u@ == old(self)@[0].user && u@ != user_id@,
            index_of(old(self)@, user_id@) matches Some(i) ==> r.0 == i && final(self)@ == old(self)@ && r.1 is None,
            index_of(old(self)@, user_id@) is None ==> final(self)@[r.0 as int].messages.len() == 0,
            index_of(old(self)@, user_id@) is None ==> r.0 == final(self)@.len() - 1 && final(self)@ == (if r.1 is Some {
                old(self)@.subrange(1, old(self)@.len() as int)
            } else {
                old(self)@
            }).push(UserQueueView { user: user_id@, messages: Seq::empty() }),
            forall|j: int| 0 <= j < final(self)@.len() && j != r.0 ==> exists|i: int| 0 <= i < old(self)@.len() && #[trigger] final(self)@[j] == old(self)@[i],
    {
        let ghost v2 = self@;
        let found2 = self.find(user_id);
        proof { lemma_index_of(v2, user_id@); }
        match found2 {
            Some(qi) => {
                proof {
                    lemma_index_of_unique(v2, user_id@, qi as int);
                    assert forall|j: int| 0 <= j < v2.len() && j != qi implies exists|i: int| 0 <= i < v2.len() && #[trigger] v2[j] == v2[i] by {}
                    assert(kind_bytes_of_user(v2, user_id@, kind) == kind_bytes(v2[qi as int].messages, kind)) by {
                        lemma_user_bytes(v2, user_id@, qi as int, kind);
                    }
                    assert forall|k: Kind| kind_bytes(v2[qi as int].messages, k) <= #[trigger] kind_bytes_of_user(v2, user_id@, k) by {
                        lemma_user_bytes(v2, user_id@, qi as int, k);
                    }
                }
                (qi, None)
            },
            None => {
                let evicted = self.evict_if_full();
                let ghost v3 = self@;
                proof {
                    if evicted is Some {
                        lemma_drop_first_bounded(v2, self.limits);
                        lemma_sum_drop_first(v2, queue_bytes(Kind::Content));
                        lemma_sum_drop_first(v2, queue_bytes(Kind::Handshake));
                        lemma_sum_drop_first(v2, queue_bytes(Kind::Unbudgeted));
                    }
                    assert forall|a: int| 0 <= a < v3.len() implies v3[a].user != user_id@ by {
                        if evicted is Some { assert(v3[a] == v2[a + 1]); }
                    }
                    assert forall|k: Kind| #[trigger] total_bytes(v3, k) <= total_bytes(v2, k) by {
                        if evicted is Some { lemma_sum_drop_first(v2, queue_bytes(k)); }
                    }
                }
                self.queues.push(UserQueue {
                    user: user_id.to_owned(),
                    messages: VecDeque::new(),
                    content_bytes: 0,
                    handshake_bytes: 0,
                });
                proof {
                    let nq = UserQueueView { user: user_id@, messages: Seq::empty() };
                    assert(self.queues@.last().qview().messages =~= Seq::<ServerMessageView>::empty());
                    assert(self@ =~= v3.push(nq));
                    assert forall|k: Kind| #[trigger] total_bytes(self@, k) == total_bytes(v3, k) by {
                        lemma_sum_push(v3, nq, queue_bytes(k));
                        assert(kind_bytes(Seq::<ServerMessageView>::empty(), k) == 0);
                    }
                    assert(total_bytes(self@, Kind::Content) == total_bytes(v3, Kind::Content));
                    assert(total_bytes(self@, Kind::Handshake) == total_bytes(v3, Kind::Handshake));
                    assert forall|k: Kind| kind_bytes(nq.messages, k) <= #[trigger] kind_bytes_of_user(v2, user_id@, k) by {
                        assert(kind_bytes(Seq::<ServerMessageView>::empty(), k) == 0);
                    }
                    assert forall|j: int| 0 <= j < self@.len() && j != v3.len() implies exists|i: int| 0 <= i < v2.len() && #[trigger] self@[j] == v2[i] by {
                        if evicted is Some { assert(self@[j] == v2[j + 1]); } else { assert(self@[j] == v2[j]); }
                    }
                    assert forall|i: int| 0 <= i < self.queues@.len() implies (#[trigger] self.queues@[i]).counters_ok() by {
                        if i < v3.len() {
                            assert(self.queues@[i].qview() == v3[i]);
                        }
                    }
                    assert forall|i: int| 0 <= i < self@.len() && i != v3.len() implies bounded_entry(#[trigger] self@[i], self.limits) by {
                        assert(self@[i] == v3[i]);
                    }
                }
                (self.queues.len() - 1, evicted)
            },
        }
    }

    /// Retrieve and clear all queued messages for a user, in the order they
    /// were queued. The user stops being tracked.
    pub fn drain(&mut self, user_id: &str) -> (out: Vec<ServerMessage>)
        requires
            old(self).wf(),
        ensures
            final(self).wf(),
            final(self).limits() == old(self).limits(),
            match index_of(old(self)@, user_id@) {
                Some(i) => {
                    &&& out@.map_values(message_view()) == old(self)@[i].messages
                    &&& final(self)@ == old(self)@.remove(i)
                },
                None => {
                    &&& out@.len() == 0
                    &&& final(self)@ == old(self)@
                },
            },
    {
        let ghost v0 = self@;
        proof { lemma_index_of(v0, user_id@); }
        match self.find(user_id) {
            None => Vec::new(),
            Some(qi) => {
                proof {
                    self.lemma_view_index(qi as int);
                    lemma_index_of_unique(v0, user_id@, qi as int);
                    lemma_remove_bounded(v0, qi as int, self.limits);
                    lemma_unbudgeted_is_free(v0[qi as int].messages);
                }
                let q = self.queues.remove(qi);
                proof {
                    assert(kind_bytes(v0[qi as int].messages, Kind::Content) + total_bytes(v0.remove(qi as int), Kind::Content) == total_bytes(v0, Kind::Content));
                    assert(kind_bytes(v0[qi as int].messages, Kind::Handshake) + total_bytes(v0.remove(qi as int), Kind::Handshake) == total_bytes(v0, Kind::Handshake));
                }
                self.content_bytes = self.content_bytes - q.content_bytes;
                self.handshake_bytes = self.handshake_bytes - q.handshake_bytes;
                proof {
                    assert(self@ =~= v0.remove(qi as int));
                    assert forall|i: int| 0 <= i < self.queues@.len() implies (#[trigger] self.queues@[i]).counters_ok() by {
                        if i < qi { assert(self.queues@[i] == old(self).queues@[i]); }
                        else { assert(self.queues@[i] == old(self).queues@[i + 1]); }
                    }
                }
                let mut msgs = q.messages;
                let ghost all = msgs@.map_values(message_view());
                let mut out: Vec<ServerMessage> = Vec::new();
                while msgs.len() > 0
                    invariant
                        out@.map_values(message_view()) + msgs@.map_values(message_view()) == all,
                    decreases msgs@.len(),
                {
                    let ghost before = msgs@;
                    let ghost out_before = out@;
                    let m = msgs.pop_front().unwrap();
                    out.push(m);
                    proof {
                        assert(before.map_values(message_view()) =~= seq![m@] + msgs@.map_values(message_view()));
                        assert(out@.map_values(message_view()) =~= out_before.map_values(message_view()).push(m@));
                    }
                }
                proof {
                    assert(out@.map_values(message_view()) =~= all);
                }
                out
            },
        }
    }

    /// Whether any messages are queued for a user.
    pub fn has_messages(&self, user_id: &str) -> (r: bool)
        requires
            self.wf(),
        ensures
            r == match index_of(self@, user_id@) {
                Some(i) => self@[i].messages.len() > 0,
                None => false,
            },
    {
        proof { lemma_index_of(self@, user_id@); }
        match self.find(user_id) {
            None => false,
            Some(qi) => {
                proof {
                    self.lemma_view_index(qi as int);
                    lemma_index_of_unique(self@, user_id@, qi as int);
                }
                self.queues[qi].messages.len() > 0
            },
        }
    }

    /// The number of messages queued for a user.
    pub fn message_count(&self, user_id: &str) -> (n: usize)
        requires
            self.wf(),
        ensures
            n == match index_of(self@, user_id@) {
                Some(i) => self@[i].messages.len(),
                None => 0,
            },
    {
        proof { lemma_index_of(self@, user_id@); }
        match self.find(user_id) {
            None => 0,
            Some(qi) => {
                proof {
                    self.lemma_view_index(qi as int);
                    lemma_index_of_unique(self@, user_id@, qi as int);
                }
                self.queues[qi].messages.len()
            },
        }
    }

    /// The number of distinct users currently tracked.
    pub fn tracked_users(&self) -> (n: usize)
        ensures
            n == self@.len(),
    {
        proof { if self.queues@.len() > 0 { self.lemma_view_index(0); } }
        self.queues.len()
    }

    /// The aggregate payload bytes held across both budgets.
    pub fn total_bytes(&self) -> (n: usize)
        requires
            self.wf(),
            total_bytes(self@, Kind::Content) + total_bytes(self@, Kind::Handshake) <= usize::MAX,
        ensures
            n == total_bytes(self@, Kind::Content) + total_bytes(self@, Kind::Handshake),
    {
        self.content_bytes + self.handshake_bytes
    }

    /// Append `message` to queue `qi`, charging its bytes.
    fn append_message(&mut self, qi: usize, message: ServerMessage, kind: Kind, msg_bytes: usize)
        requires
            old(self).core_wf(),
            qi < old(self)@.len(),
            kind == view_kind(message@),
            msg_bytes == view_bytes(message@),
            kind_bytes(old(self)@[qi as int].messages, kind) + msg_bytes <= usize::MAX,
            total_bytes(old(self)@, kind) + msg_bytes <= usize::MAX,
        ensures
            final(self).core_wf(),
            final(self).limits == old(self).limits,
            final(self)@ == old(self)@.update(qi as int, UserQueueView {
                user: old(self)@[qi as int].user,
                messages: old(self)@[qi as int].messages.push(message@),
            }),
            forall|k: Kind| #[trigger] kind_bytes(final(self)@[qi as int].messages, k) == kind_bytes(old(self)@[qi as int].messages, k) + (if k == kind { msg_bytes as nat } else { 0 }),
            forall|k: Kind| #[trigger] total_bytes(final(self)@, k) == total_bytes(old(self)@, k) + (if k == kind { msg_bytes as nat } else { 0 }),
    {
        let ghost v4 = self@;
        proof {
            self.lemma_view_index(qi as int);
            lemma_unbudgeted_is_free(v4[qi as int].messages);
        }
        match kind {
            Kind::Content => {
                self.content_bytes = self.content_bytes + msg_bytes;
                self.queues[qi].content_bytes = self.queues[qi].content_bytes + msg_bytes;
            },
            Kind::Handshake => {
                self.handshake_bytes = self.handshake_bytes + msg_bytes;
                self.queues[qi].handshake_bytes = self.queues[qi].handshake_bytes + msg_bytes;
            },
            Kind::Unbudgeted => {},
        }
        let ghost mv = message@;
        self.queues[qi].messages.push_back(message);
        proof {
            let v5 = self@;
            let oldq = v4[qi as int];
            let newq = UserQueueView { user: oldq.user, messages: oldq.messages.push(mv) };
            assert(self.queues@[qi as int].messages@.map_values(message_view()) =~= oldq.messages.push(mv));
            assert(v5 =~= v4.update(qi as int, newq));
            assert forall|k: Kind| #[trigger] kind_bytes(newq.messages, k) == kind_bytes(oldq.messages, k) + (charge_of(k))(mv) by {
                lemma_sum_push(oldq.messages, mv, charge_of(k));
            }
            assert forall|k: Kind| #[trigger] total_bytes(v5, k) + kind_bytes(oldq.messages, k) == total_bytes(v4, k) + kind_bytes(newq.messages, k) by {
                lemma_sum_update(v4, qi as int, newq, queue_bytes(k));
            }
            assert(total_bytes(v5, Kind::Content) + kind_bytes(oldq.messages, Kind::Content) == total_bytes(v4, Kind::Content) + kind_bytes(newq.messages, Kind::Content));
            assert(total_bytes(v5, Kind::Handshake) + kind_bytes(oldq.messages, Kind::Handshake) == total_bytes(v4, Kind::Handshake) + kind_bytes(newq.messages, Kind::Handshake));
            assert forall|i: int| 0 <= i < self.queues@.len() implies (#[trigger] self.queues@[i]).counters_ok() by {
                if i == qi as int {
                    assert(self.queues@[i].qview() == newq);
                } else {
                    assert(self.queues@[i].qview() == v4[i]);
                }
            }
            assert forall|x: int, y: int| 0 <= x < y < v5.len() implies v5[x].user != v5[y].user by {
                assert(v5[x].user == v4[x].user);
                assert(v5[y].user == v4[y].user);
            }
        }
    }
}

impl Default for OfflineQueue {
    /// A queue with default settings.
    fn default() -> (q: OfflineQueue)
        ensures
            q.wf(),
            q@ == Seq::<UserQueueView>::empty(),
            q.limits().max_per_user == 1000,
            q.limits().max_users == 10000,
    {
        OfflineQueue::new()
    }
}

} // verus!
