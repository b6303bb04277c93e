use collab::proto::{MlsMessageType, ServerMessage};
use collab::storage::{ByteLimits, EnqueueOutcome, OfflineQueue};


fn make_update(doc_id: &str, from: &str, data: u8) -> ServerMessage {
    ServerMessage::YrsUpdate {
        doc_id: doc_id.into(),
        from: from.into(),
        encrypted: vec![data],
        epoch: 1,
    }
}

fn extract_update_data(msg: &ServerMessage) -> u8 {
    let ServerMessage::YrsUpdate { encrypted, .. } = msg else {
        panic!("Expected YrsUpdate");
    };
    encrypted[0]
}

/// A `YrsUpdate` whose encrypted payload is exactly `bytes` long.
fn make_sized(doc_id: &str, from: &str, bytes: usize) -> ServerMessage {
    ServerMessage::YrsUpdate {
        doc_id: doc_id.into(),
        from: from.into(),
        encrypted: vec![0u8; bytes],
        epoch: 1,
    }
}

/// An `MlsHandshake` whose payload is exactly `bytes` long.
fn make_handshake(doc_id: &str, from: &str, bytes: usize) -> ServerMessage {
    ServerMessage::MlsHandshake {
        doc_id: doc_id.into(),
        from: from.into(),
        payload: vec![0u8; bytes],
        message_type: MlsMessageType::Commit,
    }
}

/// Byte limits with every budget set to `n`, so a test's numbers stay small
/// and only the axis it exercises can bite.
fn flat_limits(n: usize) -> ByteLimits {
    ByteLimits { content: n, handshake: n, user_content: n, user_handshake: n }
}

fn count_kinds(messages: &[ServerMessage]) -> (usize, usize) {
    let content =
        messages.iter().filter(|m| matches!(m, ServerMessage::YrsUpdate { .. })).count();
    let handshake =
        messages.iter().filter(|m| matches!(m, ServerMessage::MlsHandshake { .. })).count();
    (content, handshake)
}

#[test]
fn test_offline_user_receives_on_reconnect() {
    let mut queue = OfflineQueue::new();

    // Bob is offline, Alice sends messages
    queue.enqueue("bob", make_update("doc1", "alice", 1));
    queue.enqueue("bob", make_update("doc1", "alice", 2));
    queue.enqueue("bob", make_update("doc1", "alice", 3));

    // Verify messages are queued
    assert!(queue.has_messages("bob"));
    assert_eq!(queue.message_count("bob"), 3);

    // Bob reconnects and drains messages
    let messages = queue.drain("bob");
    assert_eq!(messages.len(), 3);

    // Verify order (FIFO)
    for (i, msg) in messages.iter().enumerate() {
        let expected = (i + 1) as u8;
        assert_eq!(extract_update_data(msg), expected);
    }

    // Queue should now be empty
    assert!(!queue.has_messages("bob"));
    assert!(queue.drain("bob").is_empty());
}

#[test]
fn test_max_messages_limit() {
    let mut queue = OfflineQueue::with_limits(3, OfflineQueue::DEFAULT_MAX_USERS);

    // Queue 5 messages for bob (exceeds limit of 3). The count cap is a
    // silent drop path unless it is reported, so collect what it reports.
    let mut trimmed = Vec::new();
    for i in 1..=5 {
        let outcome = queue.enqueue("bob", make_update("doc1", "alice", i));
        assert_eq!(
            outcome.displaced, 0,
            "a count-cap drop must not be reported as byte pressure"
        );
        trimmed.push(outcome.trimmed);
    }
    assert_eq!(trimmed, vec![0, 0, 0, 1, 1], "count-cap drops must be reported too");

    // Only last 3 should remain
    assert_eq!(queue.message_count("bob"), 3);

    let messages = queue.drain("bob");
    assert_eq!(messages.len(), 3);

    // Should have messages 3, 4, 5 (oldest 1, 2 dropped)
    for (i, msg) in messages.iter().enumerate() {
        let expected = (i + 3) as u8;
        assert_eq!(extract_update_data(msg), expected);
    }
}

#[test]
fn test_multiple_users() {
    let mut queue = OfflineQueue::new();

    // Messages for different users
    queue.enqueue("bob", make_update("doc1", "alice", 1));
    queue.enqueue("charlie", make_update("doc2", "alice", 2));
    queue.enqueue("bob", make_update("doc1", "alice", 3));

    assert_eq!(queue.message_count("bob"), 2);
    assert_eq!(queue.message_count("charlie"), 1);

    // Drain bob's messages
    let bob_msgs = queue.drain("bob");
    assert_eq!(bob_msgs.len(), 2);

    // Charlie's messages still there
    assert_eq!(queue.message_count("charlie"), 1);
}

#[test]
fn test_empty_queue() {
    let mut queue = OfflineQueue::new();

    assert!(!queue.has_messages("nobody"));
    assert!(queue.drain("nobody").is_empty());
}

#[test]
fn test_max_users_evicts_oldest() {
    // Capacity for 2 users, 10 messages each.
    let mut queue = OfflineQueue::with_limits(10, 2);

    queue.enqueue("alice", make_update("doc1", "x", 1));
    queue.enqueue("bob", make_update("doc1", "x", 2));
    assert_eq!(queue.tracked_users(), 2);

    // Adding a third user evicts the oldest (alice).
    queue.enqueue("carol", make_update("doc1", "x", 3));
    assert_eq!(queue.tracked_users(), 2);
    assert!(!queue.has_messages("alice"), "oldest user should be evicted");
    assert!(queue.has_messages("bob"));
    assert!(queue.has_messages("carol"));
}

#[test]
fn test_drain_frees_capacity_and_order() {
    let mut queue = OfflineQueue::with_limits(10, 2);

    queue.enqueue("alice", make_update("doc1", "x", 1));
    queue.enqueue("bob", make_update("doc1", "x", 2));

    // Draining alice frees a slot; carol can be tracked without evicting bob.
    let drained = queue.drain("alice");
    assert_eq!(drained.len(), 1);

    queue.enqueue("carol", make_update("doc1", "x", 3));
    assert_eq!(queue.tracked_users(), 2);
    assert!(queue.has_messages("bob"), "bob must not be evicted after alice drained");
    assert!(queue.has_messages("carol"));
}

#[test]
fn test_byte_budget_evicts_largest_queue() {
    // Budget for 3 messages of 100 bytes; plenty of per-user/user headroom
    // so only the byte cap can bite.
    let mut queue = OfflineQueue::with_byte_limits(1000, 1000, flat_limits(300));

    // Three 100-byte messages across two users exactly fill the budget.
    queue.enqueue("alice", make_sized("doc1", "x", 100));
    queue.enqueue("alice", make_sized("doc1", "x", 100));
    queue.enqueue("bob", make_sized("doc1", "x", 100));
    assert_eq!(queue.total_bytes(), 300);

    // The fourth is admitted by evicting the OLDEST message of the LARGEST
    // queue (alice, 200 bytes) — the newcomer is not the victim.
    let outcome = queue.enqueue("carol", make_sized("doc1", "x", 100));
    assert!(!outcome.refused, "a modest newcomer must not be refused");
    assert_eq!(outcome.displaced, 1);
    assert!(queue.has_messages("carol"), "newcomer must be queued");
    assert_eq!(queue.message_count("alice"), 1, "largest queue gives up its oldest");
    assert!(queue.has_messages("bob"), "a smaller queue is never the victim");
    assert_eq!(queue.total_bytes(), 300, "byte budget must hold");

    // A message that alone exceeds the budget is refused, and mutates nothing.
    let too_big = queue.enqueue("dave", make_sized("doc1", "x", 301));
    assert!(too_big.refused);
    assert_eq!(too_big.displaced, 0, "a refusal must not displace anything");
    assert_eq!(queue.total_bytes(), 300);
    assert!(!queue.has_messages("dave"), "refused message must not be stored");
}

#[test]
fn test_byte_accounting_survives_count_cap_and_eviction() {
    // Per-user cap of 2 messages, 2 users max, generous byte budget.
    let mut queue = OfflineQueue::with_byte_limits(2, 2, flat_limits(1_000_000));

    // Overflow alice's per-user count cap: oldest dropped, bytes credited.
    for _ in 0..5 {
        queue.enqueue("alice", make_sized("doc1", "x", 100));
    }
    assert_eq!(queue.message_count("alice"), 2);
    assert_eq!(queue.total_bytes(), 200, "count-cap drops must credit bytes");

    // Fill user slots, then force eviction of the oldest user (alice).
    queue.enqueue("bob", make_sized("doc1", "x", 100));
    assert_eq!(queue.total_bytes(), 300);
    let evicted = queue.enqueue("carol", make_sized("doc1", "x", 100));
    assert_eq!(evicted.evicted_user, Some("alice".to_string()));
    // alice's 200 bytes credited on eviction; bob(100) + carol(100) remain.
    assert_eq!(queue.total_bytes(), 200, "user eviction must credit bytes");
}

#[test]
fn test_one_user_cannot_starve_another() {
    let mut queue = OfflineQueue::with_byte_limits(1000, 1000, flat_limits(300));

    // Alice alone fills the whole content budget.
    for _ in 0..3 {
        queue.enqueue("alice", make_sized("doc1", "x", 100));
    }
    assert_eq!(queue.total_bytes(), 300);

    // Bob's first, modest message must still be accepted — his ACCEPTANCE
    // is the discriminator, not alice's trimming.
    let outcome = queue.enqueue("bob", make_sized("doc1", "x", 100));
    assert!(!outcome.refused, "a full budget must not starve a new recipient");
    assert!(queue.has_messages("bob"), "bob must be queued");
    // And alice keeps most of hers: the budget is shared, not handed over.
    assert!(queue.has_messages("alice"), "alice must not be wholly evicted");
    assert_eq!(queue.message_count("alice"), 2);
    assert_eq!(queue.total_bytes(), 300, "byte budget must hold");
}

#[test]
fn test_handshake_flood_cannot_evict_content() {
    let mut queue = OfflineQueue::with_byte_limits(1000, 1000, flat_limits(300));

    // A handshake flood saturates the handshake budget...
    for _ in 0..10 {
        queue.enqueue("bob", make_handshake("doc1", "x", 100));
    }
    // ...which must leave the content budget untouched.
    let outcome = queue.enqueue("bob", make_sized("doc1", "x", 100));
    assert!(!outcome.refused, "a handshake flood must not refuse content");
    // Flooding again must not reach the content already queued.
    for _ in 0..10 {
        queue.enqueue("bob", make_handshake("doc1", "x", 100));
    }

    let (content, handshakes) = count_kinds(&queue.drain("bob"));
    assert_eq!(content, 1, "content must survive a handshake flood");
    // Positive half: the flood demonstrably happened and stayed bounded, so
    // the surviving update is evidence of a split budget, not an empty queue.
    assert_eq!(handshakes, 3, "handshakes are retained up to their own budget");
}

#[test]
fn test_handshake_budget_is_separate_from_content() {
    // Asymmetric aggregate budgets, and per-user caps set well above what
    // any single flooding user sends — so only the AGGREGATE handshake
    // budget, not a per-user cap or the content budget, can be the
    // limiter below.
    let limits = ByteLimits { handshake: 300, user_handshake: 1000, ..flat_limits(100_000) };
    let mut queue = OfflineQueue::with_byte_limits(1000, 1000, limits);

    // A content message queued before the flood must survive it untouched.
    queue.enqueue("carl", make_sized("doc1", "x", 100));
    assert_eq!(queue.total_bytes(), 100);

    // Flood from 5 distinct users, 3 messages of 100 bytes each: 1500
    // bytes sent, far over the 300-byte handshake budget, while each
    // user's own 300 bytes stays well under its 1000-byte cap — no
    // single per-user cap can be what bounds this.
    for user in ["hs0", "hs1", "hs2", "hs3", "hs4"] {
        for _ in 0..3 {
            queue.enqueue(user, make_handshake("doc1", "x", 100));
        }
    }

    // Aggregate handshake bytes must settle at the HANDSHAKE budget
    // (300), not the much larger content budget: subtracting the
    // untouched content bytes isolates the handshake side.
    assert_eq!(
        queue.total_bytes() - 100,
        300,
        "handshake retention must be bounded by its own aggregate budget, not content's"
    );
    // Positive half: content survived the flood, so the bound above is
    // evidence of a real eviction on the handshake side, not an emptied
    // queue.
    assert!(queue.has_messages("carl"), "content must survive the handshake flood");
    assert_eq!(queue.message_count("carl"), 1);
}

#[test]
fn test_enqueue_reports_refusal_and_displacement() {
    let limits = ByteLimits { user_content: 200, ..flat_limits(300) };
    let mut queue = OfflineQueue::with_byte_limits(1000, 1000, limits);

    // Success path: nothing refused, nothing displaced, nobody evicted.
    let ok = queue.enqueue("alice", make_sized("doc1", "x", 100));
    assert_eq!(ok, EnqueueOutcome::default());

    // A message larger than the per-user cap is refused outright.
    let refused = queue.enqueue("alice", make_sized("doc1", "x", 201));
    assert!(refused.refused, "a message over the per-user cap must be refused");
    assert_eq!(refused.displaced, 0);
    assert_eq!(queue.total_bytes(), 100, "a refusal must mutate nothing");

    // Fill the budget (alice 200, bob 100), then a newcomer displaces.
    queue.enqueue("alice", make_sized("doc1", "x", 100));
    queue.enqueue("bob", make_sized("doc1", "x", 100));
    let displaced = queue.enqueue("carol", make_sized("doc1", "x", 100));
    assert!(!displaced.refused);
    assert_eq!(displaced.displaced, 1, "one message dropped to make room");
    assert_eq!(queue.message_count("alice"), 1, "the largest queue pays");
}

#[test]
fn test_count_ring_trim_is_not_reported_as_byte_pressure() {
    // Byte budget huge (only the count ring can bite); max_per_user tiny.
    let mut queue = OfflineQueue::with_byte_limits(2, 1000, flat_limits(1_000_000));

    queue.enqueue("alice", make_sized("doc1", "x", 10));
    queue.enqueue("alice", make_sized("doc1", "x", 10));

    // Third message overflows the count ring only; nowhere near the byte cap.
    let outcome = queue.enqueue("alice", make_sized("doc1", "x", 10));
    assert_eq!(outcome.trimmed, 1, "count-ring overflow must be reported as trimmed");
    assert_eq!(outcome.displaced, 0, "a count-ring drop must not be reported as byte pressure");

    // Positive half: genuine byte pressure elsewhere still reports displaced.
    let mut tight = OfflineQueue::with_byte_limits(1000, 1000, flat_limits(20));
    tight.enqueue("bob", make_sized("doc1", "x", 10));
    tight.enqueue("bob", make_sized("doc1", "x", 10));
    let byte_pressure = tight.enqueue("carol", make_sized("doc1", "x", 10));
    assert!(byte_pressure.displaced > 0, "genuine byte pressure must still report displaced");
    assert_eq!(byte_pressure.trimmed, 0, "byte pressure must not be reported as a count trim");
}

#[test]
fn test_per_user_content_cap_bounds_one_user() {
    // Room for 10 messages globally, but only 2 for any single user.
    let limits = ByteLimits { user_content: 250, ..flat_limits(10_000) };
    let mut queue = OfflineQueue::with_byte_limits(1000, 1000, limits);

    for _ in 0..20 {
        queue.enqueue("alice", make_sized("doc1", "x", 100));
    }

    assert_eq!(queue.message_count("alice"), 2, "per-user cap must bound one user");
    assert_eq!(queue.total_bytes(), 200);
}
