use collab::proto::{MlsMessageType, ServerMessage};
use collab::routing::MessageRouter;
use collab::storage::OfflineQueue;

/// The live connections of a test: a bounded inbox per connection id.
struct Clients {
    inboxes: Vec<(u64, Vec<ServerMessage>, usize)>,
}

impl Clients {
    fn new() -> Self {
        Clients { inboxes: Vec::new() }
    }

    /// Open connection `conn` with room for `capacity` messages.
    fn open(&mut self, conn: u64, capacity: usize) {
        self.inboxes.push((conn, Vec::new(), capacity));
    }

    /// Try to hand `message` to connection `conn`; false when it is full.
    fn offer(&mut self, conn: u64, message: &ServerMessage) -> bool {
        for (c, inbox, cap) in self.inboxes.iter_mut() {
            if *c == conn {
                if inbox.len() >= *cap {
                    return false;
                }
                inbox.push(message.clone());
                return true;
            }
        }
        false
    }

    /// Take the oldest message received on `conn`.
    fn try_recv(&mut self, conn: u64) -> Option<ServerMessage> {
        for (c, inbox, _) in self.inboxes.iter_mut() {
            if *c == conn && !inbox.is_empty() {
                return Some(inbox.remove(0));
            }
        }
        None
    }
}

/// Route `message` for `doc_id` from `from`, as the relay does: pick the
/// recipients, offer the message to each live session, then let the router
/// queue what could not be delivered. Returns how many sessions took it.
fn route_message(
    router: &mut MessageRouter,
    clients: &mut Clients,
    doc_id: &str,
    from: &str,
    message: ServerMessage,
) -> usize {
    let Some(subscribers) = router.recipients(doc_id, from, &message) else {
        return 0;
    };
    let mut delivered = Vec::new();
    for user in &subscribers {
        let ok = match router.get_client(user) {
            Some(conn) => clients.offer(conn, &message),
            None => false,
        };
        delivered.push(ok);
    }
    let fan = router.fan_out(&subscribers, &delivered);
    let sent = fan.sent;
    router.finish_route(&message, fan);
    sent
}

fn register(router: &mut MessageRouter, clients: &mut Clients, user: &str, conn: u64) {
    clients.open(conn, 64);
    assert!(router.register_client(user, conn, true).registered);
}

fn update(doc_id: &str, from: &str, data: u8) -> ServerMessage {
    ServerMessage::YrsUpdate { doc_id: doc_id.into(), from: from.into(), encrypted: vec![data], epoch: 1 }
}

/// A `YrsUpdate` for `doc1` from `alice`.
fn update_for_doc1(data: u8) -> ServerMessage {
    update("doc1", "alice", data)
}

#[test]
fn test_subscribe_and_receive() {
    let mut router = MessageRouter::new();
    let mut clients = Clients::new();
    register(&mut router, &mut clients, "alice", 1);
    register(&mut router, &mut clients, "bob", 2);

    assert!(router.subscribe("alice", "doc1", None));
    assert!(router.subscribe("bob", "doc1", None));

    let message = ServerMessage::YrsUpdate {
        doc_id: "doc1".into(),
        from: "alice".into(),
        encrypted: vec![1, 2, 3],
        epoch: 1,
    };
    let sent = route_message(&mut router, &mut clients, "doc1", "alice", message);
    assert_eq!(sent, 1);

    match clients.try_recv(2).unwrap() {
        ServerMessage::YrsUpdate { from, doc_id, .. } => {
            assert_eq!(from, "alice");
            assert_eq!(doc_id, "doc1");
        }
        _ => panic!("Expected YrsUpdate"),
    }
}

#[test]
fn test_unsubscribed_client_does_not_receive() {
    let mut router = MessageRouter::new();
    let mut clients = Clients::new();
    register(&mut router, &mut clients, "alice", 1);
    register(&mut router, &mut clients, "bob", 2);
    register(&mut router, &mut clients, "eve", 3);

    assert!(router.subscribe("alice", "doc1", None));
    assert!(router.subscribe("bob", "doc1", None));

    let sent = route_message(&mut router, &mut clients, "doc1", "alice", update("doc1", "alice", 1));
    assert_eq!(sent, 1);
    assert!(clients.try_recv(2).is_some());
    assert!(clients.try_recv(3).is_none());
}

#[test]
fn test_sender_does_not_receive_own_message() {
    let mut router = MessageRouter::new();
    let mut clients = Clients::new();
    register(&mut router, &mut clients, "alice", 1);
    assert!(router.subscribe("alice", "doc1", None));

    let sent = route_message(&mut router, &mut clients, "doc1", "alice", update("doc1", "alice", 1));
    assert_eq!(sent, 0);
    assert!(clients.try_recv(1).is_none());
}

#[test]
fn test_unsubscribe() {
    let mut router = MessageRouter::new();
    let mut clients = Clients::new();
    register(&mut router, &mut clients, "alice", 1);
    register(&mut router, &mut clients, "bob", 2);

    assert!(router.subscribe("alice", "doc1", None));
    assert!(router.subscribe("bob", "doc1", None));
    router.unsubscribe("bob", "doc1");

    let sent = route_message(&mut router, &mut clients, "doc1", "alice", update("doc1", "alice", 1));
    assert_eq!(sent, 0);
    assert!(clients.try_recv(2).is_none());
}

#[test]
fn test_unsubscribe_prunes_empty_set() {
    let mut router = MessageRouter::new();
    let mut clients = Clients::new();
    register(&mut router, &mut clients, "alice", 1);

    assert!(router.subscribe("alice", "doc1", None));
    assert!(!router.get_subscribers("doc1").is_empty());

    router.unsubscribe("alice", "doc1");
    assert!(router.get_subscribers("doc1").is_empty());
    assert!(!router.is_subscribed("alice", "doc1"));
}

#[test]
fn routing_test_multiple_documents() {
    let mut router = MessageRouter::new();
    let mut clients = Clients::new();
    register(&mut router, &mut clients, "alice", 1);
    register(&mut router, &mut clients, "bob", 2);
    register(&mut router, &mut clients, "charlie", 3);

    assert!(router.subscribe("alice", "doc1", None));
    assert!(router.subscribe("bob", "doc1", None));
    assert!(router.subscribe("alice", "doc2", None));
    assert!(router.subscribe("charlie", "doc2", None));

    route_message(&mut router, &mut clients, "doc1", "alice", update("doc1", "alice", 1));
    assert!(clients.try_recv(2).is_some());
    assert!(clients.try_recv(3).is_none());

    route_message(&mut router, &mut clients, "doc2", "alice", update("doc2", "alice", 2));
    assert!(clients.try_recv(3).is_some());
    assert!(clients.try_recv(2).is_none());
}

#[test]
fn test_offline_subscriber_is_queued_and_drained_on_reconnect() {
    let mut router = MessageRouter::new();
    let mut clients = Clients::new();
    register(&mut router, &mut clients, "alice", 1);
    register(&mut router, &mut clients, "bob", 2);

    assert!(router.subscribe("alice", "doc1", None));
    assert!(router.subscribe("bob", "doc1", None));

    // Bob disconnects; his subscription is retained.
    router.unregister_client("bob", 2);
    assert!(router.is_subscribed("bob", "doc1"));

    assert_eq!(route_message(&mut router, &mut clients, "doc1", "alice", update_for_doc1(10)), 0);
    assert_eq!(route_message(&mut router, &mut clients, "doc1", "alice", update_for_doc1(20)), 0);
    assert!(router.has_offline_messages("bob"));

    let queued = router.drain_offline("bob");
    assert_eq!(queued.len(), 2);
    assert!(!router.has_offline_messages("bob"));
}

#[test]
fn test_unregister_is_conn_id_scoped() {
    let mut router = MessageRouter::new();
    let mut clients = Clients::new();
    register(&mut router, &mut clients, "alice", 1);
    register(&mut router, &mut clients, "alice", 2);
    assert_eq!(router.client_count(), 1);

    // The stale connection's teardown must not evict the newer session.
    router.unregister_client("alice", 1);
    assert_eq!(router.client_count(), 1);
    assert_eq!(router.get_client("alice"), Some(2));

    router.unregister_client("alice", 2);
    assert_eq!(router.client_count(), 0);
}

#[test]
fn test_subscribe_respects_per_doc_cap() {
    let mut router = MessageRouter::with_limits(100, 2, OfflineQueue::new());

    assert!(router.subscribe("a", "doc1", None));
    assert!(router.subscribe("b", "doc1", None));
    assert!(!router.subscribe("c", "doc1", None));
    assert!(router.subscribe("a", "doc1", None));
}

#[test]
fn test_offline_eviction_prunes_subscriptions() {
    let mut router = MessageRouter::with_limits(100, 100, OfflineQueue::with_limits(10, 1));
    let mut clients = Clients::new();

    // Two offline subscribers (no live sessions registered).
    assert!(router.subscribe("u1", "doc1", None));
    assert!(router.subscribe("u2", "doc1", None));

    route_message(&mut router, &mut clients, "doc1", "sender", update("doc1", "sender", 1));

    let u1_sub = router.is_subscribed("u1", "doc1");
    let u2_sub = router.is_subscribed("u2", "doc1");
    assert_ne!(u1_sub, u2_sub, "exactly one subscription must survive eviction");
    assert_eq!(router.is_subscribed("u1", "doc1"), router.has_offline_messages("u1"));
    assert_eq!(router.is_subscribed("u2", "doc1"), router.has_offline_messages("u2"));
}

#[test]
fn test_register_refuses_takeover_when_disallowed() {
    let mut router = MessageRouter::new();

    assert!(router.register_client("alice", 1, false).registered);
    let second = router.register_client("alice", 2, false);
    assert!(!second.registered);
    assert_eq!(second.replaced, None);
    assert_eq!(router.client_count(), 1);
    assert_eq!(router.get_client("alice"), Some(1));
}

#[test]
fn test_disconnect_slow_is_conn_id_scoped() {
    let mut router = MessageRouter::new();
    assert!(router.register_client("alice", 2, true).registered);
    assert_eq!(router.client_count(), 1);

    // A stale slow classification (conn 1) must not evict the newer session.
    let closed = router.disconnect_slow(&vec![("alice".to_string(), 1)]);
    assert!(closed.is_empty());
    assert_eq!(router.client_count(), 1);
    assert_eq!(router.get_client("alice"), Some(2));

    let closed = router.disconnect_slow(&vec![("alice".to_string(), 2)]);
    assert_eq!(closed, vec![2]);
    assert_eq!(router.client_count(), 0);
}

#[test]
fn test_anchor_tofu_then_monotonic_rotation() {
    let mut router = MessageRouter::new();
    assert!(router.get_anchor("doc1").is_none());
    assert!(router.set_anchor("doc1", 1, [1u8; 32]));
    let a = router.get_anchor("doc1").unwrap();
    assert_eq!(a.epoch, 1);
    assert_eq!(a.verifying_key, [1u8; 32]);

    assert!(router.set_anchor("doc1", 2, [2u8; 32]));
    let a = router.get_anchor("doc1").unwrap();
    assert_eq!(a.epoch, 2);
    assert_eq!(a.verifying_key, [2u8; 32]);

    assert!(!router.set_anchor("doc1", 2, [3u8; 32]));
    assert!(!router.set_anchor("doc1", 1, [4u8; 32]));
    let a = router.get_anchor("doc1").unwrap();
    assert_eq!(a.epoch, 2);
    assert_eq!(a.verifying_key, [2u8; 32], "stale rotation must not overwrite the key");
}

#[test]
fn test_anchor_bounded_by_document_cap() {
    let mut router = MessageRouter::with_limits(2, 100, OfflineQueue::new());

    assert!(router.set_anchor("doc1", 1, [1u8; 32]));
    assert!(router.set_anchor("doc2", 1, [2u8; 32]));
    assert!(!router.set_anchor("doc3", 1, [3u8; 32]));
    assert!(router.get_anchor("doc3").is_none());

    assert!(router.set_anchor("doc1", 2, [9u8; 32]));
    let a = router.get_anchor("doc1").unwrap();
    assert_eq!(a.epoch, 2);
    assert_eq!(a.verifying_key, [9u8; 32]);
}

#[test]
fn test_anchor_first_registration_epoch_is_capped() {
    let mut router = MessageRouter::new();
    assert!(!router.set_anchor("doc1", u64::MAX, [1u8; 32]), "a first anchor at u64::MAX must be rejected");
    assert!(
        !router.set_anchor("doc1", MessageRouter::MAX_INITIAL_ANCHOR_EPOCH + 1, [1u8; 32]),
        "a first anchor just past the cap must be rejected"
    );
    assert!(router.get_anchor("doc1").is_none());

    assert!(router.set_anchor("doc1", MessageRouter::MAX_INITIAL_ANCHOR_EPOCH, [2u8; 32]));
    assert!(
        router.set_anchor("doc1", MessageRouter::MAX_INITIAL_ANCHOR_EPOCH + 1, [3u8; 32]),
        "monotonic rotation past the cap is still allowed for an existing anchor"
    );
    let a = router.get_anchor("doc1").unwrap();
    assert_eq!(a.epoch, MessageRouter::MAX_INITIAL_ANCHOR_EPOCH + 1);
}

#[test]
fn test_subscribe_respects_document_cap() {
    let mut router = MessageRouter::with_limits(2, 100, OfflineQueue::new());

    assert!(router.subscribe("a", "doc1", None));
    assert!(router.subscribe("a", "doc2", None));
    assert!(!router.subscribe("a", "doc3", None));
    assert!(router.subscribe("b", "doc1", None));
}

#[test]
fn test_content_gating_withholds_yrs_update_from_unauthorized() {
    let mut router = MessageRouter::new();
    let mut clients = Clients::new();
    router.set_content_gating(true);
    assert!(router.set_anchor("doc1", 1, [1u8; 32]));

    register(&mut router, &mut clients, "member", 1);
    register(&mut router, &mut clients, "joiner", 2);

    assert!(router.subscribe("member", "doc1", Some(1)));
    assert!(router.subscribe("joiner", "doc1", None));
    assert!(router.subscribe("offline-joiner", "doc1", None));

    assert_eq!(route_message(&mut router, &mut clients, "doc1", "alice", update_for_doc1(1)), 1);
    assert!(clients.try_recv(1).is_some(), "an authorized subscriber still receives content");
    assert!(clients.try_recv(2).is_none(), "an unauthorized subscriber must receive no content");
    assert!(!router.has_offline_messages("offline-joiner"));

    let handshake = ServerMessage::MlsHandshake {
        doc_id: "doc1".into(),
        from: "alice".into(),
        payload: vec![9],
        message_type: MlsMessageType::Welcome,
    };
    assert_eq!(route_message(&mut router, &mut clients, "doc1", "alice", handshake), 2);
    assert!(clients.try_recv(2).is_some(), "a handshake-only subscriber must get the Welcome");
    assert!(clients.try_recv(1).is_some());
    assert!(router.has_offline_messages("offline-joiner"));
}

#[test]
fn test_content_gating_rotation_revokes_stale_authorization() {
    let mut router = MessageRouter::new();
    let mut clients = Clients::new();
    router.set_content_gating(true);
    assert!(router.set_anchor("doc1", 1, [1u8; 32]));

    register(&mut router, &mut clients, "removed", 1);
    assert!(router.subscribe("removed", "doc1", Some(1)));

    assert_eq!(route_message(&mut router, &mut clients, "doc1", "alice", update_for_doc1(1)), 1);
    assert!(clients.try_recv(1).is_some());

    assert!(router.set_anchor("doc1", 2, [2u8; 32]));

    assert_eq!(route_message(&mut router, &mut clients, "doc1", "alice", update_for_doc1(2)), 0);
    assert!(clients.try_recv(1).is_none());
    assert!(!router.has_offline_messages("removed"));
    assert!(router.is_subscribed("removed", "doc1"));
}

#[test]
fn test_content_gating_without_anchor_withholds_from_handshake_only() {
    let mut router = MessageRouter::new();
    let mut clients = Clients::new();
    router.set_content_gating(true);

    register(&mut router, &mut clients, "eve", 1);
    assert!(router.subscribe("eve", "doc1", None));
    assert!(router.subscribe("offline-eve", "doc1", None));

    assert_eq!(route_message(&mut router, &mut clients, "doc1", "alice", update_for_doc1(1)), 0);
    assert!(clients.try_recv(1).is_none());
    assert!(!router.has_offline_messages("offline-eve"));
}

#[test]
fn test_bare_resubscribe_downgrades_authorization() {
    let mut router = MessageRouter::new();
    let mut clients = Clients::new();
    router.set_content_gating(true);
    assert!(router.set_anchor("doc1", 1, [1u8; 32]));

    register(&mut router, &mut clients, "member", 1);
    assert!(router.subscribe("member", "doc1", Some(1)));
    assert_eq!(route_message(&mut router, &mut clients, "doc1", "alice", update_for_doc1(1)), 1);
    assert!(clients.try_recv(1).is_some());

    assert!(router.subscribe("member", "doc1", None));
    assert_eq!(route_message(&mut router, &mut clients, "doc1", "alice", update_for_doc1(2)), 0);
    assert!(clients.try_recv(1).is_none());
}

#[test]
fn test_resubscribe_upgrades_authorization() {
    let mut router = MessageRouter::new();
    let mut clients = Clients::new();
    router.set_content_gating(true);
    assert!(router.set_anchor("doc1", 1, [1u8; 32]));

    register(&mut router, &mut clients, "joiner", 1);
    assert!(router.subscribe("joiner", "doc1", None));
    assert_eq!(route_message(&mut router, &mut clients, "doc1", "alice", update_for_doc1(1)), 0);

    assert!(router.subscribe("joiner", "doc1", Some(1)));
    assert_eq!(route_message(&mut router, &mut clients, "doc1", "alice", update_for_doc1(2)), 1);
    assert!(clients.try_recv(1).is_some());
}

#[test]
fn slow_consumer_is_dropped_and_its_message_queued() {
    let mut router = MessageRouter::new();
    let mut clients = Clients::new();
    register(&mut router, &mut clients, "alice", 1);
    clients.open(2, 0);
    assert!(router.register_client("bob", 2, true).registered);
    assert!(router.subscribe("alice", "doc1", None));
    assert!(router.subscribe("bob", "doc1", None));

    let subscribers = router.recipients("doc1", "alice", &update_for_doc1(5)).unwrap();
    assert_eq!(subscribers, vec!["bob".to_string()]);
    let fan = router.fan_out(&subscribers, &vec![false]);
    assert_eq!(fan.sent, 0);
    assert!(fan.offline.is_empty());
    assert_eq!(fan.slow, vec![("bob".to_string(), 2)]);

    let effects = router.finish_route(&update_for_doc1(5), fan);
    assert_eq!(effects.closed, vec![2]);
    assert!(effects.evicted.is_empty());
    assert_eq!(router.get_client("bob"), None);
    assert!(router.has_offline_messages("bob"));
    assert!(router.is_subscribed("bob", "doc1"));
}

#[test]
fn recipients_is_none_for_an_unknown_document() {
    let router = MessageRouter::new();
    assert!(router.recipients("nowhere", "alice", &update_for_doc1(1)).is_none());
}
