use collab::capability::{sign_anchor_rotation, sign_doc_key_proof, sign_subscribe_capability, SubscribeCapability};
use collab::proto::{ClientMessage, ErrorCode, MlsMessageType, ServerMessage};
use collab::relay::{Connection, Outcome, RelayServer, MAX_ID_LEN};
use ed25519_dalek::SigningKey;

const NOW: u64 = 1_700_000_000;
const AUTHZ_DOC: &str = "authz-doc";
const AUTHZ_EPOCH: u64 = 1;

/// Accept a connection on `server`.
fn connect(server: &mut RelayServer) -> Connection {
    Connection::new(server.accept_connection().expect("connection limit not reached"))
}

fn send(server: &mut RelayServer, conn: &mut Connection, msg: ClientMessage) -> Outcome {
    server.handle_message(conn, msg, NOW)
}

/// The single reply of an outcome.
fn only_reply(o: Outcome) -> ServerMessage {
    assert_eq!(o.replies.len(), 1, "expected exactly one reply: {:?}", o.replies);
    o.replies.into_iter().next().unwrap()
}

fn identify(server: &mut RelayServer, conn: &mut Connection, user: &str) {
    let reply = only_reply(send(server, conn, ClientMessage::Identify { user_id: user.into(), token: None }));
    assert!(matches!(reply, ServerMessage::Identified { ref user_id } if user_id == user));
}

fn is_error(m: &ServerMessage, expected: ErrorCode) -> bool {
    matches!(m, ServerMessage::Error { code, .. } if *code == expected)
}

/// A member's signing key standing in for the group's per-epoch key.
fn member_key() -> [u8; 32] {
    [7u8; 32]
}

fn verifying_key(seed: &[u8; 32]) -> [u8; 32] {
    SigningKey::from_bytes(seed).verifying_key().to_bytes()
}

/// Register `signer`'s key as the first anchor of `AUTHZ_DOC` at
/// `AUTHZ_EPOCH`; success is silent.
fn register_anchor(server: &mut RelayServer, conn: &mut Connection, signer: &[u8; 32]) {
    let o = send(
        server,
        conn,
        ClientMessage::RegisterDocKey {
            doc_id: AUTHZ_DOC.into(),
            epoch: AUTHZ_EPOCH,
            public_key: verifying_key(signer).to_vec(),
            proof: sign_doc_key_proof(signer, AUTHZ_DOC, AUTHZ_EPOCH),
            rotation_proof: Vec::new(),
        },
    );
    assert!(o.replies.is_empty(), "a valid registration is silent: {:?}", o.replies);
}

fn cap_for(signer: &[u8; 32], user_id: &str) -> SubscribeCapability {
    sign_subscribe_capability(signer, user_id, AUTHZ_DOC, AUTHZ_EPOCH, u64::MAX)
}

fn subscribe(server: &mut RelayServer, conn: &mut Connection, doc: &str, cap: Option<SubscribeCapability>) -> ServerMessage {
    only_reply(send(server, conn, ClientMessage::Subscribe { doc_id: doc.into(), capability: cap }))
}

#[test]
fn test_identify_user() {
    let mut server = RelayServer::new();
    let mut client = connect(&mut server);
    identify(&mut server, &mut client, "alice");
}

#[test]
fn test_subscribe_requires_identify() {
    let mut server = RelayServer::new();
    let mut client = connect(&mut server);
    let reply = subscribe(&mut server, &mut client, "doc1", None);
    assert!(is_error(&reply, ErrorCode::NotIdentified));
}

#[test]
fn test_subscribe_after_identify() {
    let mut server = RelayServer::new();
    let mut client = connect(&mut server);
    identify(&mut server, &mut client, "alice");
    let reply = subscribe(&mut server, &mut client, "doc1", None);
    assert!(matches!(reply, ServerMessage::Subscribed { ref doc_id } if doc_id == "doc1"));
}

#[test]
fn test_auth_token_rejects_missing_and_wrong_token() {
    let mut server = RelayServer::new().with_auth_token(Some("s3cret".into()));

    let mut client = connect(&mut server);
    let reply = only_reply(send(&mut server, &mut client, ClientMessage::Identify { user_id: "alice".into(), token: None }));
    assert!(is_error(&reply, ErrorCode::Unauthorized));

    let mut client2 = connect(&mut server);
    let reply = only_reply(send(
        &mut server,
        &mut client2,
        ClientMessage::Identify { user_id: "alice".into(), token: Some("nope".into()) },
    ));
    assert!(is_error(&reply, ErrorCode::Unauthorized));
    assert_eq!(client2.user_id(), None, "a refused Identify leaves the connection anonymous");
}

#[test]
fn test_auth_token_accepts_correct_token() {
    let mut server = RelayServer::new().with_auth_token(Some("s3cret".into()));
    let mut client = connect(&mut server);
    let reply = only_reply(send(
        &mut server,
        &mut client,
        ClientMessage::Identify { user_id: "alice".into(), token: Some("s3cret".into()) },
    ));
    assert!(matches!(reply, ServerMessage::Identified { .. }));
    assert_eq!(client.user_id(), Some("alice".to_string()));
}

#[test]
fn test_authenticated_duplicate_identify_takes_over_and_closes_old() {
    let mut server = RelayServer::new().with_auth_token(Some("s3cret".into()));
    let identify_alice = || ClientMessage::Identify { user_id: "alice".into(), token: Some("s3cret".into()) };

    let mut first = connect(&mut server);
    let o = send(&mut server, &mut first, identify_alice());
    assert_eq!(o.replaced, None);

    let mut second = connect(&mut server);
    let o = send(&mut server, &mut second, identify_alice());
    assert!(matches!(o.replies[0], ServerMessage::Identified { .. }));
    // The first connection is the one to tell it was replaced.
    assert_eq!(o.replaced, Some(first.conn_id()));
    assert_eq!(server.router_state().get_client("alice"), Some(second.conn_id()));
}

#[test]
fn test_no_auth_duplicate_identify_takes_over() {
    let mut server = RelayServer::new();
    let mut first = connect(&mut server);
    identify(&mut server, &mut first, "alice");

    let mut second = connect(&mut server);
    let o = send(&mut server, &mut second, ClientMessage::Identify { user_id: "alice".into(), token: None });
    assert!(matches!(o.replies[0], ServerMessage::Identified { .. }));
    assert_eq!(o.replaced, Some(first.conn_id()));
}

#[test]
fn test_long_doc_id_is_rejected() {
    let mut server = RelayServer::new();
    let mut client = connect(&mut server);
    identify(&mut server, &mut client, "alice");

    let long_doc = "d".repeat(MAX_ID_LEN + 1);
    let reply = subscribe(&mut server, &mut client, &long_doc, None);
    assert!(is_error(&reply, ErrorCode::LimitExceeded));
}

#[test]
fn test_authz_member_with_valid_capability_subscribes() {
    let mut server = RelayServer::new().with_subscribe_authz(true);
    let signer = member_key();

    let mut member = connect(&mut server);
    identify(&mut server, &mut member, "member");
    register_anchor(&mut server, &mut member, &signer);

    let reply = subscribe(&mut server, &mut member, AUTHZ_DOC, Some(cap_for(&signer, "member")));
    assert!(matches!(reply, ServerMessage::Subscribed { ref doc_id } if doc_id == AUTHZ_DOC));
}

#[test]
fn test_authz_rejects_capability_replayed_as_other_user() {
    let mut server = RelayServer::new().with_subscribe_authz(true);
    let signer = member_key();

    let mut bob = connect(&mut server);
    identify(&mut server, &mut bob, "bob");
    register_anchor(&mut server, &mut bob, &signer);

    let mut alice = connect(&mut server);
    identify(&mut server, &mut alice, "alice");
    let reply = subscribe(&mut server, &mut alice, AUTHZ_DOC, Some(cap_for(&signer, "bob")));
    assert!(is_error(&reply, ErrorCode::Unauthorized));
    assert!(!server.router_state().is_subscribed("alice", AUTHZ_DOC));
}

#[test]
fn test_authz_missing_capability_subscribes_handshake_only() {
    let mut server = RelayServer::new().with_subscribe_authz(true);
    let signer = member_key();

    let mut member = connect(&mut server);
    identify(&mut server, &mut member, "member");
    register_anchor(&mut server, &mut member, &signer);

    let mut joiner = connect(&mut server);
    identify(&mut server, &mut joiner, "joiner");
    let reply = subscribe(&mut server, &mut joiner, AUTHZ_DOC, None);
    assert!(matches!(reply, ServerMessage::Subscribed { ref doc_id } if doc_id == AUTHZ_DOC));

    // Handshake only: content from the member does not reach the joiner,
    // the member's handshake traffic does.
    let update = ServerMessage::YrsUpdate { doc_id: AUTHZ_DOC.into(), from: "member".into(), encrypted: vec![1], epoch: 1 };
    assert_eq!(server.router_state().recipients(AUTHZ_DOC, "member", &update), Some(Vec::new()));
    let welcome = ServerMessage::MlsHandshake {
        doc_id: AUTHZ_DOC.into(),
        from: "member".into(),
        payload: vec![2],
        message_type: MlsMessageType::Welcome,
    };
    assert_eq!(server.router_state().recipients(AUTHZ_DOC, "member", &welcome), Some(vec!["joiner".to_string()]));
}

#[test]
fn test_authz_still_rejects_invalid_capability() {
    let mut server = RelayServer::new().with_subscribe_authz(true);
    let signer = member_key();

    let mut member = connect(&mut server);
    identify(&mut server, &mut member, "member");
    register_anchor(&mut server, &mut member, &signer);

    let stale = sign_subscribe_capability(&signer, "member", AUTHZ_DOC, AUTHZ_EPOCH + 1, u64::MAX);
    let reply = subscribe(&mut server, &mut member, AUTHZ_DOC, Some(stale));
    assert!(is_error(&reply, ErrorCode::Unauthorized));
}

#[test]
fn test_authz_rejects_non_member_capability() {
    let mut server = RelayServer::new().with_subscribe_authz(true);
    let signer = member_key();

    let mut member = connect(&mut server);
    identify(&mut server, &mut member, "member");
    register_anchor(&mut server, &mut member, &signer);

    let eve_key = [9u8; 32];
    let mut eve = connect(&mut server);
    identify(&mut server, &mut eve, "eve");
    let reply = subscribe(&mut server, &mut eve, AUTHZ_DOC, Some(cap_for(&eve_key, "eve")));
    assert!(is_error(&reply, ErrorCode::Unauthorized));
}

#[test]
fn test_authz_rejects_capability_for_other_doc() {
    let mut server = RelayServer::new().with_subscribe_authz(true);
    let signer = member_key();

    let mut member = connect(&mut server);
    identify(&mut server, &mut member, "member");
    register_anchor(&mut server, &mut member, &signer);

    let other_cap = sign_subscribe_capability(&signer, "member", "other-doc", AUTHZ_EPOCH, u64::MAX);
    let reply = subscribe(&mut server, &mut member, AUTHZ_DOC, Some(other_cap));
    assert!(is_error(&reply, ErrorCode::Unauthorized));
}

#[test]
fn test_authz_rejects_when_no_anchor() {
    let mut server = RelayServer::new().with_subscribe_authz(true);
    let signer = member_key();

    let mut client = connect(&mut server);
    identify(&mut server, &mut client, "member");
    let reply = subscribe(&mut server, &mut client, AUTHZ_DOC, Some(cap_for(&signer, "member")));
    assert!(is_error(&reply, ErrorCode::Unauthorized));
}

#[test]
fn test_register_doc_key_rejects_bad_proof() {
    let mut server = RelayServer::new().with_subscribe_authz(true);
    let signer = member_key();

    let mut member = connect(&mut server);
    identify(&mut server, &mut member, "member");

    let wrong_signer = [3u8; 32];
    let reply = only_reply(send(
        &mut server,
        &mut member,
        ClientMessage::RegisterDocKey {
            doc_id: AUTHZ_DOC.into(),
            epoch: AUTHZ_EPOCH,
            public_key: verifying_key(&signer).to_vec(),
            proof: sign_doc_key_proof(&wrong_signer, AUTHZ_DOC, AUTHZ_EPOCH),
            rotation_proof: Vec::new(),
        },
    ));
    assert!(is_error(&reply, ErrorCode::Unauthorized));

    let reply = subscribe(&mut server, &mut member, AUTHZ_DOC, Some(cap_for(&signer, "member")));
    assert!(is_error(&reply, ErrorCode::Unauthorized));
}

#[test]
fn test_authz_off_allows_ungated_subscribe() {
    let mut server = RelayServer::new();
    let mut client = connect(&mut server);
    identify(&mut server, &mut client, "alice");
    let reply = subscribe(&mut server, &mut client, "doc1", None);
    assert!(matches!(reply, ServerMessage::Subscribed { ref doc_id } if doc_id == "doc1"));
}

#[test]
fn test_register_doc_key_rejects_rotation_without_current_key() {
    let mut server = RelayServer::new().with_subscribe_authz(true);
    let member_signer = member_key();

    let mut member = connect(&mut server);
    identify(&mut server, &mut member, "member");
    register_anchor(&mut server, &mut member, &member_signer);

    let attacker_signer = [11u8; 32];
    let attacker_key = verifying_key(&attacker_signer);
    let mut attacker = connect(&mut server);
    identify(&mut server, &mut attacker, "attacker");
    let reply = only_reply(send(
        &mut server,
        &mut attacker,
        ClientMessage::RegisterDocKey {
            doc_id: AUTHZ_DOC.into(),
            epoch: AUTHZ_EPOCH + 1,
            public_key: attacker_key.to_vec(),
            proof: sign_doc_key_proof(&attacker_signer, AUTHZ_DOC, AUTHZ_EPOCH + 1),
            rotation_proof: sign_anchor_rotation(&attacker_signer, AUTHZ_DOC, AUTHZ_EPOCH + 1, &attacker_key),
        },
    ));
    assert!(is_error(&reply, ErrorCode::Unauthorized));

    let reply = subscribe(&mut server, &mut member, AUTHZ_DOC, Some(cap_for(&member_signer, "member")));
    assert!(matches!(reply, ServerMessage::Subscribed { .. }));
}

#[test]
fn test_register_doc_key_accepts_rotation_signed_by_current_key() {
    let mut server = RelayServer::new().with_subscribe_authz(true);
    let member_signer = member_key();

    let mut member = connect(&mut server);
    identify(&mut server, &mut member, "member");
    register_anchor(&mut server, &mut member, &member_signer);

    let next_signer = [12u8; 32];
    let next_key = verifying_key(&next_signer);
    let o = send(
        &mut server,
        &mut member,
        ClientMessage::RegisterDocKey {
            doc_id: AUTHZ_DOC.into(),
            epoch: AUTHZ_EPOCH + 1,
            public_key: next_key.to_vec(),
            proof: sign_doc_key_proof(&next_signer, AUTHZ_DOC, AUTHZ_EPOCH + 1),
            rotation_proof: sign_anchor_rotation(&member_signer, AUTHZ_DOC, AUTHZ_EPOCH + 1, &next_key),
        },
    );
    assert!(o.replies.is_empty());

    let new_epoch_cap = sign_subscribe_capability(&next_signer, "member", AUTHZ_DOC, AUTHZ_EPOCH + 1, u64::MAX);
    let reply = subscribe(&mut server, &mut member, AUTHZ_DOC, Some(new_epoch_cap));
    assert!(matches!(reply, ServerMessage::Subscribed { .. }));
}

#[test]
fn identify_delivers_messages_queued_while_offline() {
    let mut server = RelayServer::new();
    let mut alice = connect(&mut server);
    identify(&mut server, &mut alice, "alice");
    let mut bob = connect(&mut server);
    identify(&mut server, &mut bob, "bob");
    subscribe(&mut server, &mut alice, "doc1", None);
    subscribe(&mut server, &mut bob, "doc1", None);

    server.handle_disconnect(&bob);
    server.release_connection();

    let o = send(&mut server, &mut alice, ClientMessage::YrsUpdate { doc_id: "doc1".into(), encrypted: vec![4, 2], epoch: 3 });
    assert!(o.replies.is_empty());
    let route = o.route.expect("an update is routed");
    assert_eq!(route.doc_id, "doc1");
    assert_eq!(route.from, "alice");
    let subscribers = server.router_state().recipients(&route.doc_id, &route.from, &route.message).unwrap();
    assert_eq!(subscribers, vec!["bob".to_string()]);
    let fan = server.router_state().fan_out(&subscribers, &vec![false]);
    assert_eq!(fan.offline, vec!["bob".to_string()]);
    server.finish_route(&route.message, fan);

    let mut bob_again = connect(&mut server);
    let o = send(&mut server, &mut bob_again, ClientMessage::Identify { user_id: "bob".into(), token: None });
    assert_eq!(o.replies.len(), 2);
    assert!(matches!(o.replies[0], ServerMessage::Identified { .. }));
    match &o.replies[1] {
        ServerMessage::YrsUpdate { doc_id, from, encrypted, epoch } => {
            assert_eq!(doc_id, "doc1");
            assert_eq!(from, "alice");
            assert_eq!(encrypted, &vec![4, 2]);
            assert_eq!(*epoch, 3);
        }
        other => panic!("expected the queued update, got {other:?}"),
    }
}

#[test]
fn updates_and_handshakes_require_identify() {
    let mut server = RelayServer::new();
    let mut client = connect(&mut server);
    let reply = only_reply(send(&mut server, &mut client, ClientMessage::YrsUpdate { doc_id: "d".into(), encrypted: vec![], epoch: 0 }));
    assert!(is_error(&reply, ErrorCode::NotIdentified));
    let reply = only_reply(send(
        &mut server,
        &mut client,
        ClientMessage::MlsHandshake { doc_id: "d".into(), payload: vec![], message_type: MlsMessageType::Commit },
    ));
    assert!(is_error(&reply, ErrorCode::NotIdentified));
    let reply = only_reply(send(&mut server, &mut client, ClientMessage::Unsubscribe { doc_id: "d".into() }));
    assert!(is_error(&reply, ErrorCode::NotIdentified));
}

#[test]
fn connection_limit_refuses_extra_connections() {
    let mut server = RelayServer::new().with_max_connections(1);
    let first = server.accept_connection();
    assert!(first.is_some());
    assert_eq!(server.accept_connection(), None);
    server.release_connection();
    let again = server.accept_connection();
    assert!(again.is_some());
    assert_ne!(again, first, "connection ids are never reused");
}
