use collab::connection::{ConnectionAction, ConnectionConfig, ConnectionState, ConnectionStateMachine};

fn default_config(auto_connect: bool) -> ConnectionConfig {
    ConnectionConfig::new("ws://localhost:8080".to_string(), "user-1".to_string(), "doc-1".to_string())
        .with_auto_connect(auto_connect)
}

fn config_with_max_retries(max_retries: u32) -> ConnectionConfig {
    ConnectionConfig::new("ws://localhost:8080".to_string(), "user-1".to_string(), "doc-1".to_string())
        .with_max_retries(max_retries)
}

#[test]
fn config_with_auto_connect_enabled() {
    let config = default_config(true);
    assert_eq!(config.relay_url(), "ws://localhost:8080");
}

#[test]
fn config_with_auto_connect_disabled() {
    let config = default_config(false);
    assert!(!config.auto_connect());
}

#[test]
fn config_default_retry_budget_is_five() {
    let config = default_config(true);
    assert_eq!(config.max_retries(), 5);
    assert_eq!(config.user_id(), "user-1");
    assert_eq!(config.doc_id(), "doc-1");
}

#[test]
fn new_with_auto_connect_starts_connecting() {
    let sm = ConnectionStateMachine::new(default_config(true));
    assert_eq!(*sm.state(), ConnectionState::Connecting);
}

#[test]
fn new_without_auto_connect_starts_disconnected() {
    let sm = ConnectionStateMachine::new(default_config(false));
    assert_eq!(*sm.state(), ConnectionState::Disconnected);
}

#[test]
fn next_action_when_connecting_returns_connect() {
    let sm = ConnectionStateMachine::new(default_config(true));
    assert_eq!(sm.next_action(), ConnectionAction::Connect { relay_url: "ws://localhost:8080".into() });
}

#[test]
fn next_action_when_disconnected_returns_do_nothing() {
    let sm = ConnectionStateMachine::new(default_config(false));
    assert_eq!(sm.next_action(), ConnectionAction::DoNothing);
}

#[test]
fn next_action_when_connected_returns_identify_and_subscribe() {
    let mut sm = ConnectionStateMachine::new(default_config(true));
    sm.on_connected();
    assert_eq!(
        sm.next_action(),
        ConnectionAction::IdentifyAndSubscribe { user_id: "user-1".into(), doc_id: "doc-1".into() }
    );
}

#[test]
fn on_connected_transitions_to_connected() {
    let mut sm = ConnectionStateMachine::new(default_config(true));
    sm.on_connected();
    assert_eq!(*sm.state(), ConnectionState::Connected);
}

#[test]
fn on_connected_alone_does_not_reset_retry_count() {
    let mut sm = ConnectionStateMachine::new(default_config(true));
    sm.on_error("timeout");
    sm.on_retry_tick();
    sm.on_connected();
    assert_eq!(*sm.state(), ConnectionState::Connected);
    sm.on_disconnected();
    assert_eq!(*sm.state(), ConnectionState::Reconnecting { attempt: 2 });
}

#[test]
fn on_stable_connection_resets_retry_count() {
    let mut sm = ConnectionStateMachine::new(default_config(true));
    sm.on_error("timeout");
    sm.on_retry_tick();
    sm.on_connected();
    sm.on_stable_connection();
    sm.on_disconnected();
    assert_eq!(*sm.state(), ConnectionState::Reconnecting { attempt: 1 });
}

#[test]
fn on_disconnected_transitions_to_reconnecting() {
    let mut sm = ConnectionStateMachine::new(default_config(true));
    sm.on_connected();
    sm.on_disconnected();
    assert_eq!(*sm.state(), ConnectionState::Reconnecting { attempt: 1 });
}

#[test]
fn on_error_increments_retry_count() {
    let mut sm = ConnectionStateMachine::new(default_config(true));
    sm.on_error("connection refused");
    assert_eq!(*sm.state(), ConnectionState::Reconnecting { attempt: 1 });
    sm.on_retry_tick();
    sm.on_error("connection refused again");
    assert_eq!(*sm.state(), ConnectionState::Reconnecting { attempt: 2 });
}

#[test]
fn on_error_transitions_to_failed_when_max_retries_exceeded() {
    let mut sm = ConnectionStateMachine::new(config_with_max_retries(2));
    sm.on_error("fail");
    sm.on_retry_tick();
    sm.on_error("fail");
    sm.on_retry_tick();
    sm.on_error("final fail");
    assert_eq!(*sm.state(), ConnectionState::Failed { reason: "final fail".into() });
}

#[test]
fn next_action_when_reconnecting_returns_wait_and_retry() {
    let mut sm = ConnectionStateMachine::new(default_config(true));
    sm.on_error("timeout");
    let action = sm.next_action();
    assert_eq!(action, ConnectionAction::WaitAndRetry { attempt: 1 });
}

#[test]
fn on_retry_tick_transitions_reconnecting_to_connecting() {
    let mut sm = ConnectionStateMachine::new(default_config(true));
    sm.on_error("timeout");
    sm.on_retry_tick();
    assert_eq!(*sm.state(), ConnectionState::Connecting);
}

#[test]
fn manual_connect_from_disconnected() {
    let mut sm = ConnectionStateMachine::new(default_config(false));
    assert_eq!(*sm.state(), ConnectionState::Disconnected);
    sm.connect();
    assert_eq!(*sm.state(), ConnectionState::Connecting);
}

#[test]
fn is_connected_returns_true_only_when_connected() {
    let mut sm = ConnectionStateMachine::new(default_config(true));
    assert!(!sm.is_connected());
    sm.on_connected();
    assert!(sm.is_connected());
    sm.on_disconnected();
    assert!(!sm.is_connected());
}

#[test]
fn full_lifecycle_connect_disconnect_reconnect() {
    let mut sm = ConnectionStateMachine::new(default_config(true));
    assert_eq!(*sm.state(), ConnectionState::Connecting);
    assert_eq!(sm.next_action(), ConnectionAction::Connect { relay_url: "ws://localhost:8080".into() });
    sm.on_connected();
    assert!(sm.is_connected());
    assert_eq!(
        sm.next_action(),
        ConnectionAction::IdentifyAndSubscribe { user_id: "user-1".into(), doc_id: "doc-1".into() }
    );
    sm.on_disconnected();
    assert!(!sm.is_connected());
    assert_eq!(*sm.state(), ConnectionState::Reconnecting { attempt: 1 });
    assert_eq!(sm.next_action(), ConnectionAction::WaitAndRetry { attempt: 1 });
    sm.on_retry_tick();
    assert_eq!(*sm.state(), ConnectionState::Connecting);
    sm.on_connected();
    assert!(sm.is_connected());
}

#[test]
fn connect_from_connected_is_no_op() {
    let mut sm = ConnectionStateMachine::new(default_config(true));
    sm.on_connected();
    sm.connect();
    assert_eq!(*sm.state(), ConnectionState::Connected);
}

#[test]
fn connect_from_connecting_is_no_op() {
    let sm_auto = ConnectionStateMachine::new(default_config(true));
    assert_eq!(*sm_auto.state(), ConnectionState::Connecting);
}

#[test]
fn connect_from_reconnecting_is_no_op() {
    let mut sm = ConnectionStateMachine::new(default_config(true));
    sm.on_error("fail");
    sm.connect();
    assert_eq!(*sm.state(), ConnectionState::Reconnecting { attempt: 1 });
}

#[test]
fn on_retry_tick_from_connected_is_no_op() {
    let mut sm = ConnectionStateMachine::new(default_config(true));
    sm.on_connected();
    sm.on_retry_tick();
    assert_eq!(*sm.state(), ConnectionState::Connected);
}

#[test]
fn on_retry_tick_from_disconnected_is_no_op() {
    let mut sm = ConnectionStateMachine::new(default_config(false));
    sm.on_retry_tick();
    assert_eq!(*sm.state(), ConnectionState::Disconnected);
}

#[test]
fn next_action_when_failed_returns_give_up_with_reason() {
    let mut sm = ConnectionStateMachine::new(config_with_max_retries(1));
    sm.on_error("first");
    sm.on_retry_tick();
    sm.on_error("fatal");
    assert_eq!(sm.next_action(), ConnectionAction::GiveUp { reason: "fatal".into() });
}

#[test]
fn on_disconnected_transitions_to_failed_when_retries_exhausted() {
    let mut sm = ConnectionStateMachine::new(config_with_max_retries(1));
    sm.on_connected();
    sm.on_disconnected();
    assert_eq!(*sm.state(), ConnectionState::Reconnecting { attempt: 1 });
    sm.on_retry_tick();
    sm.on_connected();
    sm.on_disconnected();
    assert!(matches!(sm.state(), ConnectionState::Failed { .. }), "expected Failed, got {:?}", sm.state());
}

#[test]
fn multi_cycle_stable_connection_resets_retry_count() {
    let mut sm = ConnectionStateMachine::new(default_config(true));
    sm.on_connected();
    sm.on_stable_connection();
    sm.on_disconnected();
    assert_eq!(*sm.state(), ConnectionState::Reconnecting { attempt: 1 });
    sm.on_retry_tick();
    sm.on_connected();
    sm.on_stable_connection();
    sm.on_disconnected();
    assert_eq!(*sm.state(), ConnectionState::Reconnecting { attempt: 1 });
    sm.on_retry_tick();
    sm.on_connected();
    sm.on_stable_connection();
    sm.on_disconnected();
    assert_eq!(*sm.state(), ConnectionState::Reconnecting { attempt: 1 });
}

#[test]
fn accept_then_drop_without_stability_reaches_give_up() {
    let mut sm = ConnectionStateMachine::new(config_with_max_retries(3));
    for _ in 0..4 {
        if matches!(sm.state(), ConnectionState::Failed { .. }) {
            break;
        }
        sm.on_connected();
        sm.on_disconnected();
        sm.on_retry_tick();
    }
    assert!(matches!(sm.state(), ConnectionState::Failed { .. }), "expected Failed, got {:?}", sm.state());
    assert!(matches!(sm.next_action(), ConnectionAction::GiveUp { .. }));
}

#[test]
fn reconnect_budget_of_zero_gives_up_on_first_failure() {
    let mut sm = ConnectionStateMachine::new(config_with_max_retries(0));
    sm.on_error("refused");
    assert_eq!(*sm.state(), ConnectionState::Failed { reason: "refused".into() });
    assert_eq!(sm.next_action(), ConnectionAction::GiveUp { reason: "refused".into() });
}
