use level_sync::client::{apply_message, ClientAgent};
use level_sync::codec::encode_message;
use level_sync::registry::Registry;
use level_sync::session::{handle_inbound, initial_messages, InboundEffect, SessionEvent, SessionState};
use level_sync::types::{AppState, SocketAction, SocketMessage, SocketStatus};

fn strings(items: &[&str]) -> Vec<String> {
    items.iter().map(|s| s.to_string()).collect()
}

fn set_msg(level: Option<&str>) -> SocketMessage {
    SocketMessage {
        action: SocketAction::SetSelectedLevel(level.map(|s| s.to_string())),
    }
}

fn init_msg(levels: &[&str]) -> SocketMessage {
    SocketMessage {
        action: SocketAction::LevelListInit(strings(levels)),
    }
}

#[test]
fn store_last_write_wins() {
    let mut store = AppState::new(strings(&["a", "b"]));
    store.set_selected_level(Some("a".to_string()));
    store.set_selected_level(None);
    store.set_selected_level(Some("b".to_string()));
    assert_eq!(store.selected_level, Some("b".to_string()));
    assert_eq!(store.levels, strings(&["a", "b"]));
}

#[test]
fn snapshot_is_a_copy() {
    let store = AppState::new(strings(&["a"]));
    let snap = store.get_snapshot();
    assert_eq!(snap, store);
}

#[test]
fn default_state_is_empty() {
    let store = AppState::default();
    assert!(store.levels.is_empty());
    assert_eq!(store.selected_level, None);
}

#[test]
fn new_connection_gets_list_before_selection() {
    // Scenario: server starts with levels = ["a","b"], nothing selected;
    // a fresh client receives the full list strictly before the selection.
    let store = AppState::new(strings(&["a", "b"]));
    let greeting = initial_messages(&store);
    assert_eq!(greeting.len(), 2);
    assert_eq!(greeting[0], init_msg(&["a", "b"]));
    assert_eq!(greeting[1], set_msg(None));
}

#[test]
fn accepted_update_mutates_store_and_echoes() {
    // Scenario: a client sends SetSelectedLevel(Some("b")); the store takes
    // the value and the same message is broadcast to every connection.
    let mut store = AppState::new(strings(&["a", "b"]));
    let effect = handle_inbound(&mut store, "{\"action\":{\"SetSelectedLevel\":\"b\"}}");
    assert_eq!(store.selected_level, Some("b".to_string()));
    match effect {
        InboundEffect::Accepted {
            patch_level,
            broadcast,
        } => {
            assert_eq!(patch_level, Some("b".to_string()));
            assert_eq!(broadcast, set_msg(Some("b")));
        }
        InboundEffect::NoOp => panic!("update must be accepted"),
    }
}

#[test]
fn late_joiner_sees_current_selection() {
    // Scenario: after the selection became Some("b"), a newly connecting
    // client receives the list and then the current selection.
    let mut store = AppState::new(strings(&["a", "b"]));
    let _ = handle_inbound(&mut store, "{\"action\":{\"SetSelectedLevel\":\"b\"}}");
    let greeting = initial_messages(&store);
    assert_eq!(greeting[0], init_msg(&["a", "b"]));
    assert_eq!(greeting[1], set_msg(Some("b")));
}

#[test]
fn unknown_tag_changes_nothing() {
    // Scenario: an inbound payload with an unrecognized tag produces no
    // state change and no broadcast; the connection stays open.
    let mut store = AppState::new(strings(&["a", "b"]));
    store.set_selected_level(Some("a".to_string()));
    let before = store.get_snapshot();
    let effect = handle_inbound(&mut store, "{\"action\":{\"Unknown\":\"zzz\"}}");
    assert!(matches!(effect, InboundEffect::NoOp));
    assert_eq!(store, before);
}

#[test]
fn malformed_payload_changes_nothing() {
    let mut store = AppState::new(strings(&["a"]));
    let effect = handle_inbound(&mut store, "garbage");
    assert!(matches!(effect, InboundEffect::NoOp));
    assert_eq!(store.selected_level, None);
}

#[test]
fn snapshot_tag_is_ignored_inbound() {
    // The server-to-client snapshot tag is an explicit no-op when it
    // arrives inbound, not an error.
    let mut store = AppState::new(strings(&["a"]));
    let effect = handle_inbound(&mut store, "{\"action\":{\"LevelListInit\":[\"x\"]}}");
    assert!(matches!(effect, InboundEffect::NoOp));
    assert_eq!(store.levels, strings(&["a"]));
}

#[test]
fn broadcast_covers_all_registered() {
    let mut reg = Registry::new();
    reg.register(1);
    reg.register(2);
    reg.register(3);
    let (payload, targets) = reg.broadcast_plan(&set_msg(Some("b")));
    assert_eq!(payload, encode_message(&set_msg(Some("b"))));
    assert_eq!(targets, vec![1, 2, 3]);
}

#[test]
fn failed_connection_does_not_block_the_rest() {
    let mut reg = Registry::new();
    reg.register(1);
    reg.register(2);
    reg.register(3);
    reg.remove_failed(&vec![2]);
    let (_, targets) = reg.broadcast_plan(&set_msg(None));
    assert_eq!(targets, vec![1, 3]);
}

#[test]
fn unregister_is_idempotent() {
    let mut reg = Registry::new();
    reg.register(7);
    reg.unregister(9);
    assert!(reg.contains_id(7));
    reg.unregister(7);
    assert!(!reg.contains_id(7));
    reg.unregister(7);
    assert!(!reg.contains_id(7));
}

#[test]
fn register_new_yields_a_member() {
    let mut reg = Registry::new();
    let id = reg.register_new().expect("fresh id should not collide");
    assert!(reg.contains_id(id));
}

#[test]
fn dropped_connection_stops_receiving() {
    // Scenario: client A's transport drops; the registry no longer
    // includes A and later broadcasts reach only B.
    let mut reg = Registry::new();
    reg.register(10);
    reg.register(20);
    reg.unregister(10);
    let (_, targets) = reg.broadcast_plan(&set_msg(Some("b")));
    assert_eq!(targets, vec![20]);
}

#[test]
fn session_walks_its_states() {
    let s = SessionState::Handshaking;
    let s = s.step(SessionEvent::HandshakeComplete);
    assert_eq!(s, SessionState::Registered);
    let s = s.step(SessionEvent::InitialStatePushed);
    assert_eq!(s, SessionState::Streaming);
    let s = s.step(SessionEvent::TransportClosed);
    assert_eq!(s, SessionState::Closed);
}

#[test]
fn session_ignores_out_of_order_events() {
    let s = SessionState::Handshaking.step(SessionEvent::InitialStatePushed);
    assert_eq!(s, SessionState::Handshaking);
    let s = SessionState::Streaming.step(SessionEvent::HandshakeComplete);
    assert_eq!(s, SessionState::Streaming);
}

#[test]
fn replica_applies_messages_in_order() {
    let mut replica = AppState::default();
    apply_message(&mut replica, init_msg(&["a", "b"]));
    apply_message(&mut replica, set_msg(Some("a")));
    apply_message(&mut replica, set_msg(Some("b")));
    assert_eq!(replica.levels, strings(&["a", "b"]));
    assert_eq!(replica.selected_level, Some("b".to_string()));
}

#[test]
fn agent_collects_and_syncs() {
    let mut agent = ClientAgent::new();
    assert!(matches!(agent.status, SocketStatus::Init));
    agent.on_connecting();
    agent.on_connected();
    assert!(matches!(agent.status, SocketStatus::Connected));
    agent.on_inbound_text("{\"action\":{\"LevelListInit\":[\"a\",\"b\"]}}");
    agent.on_inbound_text("{\"action\":{\"SetSelectedLevel\":\"b\"}}");
    agent.on_inbound_text("this is dropped silently");
    assert_eq!(agent.messages.len(), 2);
    agent.sync();
    assert!(agent.messages.is_empty());
    assert_eq!(agent.replica.levels, strings(&["a", "b"]));
    assert_eq!(agent.replica.selected_level, Some("b".to_string()));
}

#[test]
fn agent_reconnects_only_after_failure() {
    let mut agent = ClientAgent::new();
    assert!(!agent.should_reconnect());
    agent.on_connecting();
    assert!(!agent.should_reconnect());
    agent.on_failure();
    assert!(agent.should_reconnect());
    agent.on_connecting();
    assert!(!agent.should_reconnect());
}

#[test]
fn reconnected_client_rebuilds_from_snapshot() {
    // Scenario: after a drop and reconnect, the client re-receives the
    // full current snapshot and converges.
    let mut store = AppState::new(strings(&["a", "b"]));
    let _ = handle_inbound(&mut store, "{\"action\":{\"SetSelectedLevel\":\"b\"}}");
    let mut agent = ClientAgent::new();
    agent.on_failure();
    assert!(agent.should_reconnect());
    agent.on_connecting();
    agent.on_connected();
    for m in initial_messages(&store) {
        agent.on_inbound_text(&encode_message(&m));
    }
    agent.sync();
    assert_eq!(agent.replica.levels, strings(&["a", "b"]));
    assert_eq!(agent.replica.selected_level, Some("b".to_string()));
}

#[test]
fn agent_clear_empties_inbox() {
    let mut agent = ClientAgent::new();
    agent.on_inbound_text("{\"action\":{\"SetSelectedLevel\":null}}");
    assert_eq!(agent.messages.len(), 1);
    agent.clear();
    assert!(agent.messages.is_empty());
}
