use level_sync::codec::{decode_message, encode_message};
use level_sync::types::{SocketAction, SocketMessage};

fn set_msg(level: Option<&str>) -> SocketMessage {
    SocketMessage {
        action: SocketAction::SetSelectedLevel(level.map(|s| s.to_string())),
    }
}

fn init_msg(levels: &[&str]) -> SocketMessage {
    SocketMessage {
        action: SocketAction::LevelListInit(levels.iter().map(|s| s.to_string()).collect()),
    }
}

#[test]
fn encode_selection_some() {
    let s = encode_message(&set_msg(Some("b")));
    assert_eq!(s, "{\"action\":{\"SetSelectedLevel\":\"b\"}}");
}

#[test]
fn encode_selection_none() {
    let s = encode_message(&set_msg(None));
    assert_eq!(s, "{\"action\":{\"SetSelectedLevel\":null}}");
}

#[test]
fn encode_level_list() {
    let s = encode_message(&init_msg(&["a", "b"]));
    assert_eq!(s, "{\"action\":{\"LevelListInit\":[\"a\",\"b\"]}}");
}

#[test]
fn encode_level_list_empty() {
    let s = encode_message(&init_msg(&[]));
    assert_eq!(s, "{\"action\":{\"LevelListInit\":[]}}");
}

#[test]
fn encode_escapes_quotes_and_backslashes() {
    let s = encode_message(&set_msg(Some("a\"b\\c")));
    assert_eq!(s, "{\"action\":{\"SetSelectedLevel\":\"a\\\"b\\\\c\"}}");
}

#[test]
fn round_trip_selection_some() {
    let m = set_msg(Some("gridmap_v2"));
    assert_eq!(decode_message(&encode_message(&m)), Some(m));
}

#[test]
fn round_trip_selection_none() {
    let m = set_msg(None);
    assert_eq!(decode_message(&encode_message(&m)), Some(m));
}

#[test]
fn round_trip_level_list() {
    let m = init_msg(&["a", "b", "automation_test_track"]);
    assert_eq!(decode_message(&encode_message(&m)), Some(m));
}

#[test]
fn round_trip_level_list_empty() {
    let m = init_msg(&[]);
    assert_eq!(decode_message(&encode_message(&m)), Some(m));
}

#[test]
fn round_trip_escaped_name() {
    let m = set_msg(Some("we\\ird\"name"));
    assert_eq!(decode_message(&encode_message(&m)), Some(m));
}

#[test]
fn round_trip_empty_name() {
    let m = set_msg(Some(""));
    assert_eq!(decode_message(&encode_message(&m)), Some(m));
}

#[test]
fn decode_rejects_unknown_tag() {
    assert_eq!(decode_message("{\"action\":{\"Unknown\":\"x\"}}"), None);
}

#[test]
fn decode_rejects_malformed_text() {
    assert_eq!(decode_message("not a message"), None);
    assert_eq!(decode_message(""), None);
    assert_eq!(decode_message("{\"action\":{\"SetSelectedLevel\":}}"), None);
}

#[test]
fn decode_rejects_trailing_garbage() {
    assert_eq!(
        decode_message("{\"action\":{\"SetSelectedLevel\":null}}x"),
        None
    );
}

#[test]
fn decode_accepts_canonical_selection() {
    assert_eq!(
        decode_message("{\"action\":{\"SetSelectedLevel\":\"b\"}}"),
        Some(set_msg(Some("b")))
    );
}

#[test]
fn decode_accepts_canonical_level_list() {
    assert_eq!(
        decode_message("{\"action\":{\"LevelListInit\":[\"a\",\"b\"]}}"),
        Some(init_msg(&["a", "b"]))
    );
}
