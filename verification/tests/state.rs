use voicechat::state::{
    active_window_file, cache_dir, events_path, join_path, json_body, legacy_state_path,
    status_path, Status, TransitionLog,
};

#[test]
fn cache_directories() {
    assert_eq!(cache_dir(Some("/c"), Some("/h")), "/c/voicechat");
    assert_eq!(cache_dir(None, Some("/h")), "/h/.cache/voicechat");
    assert_eq!(cache_dir(None, None), "/tmp/voicechat");
}

#[test]
fn joining_paths_like_the_standard_library() {
    for base in ["", "/", "/a", "/a/", "a//", "."] {
        let expected = std::path::PathBuf::from(base).join("b");
        assert_eq!(std::path::PathBuf::from(join_path(base, "b")), expected);
        assert_eq!(join_path(base, "b"), expected.to_str().unwrap());
    }
}

#[test]
fn published_paths() {
    assert_eq!(status_path(None, None, Some("/h")), "/h/.cache/voicechat/status.json");
    assert_eq!(status_path(Some("/s"), None, Some("/h")), "/s");
    assert_eq!(legacy_state_path(None, Some("/h")), "/h/.cache/voicechat/state.json");
    assert_eq!(events_path(None, Some("/c/"), None), "/c/voicechat/events.jsonl");
    assert_eq!(events_path(Some("/e"), Some("/c/"), None), "/e");
    assert_eq!(active_window_file(None, None, None), "/tmp/voicechat/active-window");
    assert_eq!(active_window_file(Some("/w"), None, None), "/w");
}

#[test]
fn status_message_shape() {
    assert_eq!(
        json_body(Status::Listening.label(), "0.1250", "12.500"),
        "{\"state\":\"listening\",\"level\":0.1250,\"ts\":12.500}"
    );
}

#[test]
fn status_labels() {
    let all = [Status::Idle, Status::Listening, Status::Processing, Status::Done, Status::Error];
    let labels: Vec<&str> = all.iter().map(|s| s.label()).collect();
    assert_eq!(labels, vec!["idle", "listening", "processing", "done", "error"]);
}

#[test]
fn only_transitions_are_logged() {
    let mut log = TransitionLog::new();
    let states = ["idle", "listening", "listening", "processing", "idle", "idle"];
    let logged: Vec<&str> = states.iter().copied().filter(|s| log.record(s)).collect();
    assert_eq!(logged, vec!["idle", "listening", "processing", "idle"]);
}

#[test]
fn status_messages_can_be_taken_apart() {
    for status in [Status::Idle, Status::Processing, Status::Error] {
        let body = json_body(status.label(), "1.0000", "1718755200.123");
        assert!(!body.contains('\n'));
        let rest = body.strip_prefix("{\"state\":\"").unwrap();
        let (state, rest) = rest.split_once('"').unwrap();
        let (level, ts) = rest.strip_prefix(",\"level\":").unwrap().split_once(',').unwrap();
        assert_eq!(state, status.label());
        assert_eq!(level, "1.0000");
        assert_eq!(ts, "\"ts\":1718755200.123}");
    }
}
