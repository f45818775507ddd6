use voicechat::paste::{
    build_seq, copy_settled, deliver, keycode, paste_sequence, ydotool_socket, CopyWait, Step,
    COPY_POLLS,
};
use voicechat::rules::Routing;

fn routing(rules: &str) -> Routing {
    Routing { rules: Some(rules.to_string()), paste_rules: None, paste_key: None }
}

fn strings(list: &[&str]) -> Vec<String> {
    list.iter().map(|s| s.to_string()).collect()
}

fn broadcast(text: &str, app: &str, mode: &str) -> Step {
    Step::Broadcast { text: text.to_string(), app: app.to_string(), mode: mode.to_string() }
}

fn copy(text: &str) -> Step {
    Step::Copy { text: text.to_string() }
}

#[test]
fn key_codes_by_name() {
    for (name, code) in [
        ("ctrl", "29"), ("control", "29"), ("LeftCtrl", "29"), ("shift", "42"),
        ("leftshift", "42"), ("ALT", "56"), ("leftalt", "56"), ("super", "125"),
        ("meta", "125"), ("win", "125"), ("leftmeta", "125"), ("insert", "110"), ("Ins", "110"),
    ] {
        assert_eq!(keycode(name), Some(code));
    }
    let codes = [
        "30", "48", "46", "32", "18", "33", "34", "35", "23", "36", "37", "38", "50", "49", "24",
        "25", "16", "19", "31", "20", "22", "47", "17", "45", "21", "44",
    ];
    for (i, code) in codes.iter().enumerate() {
        let letter = ((b'a' + i as u8) as char).to_string();
        assert_eq!(keycode(&letter), Some(*code));
        assert_eq!(keycode(&letter.to_uppercase()), Some(*code));
    }
    for name in ["", "1", "enter", "ctrll", " v", "\u{e9}"] {
        assert_eq!(keycode(name), None);
    }
}

#[test]
fn sequences_press_in_order_and_release_in_reverse() {
    assert_eq!(
        build_seq("ctrl+shift+v"),
        Some(strings(&["29:1", "42:1", "47:1", "47:0", "42:0", "29:0"]))
    );
    assert_eq!(build_seq("insert"), Some(strings(&["110:1", "110:0"])));
    assert_eq!(
        build_seq(" Shift + + INS +"),
        Some(strings(&["42:1", "110:1", "110:0", "42:0"]))
    );
}

#[test]
fn unknown_combinations_have_no_sequence() {
    for combo in ["", "+", " + ", "ctrl+", "hyper+v", "ctrl+f13", "ctrl v"] {
        if combo == "ctrl+" {
            assert_eq!(build_seq(combo), Some(strings(&["29:1", "29:0"])));
        } else {
            assert_eq!(build_seq(combo), None);
        }
    }
}

#[test]
fn unknown_combinations_fall_back_to_ctrl_v() {
    let ctrl_v = strings(&["29:1", "47:1", "47:0", "29:0"]);
    assert_eq!(paste_sequence("ctrl+v"), ctrl_v);
    assert_eq!(paste_sequence("nonsense"), ctrl_v);
    assert_eq!(paste_sequence("alt+v"), strings(&["56:1", "47:1", "47:0", "56:0"]));
}

#[test]
fn paste_mode_broadcasts_copies_and_presses() {
    let r = routing("ghostty paste ctrl+shift+v\n");
    assert_eq!(
        deliver("hello", "hello", " Com.Mitchellh.GHOSTTY\n", &r, false),
        vec![
            broadcast("hello", "com.mitchellh.ghostty", "paste"),
            copy("hello"),
            Step::Press { keys: strings(&["29:1", "42:1", "47:1", "47:0", "42:0", "29:0"]) },
        ]
    );
    assert_eq!(
        deliver("hello", "hello", "ghostty", &r, true),
        vec![broadcast("hello", "ghostty", "paste"), copy("hello")]
    );
}

#[test]
fn other_modes_never_press() {
    let r = routing("kdenlive emit\nshell clipboard\nvoice system\n");
    assert_eq!(
        deliver("cut here", "cut here", "org.kde.kdenlive", &r, false),
        vec![broadcast("cut here", "org.kde.kdenlive", "emit"), copy("cut here")]
    );
    assert_eq!(
        deliver("text", "text", "shell", &r, false),
        vec![broadcast("text", "shell", "clipboard"), copy("text")]
    );
    assert_eq!(
        deliver("text", "text", "voice", &r, false),
        vec![broadcast("text", "voice", "system")]
    );
}

#[test]
fn nothing_focused_is_broadcast_only() {
    let r = routing("* paste\n");
    assert_eq!(
        deliver("start stream", "start stream", " \n", &r, false),
        vec![broadcast("start stream", "none", "system")]
    );
}

#[test]
fn nothing_said_is_not_delivered() {
    assert_eq!(deliver("", "", "editor", &routing("* paste\n"), false), vec![]);
}

#[test]
fn focus_is_lowercased_beyond_ascii() {
    let r = routing("\u{e9}diteur emit\n");
    assert_eq!(
        deliver("x", "x", "\u{c9}DITEUR", &r, false),
        vec![broadcast("x", "\u{e9}diteur", "emit"), copy("x")]
    );
}

#[test]
fn clipboard_is_polled_until_it_settles() {
    assert_eq!(copy_settled(" hi ", Some("hi\n"), 1), CopyWait::Settled);
    assert_eq!(copy_settled("hi", Some("old"), 1), CopyWait::Again);
    assert_eq!(copy_settled("hi", None, COPY_POLLS - 1), CopyWait::Again);
    assert_eq!(copy_settled("hi", Some("old"), COPY_POLLS), CopyWait::GaveUp);
    assert_eq!(copy_settled("hi", Some("hi"), COPY_POLLS), CopyWait::Settled);
}

#[test]
fn synthesizer_socket() {
    assert_eq!(ydotool_socket(Some("/s"), Some("/run/u")), "/s");
    assert_eq!(ydotool_socket(None, Some("/run/u")), "/run/u/.ydotool_socket");
    assert_eq!(ydotool_socket(None, None), "/run/user/1000/.ydotool_socket");
}

#[test]
fn listeners_get_the_transcript_verbatim() {
    let r = routing("* paste\n");
    assert_eq!(
        deliver("um hello", "Hello", "editor", &r, true),
        vec![broadcast("um hello", "editor", "paste"), copy("Hello")]
    );
    assert_eq!(
        deliver("um start", "Start", "", &r, false),
        vec![broadcast("um start", "none", "system")]
    );
    assert_eq!(deliver("um, uh", "", "editor", &r, false), vec![]);
}
