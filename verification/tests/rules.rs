use voicechat::rules::{builtin, default_combo, from_file, parse_mode, resolve, rules_file, Mode, Routing};

fn with_rules(rules: &str) -> Routing {
    Routing { rules: Some(rules.to_string()), paste_rules: None, paste_key: None }
}

fn paste(combo: &str) -> Mode {
    Mode::Paste { combo: combo.to_string() }
}

#[test]
fn rules_file_routing() {
    let routing = with_rules(
        "# a comment\n\
         Ghostty   paste   ctrl+shift+v\n\
         kdenlive  emit\n\
         plasmashell clipboard\n\
         kde       emit            # earlier-but-after kdenlive; first match wins\n\
         *         paste   ctrl+v   # catch-all\n",
    );

    // Case-insensitive substring + per-app combo.
    assert_eq!(
        resolve("com.mitchellh.ghostty", &routing),
        Mode::Paste { combo: "ctrl+shift+v".into() }
    );
    // emit mode, no option.
    assert_eq!(resolve("org.kde.kdenlive", &routing), Mode::Emit);
    // clipboard mode.
    assert_eq!(resolve("plasmashell", &routing), Mode::Clipboard);
    // First match wins; a bare kde app hits the kde emit rule before the catch-all.
    assert_eq!(resolve("org.kde.dolphin", &routing), Mode::Emit);
    // Catch-all for anything unmatched.
    assert_eq!(
        resolve("com.example.editor", &routing),
        Mode::Paste { combo: "ctrl+v".into() }
    );
    // Empty focus (the desktop) is a system command, never a paste.
    assert_eq!(resolve("", &routing), Mode::System);
}

#[test]
fn labels() {
    assert_eq!(paste("x").label(), "paste");
    assert_eq!(Mode::Clipboard.label(), "clipboard");
    assert_eq!(Mode::Emit.label(), "emit");
    assert_eq!(Mode::System.label(), "system");
}

#[test]
fn modes_and_their_other_names() {
    assert_eq!(parse_mode("Clipboard", None, "d"), Mode::Clipboard);
    assert_eq!(parse_mode("copy", Some("x"), "d"), Mode::Clipboard);
    assert_eq!(parse_mode("EMIT", None, "d"), Mode::Emit);
    assert_eq!(parse_mode("send", None, "d"), Mode::Emit);
    assert_eq!(parse_mode("system", None, "d"), Mode::System);
    assert_eq!(parse_mode("paste", None, "d"), paste("d"));
    assert_eq!(parse_mode("paste", Some("alt+v"), "d"), paste("alt+v"));
    assert_eq!(parse_mode("pste", Some("alt+v"), "d"), paste("alt+v"));
    assert_eq!(parse_mode("", None, "d"), paste("d"));
}

#[test]
fn first_match_wins_over_later_ones() {
    let contents = "b emit\nab clipboard\nabc system\n";
    assert_eq!(from_file(contents, "xabcx", "d"), Some(Mode::Emit));
    assert_eq!(from_file("ab clipboard\nb emit", "ab", "d"), Some(Mode::Clipboard));
    assert_eq!(from_file(contents, "zzz", "d"), None);
}

#[test]
fn catch_all_matches_anything_where_it_stands() {
    let contents = "*  paste  ctrl+v\nkdenlive  emit\n";
    assert_eq!(from_file(contents, "org.kde.kdenlive", "d"), Some(paste("ctrl+v")));
    let contents = "edit emit\n* clipboard\n* emit\nlate system\n";
    assert_eq!(from_file(contents, "editor", "d"), Some(Mode::Emit));
    assert_eq!(from_file(contents, "other", "d"), Some(Mode::Clipboard));
    assert_eq!(from_file(contents, "late", "d"), Some(Mode::Clipboard));
}

#[test]
fn lines_may_end_in_carriage_returns_and_lack_columns() {
    let contents = "\r\n  # only a comment\r\nfoo\r\nbar emit\r\n#baz emit\nqux#emit\n";
    assert_eq!(from_file(contents, "foo", "d"), Some(paste("d")));
    assert_eq!(from_file(contents, "bar", "d"), Some(Mode::Emit));
    assert_eq!(from_file(contents, "baz", "d"), None);
    assert_eq!(from_file(contents, "qux", "d"), Some(paste("d")));
    assert_eq!(from_file("", "foo", "d"), None);
}

#[test]
fn patterns_are_lowercased_in_ascii() {
    assert_eq!(from_file("KDEnlive emit", "org.kde.kdenlive", "d"), Some(Mode::Emit));
    // The whole line is no pattern, and an option may be anything.
    assert_eq!(from_file("app paste Shift+Insert extra", "app", "d"), Some(paste("Shift+Insert")));
}

#[test]
fn built_in_defaults() {
    assert_eq!(builtin("", None, "d"), Mode::Clipboard);
    assert_eq!(builtin("org.kde.plasmashell", Some("plasma=x"), "d"), Mode::Clipboard);
    let legacy = " Term = ctrl+shift+v ;=nothing;junk; Edit=a=b";
    assert_eq!(builtin("xterm", Some(legacy), "d"), paste("ctrl+shift+v"));
    assert_eq!(builtin("editor", Some(legacy), "d"), paste("a=b"));
    assert_eq!(builtin("browser", Some(legacy), "d"), paste("d"));
    assert_eq!(builtin("xterm", None, "d"), paste("d"));
}

#[test]
fn without_a_rules_file() {
    let none = Routing { rules: None, paste_rules: None, paste_key: None };
    assert_eq!(resolve("com.mitchellh.ghostty", &none), paste("ctrl+shift+v"));
    assert_eq!(resolve("editor", &none), paste("ctrl+v"));
    assert_eq!(resolve("plasmashell", &none), Mode::Clipboard);
    assert_eq!(resolve("", &none), Mode::System);
    let own = Routing {
        rules: None,
        paste_rules: Some("edit=alt+v".to_string()),
        paste_key: Some("shift+insert".to_string()),
    };
    assert_eq!(resolve("editor", &own), paste("alt+v"));
    assert_eq!(resolve("com.mitchellh.ghostty", &own), paste("shift+insert"));
}

#[test]
fn the_older_list_counts_only_without_a_rules_file() {
    let routing = Routing {
        rules: Some("kdenlive emit\n".to_string()),
        paste_rules: Some("edit=alt+v".to_string()),
        paste_key: Some("shift+insert".to_string()),
    };
    assert_eq!(resolve("editor", &routing), paste("shift+insert"));
    assert_eq!(resolve("plasmashell", &routing), Mode::Clipboard);
    assert_eq!(resolve("kdenlive", &routing), Mode::Emit);
}

#[test]
fn rule_paths_and_default_combo() {
    assert_eq!(rules_file(Some("/x/r"), Some("/c"), Some("/h")), "/x/r");
    assert_eq!(rules_file(None, Some("/c"), Some("/h")), "/c/voicechat/rules.conf");
    assert_eq!(rules_file(None, None, Some("/h")), "/h/.config/voicechat/rules.conf");
    assert_eq!(rules_file(None, None, None), "/tmp/voicechat/rules.conf");
    assert_eq!(default_combo(None), "ctrl+v");
    assert_eq!(default_combo(Some("alt+v")), "alt+v");
}
