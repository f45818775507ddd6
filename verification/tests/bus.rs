use voicechat::bus::{json_escape, socket_path, transcript_line};

#[test]
fn escapes() {
    assert_eq!(json_escape("plain \u{e9} \u{1f600}"), "plain \u{e9} \u{1f600}");
    assert_eq!(json_escape("a\"b\\c"), "a\\\"b\\\\c");
    assert_eq!(json_escape("\n\r\t"), "\\n\\r\\t");
    assert_eq!(json_escape("\u{0}\u{8}\u{c}\u{1b}\u{1f}"), "\\u0000\\u0008\\u000c\\u001b\\u001f");
    assert_eq!(json_escape("\u{7f}/"), "\u{7f}/");
    assert_eq!(json_escape(""), "");
}

#[test]
fn message_shape() {
    assert_eq!(
        transcript_line("hello world", "kdenlive", "emit", "1718755200.123"),
        "{\"text\":\"hello world\",\"app\":\"kdenlive\",\"mode\":\"emit\",\"ts\":1718755200.123}\n"
    );
}

#[test]
fn message_is_one_line_whatever_is_said() {
    let line = transcript_line("a\nb\"\\", "x\r", "emit", "0.000");
    assert_eq!(line.matches('\n').count(), 1);
    assert!(line.ends_with("}\n"));
    assert_eq!(
        line,
        "{\"text\":\"a\\nb\\\"\\\\\",\"app\":\"x\\r\",\"mode\":\"emit\",\"ts\":0.000}\n"
    );
}

#[test]
fn broadcast_socket() {
    assert_eq!(socket_path(Some("/my.sock"), Some("/run/u")), "/my.sock");
    assert_eq!(socket_path(None, Some("/run/u")), "/run/u/voicechat.sock");
    assert_eq!(socket_path(None, None), "/run/user/1000/voicechat.sock");
}
