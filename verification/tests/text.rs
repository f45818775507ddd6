use voicechat::focus::{no_window_focused, read_focus};
use voicechat::number::{parse_i32, parse_u32, parse_u64};
use voicechat::text::{chars_of, cut_once, includes, lowered, split_at, split_words, string_of, trimmed, Class};
use voicechat::unicode::{is_alphabetic, is_alphanumeric, is_whitespace, to_lower};

fn all_chars() -> impl Iterator<Item = char> {
    (0..=0x10ffffu32).filter_map(char::from_u32)
}

fn show(pieces: Vec<Vec<char>>) -> Vec<String> {
    pieces.iter().map(string_of).collect()
}

#[test]
fn character_classes_agree_with_the_standard_library() {
    for c in all_chars() {
        assert_eq!(is_whitespace(c), c.is_whitespace(), "{:?}", c);
        assert_eq!(is_alphabetic(c), c.is_alphabetic(), "{:?}", c);
        assert_eq!(is_alphanumeric(c), c.is_alphanumeric(), "{:?}", c);
        assert_eq!(to_lower(c), c.to_ascii_lowercase(), "{:?}", c);
    }
}

#[test]
fn splitting_agrees_with_the_standard_library() {
    for s in ["", " ", "a", " a  b\u{2028}c ", "a;;b;", ";", "\u{e9};\n x=1=2"] {
        let chars = chars_of(s);
        assert_eq!(show(split_words(&chars)), s.split_whitespace().collect::<Vec<_>>());
        assert_eq!(show(split_at(&chars, Class::Is(';'))), s.split(';').collect::<Vec<_>>());
        assert_eq!(string_of(&trimmed(&chars, Class::Whitespace)), s.trim());
        let once = cut_once(&chars, '=').map(|(a, b)| (string_of(&a), string_of(&b)));
        let expected = s.split_once('=').map(|(a, b)| (a.to_string(), b.to_string()));
        assert_eq!(once, expected);
    }
}

#[test]
fn finding_agrees_with_the_standard_library() {
    for s in ["", "a", "aab", "abab", "\u{e9}x"] {
        for p in ["", "a", "ab", "abab", "ababa", "x", "b"] {
            assert_eq!(includes(&chars_of(s), &chars_of(p)), s.contains(p));
        }
    }
}

#[test]
fn lowercase_agrees_with_the_standard_library() {
    for s in ["", "Org.KDE", "\u{c9}T\u{c9}", "\u{39f}\u{3a3}", "\u{130}x", "\u{212a}"] {
        assert_eq!(string_of(&lowered(&chars_of(s))), s.to_lowercase());
    }
}

#[test]
fn numbers_agree_with_the_standard_library() {
    for s in [
        "", "+", "-", "0", "+0", "-0", "007", "42", " 42 ", "4 2", "+-1", "--1", "1_000", "0x1",
        "2147483647", "2147483648", "-2147483648", "-2147483649", "4294967295", "4294967296",
        "18446744073709551615", "18446744073709551616", "99999999999999999999999", "\u{662}",
        "\u{a0}5\u{a0}",
    ] {
        assert_eq!(parse_u64(s), s.trim().parse::<u64>().ok(), "{:?}", s);
        assert_eq!(parse_u32(s), s.trim().parse::<u32>().ok(), "{:?}", s);
        assert_eq!(parse_i32(s), s.trim().parse::<i32>().ok(), "{:?}", s);
    }
}

#[test]
fn focus_hints() {
    assert_eq!(read_focus("  Org.KDE.Konsole\n"), "org.kde.konsole");
    assert!(no_window_focused(""));
    assert!(no_window_focused(" \n"));
    assert!(no_window_focused("org.kde.PlasmaShell"));
    assert!(!no_window_focused("org.kde.konsole"));
}
