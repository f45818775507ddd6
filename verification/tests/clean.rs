use voicechat::clean::{capitalize_first, fillers, is_filler, strip_fillers};

fn strip(s: &str) -> String {
    strip_fillers(s, None)
}

#[test]
fn removes_leading_filler_and_recapitalizes() {
    assert_eq!(
        strip("Uh checking, making sure this works."),
        "Checking, making sure this works."
    );
}

#[test]
fn removes_midsentence_filler_with_attached_comma() {
    assert_eq!(strip("Hey, um a client crashed"), "Hey, a client crashed");
    assert_eq!(strip("so um, yeah"), "So yeah");
}

#[test]
fn keeps_real_words_that_contain_filler_letters() {
    // "summer", "another", "her", "ermine" must survive: only whole-word fillers go.
    assert_eq!(
        strip("another summer her umbrella"),
        "Another summer her umbrella"
    );
    assert_eq!(strip("ermine"), "Ermine");
}

#[test]
fn all_filler_collapses_to_empty() {
    assert_eq!(strip("um uh, um"), "");
}

#[test]
fn disabled_when_set_empty() {
    assert_eq!(strip_fillers("um hello", Some("")), "um hello");
    assert_eq!(strip_fillers("  um  hello ", Some(" ,\t")), "um  hello");
}

#[test]
fn default_fillers() {
    assert_eq!(
        fillers(None),
        vec!["um", "umm", "uh", "uhm", "erm", "er", "hmm"]
    );
}

#[test]
fn configured_fillers_are_split_and_lowercased() {
    assert_eq!(
        fillers(Some("Like, YOU\tknow,,so\nwell")),
        vec!["like", "you", "know", "so", "well"]
    );
    assert_eq!(strip_fillers("Like I said, so what", Some("like so")), "I said, what");
}

#[test]
fn fillers_match_in_any_case_and_punctuation() {
    let set = fillers(None);
    for tok in ["Um,", "uh.", "UH", "\"hmm...\"", "(er)"] {
        assert!(is_filler(tok, &set), "{}", tok);
    }
    for tok in ["", "...", "--", "ums", "u-m", "an"] {
        assert!(!is_filler(tok, &set), "{}", tok);
    }
    // Letters and digits of any script belong to the word, so nothing is cut off here.
    assert!(!is_filler("\u{e9}um", &set));
    assert!(!is_filler("um\u{662}", &set));
    // A dash of any script is cut off.
    assert!(is_filler("\u{2014}um\u{2014}", &set));
}

#[test]
fn capitals() {
    assert_eq!(capitalize_first(""), "");
    assert_eq!(capitalize_first("123 go"), "123 Go");
    assert_eq!(capitalize_first("...\"yes\" no"), "...\"Yes\" no");
    assert_eq!(capitalize_first("Already"), "Already");
    assert_eq!(capitalize_first("\u{e9}t\u{e9}"), "\u{c9}t\u{e9}");
    assert_eq!(capitalize_first("\u{df}a"), "SSa");
    assert_eq!(capitalize_first("42 !"), "42 !");
}

#[test]
fn spacing_is_tidied() {
    assert_eq!(strip("  one\n two\t\tthree "), "One two three");
    assert_eq!(strip(""), "");
    assert_eq!(strip("uh \u{e9}t\u{e9}"), "\u{c9}t\u{e9}");
}

#[test]
fn cleaning_twice_is_cleaning_once() {
    for s in ["Uh so um, yeah", "um", "hmm... ok", "no fillers here", "- uh -dash"] {
        assert_eq!(strip(&strip(s)), strip(s));
    }
}

#[test]
fn capitalizing_can_make_a_filler() {
    // One letter may become two, which is why cleaning twice can differ.
    let once = strip_fillers("\u{df} x", Some("ss"));
    assert_eq!(once, "SS x");
    assert_eq!(strip_fillers(&once, Some("ss")), "X");
}

#[test]
fn exactly_the_fillers_go() {
    let set = fillers(None);
    let said = "so um, I uh... summer er hmm Um done - ok";
    let kept: Vec<&str> = said.split_whitespace().filter(|w| !is_filler(w, &set)).collect();
    assert_eq!(kept, vec!["so", "I", "summer", "done", "-", "ok"]);
    assert_eq!(strip(said), "So I summer done - ok");
}

#[test]
fn a_capital_outside_ascii_can_make_a_filler() {
    let once = strip_fillers("\u{e9}t\u{e9} x", Some("\u{c9}t\u{e9}"));
    assert_eq!(once, "\u{c9}t\u{e9} x");
    assert_eq!(strip_fillers(&once, Some("\u{c9}t\u{e9}")), "X");
    let once = strip("\u{e9}t\u{e9} um x");
    assert_eq!(strip(&once), once);
}

#[test]
fn an_inserted_filler_changes_nothing() {
    let texts = ["", "so", "  it works,", "uh", "- 7 -", "\u{e9}t\u{e9}"];
    let set = fillers(None);
    for a in texts {
        for b in texts {
            for word in &set {
                for f in [word.clone(), word.to_uppercase(), format!("({}...", word)] {
                    let with = format!("{} {} {}", a, f, b);
                    assert_eq!(strip(&with), strip(&format!("{} {}", a, b)), "{:?}", with);
                }
            }
        }
    }
}

#[test]
fn capitalizing_twice_is_capitalizing_once() {
    assert_eq!(capitalize_first("1) um Um"), "1) Um Um");
    for s in ["", "42", "yes", "1) um Um", "\u{df}a", "\u{e9}t\u{e9}", "\u{149}a"] {
        let once = capitalize_first(s);
        assert_eq!(capitalize_first(&once), once);
    }
}
