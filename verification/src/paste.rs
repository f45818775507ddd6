//! Handing a transcript over: key sequences, and the steps for the focused application.

use vstd::prelude::*;

use crate::daemon;
use crate::daemon::runtime_dir;
use crate::focus;
use crate::focus::read_focus;
use crate::number;
use crate::rules;
use crate::rules::{resolve, Mode, ModeView, Routing, RoutingView};
use crate::state;
use crate::text;
use crate::text::{chars_of, equals, string_of, Class};
use crate::unicode;

verus! {

/// How often the clipboard is polled, at most, until it holds what was copied.
pub const COPY_POLLS: u32 = 50;

/// The time in milliseconds before each poll of the clipboard.
pub const COPY_POLL_MS: u64 = 30;

/// The key code of a letter.
pub open spec fn letter_code(c: char) -> Option<Seq<char>> {
    match c {
        'a' => Some("30"@),
        'b' => Some("48"@),
        'c' => Some("46"@),
        'd' => Some("32"@),
        'e' => Some("18"@),
        'f' => Some("33"@),
        'g' => Some("34"@),
        'h' => Some("35"@),
        'i' => Some("23"@),
        'j' => Some("36"@),
        'k' => Some("37"@),
        'l' => Some("38"@),
        'm' => Some("50"@),
        'n' => Some("49"@),
        'o' => Some("24"@),
        'p' => Some("25"@),
        'q' => Some("16"@),
        'r' => Some("19"@),
        's' => Some("31"@),
        't' => Some("20"@),
        'u' => Some("22"@),
        'v' => Some("47"@),
        'w' => Some("17"@),
        'x' => Some("45"@),
        'y' => Some("21"@),
        'z' => Some("44"@),
        _ => None,
    }
}

/// The key code of a key or modifier, by its name in any case.
pub open spec fn code_of(name: Seq<char>) -> Option<Seq<char>> {
    let n = unicode::ascii_lowercase(name);
    if n == "ctrl"@ || n == "control"@ || n == "leftctrl"@ {
        Some("29"@)
    } else if n == "shift"@ || n == "leftshift"@ {
        Some("42"@)
    } else if n == "alt"@ || n == "leftalt"@ {
        Some("56"@)
    } else if n == "super"@ || n == "meta"@ || n == "win"@ || n == "leftmeta"@ {
        Some("125"@)
    } else if n == "insert"@ || n == "ins"@ {
        Some("110"@)
    } else if n.len() == 1 {
        letter_code(n[0])
    } else {
        None
    }
}

/// Every member of `list` without white space at its ends.
pub open spec fn trim_all(list: Seq<Seq<char>>) -> Seq<Seq<char>> {
    list.map_values(|s: Seq<char>| text::trim(s))
}

/// The names in a combination such as `ctrl+shift+v`.
pub open spec fn key_names(combo: Seq<char>) -> Seq<Seq<char>> {
    text::non_empty(trim_all(text::split(combo, Class::Is('+'))))
}

/// The key codes of a list of names, if every name is known.
pub open spec fn codes_of(names: Seq<Seq<char>>) -> Option<Seq<Seq<char>>>
    decreases names.len(),
{
    if names.len() == 0 {
        Some(Seq::empty())
    } else {
        match (codes_of(names.drop_last()), code_of(names.last())) {
            (Some(before), Some(code)) => Some(before.push(code)),
            _ => None,
        }
    }
}

/// The press of a key.
pub open spec fn press(code: Seq<char>) -> Seq<char> {
    code + ":1"@
}

/// The release of a key.
pub open spec fn release(code: Seq<char>) -> Seq<char> {
    code + ":0"@
}

/// All keys pressed in order, then released in the opposite order.
pub open spec fn strokes(codes: Seq<Seq<char>>) -> Seq<Seq<char>> {
    Seq::new(
        2 * codes.len(),
        |i: int|
            if i < codes.len() {
                press(codes[i])
            } else {
                release(codes[2 * codes.len() - 1 - i])
            },
    )
}

/// The key sequence of a combination; none if it names no key, or one that is unknown.
pub open spec fn key_sequence(combo: Seq<char>) -> Option<Seq<Seq<char>>> {
    match codes_of(key_names(combo)) {
        Some(codes) => if codes.len() > 0 {
            Some(strokes(codes))
        } else {
            None
        },
        None => None,
    }
}

/// The key sequence that pastes: that of the combination, or, if it has none, of `ctrl+v`.
pub open spec fn paste_keys(combo: Seq<char>) -> Seq<Seq<char>> {
    match key_sequence(combo) {
        Some(keys) => keys,
        None => key_sequence("ctrl+v"@)->0,
    }
}

/// `ctrl+v` has a key sequence.
proof fn lemma_ctrl_v()
    ensures
        key_sequence("ctrl+v"@) == Some(seq![press("29"@), press("47"@), release("47"@), release("29"@)]),
{
    let class = Class::Is('+');
    let combo = "ctrl+v"@;
    reveal_strlit("ctrl+v");
    reveal_strlit("ctrl");
    reveal_strlit("control");
    reveal_strlit("leftctrl");
    reveal_strlit("shift");
    reveal_strlit("leftshift");
    reveal_strlit("alt");
    reveal_strlit("leftalt");
    reveal_strlit("super");
    reveal_strlit("meta");
    reveal_strlit("win");
    reveal_strlit("leftmeta");
    reveal_strlit("insert");
    reveal_strlit("ins");
    let ctrl = "ctrl"@;
    let v: Seq<char> = seq!['v'];
    let none = Seq::<char>::empty();
    text::lemma_split_extend(none, class, ctrl);
    assert(none + ctrl =~= ctrl);
    assert(text::split(ctrl, class) =~= seq![ctrl]);
    let a = ctrl.push('+');
    assert(a.drop_last() =~= ctrl);
    assert(text::split(a, class) =~= seq![ctrl, none]);
    text::lemma_split_extend(a, class, v);
    assert(none + v =~= v);
    assert(a + v =~= combo);
    assert(text::split(combo, class) =~= seq![ctrl, v]);
    assert(text::trim(ctrl) == ctrl);
    assert(text::trim(v) == v);
    let names = seq![ctrl, v];
    assert(trim_all(names) =~= names);
    let one = seq![ctrl];
    let empty = Seq::<Seq<char>>::empty();
    assert(names.drop_last() =~= one);
    assert(one.drop_last() =~= empty);
    assert(text::non_empty(empty) =~= empty);
    assert(text::non_empty(one) =~= one);
    assert(text::non_empty(names) =~= names);
    assert(unicode::ascii_lowercase(ctrl) =~= ctrl);
    assert(unicode::ascii_lowercase(v) =~= v);
    assert(code_of(ctrl) == Some("29"@));
    assert(code_of(v) == Some("47"@)) by {
        assert(v.len() == 1 && v[0] == 'v');
    }
    assert(codes_of(one) == Some(seq!["29"@])) by {
        assert(codes_of(empty) == Some(empty));
        assert(empty.push("29"@) =~= seq!["29"@]);
    }
    assert(codes_of(names) == Some(seq!["29"@, "47"@])) by {
        assert(seq!["29"@].push("47"@) =~= seq!["29"@, "47"@]);
    }
    assert(strokes(seq!["29"@, "47"@]) =~= seq![
        press("29"@),
        press("47"@),
        release("47"@),
        release("29"@),
    ]);
}

fn code_of_letter(c: char) -> (r: Option<&'static str>)
    ensures
        state::setting(r) == letter_code(c),
{
    match c {
        'a' => Some("30"),
        'b' => Some("48"),
        'c' => Some("46"),
        'd' => Some("32"),
        'e' => Some("18"),
        'f' => Some("33"),
        'g' => Some("34"),
        'h' => Some("35"),
        'i' => Some("23"),
        'j' => Some("36"),
        'k' => Some("37"),
        'l' => Some("38"),
        'm' => Some("50"),
        'n' => Some("49"),
        'o' => Some("24"),
        'p' => Some("25"),
        'q' => Some("16"),
        'r' => Some("19"),
        's' => Some("31"),
        't' => Some("20"),
        'u' => Some("22"),
        'v' => Some("47"),
        'w' => Some("17"),
        'x' => Some("45"),
        'y' => Some("21"),
        'z' => Some("44"),
        _ => None,
    }
}

fn code_of_name(name: &Vec<char>) -> (r: Option<&'static str>)
    ensures
        state::setting(r) == code_of(name@),
{
    let n = text::ascii_lowered(name);
    if equals(&n, "ctrl") || equals(&n, "control") || equals(&n, "leftctrl") {
        Some("29")
    } else if equals(&n, "shift") || equals(&n, "leftshift") {
        Some("42")
    } else if equals(&n, "alt") || equals(&n, "leftalt") {
        Some("56")
    } else if equals(&n, "super") || equals(&n, "meta") || equals(&n, "win") || equals(
        &n,
        "leftmeta",
    ) {
        Some("125")
    } else if equals(&n, "insert") || equals(&n, "ins") {
        Some("110")
    } else if n.len() == 1 {
        code_of_letter(n[0])
    } else {
        None
    }
}

/// The key code of a key or modifier, by its name in any case: the modifiers, a to z, and
/// Insert.
pub fn keycode(name: &str) -> (r: Option<&'static str>)
    ensures
        state::setting(r) == code_of(name@),
{
    code_of_name(&chars_of(name))
}

fn names_in(combo: &str) -> (r: Vec<Vec<char>>)
    ensures
        text::views(r@) == key_names(combo@),
{
    let pieces = text::split_at(&chars_of(combo), Class::Is('+'));
    let ghost all = trim_all(text::split(combo@, Class::Is('+')));
    let mut out: Vec<Vec<char>> = Vec::new();
    assert(text::views(out@) =~= text::non_empty(all.take(0)));
    for i in 0..pieces.len()
        invariant
            all == trim_all(text::views(pieces@)),
            text::views(out@) == text::non_empty(all.take(i as int)),
    {
        proof {
            assert(all.take(i + 1).drop_last() =~= all.take(i as int));
            assert(all.take(i + 1).last() == text::trim(pieces@[i as int]@));
        }
        let name = text::trimmed(&pieces[i], Class::Whitespace);
        if name.len() > 0 {
            proof {
                text::lemma_views_push(out@, name);
            }
            out.push(name);
        }
    }
    assert(all.take(pieces.len() as int) =~= all);
    out
}

proof fn lemma_codes_len(names: Seq<Seq<char>>)
    ensures
        codes_of(names) matches Some(codes) ==> codes.len() == names.len(),
    decreases names.len(),
{
    if names.len() > 0 {
        lemma_codes_len(names.drop_last());
    }
}

proof fn lemma_codes_need_all(names: Seq<Seq<char>>, n: int)
    requires
        0 <= n <= names.len(),
        codes_of(names.take(n)) is None,
    ensures
        codes_of(names) is None,
    decreases names.len() - n,
{
    if n == names.len() {
        assert(names.take(n) =~= names);
    } else {
        assert(names.take(n + 1).drop_last() =~= names.take(n));
        lemma_codes_need_all(names, n + 1);
    }
}

fn codes_in(names: &Vec<Vec<char>>) -> (r: Option<Vec<String>>)
    ensures
        match r {
            Some(codes) => codes_of(text::views(names@)) == Some(text::string_views(codes@)),
            None => codes_of(text::views(names@)) is None,
        },
{
    let ghost all = text::views(names@);
    let mut out: Vec<String> = Vec::new();
    assert(text::string_views(out@) =~= Seq::empty());
    for i in 0..names.len()
        invariant
            all == text::views(names@),
            codes_of(all.take(i as int)) == Some(text::string_views(out@)),
    {
        proof {
            assert(all.take(i + 1).drop_last() =~= all.take(i as int));
            assert(all.take(i + 1).last() == names@[i as int]@);
        }
        match code_of_name(&names[i]) {
            Some(code) => {
                let code = code.to_owned();
                proof {
                    text::lemma_string_views_push(out@, code);
                }
                out.push(code);
            },
            None => {
                proof {
                    lemma_codes_need_all(all, i + 1);
                }
                return None;
            },
        }
    }
    assert(all.take(names.len() as int) =~= all);
    Some(out)
}

fn stroke(code: &String, suffix: &str) -> (r: String)
    ensures
        r@ == code@ + suffix@,
{
    let mut out = code.clone();
    out.append(suffix);
    out
}

fn strokes_for(codes: &Vec<String>) -> (r: Vec<String>)
    ensures
        text::string_views(r@) == strokes(text::string_views(codes@)),
{
    let ghost all = text::string_views(codes@);
    let mut out: Vec<String> = Vec::new();
    for i in 0..codes.len()
        invariant
            all == text::string_views(codes@),
            text::string_views(out@) =~= strokes(all).take(i as int),
    {
        let s = stroke(&codes[i], ":1");
        proof {
            text::lemma_string_views_push(out@, s);
            assert(strokes(all)[i as int] == press(all[i as int]));
        }
        out.push(s);
    }
    let mut left: usize = codes.len();
    while left > 0
        invariant
            all == text::string_views(codes@),
            left <= codes.len(),
            text::string_views(out@) =~= strokes(all).take(2 * codes.len() - left),
        decreases left,
    {
        left = left - 1;
        let s = stroke(&codes[left], ":0");
        proof {
            text::lemma_string_views_push(out@, s);
            let k = 2 * codes.len() - 1 - left;
            assert(strokes(all)[k] == release(all[left as int]));
        }
        out.push(s);
    }
    assert(strokes(all).take(2 * codes.len() as int) =~= strokes(all));
    out
}

/// Turns a combination like `ctrl+shift+v` into a key sequence: modifiers down in order, key
/// down, key up, modifiers up in reverse. `None` if it is empty or a name is unknown.
pub fn build_seq(combo: &str) -> (r: Option<Vec<String>>)
    ensures
        match r {
            Some(keys) => key_sequence(combo@) == Some(text::string_views(keys@)),
            None => key_sequence(combo@) is None,
        },
{
    let names = names_in(combo);
    match codes_in(&names) {
        Some(codes) => {
            assert(text::string_views(codes@).len() == codes@.len());
            if codes.len() == 0 {
                None
            } else {
                Some(strokes_for(&codes))
            }
        },
        None => None,
    }
}

/// The key sequence that pastes with a combination; an unknown combination is replaced by
/// `ctrl+v`.
pub fn paste_sequence(combo: &str) -> (r: Vec<String>)
    ensures
        text::string_views(r@) == paste_keys(combo@),
{
    match build_seq(combo) {
        Some(keys) => keys,
        None => {
            proof {
                lemma_ctrl_v();
            }
            match build_seq("ctrl+v") {
                Some(keys) => keys,
                None => Vec::new(),
            }
        },
    }
}

/// One step of handing a transcript over. A step that fails keeps the later ones from being
/// taken.
#[derive(Clone, Debug, PartialEq)]
pub enum Step {
    /// Send the transcript to every listener.
    Broadcast { text: String, app: String, mode: String },
    /// Put the transcript on the clipboard.
    Copy { text: String },
    /// Synthesize key presses.
    Press { keys: Vec<String> },
}

/// A [`Step`] with its texts.
pub enum StepView {
    Broadcast { text: Seq<char>, app: Seq<char>, mode: Seq<char> },
    Copy { text: Seq<char> },
    Press { keys: Seq<Seq<char>> },
}

impl View for Step {
    type V = StepView;

    open spec fn view(&self) -> StepView {
        match self {
            Step::Broadcast { text, app, mode } => StepView::Broadcast {
                text: text@,
                app: app@,
                mode: mode@,
            },
            Step::Copy { text } => StepView::Copy { text: text@ },
            Step::Press { keys } => StepView::Press { keys: text::string_views(keys@) },
        }
    }
}

/// What a list of steps holds.
pub open spec fn step_views(steps: Seq<Step>) -> Seq<StepView> {
    steps.map_values(|s: Step| s@)
}

/// The name of the focused application in messages.
pub open spec fn app_name(focus: Seq<char>) -> Seq<char> {
    if focus.len() == 0 {
        "none"@
    } else {
        focus
    }
}

/// What is done with a transcript besides the broadcast.
pub open spec fn local_steps(text: Seq<char>, mode: ModeView, dry: bool) -> Seq<StepView> {
    match mode {
        ModeView::System => Seq::empty(),
        ModeView::Clipboard => seq![StepView::Copy { text }],
        ModeView::Emit => seq![StepView::Copy { text }],
        ModeView::Paste { combo } => if dry {
            seq![StepView::Copy { text }]
        } else {
            seq![StepView::Copy { text }, StepView::Press { keys: paste_keys(combo) }]
        },
    }
}

/// The steps that hand a transcript over, given the focused application's id: `raw` is the
/// transcript as it was heard, for the listeners, `text` the cleaned one. If nothing is left of
/// it there is nothing to hand over.
pub open spec fn delivery(
    raw: Seq<char>,
    text: Seq<char>,
    focus: Seq<char>,
    routing: RoutingView,
    dry: bool,
) -> Seq<StepView> {
    if text.len() == 0 {
        Seq::empty()
    } else {
        let mode = rules::routed(focus, routing);
        seq![
            StepView::Broadcast { text: raw, app: app_name(focus), mode: mode.name() },
        ] + local_steps(text, mode, dry)
    }
}

/// The steps that hand a transcript over. It is always broadcast first, as it was heard (`raw`);
/// what is done with the cleaned `text` the mode of the focused application decides, which the
/// focus hint names. With `dry` no keys are pressed.
pub fn deliver(raw: &str, text: &str, hint: &str, routing: &Routing, dry: bool) -> (r: Vec<Step>)
    ensures
        step_views(r@) == delivery(raw@, text@, focus::focus_of(hint@), routing@, dry),
{
    let mut out: Vec<Step> = Vec::new();
    if text.is_empty() {
        assert(step_views(out@) =~= Seq::empty());
        return out;
    }
    let focus = read_focus(hint);
    let mode = resolve(focus.as_str(), routing);
    let app = if focus.as_str().is_empty() {
        "none".to_owned()
    } else {
        focus
    };
    out.push(Step::Broadcast { text: raw.to_owned(), app, mode: mode.label().to_owned() });
    match mode {
        Mode::System => {},
        Mode::Clipboard => {
            out.push(Step::Copy { text: text.to_owned() });
        },
        Mode::Emit => {
            out.push(Step::Copy { text: text.to_owned() });
        },
        Mode::Paste { combo } => {
            out.push(Step::Copy { text: text.to_owned() });
            if !dry {
                out.push(Step::Press { keys: paste_sequence(combo.as_str()) });
            }
        },
    }
    assert(step_views(out@) =~= delivery(raw@, text@, focus::focus_of(hint@), routing@, dry));
    out
}

/// Whether to go on waiting for the clipboard.
#[derive(Clone, Copy, Debug, PartialEq, Eq, Structural)]
pub enum CopyWait {
    /// The clipboard holds the text.
    Settled,
    /// Poll again.
    Again,
    /// It is not worth waiting any longer; the text counts as copied all the same.
    GaveUp,
}

/// What to make of the clipboard's contents at a poll, `polls` polls counting this one; `None`
/// if they could not be read.
pub open spec fn copy_wait(
    text: Seq<char>,
    clipboard: Option<Seq<char>>,
    polls: u32,
) -> CopyWait {
    if clipboard matches Some(held) && text::trim(held) == text::trim(text) {
        CopyWait::Settled
    } else if polls < COPY_POLLS {
        CopyWait::Again
    } else {
        CopyWait::GaveUp
    }
}

/// What to make of the clipboard's contents at a poll, `polls` polls counting this one; `None`
/// if they could not be read. White space at the ends does not matter.
pub fn copy_settled(text: &str, clipboard: Option<&str>, polls: u32) -> (r: CopyWait)
    ensures
        r == copy_wait(text@, state::setting(clipboard), polls),
{
    let settled = match clipboard {
        Some(held) => {
            let held = string_of(&text::trimmed(&chars_of(held), Class::Whitespace));
            equals(&text::trimmed(&chars_of(text), Class::Whitespace), held.as_str())
        },
        None => false,
    };
    if settled {
        CopyWait::Settled
    } else if polls < COPY_POLLS {
        CopyWait::Again
    } else {
        CopyWait::GaveUp
    }
}

/// The socket of the key synthesizer: the one configured, else one in the directory for runtime
/// files.
pub fn ydotool_socket(configured: Option<&str>, xdg_runtime: Option<&str>) -> (r: String)
    ensures
        r@ == match configured {
            Some(path) => path@,
            None => daemon::runtime(state::setting(xdg_runtime)) + "/.ydotool_socket"@,
        },
{
    match configured {
        Some(path) => path.to_owned(),
        None => {
            let mut out = runtime_dir(xdg_runtime);
            out.append("/.ydotool_socket");
            out
        },
    }
}

/// Every key that a sequence presses it releases, in the opposite order: the first and the last
/// stroke are of the same key, and so on inwards.
pub proof fn law_strokes_are_balanced(codes: Seq<Seq<char>>, i: int)
    requires
        0 <= i < codes.len(),
    ensures
        strokes(codes).len() == 2 * codes.len(),
        strokes(codes)[i] == press(codes[i]),
        strokes(codes)[strokes(codes).len() - 1 - i] == release(codes[i]),
{
}

/// A combination has a sequence exactly if it names at least one key and every name in it is
/// known; the sequence then has two strokes for each name.
pub proof fn law_known_combinations(combo: Seq<char>)
    ensures
        key_sequence(combo) is Some <==> key_names(combo).len() > 0 && forall|i: int|
            0 <= i < key_names(combo).len() ==> code_of(#[trigger] key_names(combo)[i]) is Some,
        key_sequence(combo) matches Some(keys) ==> keys.len() == 2 * key_names(combo).len(),
{
    lemma_codes_len(key_names(combo));
    lemma_codes_iff(key_names(combo));
}

proof fn lemma_codes_iff(names: Seq<Seq<char>>)
    ensures
        codes_of(names) is Some <==> forall|i: int|
            0 <= i < names.len() ==> code_of(#[trigger] names[i]) is Some,
    decreases names.len(),
{
    if names.len() > 0 {
        let front = names.drop_last();
        lemma_codes_iff(front);
        assert(names[names.len() - 1] == names.last());
        if forall|i: int| 0 <= i < names.len() ==> code_of(#[trigger] names[i]) is Some {
            assert forall|i: int| 0 <= i < front.len() implies code_of(
                #[trigger] front[i],
            ) is Some by {
                assert(front[i] == names[i]);
            }
        }
        if codes_of(names) is Some {
            assert forall|i: int| 0 <= i < names.len() implies code_of(
                #[trigger] names[i],
            ) is Some by {
                if i < front.len() {
                    assert(front[i] == names[i]);
                }
            }
        }
    }
}

/// Whatever the mode, a transcript is broadcast as it was heard, once and first.
pub proof fn law_always_broadcast(
    raw: Seq<char>,
    text: Seq<char>,
    focus: Seq<char>,
    routing: RoutingView,
    dry: bool,
)
    requires
        text.len() > 0,
    ensures
        delivery(raw, text, focus, routing, dry).len() > 0,
        delivery(raw, text, focus, routing, dry)[0] == (StepView::Broadcast {
            text: raw,
            app: app_name(focus),
            mode: rules::routed(focus, routing).name(),
        }),
        forall|i: int|
            1 <= i < delivery(raw, text, focus, routing, dry).len() ==> !((#[trigger] delivery(
                raw,
                text,
                focus,
                routing,
                dry,
            )[i]) is Broadcast),
{
}

/// Keys are pressed in paste mode only, never in a dry run, and always after the copy.
pub proof fn law_keys_follow_a_copy(
    raw: Seq<char>,
    text: Seq<char>,
    focus: Seq<char>,
    routing: RoutingView,
    dry: bool,
    i: int,
)
    requires
        0 <= i < delivery(raw, text, focus, routing, dry).len(),
        delivery(raw, text, focus, routing, dry)[i] is Press,
    ensures
        !dry,
        rules::routed(focus, routing) is Paste,
        i > 0,
        delivery(raw, text, focus, routing, dry)[i - 1] == (StepView::Copy { text }),
{
}

/// With nothing focused a transcript is broadcast and nothing else happens to it.
pub proof fn law_desktop_only_broadcasts(
    raw: Seq<char>,
    text: Seq<char>,
    routing: RoutingView,
    dry: bool,
)
    requires
        text.len() > 0,
    ensures
        delivery(raw, text, Seq::empty(), routing, dry) == seq![
            StepView::Broadcast { text: raw, app: "none"@, mode: "system"@ },
        ],
{
    assert(delivery(raw, text, Seq::empty(), routing, dry) =~= seq![
        StepView::Broadcast { text: raw, app: "none"@, mode: "system"@ },
    ]);
}

/// In every mode but the system-wide one the cleaned text is copied, so that nothing is lost.
pub proof fn law_text_is_copied(
    raw: Seq<char>,
    text: Seq<char>,
    focus: Seq<char>,
    routing: RoutingView,
    dry: bool,
)
    requires
        text.len() > 0,
        !(rules::routed(focus, routing) is System),
    ensures
        delivery(raw, text, focus, routing, dry).len() > 1,
        delivery(raw, text, focus, routing, dry)[1] == (StepView::Copy { text }),
{
}

/// The letters have the codes of their places on the keyboard: its three rows count on from 16,
/// 30 and 44. The case of a name does not matter.
pub proof fn law_letters_by_their_rows(i: int, name: Seq<char>)
    ensures
        0 <= i < 10 ==> code_of(seq!["qwertyuiop"@[i]]) == Some(number::decimal((16 + i) as nat)),
        0 <= i < 9 ==> code_of(seq!["asdfghjkl"@[i]]) == Some(number::decimal((30 + i) as nat)),
        0 <= i < 7 ==> code_of(seq!["zxcvbnm"@[i]]) == Some(number::decimal((44 + i) as nat)),
        code_of(name) == code_of(unicode::ascii_lowercase(name)),
{
    let small = unicode::ascii_lowercase(name);
    assert(unicode::ascii_lowercase(small) =~= small);
    reveal_strlit("qwertyuiop");
    reveal_strlit("asdfghjkl");
    reveal_strlit("zxcvbnm");
    if 0 <= i < 10 {
        lemma_row("qwertyuiop"@[i]);
        lemma_two_digits((16 + i) as nat);
    }
    if 0 <= i < 9 {
        lemma_row("asdfghjkl"@[i]);
        lemma_two_digits((30 + i) as nat);
    }
    if 0 <= i < 7 {
        lemma_row("zxcvbnm"@[i]);
        lemma_two_digits((44 + i) as nat);
    }
    reveal_strlit("30");
    reveal_strlit("48");
    reveal_strlit("46");
    reveal_strlit("32");
    reveal_strlit("18");
    reveal_strlit("33");
    reveal_strlit("34");
    reveal_strlit("35");
    reveal_strlit("23");
    reveal_strlit("36");
    reveal_strlit("37");
    reveal_strlit("38");
    reveal_strlit("50");
    reveal_strlit("49");
    reveal_strlit("24");
    reveal_strlit("25");
    reveal_strlit("16");
    reveal_strlit("19");
    reveal_strlit("31");
    reveal_strlit("20");
    reveal_strlit("22");
    reveal_strlit("47");
    reveal_strlit("17");
    reveal_strlit("45");
    reveal_strlit("21");
    reveal_strlit("44");
    if 0 <= i < 10 {
        let code = letter_code("qwertyuiop"@[i])->0;
        assert(code =~= seq![
            number::digit(((16 + i) / 10) as nat),
            number::digit(((16 + i) % 10) as nat),
        ]);
    }
    if 0 <= i < 9 {
        let code = letter_code("asdfghjkl"@[i])->0;
        assert(code =~= seq![
            number::digit(((30 + i) / 10) as nat),
            number::digit(((30 + i) % 10) as nat),
        ]);
    }
    if 0 <= i < 7 {
        let code = letter_code("zxcvbnm"@[i])->0;
        assert(code =~= seq![
            number::digit(((44 + i) / 10) as nat),
            number::digit(((44 + i) % 10) as nat),
        ]);
    }
}

proof fn lemma_two_digits(n: nat)
    requires
        10 <= n < 100,
    ensures
        number::decimal(n) == seq![number::digit(n / 10), number::digit(n % 10)],
{
    reveal_with_fuel(number::decimal, 2);
    assert(number::decimal(n) =~= seq![number::digit(n / 10), number::digit(n % 10)]);
}

proof fn lemma_row(c: char)
    requires
        'a' <= c <= 'z',
    ensures
        code_of(seq![c]) == letter_code(c),
{
    lemma_names_are_long();
    let n = unicode::ascii_lowercase(seq![c]);
    assert(n =~= seq![c]);
}

proof fn lemma_names_are_long()
    ensures
        "ctrl"@.len() == 4,
        "control"@.len() == 7,
        "leftctrl"@.len() == 8,
        "shift"@.len() == 5,
        "leftshift"@.len() == 9,
        "alt"@.len() == 3,
        "leftalt"@.len() == 7,
        "super"@.len() == 5,
        "meta"@.len() == 4,
        "win"@.len() == 3,
        "leftmeta"@.len() == 8,
        "insert"@.len() == 6,
        "ins"@.len() == 3,
{
    reveal_strlit("ctrl");
    reveal_strlit("control");
    reveal_strlit("leftctrl");
    reveal_strlit("shift");
    reveal_strlit("leftshift");
    reveal_strlit("alt");
    reveal_strlit("leftalt");
    reveal_strlit("super");
    reveal_strlit("meta");
    reveal_strlit("win");
    reveal_strlit("leftmeta");
    reveal_strlit("insert");
    reveal_strlit("ins");
}

/// Besides the letters only these names are known, each with its code.
pub proof fn law_named_keys(name: Seq<char>)
    ensures
        ({
            let n = unicode::ascii_lowercase(name);
            let ctrl = n == "ctrl"@ || n == "control"@ || n == "leftctrl"@;
            let shift = n == "shift"@ || n == "leftshift"@;
            let alt = n == "alt"@ || n == "leftalt"@;
            let meta = n == "super"@ || n == "meta"@ || n == "win"@ || n == "leftmeta"@;
            let insert = n == "insert"@ || n == "ins"@;
            let letter = n.len() == 1 && 'a' <= n[0] <= 'z';
            &&& ctrl ==> code_of(name) == Some("29"@)
            &&& shift ==> code_of(name) == Some("42"@)
            &&& alt ==> code_of(name) == Some("56"@)
            &&& meta ==> code_of(name) == Some("125"@)
            &&& insert ==> code_of(name) == Some("110"@)
            &&& code_of(name) is Some <==> ctrl || shift || alt || meta || insert || letter
        }),
{
    lemma_names_are_long();
    reveal_strlit("ctrl");
    reveal_strlit("control");
    reveal_strlit("leftctrl");
    reveal_strlit("shift");
    reveal_strlit("leftshift");
    reveal_strlit("alt");
    reveal_strlit("leftalt");
    reveal_strlit("super");
    reveal_strlit("meta");
    reveal_strlit("win");
    reveal_strlit("leftmeta");
    reveal_strlit("insert");
    reveal_strlit("ins");
    assert("ctrl"@[0] == 'c' && "meta"@[0] == 'm');
    assert("control"@[0] == 'c' && "leftalt"@[0] == 'l');
    assert("leftctrl"@[4] == 'c' && "leftmeta"@[4] == 'm');
    assert("shift"@[1] == 'h' && "super"@[1] == 'u');
    assert("alt"@[0] == 'a' && "win"@[0] == 'w' && "ins"@[0] == 'i');
}

/// A combination is cut at its plus signs; white space around a name does not matter, and empty
/// names do not count.
pub proof fn law_names_in_a_combination(
    x: Seq<char>,
    y: Seq<char>,
    p: Seq<char>,
    name: Seq<char>,
    q: Seq<char>,
)
    requires
        forall|i: int| 0 <= i < p.len() ==> unicode::whitespace(#[trigger] p[i]),
        forall|i: int| 0 <= i < q.len() ==> unicode::whitespace(#[trigger] q[i]),
        name.len() > 0 ==> !unicode::whitespace(name[0]) && !unicode::whitespace(name.last()),
        forall|i: int| 0 <= i < name.len() ==> #[trigger] name[i] != '+',
    ensures
        key_names(x.push('+') + y) == key_names(x) + key_names(y),
        key_names(p + name + q) == if name.len() > 0 {
            seq![name]
        } else {
            Seq::empty()
        },
{
    let class = Class::Is('+');
    text::lemma_split_parts(x, '+', y, class);
    let a = text::split(x, class);
    let b = text::split(y, class);
    assert(trim_all(a + b) =~= trim_all(a) + trim_all(b));
    text::lemma_non_empty_parts(trim_all(a), trim_all(b));
    let s = p + name + q;
    assert forall|i: int| 0 <= i < s.len() implies !class.has(#[trigger] s[i]) by {
        if i < p.len() {
            assert(s[i] == p[i]);
        } else if i < p.len() + name.len() {
            assert(s[i] == name[i - p.len()]);
        } else {
            assert(s[i] == q[i - p.len() - name.len()]);
        }
    }
    text::law_plain_text_is_one_piece(s, class);
    text::law_trim(p, name, q);
    let one = seq![name];
    let none = Seq::<Seq<char>>::empty();
    assert(trim_all(seq![s]) =~= one);
    assert(one.drop_last() =~= none);
    assert(text::non_empty(none) =~= none);
    assert(text::non_empty(one) =~= if name.len() > 0 {
        one
    } else {
        none
    });
}

/// In the sequence of a combination every name's key goes down at its place and up again at the
/// same place from the end.
pub proof fn law_sequence_presses_the_names(combo: Seq<char>, i: int)
    requires
        key_sequence(combo) is Some,
        0 <= i < key_names(combo).len(),
    ensures
        ({
            let keys = key_sequence(combo)->0;
            let code = code_of(key_names(combo)[i])->0;
            &&& code_of(key_names(combo)[i]) is Some
            &&& keys.len() == 2 * key_names(combo).len()
            &&& keys[i] == code + ":1"@
            &&& keys[keys.len() - 1 - i] == code + ":0"@
        }),
{
    let names = key_names(combo);
    lemma_codes_len(names);
    lemma_codes_at(names, i);
    law_strokes_are_balanced(codes_of(names)->0, i);
}

proof fn lemma_codes_at(names: Seq<Seq<char>>, i: int)
    requires
        codes_of(names) is Some,
        0 <= i < names.len(),
    ensures
        code_of(names[i]) == Some(codes_of(names)->0[i]),
    decreases names.len(),
{
    lemma_codes_len(names);
    lemma_codes_len(names.drop_last());
    if i < names.len() - 1 {
        lemma_codes_at(names.drop_last(), i);
    }
}

/// A known combination pastes with its own keys, an unknown one with control and v.
pub proof fn law_pasting_keys(combo: Seq<char>)
    ensures
        key_sequence(combo) is Some ==> paste_keys(combo) == key_sequence(combo)->0,
        key_sequence(combo) is None ==> paste_keys(combo) == seq![
            "29"@ + ":1"@,
            "47"@ + ":1"@,
            "47"@ + ":0"@,
            "29"@ + ":0"@,
        ],
{
    lemma_ctrl_v();
}

/// In paste mode a transcript is broadcast, then copied, then the keys of the mode's own
/// combination are pressed, if it is known, and control and v only if it is not. A dry run stops
/// short of the keys.
pub proof fn law_paste_mode(
    raw: Seq<char>,
    text: Seq<char>,
    focus: Seq<char>,
    routing: RoutingView,
    dry: bool,
    combo: Seq<char>,
)
    requires
        text.len() > 0,
        rules::routed(focus, routing) == (ModeView::Paste { combo }),
    ensures
        ({
            let steps = delivery(raw, text, focus, routing, dry);
            let app = if focus.len() == 0 {
                "none"@
            } else {
                focus
            };
            &&& steps.len() == if dry {
                2int
            } else {
                3
            }
            &&& steps[0] == (StepView::Broadcast { text: raw, app, mode: "paste"@ })
            &&& steps[1] == (StepView::Copy { text })
            &&& !dry && key_sequence(combo) is Some ==> steps[2] == (StepView::Press {
                keys: key_sequence(combo)->0,
            })
            &&& !dry && key_sequence(combo) is None ==> steps[2] == (StepView::Press {
                keys: seq!["29"@ + ":1"@, "47"@ + ":1"@, "47"@ + ":0"@, "29"@ + ":0"@],
            })
        }),
{
    law_pasting_keys(combo);
}

/// In every other mode no key is pressed: a copy follows the broadcast, and for a system-wide
/// command not even that. Nothing is done with a transcript of which nothing is left.
pub proof fn law_other_modes(
    raw: Seq<char>,
    text: Seq<char>,
    focus: Seq<char>,
    routing: RoutingView,
    dry: bool,
)
    ensures
        ({
            let steps = delivery(raw, text, focus, routing, dry);
            let mode = rules::routed(focus, routing);
            let app = if focus.len() == 0 {
                "none"@
            } else {
                focus
            };
            &&& text.len() == 0 ==> steps.len() == 0
            &&& text.len() > 0 && mode is Clipboard ==> steps == seq![
                StepView::Broadcast { text: raw, app, mode: "clipboard"@ },
                StepView::Copy { text },
            ]
            &&& text.len() > 0 && mode is Emit ==> steps == seq![
                StepView::Broadcast { text: raw, app, mode: "emit"@ },
                StepView::Copy { text },
            ]
            &&& text.len() > 0 && mode is System ==> steps == seq![
                StepView::Broadcast { text: raw, app, mode: "system"@ },
            ]
        }),
{
    let steps = delivery(raw, text, focus, routing, dry);
    let mode = rules::routed(focus, routing);
    let app = app_name(focus);
    if text.len() > 0 && mode is Clipboard {
        assert(steps =~= seq![
            StepView::Broadcast { text: raw, app, mode: "clipboard"@ },
            StepView::Copy { text },
        ]);
    }
    if text.len() > 0 && mode is Emit {
        assert(steps =~= seq![
            StepView::Broadcast { text: raw, app, mode: "emit"@ },
            StepView::Copy { text },
        ]);
    }
    if text.len() > 0 && mode is System {
        assert(steps =~= seq![StepView::Broadcast { text: raw, app, mode: "system"@ }]);
    }
}

/// Waiting for the clipboard ends as soon as it holds the text, white space at the ends aside,
/// and not before, except after the fiftieth poll.
pub proof fn law_waiting_for_the_clipboard(text: Seq<char>, held: Seq<char>, polls: u32)
    ensures
        copy_wait(text, Some(held), polls) == CopyWait::Settled <==> text::trim(held)
            == text::trim(text),
        copy_wait(text, None, polls) != CopyWait::Settled,
        polls < 50 ==> copy_wait(text, None, polls) == CopyWait::Again && copy_wait(
            text,
            Some(held),
            polls,
        ) != CopyWait::GaveUp,
        polls >= 50 ==> copy_wait(text, None, polls) == CopyWait::GaveUp && copy_wait(
            text,
            Some(held),
            polls,
        ) != CopyWait::Again,
        COPY_POLLS * COPY_POLL_MS == 1500,
{
}

/// A step stands for itself, with nothing left out.
pub proof fn law_step_views_are_faithful(s: Step, steps: Seq<Step>, i: int)
    ensures
        s matches Step::Broadcast { text, app, mode } ==> s@ == (StepView::Broadcast {
            text: text@,
            app: app@,
            mode: mode@,
        }),
        s matches Step::Copy { text } ==> s@ == (StepView::Copy { text: text@ }),
        s matches Step::Press { keys } ==> s@ == (StepView::Press {
            keys: text::string_views(keys@),
        }),
        step_views(steps).len() == steps.len(),
        0 <= i < steps.len() ==> step_views(steps)[i] == steps[i]@,
{
}

} // verus!
