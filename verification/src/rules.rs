//! Per-application routing: what is done with a transcript, by the focused application.
//!
//! A rules file has one rule per line, in columns between white space; `#` starts a comment:
//!
//! ```text
//! # pattern      mode        option
//! ghostty        paste       ctrl+shift+v
//! kdenlive       emit
//! plasmashell    clipboard
//! *              paste                       # catch-all default
//! ```
//!
//! The pattern is a part of the focused application's id, in any case of its ASCII letters; `*`
//! matches anything. The first rule that matches wins, so a catch-all belongs at the end. The
//! mode is `paste` (with the key combination as an option), `clipboard` or `copy`, `emit` or
//! `send`, or `system`; anything else is taken for `paste`, so that a typo never swallows a
//! dictation.

use vstd::prelude::*;

use crate::focus;
use crate::focus::is_shell;
use crate::state;
use crate::state::{join_path, user_directory};
use crate::text;
use crate::text::{chars_of, equals, string_of, Class};
use crate::unicode;

verus! {

/// What to do locally with a transcript for the focused application.
#[derive(Debug, Clone, PartialEq)]
pub enum Mode {
    /// Copy, and synthesize the paste keystroke with this combination.
    Paste { combo: String },
    /// Copy to the clipboard only; no keystroke.
    Clipboard,
    /// Do not paste; the transcript is consumed from the broadcast. It is still copied, so that
    /// nothing is lost.
    Emit,
    /// No window is focused: a system-wide voice command. Neither paste nor copy, only the
    /// broadcast.
    System,
}

/// A [`Mode`] with its text.
pub enum ModeView {
    Paste { combo: Seq<char> },
    Clipboard,
    Emit,
    System,
}

impl View for Mode {
    type V = ModeView;

    open spec fn view(&self) -> ModeView {
        match self {
            Mode::Paste { combo } => ModeView::Paste { combo: combo@ },
            Mode::Clipboard => ModeView::Clipboard,
            Mode::Emit => ModeView::Emit,
            Mode::System => ModeView::System,
        }
    }
}

impl ModeView {
    /// The short name in messages.
    pub open spec fn name(self) -> Seq<char> {
        match self {
            ModeView::Paste { .. } => "paste"@,
            ModeView::Clipboard => "clipboard"@,
            ModeView::Emit => "emit"@,
            ModeView::System => "system"@,
        }
    }
}

impl Mode {
    /// The short name in messages.
    pub fn label(&self) -> (r: &'static str)
        ensures
            r@ == self@.name(),
    {
        match self {
            Mode::Paste { .. } => "paste",
            Mode::Clipboard => "clipboard",
            Mode::Emit => "emit",
            Mode::System => "system",
        }
    }
}

/// The combination that pastes where nothing else is configured.
pub open spec fn default_keys(paste_key: Option<Seq<char>>) -> Seq<char> {
    match paste_key {
        Some(k) => k,
        None => "ctrl+v"@,
    }
}

/// The mode that a rule's second and third column give.
pub open spec fn mode_of(
    mode: Seq<char>,
    option: Option<Seq<char>>,
    default: Seq<char>,
) -> ModeView {
    let m = unicode::ascii_lowercase(mode);
    if m == "clipboard"@ || m == "copy"@ {
        ModeView::Clipboard
    } else if m == "emit"@ || m == "send"@ {
        ModeView::Emit
    } else if m == "system"@ {
        ModeView::System
    } else {
        ModeView::Paste {
            combo: match option {
                Some(combo) => combo,
                None => default,
            },
        }
    }
}

/// A rule: a pattern and the mode of the applications that it matches.
pub struct RuleView {
    pub pattern: Seq<char>,
    pub mode: ModeView,
}

/// The rule on a line, if there is one. Without a second column the mode is `paste`.
pub open spec fn rule_of(line: Seq<char>, default: Seq<char>) -> Option<RuleView> {
    let columns = text::words(text::split(line, Class::Is('#'))[0]);
    if columns.len() == 0 {
        None
    } else {
        Some(
            RuleView {
                pattern: columns[0],
                mode: mode_of(
                    if columns.len() > 1 {
                        columns[1]
                    } else {
                        "paste"@
                    },
                    if columns.len() > 2 {
                        Some(columns[2])
                    } else {
                        None
                    },
                    default,
                ),
            },
        )
    }
}

/// The rules on a list of lines, in order.
pub open spec fn rules_of(lines: Seq<Seq<char>>, default: Seq<char>) -> Seq<RuleView>
    decreases lines.len(),
{
    if lines.len() == 0 {
        Seq::empty()
    } else {
        let before = rules_of(lines.drop_last(), default);
        match rule_of(lines.last(), default) {
            Some(rule) => before.push(rule),
            None => before,
        }
    }
}

/// The pattern of the catch-all.
pub open spec fn is_catch_all(pattern: Seq<char>) -> bool {
    pattern == "*"@
}

/// The rule matches the focused application: its pattern matches anything, or is a part of the
/// application's id.
pub open spec fn matches_focus(rule: RuleView, focus: Seq<char>) -> bool {
    is_catch_all(rule.pattern) || text::contains(focus, unicode::ascii_lowercase(rule.pattern))
}

/// What a list of rules says of the focused application: the mode of the first rule that matches.
pub open spec fn decided(rules: Seq<RuleView>, focus: Seq<char>) -> Option<ModeView>
    decreases rules.len(),
{
    if rules.len() == 0 {
        None
    } else {
        match decided(rules.drop_last(), focus) {
            Some(mode) => Some(mode),
            None => if matches_focus(rules.last(), focus) {
                Some(rules.last().mode)
            } else {
                None
            },
        }
    }
}

/// What the contents of a rules file say of the focused application. A carriage return before a
/// line's end is white space like any other.
pub open spec fn file_mode(
    contents: Seq<char>,
    focus: Seq<char>,
    default: Seq<char>,
) -> Option<ModeView> {
    decided(rules_of(text::split(contents, Class::Is('\n')), default), focus)
}

/// What one entry of the older list, `pattern=combination`, says of the focused application.
pub open spec fn entry_keys(entry: Seq<char>, focus: Seq<char>) -> Option<Seq<char>> {
    match text::split_once(entry, '=') {
        Some((pattern, combo)) => {
            let p = unicode::ascii_lowercase(text::trim(pattern));
            if p.len() > 0 && text::contains(focus, p) {
                Some(text::trim(combo))
            } else {
                None
            }
        },
        None => None,
    }
}

/// The combination of the first entry of the older list that matches the focused application.
pub open spec fn legacy_keys(entries: Seq<Seq<char>>, focus: Seq<char>) -> Option<Seq<char>>
    decreases entries.len(),
{
    if entries.len() == 0 {
        None
    } else {
        match legacy_keys(entries.drop_last(), focus) {
            Some(combo) => Some(combo),
            None => entry_keys(entries.last(), focus),
        }
    }
}

/// What is done without a matching rule: the desktop shell gets a copy only, an application in
/// the older list is pasted into with its combination, every other one with the default.
/// `legacy` is the older list; `None` where it does not count.
pub open spec fn builtin_mode(
    focus: Seq<char>,
    legacy: Option<Seq<char>>,
    default: Seq<char>,
) -> ModeView {
    if focus::is_desktop(focus) {
        ModeView::Clipboard
    } else {
        let listed = match legacy {
            Some(list) => legacy_keys(text::split(list, Class::Is(';')), focus),
            None => None,
        };
        ModeView::Paste {
            combo: match listed {
                Some(combo) => combo,
                None => default,
            },
        }
    }
}

/// What routing is decided by, besides the focused application.
pub struct Routing {
    /// The contents of the rules file, if there is one.
    pub rules: Option<String>,
    /// The older list of combinations, `VOICECHAT_PASTE_RULES`, if it is set.
    pub paste_rules: Option<String>,
    /// The default combination, `VOICECHAT_PASTE_KEY`, if it is set.
    pub paste_key: Option<String>,
}

/// A [`Routing`] with its texts.
pub struct RoutingView {
    pub rules: Option<Seq<char>>,
    pub paste_rules: Option<Seq<char>>,
    pub paste_key: Option<Seq<char>>,
}

/// The text of an optional string.
pub open spec fn text_of(s: Option<String>) -> Option<Seq<char>> {
    match s {
        Some(s) => Some(s@),
        None => None,
    }
}

impl View for Routing {
    type V = RoutingView;

    open spec fn view(&self) -> RoutingView {
        RoutingView {
            rules: text_of(self.rules),
            paste_rules: text_of(self.paste_rules),
            paste_key: text_of(self.paste_key),
        }
    }
}

/// The older list that counts: none where there is a rules file; else the one that is set, or
/// the entry for the one terminal that needs its own combination.
pub open spec fn legacy_list(routing: RoutingView) -> Option<Seq<char>> {
    if routing.rules is Some {
        None
    } else {
        match routing.paste_rules {
            Some(list) => Some(list),
            None => Some("ghostty=ctrl+shift+v"@),
        }
    }
}

/// The mode for the focused application. With nothing focused a transcript is a system-wide
/// command; else the rules file decides, and where it does not, the built-in defaults do.
pub open spec fn routed(focus: Seq<char>, routing: RoutingView) -> ModeView {
    let default = default_keys(routing.paste_key);
    if focus.len() == 0 {
        ModeView::System
    } else {
        let ruled = match routing.rules {
            Some(contents) => file_mode(contents, focus, default),
            None => None,
        };
        match ruled {
            Some(mode) => mode,
            None => builtin_mode(focus, legacy_list(routing), default),
        }
    }
}

/// The combination that pastes where nothing else is configured.
pub fn default_combo(paste_key: Option<&str>) -> (r: String)
    ensures
        r@ == default_keys(state::setting(paste_key)),
{
    match paste_key {
        Some(k) => k.to_owned(),
        None => "ctrl+v".to_owned(),
    }
}

/// The rules file: the one configured, else `voicechat/rules.conf` in the configuration
/// directory of `XDG_CONFIG_HOME` and `HOME`.
pub fn rules_file(
    configured: Option<&str>,
    xdg_config: Option<&str>,
    home: Option<&str>,
) -> (r: String)
    ensures
        r@ == match configured {
            Some(p) => p@,
            None => state::joined(
                state::joined(
                    state::user_dir(state::setting(xdg_config), state::setting(home), ".config"@),
                    "voicechat"@,
                ),
                "rules.conf"@,
            ),
        },
{
    match configured {
        Some(p) => p.to_owned(),
        None => {
            let base = user_directory(xdg_config, home, ".config");
            join_path(join_path(base.as_str(), "voicechat").as_str(), "rules.conf")
        },
    }
}

fn mode_of_column(mode: &Vec<char>, option: Option<String>, default: &str) -> (r: Mode)
    ensures
        r@ == mode_of(mode@, text_of(option), default@),
{
    let m = text::ascii_lowered(mode);
    if equals(&m, "clipboard") || equals(&m, "copy") {
        Mode::Clipboard
    } else if equals(&m, "emit") || equals(&m, "send") {
        Mode::Emit
    } else if equals(&m, "system") {
        Mode::System
    } else {
        match option {
            Some(combo) => Mode::Paste { combo },
            None => Mode::Paste { combo: default.to_owned() },
        }
    }
}

/// The mode that a rule's second and third column give. An unknown mode is taken for paste.
pub fn parse_mode(mode: &str, option: Option<&str>, default: &str) -> (r: Mode)
    ensures
        r@ == mode_of(mode@, state::setting(option), default@),
{
    let option = match option {
        Some(combo) => Some(combo.to_owned()),
        None => None,
    };
    mode_of_column(&chars_of(mode), option, default)
}

/// A rule as it stands in a rules file.
struct Rule {
    pattern: Vec<char>,
    mode: Mode,
}

fn parse_line(line: &Vec<char>, default: &str) -> (r: Option<Rule>)
    ensures
        match r {
            Some(rule) => rule_of(line@, default@) == Some(
                RuleView { pattern: rule.pattern@, mode: rule.mode@ },
            ),
            None => rule_of(line@, default@) is None,
        },
{
    let pieces = text::split_at(line, Class::Is('#'));
    proof {
        text::lemma_split_len(line@, Class::Is('#'));
    }
    assert(pieces@[0]@ == text::views(pieces@)[0]);
    let columns = text::split_words(&pieces[0]);
    let ghost all = text::views(columns@);
    assert(forall|i: int| 0 <= i < columns@.len() ==> #[trigger] columns@[i]@ == all[i]);
    if columns.len() == 0 {
        return None;
    }
    let option = if columns.len() > 2 {
        Some(string_of(&columns[2]))
    } else {
        None
    };
    let mode = if columns.len() > 1 {
        mode_of_column(&columns[1], option, default)
    } else {
        mode_of_column(&chars_of("paste"), option, default)
    };
    let pattern = text::slice(&columns[0], 0, columns[0].len());
    assert(pattern@ =~= all[0]);
    Some(Rule { pattern, mode })
}

/// What the contents of a rules file say of the focused application, whose id is in lower case;
/// `None` where no rule matches.
pub fn from_file(contents: &str, focus: &str, default: &str) -> (r: Option<Mode>)
    ensures
        match r {
            Some(mode) => file_mode(contents@, focus@, default@) == Some(mode@),
            None => file_mode(contents@, focus@, default@) is None,
        },
{
    let focused = chars_of(focus);
    let lines = text::split_at(&chars_of(contents), Class::Is('\n'));
    let ghost all = text::split(contents@, Class::Is('\n'));
    assert(rules_of(all.take(0), default@) =~= Seq::empty());
    for i in 0..lines.len()
        invariant
            focused@ == focus@,
            all == text::views(lines@),
            all == text::split(contents@, Class::Is('\n')),
            decided(rules_of(all.take(i as int), default@), focus@) is None,
    {
        let ghost done = rules_of(all.take(i as int), default@);
        proof {
            assert(all.take(i + 1).drop_last() =~= all.take(i as int));
            assert(all.take(i + 1).last() == lines@[i as int]@);
        }
        match parse_line(&lines[i], default) {
            Some(rule) => {
                let ghost view = RuleView { pattern: rule.pattern@, mode: rule.mode@ };
                proof {
                    assert(rules_of(all.take(i + 1), default@) == done.push(view));
                    assert(done.push(view).drop_last() =~= done);
                }
                if equals(&rule.pattern, "*") || text::includes(
                    &focused,
                    &text::ascii_lowered(&rule.pattern),
                ) {
                    proof {
                        lemma_match_stays(all, default@, focus@, i + 1);
                    }
                    return Some(rule.mode);
                }
            },
            None => {},
        }
    }
    assert(all.take(lines.len() as int) =~= all);
    None
}

/// A match among the first lines is the match of all of them.
proof fn lemma_match_stays(lines: Seq<Seq<char>>, default: Seq<char>, focus: Seq<char>, n: int)
    requires
        0 <= n <= lines.len(),
        decided(rules_of(lines.take(n), default), focus) is Some,
    ensures
        decided(rules_of(lines, default), focus) == decided(
            rules_of(lines.take(n), default),
            focus,
        ),
    decreases lines.len() - n,
{
    if n == lines.len() {
        assert(lines.take(n) =~= lines);
    } else {
        let longer = lines.take(n + 1);
        assert(longer.drop_last() =~= lines.take(n));
        let rules = rules_of(longer, default);
        match rule_of(longer.last(), default) {
            Some(rule) => {
                assert(rules.drop_last() =~= rules_of(lines.take(n), default));
            },
            None => {},
        }
        lemma_match_stays(lines, default, focus, n + 1);
    }
}

fn keys_of_entry(entry: &Vec<char>, focused: &Vec<char>) -> (r: Option<String>)
    ensures
        text_of(r) == entry_keys(entry@, focused@),
{
    match text::cut_once(entry, '=') {
        Some((pattern, combo)) => {
            let p = text::ascii_lowered(&text::trimmed(&pattern, Class::Whitespace));
            if p.len() > 0 && text::includes(focused, &p) {
                Some(string_of(&text::trimmed(&combo, Class::Whitespace)))
            } else {
                None
            }
        },
        None => None,
    }
}

fn keys_of_list(list: &str, focused: &Vec<char>) -> (r: Option<String>)
    ensures
        text_of(r) == legacy_keys(text::split(list@, Class::Is(';')), focused@),
{
    let entries = text::split_at(&chars_of(list), Class::Is(';'));
    let ghost all = text::split(list@, Class::Is(';'));
    let mut found: Option<String> = None;
    for i in 0..entries.len()
        invariant
            all == text::views(entries@),
            text_of(found) == legacy_keys(all.take(i as int), focused@),
    {
        proof {
            assert(all.take(i + 1).drop_last() =~= all.take(i as int));
            assert(all.take(i + 1).last() == entries@[i as int]@);
        }
        match found {
            None => {
                found = keys_of_entry(&entries[i], focused);
            },
            Some(_) => {},
        }
    }
    assert(all.take(entries.len() as int) =~= all);
    found
}

/// What is done without a matching rule. `legacy` is the older list of combinations; `None`
/// where it does not count.
pub fn builtin(focus: &str, legacy: Option<&str>, default: &str) -> (r: Mode)
    ensures
        r@ == builtin_mode(focus@, state::setting(legacy), default@),
{
    if focus.is_empty() || is_shell(focus) {
        return Mode::Clipboard;
    }
    let listed = match legacy {
        Some(list) => keys_of_list(list, &chars_of(focus)),
        None => None,
    };
    match listed {
        Some(combo) => Mode::Paste { combo },
        None => Mode::Paste { combo: default.to_owned() },
    }
}

/// Resolves the mode for the focused application, whose id is in lower case. With nothing
/// focused it is `System`: nothing is ever pasted into nothing.
pub fn resolve(focus: &str, routing: &Routing) -> (r: Mode)
    ensures
        r@ == routed(focus@, routing@),
{
    if focus.is_empty() {
        return Mode::System;
    }
    let default = match &routing.paste_key {
        Some(k) => default_combo(Some(k.as_str())),
        None => default_combo(None),
    };
    match &routing.rules {
        Some(contents) => match from_file(contents.as_str(), focus, default.as_str()) {
            Some(mode) => mode,
            None => builtin(focus, None, default.as_str()),
        },
        None => match &routing.paste_rules {
            Some(list) => builtin(focus, Some(list.as_str()), default.as_str()),
            None => builtin(focus, Some("ghostty=ctrl+shift+v"), default.as_str()),
        },
    }
}

/// With nothing focused the mode is `System`, whatever is configured.
pub proof fn law_nothing_focused_is_system(routing: RoutingView)
    ensures
        routed(Seq::empty(), routing) == ModeView::System,
{
}

/// The first rule that matches wins, whether by a part of the id or as a catch-all: what stands
/// behind it does not matter.
pub proof fn law_first_match_wins(rules: Seq<RuleView>, focus: Seq<char>, k: int)
    requires
        0 <= k < rules.len(),
        matches_focus(rules[k], focus),
        forall|i: int| 0 <= i < k ==> !matches_focus(#[trigger] rules[i], focus),
    ensures
        decided(rules, focus) == Some(rules[k].mode),
    decreases rules.len(),
{
    let front = rules.drop_last();
    if k < front.len() {
        assert forall|i: int| 0 <= i < k implies !matches_focus(#[trigger] front[i], focus) by {
            assert(front[i] == rules[i]);
        }
        law_first_match_wins(front, focus, k);
    } else {
        assert forall|i: int| 0 <= i < front.len() implies !matches_focus(
            #[trigger] front[i],
            focus,
        ) by {
            assert(front[i] == rules[i]);
        }
        lemma_no_match(front, focus);
    }
}

proof fn lemma_no_match(rules: Seq<RuleView>, focus: Seq<char>)
    requires
        forall|i: int| 0 <= i < rules.len() ==> !matches_focus(#[trigger] rules[i], focus),
    ensures
        decided(rules, focus) is None,
    decreases rules.len(),
{
    if rules.len() > 0 {
        let front = rules.drop_last();
        assert forall|i: int| 0 <= i < front.len() implies !matches_focus(
            #[trigger] front[i],
            focus,
        ) by {
            assert(front[i] == rules[i]);
        }
        lemma_no_match(front, focus);
        assert(!matches_focus(rules[rules.len() - 1], focus));
    }
}

/// A catch-all decides for every application that no rule before it matches, and what stands
/// behind it never counts.
pub proof fn law_catch_all_takes_the_rest(rules: Seq<RuleView>, focus: Seq<char>, k: int)
    requires
        0 <= k < rules.len(),
        is_catch_all(rules[k].pattern),
    ensures
        decided(rules, focus) == match decided(rules.take(k), focus) {
            Some(mode) => Some(mode),
            None => Some(rules[k].mode),
        },
    decreases rules.len(),
{
    let front = rules.drop_last();
    if k < front.len() {
        law_catch_all_takes_the_rest(front, focus, k);
        assert(front.take(k) =~= rules.take(k));
        assert(front[k] == rules[k]);
    } else {
        assert(front =~= rules.take(k));
    }
}

/// A rules file without a rule that matches leaves the focused application to the built-in
/// defaults, without the older list.
pub proof fn law_unmatched_is_built_in(
    rules: Seq<RuleView>,
    focus: Seq<char>,
    contents: Seq<char>,
    routing: RoutingView,
)
    requires
        focus.len() > 0,
        routing.rules == Some(contents),
        rules == rules_of(
            text::split(contents, Class::Is('\n')),
            default_keys(routing.paste_key),
        ),
        forall|i: int| 0 <= i < rules.len() ==> !matches_focus(#[trigger] rules[i], focus),
    ensures
        routed(focus, routing) == builtin_mode(focus, None, default_keys(routing.paste_key)),
{
    lemma_no_match(rules, focus);
}

/// The case of a pattern's ASCII letters does not matter.
pub proof fn law_patterns_ignore_case(pattern: Seq<char>, mode: ModeView, focus: Seq<char>)
    ensures
        matches_focus(RuleView { pattern, mode }, focus) == matches_focus(
            RuleView { pattern: unicode::ascii_lowercase(pattern), mode },
            focus,
        ),
{
    let small = unicode::ascii_lowercase(pattern);
    assert(unicode::ascii_lowercase(small) =~= small);
    reveal_strlit("*");
    if small == "*"@ {
        assert(small.len() == 1 && small[0] == '*');
        assert(pattern.len() == 1);
        assert(unicode::lower(pattern[0]) == '*');
        assert(pattern =~= "*"@);
    }
    if pattern == "*"@ {
        assert(small =~= "*"@);
    }
}

/// A comment changes nothing: what follows the first `#` on a line does not count.
pub proof fn law_comments_do_not_count(
    line: Seq<char>,
    comment: Seq<char>,
    default: Seq<char>,
)
    ensures
        rule_of(line.push('#') + comment, default) == rule_of(line, default),
{
    let class = Class::Is('#');
    text::lemma_split_len(line, class);
    assert(line.push('#').drop_last() =~= line);
    assert(text::split(line.push('#'), class) == text::split(line, class).push(Seq::empty()));
    lemma_first_piece(line.push('#'), comment, class);
}

proof fn lemma_first_piece(s: Seq<char>, more: Seq<char>, class: Class)
    requires
        text::split(s, class).len() > 1,
    ensures
        text::split(s + more, class).len() > 1,
        text::split(s + more, class)[0] == text::split(s, class)[0],
    decreases more.len(),
{
    if more.len() == 0 {
        assert(s + more =~= s);
    } else {
        lemma_first_piece(s, more.drop_last(), class);
        assert((s + more).drop_last() =~= s + more.drop_last());
    }
}

/// A rule with an unknown mode pastes, with its option or the default as the combination.
pub proof fn law_unknown_modes_paste(mode: Seq<char>, option: Option<Seq<char>>, default: Seq<char>)
    requires
        ({
            let m = unicode::ascii_lowercase(mode);
            m != "clipboard"@ && m != "copy"@ && m != "emit"@ && m != "send"@ && m != "system"@
        }),
    ensures
        mode_of(mode, option, default) == (ModeView::Paste {
            combo: match option {
                Some(combo) => combo,
                None => default,
            },
        }),
{
}

/// A mode is known by its names in any case, and by these only.
pub proof fn law_mode_names(mode: Seq<char>, option: Option<Seq<char>>, default: Seq<char>)
    ensures
        ({
            let m = unicode::ascii_lowercase(mode);
            let r = mode_of(mode, option, default);
            &&& r == ModeView::Clipboard <==> m == "clipboard"@ || m == "copy"@
            &&& r == ModeView::Emit <==> m == "emit"@ || m == "send"@
            &&& r == ModeView::System <==> m == "system"@
            &&& r is Paste && option is Some ==> r->combo == option->0
            &&& r is Paste && option is None ==> r->combo == default
        }),
{
    reveal_strlit("clipboard");
    reveal_strlit("copy");
    reveal_strlit("emit");
    reveal_strlit("send");
    reveal_strlit("system");
    assert("clipboard"@.len() == 9);
    assert("copy"@.len() == 4 && "copy"@[0] == 'c');
    assert("emit"@.len() == 4 && "emit"@[0] == 'e');
    assert("send"@.len() == 4 && "send"@[0] == 's');
    assert("system"@.len() == 6);
}

/// In messages a mode goes by its name, whatever combination it holds.
pub proof fn law_mode_labels(mode: ModeView)
    ensures
        mode is Paste ==> mode.name() == "paste"@,
        mode is Clipboard ==> mode.name() == "clipboard"@,
        mode is Emit ==> mode.name() == "emit"@,
        mode is System ==> mode.name() == "system"@,
{
}

/// A line without a comment is a rule exactly if it has a word: the first is the pattern, the
/// second the mode (`paste` if there is none), the third the option; further words do not count.
pub proof fn law_columns(line: Seq<char>, default: Seq<char>)
    requires
        forall|i: int| 0 <= i < line.len() ==> #[trigger] line[i] != '#',
    ensures
        ({
            let w = text::words(line);
            &&& w.len() == 0 ==> rule_of(line, default) is None
            &&& w.len() == 1 ==> rule_of(line, default) == Some(
                RuleView { pattern: w[0], mode: mode_of("paste"@, None, default) },
            )
            &&& w.len() == 2 ==> rule_of(line, default) == Some(
                RuleView { pattern: w[0], mode: mode_of(w[1], None, default) },
            )
            &&& w.len() >= 3 ==> rule_of(line, default) == Some(
                RuleView { pattern: w[0], mode: mode_of(w[1], Some(w[2]), default) },
            )
        }),
{
    text::law_plain_text_is_one_piece(line, Class::Is('#'));
}

/// The rules of a file are those of its lines, in order, one line at a time.
pub proof fn law_rules_line_by_line(
    above: Seq<Seq<char>>,
    line: Seq<char>,
    below: Seq<Seq<char>>,
    default: Seq<char>,
)
    ensures
        rules_of(Seq::empty(), default) == Seq::<RuleView>::empty(),
        rule_of(line, default) is Some ==> rules_of(above.push(line) + below, default) == rules_of(
            above,
            default,
        ).push(rule_of(line, default)->0) + rules_of(below, default),
        rule_of(line, default) is None ==> rules_of(above.push(line) + below, default) == rules_of(
            above,
            default,
        ) + rules_of(below, default),
    decreases below.len(),
{
    let all = above.push(line) + below;
    if below.len() == 0 {
        assert(all =~= above.push(line));
        assert(all.drop_last() =~= above);
        assert(rules_of(below, default) =~= Seq::empty());
        assert(rules_of(above, default) + rules_of(below, default) =~= rules_of(above, default));
        if rule_of(line, default) is Some {
            assert(rules_of(all, default) =~= rules_of(above, default).push(
                rule_of(line, default)->0,
            ) + rules_of(below, default));
        }
    } else {
        law_rules_line_by_line(above, line, below.drop_last(), default);
        assert(all.drop_last() =~= above.push(line) + below.drop_last());
        assert(all.last() == below.last());
        let head = if rule_of(line, default) is Some {
            rules_of(above, default).push(rule_of(line, default)->0)
        } else {
            rules_of(above, default)
        };
        assert(rules_of(all, default) =~= head + rules_of(below, default));
    }
}

/// `*` matches anything; every other pattern matches exactly the ids that it occurs in, its
/// ASCII letters lowered.
pub proof fn law_patterns(pattern: Seq<char>, mode: ModeView, focus: Seq<char>)
    ensures
        matches_focus(RuleView { pattern: "*"@, mode }, focus),
        pattern != "*"@ ==> (matches_focus(RuleView { pattern, mode }, focus) <==> exists|at: int|
            0 <= at <= focus.len() && unicode::ascii_lowercase(pattern).is_prefix_of(
                #[trigger] focus.skip(at),
            )),
{
    text::law_contains(
        focus,
        unicode::ascii_lowercase(pattern),
        Seq::empty(),
        Seq::empty(),
    );
}

/// Where no rule matches, nothing is decided.
pub proof fn law_no_match_decides_nothing(rules: Seq<RuleView>, focus: Seq<char>)
    requires
        forall|i: int| 0 <= i < rules.len() ==> !matches_focus(#[trigger] rules[i], focus),
    ensures
        decided(rules, focus) is None,
{
    lemma_no_match(rules, focus);
}

/// A rules file that has a matching rule decides: the mode for the focused application is that
/// of the first such rule, as it stands in the file. A rule without a combination of its own has
/// the configured one, or `ctrl+v` where none is configured. The older list does not count.
pub proof fn law_matching_rule_is_the_mode(
    focus: Seq<char>,
    contents: Seq<char>,
    routing: RoutingView,
    default: Seq<char>,
    rules: Seq<RuleView>,
    k: int,
)
    requires
        focus.len() > 0,
        routing.rules == Some(contents),
        routing.paste_key is Some ==> default == routing.paste_key->0,
        routing.paste_key is None ==> default == "ctrl+v"@,
        rules == rules_of(text::split(contents, Class::Is('\n')), default),
        0 <= k < rules.len(),
        matches_focus(rules[k], focus),
        forall|i: int| 0 <= i < k ==> !matches_focus(#[trigger] rules[i], focus),
    ensures
        routed(focus, routing) == rules[k].mode,
{
    law_first_match_wins(rules, focus, k);
}

/// The contents of a rules file decide by their lines.
pub proof fn law_file_decides_by_its_lines(
    contents: Seq<char>,
    focus: Seq<char>,
    default: Seq<char>,
    k: int,
)
    ensures
        ({
            let rules = rules_of(text::split(contents, Class::Is('\n')), default);
            &&& 0 <= k < rules.len() && matches_focus(rules[k], focus) && (forall|i: int|
                0 <= i < k ==> !matches_focus(#[trigger] rules[i], focus)) ==> file_mode(
                contents,
                focus,
                default,
            ) == Some(rules[k].mode)
            &&& (forall|i: int|
                0 <= i < rules.len() ==> !matches_focus(#[trigger] rules[i], focus)) ==> file_mode(
                contents,
                focus,
                default,
            ) is None
        }),
{
    let rules = rules_of(text::split(contents, Class::Is('\n')), default);
    if 0 <= k < rules.len() && matches_focus(rules[k], focus) && (forall|i: int|
        0 <= i < k ==> !matches_focus(#[trigger] rules[i], focus)) {
        law_first_match_wins(rules, focus, k);
    }
    if forall|i: int| 0 <= i < rules.len() ==> !matches_focus(#[trigger] rules[i], focus) {
        lemma_no_match(rules, focus);
    }
}

/// The combination that pastes by default is the configured one, whatever it is.
pub proof fn law_default_combination(key: Seq<char>)
    ensures
        default_keys(Some(key)) == key,
        default_keys(None) == "ctrl+v"@,
{
}

/// An entry of the older list is a pattern, the first `=`, and a combination, with white space
/// around either; it counts exactly for the ids that its pattern, which may not be empty, occurs
/// in.
pub proof fn law_older_entries(
    p: Seq<char>,
    pattern: Seq<char>,
    q: Seq<char>,
    u: Seq<char>,
    combo: Seq<char>,
    v: Seq<char>,
    focus: Seq<char>,
)
    requires
        forall|i: int| 0 <= i < p.len() ==> unicode::whitespace(#[trigger] p[i]),
        forall|i: int| 0 <= i < q.len() ==> unicode::whitespace(#[trigger] q[i]),
        forall|i: int| 0 <= i < u.len() ==> unicode::whitespace(#[trigger] u[i]),
        forall|i: int| 0 <= i < v.len() ==> unicode::whitespace(#[trigger] v[i]),
        pattern.len() > 0 ==> !unicode::whitespace(pattern[0]) && !unicode::whitespace(
            pattern.last(),
        ),
        combo.len() > 0 ==> !unicode::whitespace(combo[0]) && !unicode::whitespace(combo.last()),
        forall|i: int| 0 <= i < pattern.len() ==> #[trigger] pattern[i] != '=',
    ensures
        ({
            let entry = (p + pattern + q) + seq!['='] + (u + combo + v);
            entry_keys(entry, focus) == if pattern.len() > 0 && text::contains(
                focus,
                unicode::ascii_lowercase(pattern),
            ) {
                Some(combo)
            } else {
                None
            }
        }),
        entry_keys(p + pattern + q, focus) is None,
{
    let left = p + pattern + q;
    let right = u + combo + v;
    text::law_trim(p, pattern, q);
    text::law_trim(u, combo, v);
    assert forall|i: int| 0 <= i < left.len() implies #[trigger] left[i] != '=' by {
        if i < p.len() {
            assert(left[i] == p[i]);
        } else if i < p.len() + pattern.len() {
            assert(left[i] == pattern[i - p.len()]);
        } else {
            assert(left[i] == q[i - p.len() - pattern.len()]);
        }
    }
    text::law_split_once(left, '=', right);
}

/// Of the older list the first entry that counts decides.
pub proof fn law_older_list(above: Seq<Seq<char>>, entry: Seq<char>, focus: Seq<char>)
    ensures
        legacy_keys(Seq::empty(), focus) is None,
        legacy_keys(above, focus) is Some ==> legacy_keys(above.push(entry), focus) == legacy_keys(
            above,
            focus,
        ),
        legacy_keys(above, focus) is None ==> legacy_keys(above.push(entry), focus) == entry_keys(
            entry,
            focus,
        ),
{
    assert(above.push(entry).drop_last() =~= above);
}

/// Without a rules file an application is pasted into: with the combination that the older list
/// has for it, else with the default one; where the list is not set, one terminal has its own.
/// Only the desktop shell gets a copy.
pub proof fn law_without_a_rules_file(focus: Seq<char>, routing: RoutingView)
    requires
        focus.len() > 0,
        routing.rules is None,
    ensures
        ({
            let list = match routing.paste_rules {
                Some(l) => l,
                None => "ghostty=ctrl+shift+v"@,
            };
            let listed = legacy_keys(text::split(list, Class::Is(';')), focus);
            let r = routed(focus, routing);
            &&& text::contains(focus, "plasmashell"@) ==> r == ModeView::Clipboard
            &&& !text::contains(focus, "plasmashell"@) ==> r is Paste
            &&& r is Paste && listed is Some ==> r->combo == listed->0
            &&& r is Paste && listed is None && routing.paste_key is Some ==> r->combo
                == routing.paste_key->0
            &&& r is Paste && listed is None && routing.paste_key is None ==> r->combo == "ctrl+v"@
        }),
{
}

/// Where a rules file has no rule that matches, an application is pasted into with the default
/// combination, and only the desktop shell gets a copy; the older list does not count.
pub proof fn law_unmatched_is_pasted(focus: Seq<char>, contents: Seq<char>, routing: RoutingView)
    requires
        focus.len() > 0,
        routing.rules == Some(contents),
        file_mode(contents, focus, default_keys(routing.paste_key)) is None,
    ensures
        ({
            let r = routed(focus, routing);
            &&& text::contains(focus, "plasmashell"@) ==> r == ModeView::Clipboard
            &&& !text::contains(focus, "plasmashell"@) ==> r is Paste
            &&& r is Paste && routing.paste_key is Some ==> r->combo == routing.paste_key->0
            &&& r is Paste && routing.paste_key is None ==> r->combo == "ctrl+v"@
        }),
{
}

/// The built-in defaults, for every id, list and default combination.
pub proof fn law_built_in(focus: Seq<char>, list: Seq<char>, default: Seq<char>)
    ensures
        focus.len() == 0 || text::contains(focus, "plasmashell"@) ==> builtin_mode(
            focus,
            Some(list),
            default,
        ) == ModeView::Clipboard && builtin_mode(focus, None, default) == ModeView::Clipboard,
        focus.len() > 0 && !text::contains(focus, "plasmashell"@) ==> ({
            let listed = legacy_keys(text::split(list, Class::Is(';')), focus);
            &&& builtin_mode(focus, None, default) == (ModeView::Paste { combo: default })
            &&& listed is None ==> builtin_mode(focus, Some(list), default) == (ModeView::Paste {
                combo: default,
            })
            &&& listed is Some ==> builtin_mode(focus, Some(list), default) == (ModeView::Paste {
                combo: listed->0,
            })
        }),
{
}

/// A mode and a routing stand for themselves, with nothing left out.
pub proof fn law_mode_views_are_faithful(mode: Mode, routing: Routing, s: Option<String>)
    ensures
        mode matches Mode::Paste { combo } ==> mode@ == (ModeView::Paste { combo: combo@ }),
        mode is Clipboard ==> mode@ == ModeView::Clipboard,
        mode is Emit ==> mode@ == ModeView::Emit,
        mode is System ==> mode@ == ModeView::System,
        s is Some ==> text_of(s) == Some(s->0@),
        s is None ==> text_of(s) is None,
        routing@.rules == text_of(routing.rules),
        routing@.paste_rules == text_of(routing.paste_rules),
        routing@.paste_key == text_of(routing.paste_key),
{
}

} // verus!
