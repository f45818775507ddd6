//! Status messages for external listeners, and where they are published.
//!
//! The current status is one JSON object, `{"state":...,"level":...,"ts":...}`, in a status file
//! and in an older alias of it; transitions are appended to an event log.

use vstd::prelude::*;

use crate::bus;
use crate::text;
use crate::text::{chars_of, equals};
use crate::unicode;

verus! {

/// What the daemon is doing, for listeners.
#[derive(Clone, Copy, Debug, PartialEq, Eq, Structural)]
pub enum Status {
    Idle,
    Listening,
    Processing,
    Done,
    Error,
}

impl Status {
    /// The name of the status in messages.
    pub open spec fn name(self) -> Seq<char> {
        match self {
            Status::Idle => "idle"@,
            Status::Listening => "listening"@,
            Status::Processing => "processing"@,
            Status::Done => "done"@,
            Status::Error => "error"@,
        }
    }

    /// The name of the status in messages.
    pub fn label(self) -> (r: &'static str)
        ensures
            r@ == self.name(),
    {
        match self {
            Status::Idle => "idle",
            Status::Listening => "listening",
            Status::Processing => "processing",
            Status::Done => "done",
            Status::Error => "error",
        }
    }
}

/// The path of the entry `name`, which is relative, in the directory `base`.
pub open spec fn joined(base: Seq<char>, name: Seq<char>) -> Seq<char> {
    if base.len() == 0 {
        name
    } else if base.last() == '/' {
        base + name
    } else {
        base.push('/') + name
    }
}

/// The text of an optional setting.
pub open spec fn setting(v: Option<&str>) -> Option<Seq<char>> {
    match v {
        Some(s) => Some(s@),
        None => None,
    }
}

/// The user's directory for some kind of files: the one configured, else the one named `fallback`
/// in the home directory, else `/tmp`.
pub open spec fn user_dir(
    configured: Option<Seq<char>>,
    home: Option<Seq<char>>,
    fallback: Seq<char>,
) -> Seq<char> {
    match (configured, home) {
        (Some(dir), _) => dir,
        (None, Some(dir)) => joined(dir, fallback),
        (None, None) => "/tmp"@,
    }
}

/// The cache directory.
pub open spec fn cache(xdg_cache: Option<Seq<char>>, home: Option<Seq<char>>) -> Seq<char> {
    joined(user_dir(xdg_cache, home, ".cache"@), "voicechat"@)
}

/// The configured path, else the entry `name` of the cache directory.
pub open spec fn configured(
    path: Option<Seq<char>>,
    name: Seq<char>,
    xdg_cache: Option<Seq<char>>,
    home: Option<Seq<char>>,
) -> Seq<char> {
    match path {
        Some(p) => p,
        None => joined(cache(xdg_cache, home), name),
    }
}

/// Puts the relative path `name` behind the directory `base`.
pub fn join_path(base: &str, name: &str) -> (r: String)
    ensures
        r@ == joined(base@, name@),
{
    let dir = chars_of(base);
    let mut out = base.to_owned();
    if dir.len() > 0 && dir[dir.len() - 1] != '/' {
        out.push('/');
    }
    out.append(name);
    if dir.len() == 0 {
        assert(out@ =~= name@);
    }
    out
}

/// The user's directory for some kind of files.
pub fn user_directory(configured: Option<&str>, home: Option<&str>, fallback: &str) -> (r: String)
    ensures
        r@ == user_dir(setting(configured), setting(home), fallback@),
{
    match configured {
        Some(dir) => dir.to_owned(),
        None => match home {
            Some(dir) => join_path(dir, fallback),
            None => "/tmp".to_owned(),
        },
    }
}

/// The cache directory, from `XDG_CACHE_HOME` and `HOME`.
pub fn cache_dir(xdg_cache: Option<&str>, home: Option<&str>) -> (r: String)
    ensures
        r@ == cache(setting(xdg_cache), setting(home)),
{
    join_path(user_directory(xdg_cache, home, ".cache").as_str(), "voicechat")
}

/// The configured path, else the entry `name` of the cache directory.
pub fn configured_path(
    path: Option<&str>,
    name: &str,
    xdg_cache: Option<&str>,
    home: Option<&str>,
) -> (r: String)
    ensures
        r@ == configured(setting(path), name@, setting(xdg_cache), setting(home)),
{
    match path {
        Some(p) => p.to_owned(),
        None => join_path(cache_dir(xdg_cache, home).as_str(), name),
    }
}

/// The status file.
pub fn status_path(path: Option<&str>, xdg_cache: Option<&str>, home: Option<&str>) -> (r: String)
    ensures
        r@ == configured(setting(path), "status.json"@, setting(xdg_cache), setting(home)),
{
    configured_path(path, "status.json", xdg_cache, home)
}

/// The older alias of the status file. It cannot be configured.
pub fn legacy_state_path(xdg_cache: Option<&str>, home: Option<&str>) -> (r: String)
    ensures
        r@ == joined(cache(setting(xdg_cache), setting(home)), "state.json"@),
{
    join_path(cache_dir(xdg_cache, home).as_str(), "state.json")
}

/// The event log.
pub fn events_path(path: Option<&str>, xdg_cache: Option<&str>, home: Option<&str>) -> (r: String)
    ensures
        r@ == configured(setting(path), "events.jsonl"@, setting(xdg_cache), setting(home)),
{
    configured_path(path, "events.jsonl", xdg_cache, home)
}

/// The file that holds the focus hint.
pub fn active_window_file(
    path: Option<&str>,
    xdg_cache: Option<&str>,
    home: Option<&str>,
) -> (r: String)
    ensures
        r@ == configured(setting(path), "active-window"@, setting(xdg_cache), setting(home)),
{
    configured_path(path, "active-window", xdg_cache, home)
}

/// A status message. `level` and `ts` are numbers already written out.
pub open spec fn status_message(state: Seq<char>, level: Seq<char>, ts: Seq<char>) -> Seq<char> {
    "{\"state\":\""@ + state + "\",\"level\":"@ + level + ",\"ts\":"@ + ts + "}"@
}

/// A status message. `level` and `ts` are numbers already written out.
pub fn json_body(state: &str, level: &str, ts: &str) -> (r: String)
    ensures
        r@ == status_message(state@, level@, ts@),
{
    let mut out = "{\"state\":\"".to_owned();
    out.append(state);
    out.append("\",\"level\":");
    out.append(level);
    out.append(",\"ts\":");
    out.append(ts);
    out.append("}");
    out
}

/// The state, the level and the time in a status message, as a JSON reader sees them.
pub open spec fn read_status(message: Seq<char>) -> Option<(Seq<char>, Seq<char>, Seq<char>)> {
    match bus::read_field("{\"state\":\""@, message) {
        Some((state, a)) => match bus::read_exactly(",\"level\":"@, a) {
            Some(b) => match text::split_once(b, ',') {
                Some((level, c)) => match bus::read_exactly("\"ts\":"@, c) {
                    Some(d) => match text::split_once(d, '}') {
                        Some((ts, rest)) => if rest.len() == 0 {
                            Some((state, level, ts))
                        } else {
                            None
                        },
                        None => None,
                    },
                    None => None,
                },
                None => None,
            },
            None => None,
        },
        None => None,
    }
}

/// The characters of a decimal number.
pub open spec fn numeric(s: Seq<char>) -> bool {
    forall|i: int|
        0 <= i < s.len() ==> unicode::ascii_digit(#[trigger] s[i]) || s[i] == '.' || s[i] == '-'
}

proof fn lemma_plain(s: Seq<char>)
    requires
        forall|i: int| 0 <= i < s.len() ==> 'a' <= #[trigger] s[i] <= 'z',
    ensures
        bus::escaped(s) == s,
    decreases s.len(),
{
    if s.len() > 0 {
        let front = s.drop_last();
        assert forall|i: int| 0 <= i < front.len() implies 'a' <= #[trigger] front[i] <= 'z' by {
            assert(front[i] == s[i]);
        }
        lemma_plain(front);
        let last = s[s.len() - 1];
        assert(bus::escaped_char(last) =~= seq![last]);
        assert(bus::escaped(s) =~= s);
    }
}

proof fn lemma_names_are_plain(status: Status)
    ensures
        forall|i: int| 0 <= i < status.name().len() ==> 'a' <= #[trigger] status.name()[i] <= 'z',
{
    reveal_strlit("idle");
    reveal_strlit("listening");
    reveal_strlit("processing");
    reveal_strlit("done");
    reveal_strlit("error");
}

proof fn lemma_split_once(a: Seq<char>, c: char, b: Seq<char>)
    requires
        forall|i: int| 0 <= i < a.len() ==> #[trigger] a[i] != c,
    ensures
        text::split_once(a + seq![c] + b, c) == Some((a, b)),
{
    let s = a + seq![c] + b;
    lemma_before(a, c, b);
    assert(s.take(a.len() as int) =~= a);
    assert(s.skip(a.len() as int + 1) =~= b);
}

proof fn lemma_before(a: Seq<char>, c: char, b: Seq<char>)
    requires
        forall|i: int| 0 <= i < a.len() ==> #[trigger] a[i] != c,
    ensures
        text::before(a + seq![c] + b, c) == a.len(),
    decreases a.len(),
{
    let s = a + seq![c] + b;
    if a.len() == 0 {
        assert(s[0] == c);
    } else {
        let rest = a.drop_first();
        assert forall|i: int| 0 <= i < rest.len() implies #[trigger] rest[i] != c by {
            assert(rest[i] == a[i + 1]);
        }
        lemma_before(rest, c, b);
        assert(s[0] == a[0]);
        assert(s.drop_first() =~= rest + seq![c] + b);
    }
}

/// A listener that reads a status message gets back the status, the level and the time that were
/// published.
pub proof fn law_status_reads_back(status: Status, level: Seq<char>, ts: Seq<char>)
    requires
        numeric(level),
        numeric(ts),
    ensures
        read_status(status_message(status.name(), level, ts)) == Some((status.name(), level, ts)),
{
    reveal_strlit("\",\"level\":");
    reveal_strlit(",\"level\":");
    reveal_strlit(",\"ts\":");
    reveal_strlit("\"ts\":");
    reveal_strlit("}");
    let state = status.name();
    let none = Seq::<char>::empty();
    let q: Seq<char> = seq!['"'];
    let comma: Seq<char> = seq![','];
    let close: Seq<char> = seq!['}'];
    let start = "{\"state\":\""@;
    assert("\",\"level\":"@ =~= q + ",\"level\":"@);
    assert(",\"ts\":"@ =~= comma + "\"ts\":"@);
    assert("}"@ =~= close);
    let d = ts + close + none;
    let c = "\"ts\":"@ + d;
    let b = level + comma + c;
    let a = ",\"level\":"@ + b;
    lemma_names_are_plain(status);
    lemma_plain(state);
    assert(status_message(state, level, ts) =~= start + (bus::escaped(state) + q + a));
    bus::lemma_read_exactly(start, bus::escaped(state) + q + a);
    bus::law_escaped_text_reads_back(state, a);
    bus::lemma_read_exactly(",\"level\":"@, b);
    lemma_split_once(level, ',', c);
    bus::lemma_read_exactly("\"ts\":"@, d);
    lemma_split_once(ts, '}', none);
}

/// A status message holds no line break, so the event log has one message per line.
pub proof fn law_status_is_one_line(status: Status, level: Seq<char>, ts: Seq<char>, i: int)
    requires
        numeric(level),
        numeric(ts),
        0 <= i < status_message(status.name(), level, ts).len(),
    ensures
        status_message(status.name(), level, ts)[i] != '\n',
{
    reveal_strlit("{\"state\":\"");
    reveal_strlit("\",\"level\":");
    reveal_strlit(",\"ts\":");
    reveal_strlit("}");
    lemma_names_are_plain(status);
    let state = status.name();
    let a = "{\"state\":\""@;
    let b = a + state;
    let c = b + "\",\"level\":"@;
    let d = c + level;
    let e = d + ",\"ts\":"@;
    let f = e + ts;
    let m = status_message(state, level, ts);
    if a.len() <= i < b.len() {
        assert(m[i] == state[i - a.len()]);
    } else if c.len() <= i < d.len() {
        assert(m[i] == level[i - c.len()]);
    } else if e.len() <= i < f.len() {
        assert(m[i] == ts[i - e.len()]);
    }
}

/// The states that a log records of a run of published states: each one that differs from the
/// one before it.
pub open spec fn transitions(states: Seq<Seq<char>>) -> Seq<Seq<char>>
    decreases states.len(),
{
    if states.len() == 0 {
        Seq::empty()
    } else {
        let before = transitions(states.drop_last());
        if states.len() > 1 && states[states.len() - 2] == states.last() {
            before
        } else {
            before.push(states.last())
        }
    }
}

/// Remembers the last state that was published, so that only transitions are logged.
pub struct TransitionLog {
    pub last: Option<String>,
}

impl TransitionLog {
    /// The last state that was published.
    pub open spec fn last_state(self) -> Option<Seq<char>> {
        match self.last {
            Some(s) => Some(s@),
            None => None,
        }
    }

    /// Nothing was published yet.
    pub fn new() -> (r: TransitionLog)
        ensures
            r.last_state() is None,
    {
        TransitionLog { last: None }
    }

    /// Takes in a published state and tells if it is a transition, which is to be logged.
    pub fn record(&mut self, state: &str) -> (r: bool)
        ensures
            final(self).last_state() == Some(state@),
            r == (old(self).last_state() != Some(state@)),
    {
        let same = match &self.last {
            Some(last) => equals(&chars_of(last.as_str()), state),
            None => false,
        };
        if !same {
            self.last = Some(state.to_owned());
        }
        !same
    }
}

/// Recording a run of states one after the other logs its transitions: the log has one entry
/// more exactly when the new state is not the last one.
pub proof fn law_log_holds_transitions(states: Seq<Seq<char>>, state: Seq<char>)
    ensures
        transitions(states.push(state)) == if states.len() > 0 && states.last() == state {
            transitions(states)
        } else {
            transitions(states).push(state)
        },
        states.len() > 0 ==> transitions(states).len() > 0 && transitions(states).last()
            == states.last(),
        forall|i: int|
            0 <= i < transitions(states).len() - 1 ==> #[trigger] transitions(states)[i]
                != transitions(states)[i + 1],
    decreases states.len(),
{
    assert(states.push(state).drop_last() =~= states);
    if states.len() > 0 {
        law_log_holds_transitions(states.drop_last(), states.last());
        assert(states.drop_last().push(states.last()) =~= states);
    }
}

/// A path is joined with one slash: none is added where there is one or where there is nothing
/// before it.
pub proof fn law_joined_paths(base: Seq<char>, name: Seq<char>)
    ensures
        joined(Seq::empty(), name) == name,
        joined(base.push('/'), name) == base.push('/') + name,
        base.len() > 0 && base.last() != '/' ==> joined(base, name) == base + seq!['/'] + name,
{
    if base.len() > 0 && base.last() != '/' {
        assert(joined(base, name) =~= base + seq!['/'] + name);
    }
}

/// What is configured counts, wherever it points; without it files go below the home directory,
/// and without that below `/tmp`.
pub proof fn law_directories(
    dir: Seq<char>,
    home: Seq<char>,
    any: Option<Seq<char>>,
    path: Seq<char>,
    name: Seq<char>,
)
    ensures
        user_dir(Some(dir), any, name) == dir,
        user_dir(None, Some(home), name) == joined(home, name),
        user_dir(None, None, name) == "/tmp"@,
        cache(Some(dir), any) == joined(dir, "voicechat"@),
        cache(None, Some(home)) == joined(joined(home, ".cache"@), "voicechat"@),
        cache(None, None) == joined("/tmp"@, "voicechat"@),
        configured(Some(path), name, Some(dir), any) == path,
        configured(Some(path), name, None, any) == path,
        configured(None, name, Some(dir), any) == joined(joined(dir, "voicechat"@), name),
        configured(None, name, None, any) == joined(cache(None, any), name),
{
}

/// The states go by these names, no two by the same.
pub proof fn law_status_names(a: Status, b: Status)
    ensures
        a == Status::Idle ==> a.name() == "idle"@,
        a == Status::Listening ==> a.name() == "listening"@,
        a == Status::Processing ==> a.name() == "processing"@,
        a == Status::Done ==> a.name() == "done"@,
        a == Status::Error ==> a.name() == "error"@,
        a.name() == b.name() ==> a == b,
{
    reveal_strlit("idle");
    reveal_strlit("listening");
    reveal_strlit("processing");
    reveal_strlit("done");
    reveal_strlit("error");
    assert("idle"@.len() == 4 && "idle"@[0] == 'i');
    assert("done"@.len() == 4 && "done"@[0] == 'd');
    assert("listening"@.len() == 9);
    assert("processing"@.len() == 10);
    assert("error"@.len() == 5);
}

/// A status message has its three fields in their order, each as it was given.
pub proof fn law_status_shape(state: Seq<char>, level: Seq<char>, ts: Seq<char>)
    ensures
        ({
            let m = status_message(state, level, ts);
            let a = "{\"state\":\""@.len() as int;
            let b = a + state.len();
            let c = b + "\",\"level\":"@.len();
            let d = c + level.len();
            let e = d + ",\"ts\":"@.len();
            &&& m.subrange(0, a) == "{\"state\":\""@
            &&& m.subrange(a, b) == state
            &&& m.subrange(b, c) == "\",\"level\":"@
            &&& m.subrange(c, d) == level
            &&& m.subrange(d, e) == ",\"ts\":"@
            &&& m.skip(e) == ts + "}"@
        }),
{
    let m = status_message(state, level, ts);
    let a = "{\"state\":\""@.len() as int;
    let b = a + state.len();
    let c = b + "\",\"level\":"@.len();
    let d = c + level.len();
    let e = d + ",\"ts\":"@.len();
    assert(m.subrange(0, a) =~= "{\"state\":\""@);
    assert(m.subrange(a, b) =~= state);
    assert(m.subrange(b, c) =~= "\",\"level\":"@);
    assert(m.subrange(c, d) =~= level);
    assert(m.subrange(d, e) =~= ",\"ts\":"@);
    assert(m.skip(e) =~= ts + "}"@);
}

/// A setting and a remembered state are the texts that they hold.
pub proof fn law_settings_are_their_texts(v: Option<&str>, log: TransitionLog)
    ensures
        v is Some ==> setting(v) == Some(v->0@),
        v is None ==> setting(v) is None,
        log.last is Some ==> log.last_state() == Some(log.last->0@),
        log.last is None ==> log.last_state() is None,
        transitions(Seq::empty()) == Seq::<Seq<char>>::empty(),
{
}

} // verus!
