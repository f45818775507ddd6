//! The dictation cycle as a state machine.
//!
//! The daemon is told of one [`Event`] at a time and answers with the [`Action`] to perform. The
//! outcome of an action comes back as the next event. Requests from outside (the hotkey, a key,
//! a signal) are handed over while the daemon is idle or listening.

use vstd::prelude::*;

use crate::clean;
use crate::clean::strip_fillers;
use crate::focus;
use crate::focus::no_window_focused;
use crate::number;
use crate::paste;
use crate::paste::StepView;
use crate::rules::RoutingView;
use crate::state;
use crate::state::{join_path, Status};
use crate::text;
use crate::text::{chars_of, equals, string_of};

verus! {

/// How long, in nanoseconds, a toggle is taken for the echo of the key that ended the recording.
pub const ECHO_GUARD_NS: u64 = 600_000_000;

/// How long, in milliseconds, it is shown that a transcript was delivered.
pub const DONE_MS: u64 = 250;

/// How long, in milliseconds, an error is shown.
pub const ERROR_MS: u64 = 1100;

/// What ended a recording.
#[derive(Clone, Copy, Debug, PartialEq, Eq, Structural)]
pub enum Reason {
    /// The hotkey, the taskbar or the command line.
    Toggle,
    /// A key press.
    AnyKey,
}

/// How a cycle ended.
#[derive(Clone, Copy, Debug, PartialEq, Eq, Structural)]
pub enum Ending {
    /// The microphone could not be opened.
    CaptureFailed,
    /// Too little audio was recorded; the cycle is a no-op.
    TooShort,
    /// The transcript was handed over.
    Delivered,
    /// Nothing was left of the transcript.
    Empty,
    /// There is no transcript.
    TranscribeFailed,
}

/// Where in the dictation cycle the daemon is.
#[derive(Clone, Copy, Debug, PartialEq, Eq, Structural)]
pub enum Phase {
    /// Waiting for a toggle.
    Idle,
    /// Waiting for the focus hint.
    CheckingFocus,
    /// Waiting for the microphone.
    Starting,
    /// Recording.
    Listening,
    /// Waiting for the recording.
    Stopping(Reason),
    /// Waiting for the transcript.
    Transcribing(Reason),
    /// Waiting for the transcript to be handed over.
    Delivering(Reason),
    /// Showing how the cycle ended. Without a reason, nothing was recorded.
    Settling(Option<Reason>),
    /// Shut down.
    Down,
}

/// What the daemon reacts to.
#[derive(Clone, Debug)]
pub enum Event {
    /// The push-to-talk hotkey, at a time in nanoseconds.
    Toggle { now: u64 },
    /// A key was pressed while listening.
    KeyFinish,
    /// A request to shut down.
    Shutdown,
    /// The contents of the focus hint; empty if there is none.
    Focus { hint: String },
    /// The microphone is open.
    Started,
    /// The microphone could not be opened.
    StartFailed,
    /// The recording has ended with so many samples at so many per second.
    Recorded { samples: usize, sample_rate: u32 },
    /// The transcript of the recording.
    Transcript { text: String },
    /// The recording could not be transcribed.
    TranscribeFailed,
    /// The transcript was handed over, or that failed.
    Handed,
    /// The closing status was shown, until a time in nanoseconds.
    Settled { now: u64 },
}

/// What the daemon wants done.
#[derive(Clone, Debug)]
pub enum Action {
    /// Nothing.
    Ignore,
    /// Read the focus hint.
    ReadFocus,
    /// Start the voice-command agent.
    HandOff,
    /// Open the microphone.
    StartCapture,
    /// Publish levels and watch the keyboard while the recording goes on.
    Listen,
    /// End the recording.
    StopCapture(Reason),
    /// Have the recording transcribed.
    Transcribe,
    /// Hand a transcript over: as it was heard to the listeners, cleaned to the focused
    /// application.
    Deliver { raw: String, text: String },
    /// Show how the cycle ended.
    Settle(Ending),
    /// Release everything, with or without a recording under way.
    CleanUp { recording: bool },
}

/// An [`Event`] with its texts.
pub enum EventView {
    Toggle { now: u64 },
    KeyFinish,
    Shutdown,
    Focus { hint: Seq<char> },
    Started,
    StartFailed,
    Recorded { samples: usize, sample_rate: u32 },
    Transcript { text: Seq<char> },
    TranscribeFailed,
    Handed,
    Settled { now: u64 },
}

/// An [`Action`] with its texts.
pub enum ActionView {
    Ignore,
    ReadFocus,
    HandOff,
    StartCapture,
    Listen,
    StopCapture(Reason),
    Transcribe,
    Deliver { raw: Seq<char>, text: Seq<char> },
    Settle(Ending),
    CleanUp { recording: bool },
}

impl View for Event {
    type V = EventView;

    open spec fn view(&self) -> EventView {
        match self {
            Event::Toggle { now } => EventView::Toggle { now: *now },
            Event::KeyFinish => EventView::KeyFinish,
            Event::Shutdown => EventView::Shutdown,
            Event::Focus { hint } => EventView::Focus { hint: hint@ },
            Event::Started => EventView::Started,
            Event::StartFailed => EventView::StartFailed,
            Event::Recorded { samples, sample_rate } => EventView::Recorded {
                samples: *samples,
                sample_rate: *sample_rate,
            },
            Event::Transcript { text } => EventView::Transcript { text: text@ },
            Event::TranscribeFailed => EventView::TranscribeFailed,
            Event::Handed => EventView::Handed,
            Event::Settled { now } => EventView::Settled { now: *now },
        }
    }
}

impl View for Action {
    type V = ActionView;

    open spec fn view(&self) -> ActionView {
        match self {
            Action::Ignore => ActionView::Ignore,
            Action::ReadFocus => ActionView::ReadFocus,
            Action::HandOff => ActionView::HandOff,
            Action::StartCapture => ActionView::StartCapture,
            Action::Listen => ActionView::Listen,
            Action::StopCapture(reason) => ActionView::StopCapture(*reason),
            Action::Transcribe => ActionView::Transcribe,
            Action::Deliver { raw, text } => ActionView::Deliver { raw: raw@, text: text@ },
            Action::Settle(ending) => ActionView::Settle(*ending),
            Action::CleanUp { recording } => ActionView::CleanUp { recording: *recording },
        }
    }
}

/// The daemon's state.
#[derive(Clone, Copy, Debug, PartialEq, Eq, Structural)]
pub struct Daemon {
    /// Where in the cycle it is.
    pub phase: Phase,
    /// When the last recording that a key ended was dealt with.
    pub last_keystop: Option<u64>,
}

/// A recording of under a fifth of a second is taken for an accidental tap.
pub open spec fn too_short(samples: int, sample_rate: int) -> bool {
    samples < sample_rate / 5
}

/// A toggle at `now` is the echo of a key press dealt with at `keystop`.
pub open spec fn is_echo(keystop: Option<u64>, now: u64) -> bool {
    match keystop {
        Some(t) => now < t + ECHO_GUARD_NS,
        None => false,
    }
}

impl Daemon {
    pub open spec fn to(self, phase: Phase) -> Daemon {
        Daemon { phase, last_keystop: self.last_keystop }
    }

    /// The state and the action that follow an event. An event that does not belong to the
    /// phase changes nothing.
    pub open spec fn next(self, event: EventView, fillers: Seq<Seq<char>>) -> (
        Daemon,
        ActionView,
    ) {
        match (self.phase, event) {
            (Phase::Idle, EventView::Toggle { now }) => if is_echo(self.last_keystop, now) {
                (self, ActionView::Ignore)
            } else {
                (self.to(Phase::CheckingFocus), ActionView::ReadFocus)
            },
            (Phase::Idle, EventView::Shutdown) => (
                self.to(Phase::Down),
                ActionView::CleanUp { recording: false },
            ),
            (Phase::CheckingFocus, EventView::Focus { hint }) => if focus::is_desktop(
                focus::focus_of(hint),
            ) {
                (self.to(Phase::Idle), ActionView::HandOff)
            } else {
                (self.to(Phase::Starting), ActionView::StartCapture)
            },
            (Phase::Starting, EventView::Started) => (self.to(Phase::Listening), ActionView::Listen),
            (Phase::Starting, EventView::StartFailed) => (
                self.to(Phase::Settling(None)),
                ActionView::Settle(Ending::CaptureFailed),
            ),
            (Phase::Listening, EventView::Toggle { .. }) => (
                self.to(Phase::Stopping(Reason::Toggle)),
                ActionView::StopCapture(Reason::Toggle),
            ),
            (Phase::Listening, EventView::KeyFinish) => (
                self.to(Phase::Stopping(Reason::AnyKey)),
                ActionView::StopCapture(Reason::AnyKey),
            ),
            (Phase::Listening, EventView::Shutdown) => (
                self.to(Phase::Down),
                ActionView::CleanUp { recording: true },
            ),
            (Phase::Stopping(reason), EventView::Recorded { samples, sample_rate }) => {
                if too_short(samples as int, sample_rate as int) {
                    (self.to(Phase::Settling(Some(reason))), ActionView::Settle(Ending::TooShort))
                } else {
                    (self.to(Phase::Transcribing(reason)), ActionView::Transcribe)
                }
            },
            (Phase::Transcribing(reason), EventView::Transcript { text }) => {
                let cleaned = clean::stripped(text, fillers);
                if cleaned.len() == 0 {
                    (self.to(Phase::Settling(Some(reason))), ActionView::Settle(Ending::Empty))
                } else {
                    (
                        self.to(Phase::Delivering(reason)),
                        ActionView::Deliver { raw: text, text: cleaned },
                    )
                }
            },
            (Phase::Transcribing(reason), EventView::TranscribeFailed) => (
                self.to(Phase::Settling(Some(reason))),
                ActionView::Settle(Ending::TranscribeFailed),
            ),
            (Phase::Delivering(reason), EventView::Handed) => (
                self.to(Phase::Settling(Some(reason))),
                ActionView::Settle(Ending::Delivered),
            ),
            (Phase::Settling(reason), EventView::Settled { now }) => (
                Daemon {
                    phase: Phase::Idle,
                    last_keystop: if reason == Some(Reason::AnyKey) {
                        Some(now)
                    } else {
                        self.last_keystop
                    },
                },
                ActionView::Ignore,
            ),
            _ => (self, ActionView::Ignore),
        }
    }

    /// A daemon that has just come up.
    pub fn new() -> (r: Daemon)
        ensures
            r == (Daemon { phase: Phase::Idle, last_keystop: None }),
    {
        Daemon { phase: Phase::Idle, last_keystop: None }
    }

    /// Takes in an event and says what to do. `fillers` is the configured list of filler words.
    pub fn step(&mut self, event: Event, fillers: Option<&str>) -> (r: Action)
        ensures
            (*final(self), r@) == old(self).next(
                event@,
                clean::filler_set(
                    match fillers {
                        Some(list) => Some(list@),
                        None => None,
                    },
                ),
            ),
    {
        match (self.phase, event) {
            (Phase::Idle, Event::Toggle { now }) => {
                let echo = match self.last_keystop {
                    Some(t) => now < t || now - t < ECHO_GUARD_NS,
                    None => false,
                };
                if echo {
                    Action::Ignore
                } else {
                    self.phase = Phase::CheckingFocus;
                    Action::ReadFocus
                }
            },
            (Phase::Idle, Event::Shutdown) => {
                self.phase = Phase::Down;
                Action::CleanUp { recording: false }
            },
            (Phase::CheckingFocus, Event::Focus { hint }) => {
                if no_window_focused(hint.as_str()) {
                    self.phase = Phase::Idle;
                    Action::HandOff
                } else {
                    self.phase = Phase::Starting;
                    Action::StartCapture
                }
            },
            (Phase::Starting, Event::Started) => {
                self.phase = Phase::Listening;
                Action::Listen
            },
            (Phase::Starting, Event::StartFailed) => {
                self.phase = Phase::Settling(None);
                Action::Settle(Ending::CaptureFailed)
            },
            (Phase::Listening, Event::Toggle { .. }) => {
                self.phase = Phase::Stopping(Reason::Toggle);
                Action::StopCapture(Reason::Toggle)
            },
            (Phase::Listening, Event::KeyFinish) => {
                self.phase = Phase::Stopping(Reason::AnyKey);
                Action::StopCapture(Reason::AnyKey)
            },
            (Phase::Listening, Event::Shutdown) => {
                self.phase = Phase::Down;
                Action::CleanUp { recording: true }
            },
            (Phase::Stopping(reason), Event::Recorded { samples, sample_rate }) => {
                if (samples as u64) < (sample_rate / 5) as u64 {
                    self.phase = Phase::Settling(Some(reason));
                    Action::Settle(Ending::TooShort)
                } else {
                    self.phase = Phase::Transcribing(reason);
                    Action::Transcribe
                }
            },
            (Phase::Transcribing(reason), Event::Transcript { text }) => {
                let cleaned = strip_fillers(text.as_str(), fillers);
                if cleaned.as_str().is_empty() {
                    self.phase = Phase::Settling(Some(reason));
                    Action::Settle(Ending::Empty)
                } else {
                    self.phase = Phase::Delivering(reason);
                    Action::Deliver { raw: text, text: cleaned }
                }
            },
            (Phase::Transcribing(reason), Event::TranscribeFailed) => {
                self.phase = Phase::Settling(Some(reason));
                Action::Settle(Ending::TranscribeFailed)
            },
            (Phase::Delivering(reason), Event::Handed) => {
                self.phase = Phase::Settling(Some(reason));
                Action::Settle(Ending::Delivered)
            },
            (Phase::Settling(reason), Event::Settled { now }) => {
                self.phase = Phase::Idle;
                match reason {
                    Some(Reason::AnyKey) => {
                        self.last_keystop = Some(now);
                    },
                    _ => {},
                }
                Action::Ignore
            },
            _ => Action::Ignore,
        }
    }
}

/// The statuses that listeners are shown with an action, each with the time in milliseconds that
/// it stays before the next one.
pub open spec fn shown(action: ActionView) -> Seq<(Status, u64)> {
    match action {
        ActionView::Listen => seq![(Status::Listening, 0u64)],
        ActionView::Transcribe => seq![(Status::Processing, 0u64)],
        ActionView::Settle(ending) => match ending {
            Ending::TooShort => seq![(Status::Idle, 0u64)],
            Ending::Delivered => seq![(Status::Done, DONE_MS), (Status::Idle, 0u64)],
            _ => seq![(Status::Error, ERROR_MS), (Status::Idle, 0u64)],
        },
        ActionView::CleanUp { .. } => seq![(Status::Idle, 0u64)],
        _ => Seq::empty(),
    }
}

/// The statuses to show with an action, each with the time in milliseconds that it stays.
pub fn statuses(action: &Action) -> (r: Vec<(Status, u64)>)
    ensures
        r@ == shown(action@),
{
    let mut out: Vec<(Status, u64)> = Vec::new();
    match action {
        Action::Listen => {
            out.push((Status::Listening, 0));
        },
        Action::Transcribe => {
            out.push((Status::Processing, 0));
        },
        Action::Settle(ending) => {
            match ending {
                Ending::TooShort => {},
                Ending::Delivered => {
                    out.push((Status::Done, DONE_MS));
                },
                _ => {
                    out.push((Status::Error, ERROR_MS));
                },
            }
            out.push((Status::Idle, 0));
        },
        Action::CleanUp { .. } => {
            out.push((Status::Idle, 0));
        },
        _ => {},
    }
    assert(out@ =~= shown(action@));
    out
}

/// The event that a signal stands for, given the number of the signal that toggles.
pub open spec fn signal_event(signal: i32, toggle: i32, now: u64) -> EventView {
    if signal == toggle {
        EventView::Toggle { now }
    } else {
        EventView::Shutdown
    }
}

/// The event that a signal stands for: the toggle signal toggles, every other one shuts down.
pub fn event_for_signal(signal: i32, toggle: i32, now: u64) -> (r: Event)
    ensures
        r@ == signal_event(signal, toggle, now),
{
    if signal == toggle {
        Event::Toggle { now }
    } else {
        Event::Shutdown
    }
}

/// What the command line asks for.
#[derive(Clone, Copy, Debug, PartialEq, Eq, Structural)]
pub enum Command {
    /// Signal the running daemon.
    Toggle,
    /// Run the daemon.
    Run,
    /// Not a command.
    Unknown,
}

/// The command that a first argument names; without one, the daemon is run.
pub open spec fn command_of(arg: Option<Seq<char>>) -> Command {
    match arg {
        Some(a) => if a == "toggle"@ || a == "start"@ || a == "stop"@ {
            Command::Toggle
        } else if a == ""@ || a == "run"@ || a == "daemon"@ {
            Command::Run
        } else {
            Command::Unknown
        },
        None => Command::Run,
    }
}

/// The command that a first argument names.
pub fn parse_command(arg: Option<&str>) -> (r: Command)
    ensures
        r == command_of(state::setting(arg)),
{
    match arg {
        Some(a) => {
            let a = chars_of(a);
            if equals(&a, "toggle") || equals(&a, "start") || equals(&a, "stop") {
                Command::Toggle
            } else if equals(&a, "") || equals(&a, "run") || equals(&a, "daemon") {
                Command::Run
            } else {
                Command::Unknown
            }
        },
        None => Command::Run,
    }
}

/// The directory for runtime files, from `XDG_RUNTIME_DIR`.
pub open spec fn runtime(xdg_runtime: Option<Seq<char>>) -> Seq<char> {
    match xdg_runtime {
        Some(dir) => dir,
        None => "/run/user/1000"@,
    }
}

/// The directory for runtime files, from `XDG_RUNTIME_DIR`.
pub fn runtime_dir(xdg_runtime: Option<&str>) -> (r: String)
    ensures
        r@ == runtime(state::setting(xdg_runtime)),
{
    match xdg_runtime {
        Some(dir) => dir.to_owned(),
        None => "/run/user/1000".to_owned(),
    }
}

/// The file that holds the daemon's process id.
pub fn pid_file(xdg_runtime: Option<&str>) -> (r: String)
    ensures
        r@ == state::joined(runtime(state::setting(xdg_runtime)), "voicechat.pid"@),
{
    join_path(runtime_dir(xdg_runtime).as_str(), "voicechat.pid")
}

/// The process id in the contents of the pid file, if they are one.
pub fn parse_pid(contents: &str) -> (r: Option<i32>)
    ensures
        r == match number::parse_signed(text::trim(contents@)) {
            Some(n) if i32::MIN <= n <= i32::MAX => Some(n as i32),
            _ => None::<i32>,
        },
{
    number::parse_i32(contents)
}

/// The command line of the voice-command agent: the words that are configured, or, where there
/// are none, the agent in the home directory.
pub open spec fn agent_command(
    configured: Option<Seq<char>>,
    home: Option<Seq<char>>,
) -> Seq<Seq<char>> {
    let words = match configured {
        Some(c) => text::words(c),
        None => Seq::empty(),
    };
    if words.len() > 0 {
        words
    } else {
        let dir = match home {
            Some(h) => h,
            None => "/home"@,
        };
        seq![dir + "/.local/bin/voiceagent"@, "command"@]
    }
}

/// The command line of the voice-command agent. It names a program.
pub fn agent_argv(configured: Option<&str>, home: Option<&str>) -> (r: Vec<String>)
    ensures
        text::string_views(r@) == agent_command(state::setting(configured), state::setting(home)),
        r@.len() > 0,
{
    let mut out: Vec<String> = Vec::new();
    match configured {
        Some(c) => {
            let words = text::split_words(&chars_of(c));
            let ghost all = text::words(c@);
            assert(text::string_views(out@) =~= all.take(0));
            for i in 0..words.len()
                invariant
                    all == text::views(words@),
                    text::string_views(out@) == all.take(i as int),
            {
                let word = string_of(&words[i]);
                proof {
                    text::lemma_string_views_push(out@, word);
                    assert(all.take(i + 1) =~= all.take(i as int).push(all[i as int]));
                }
                out.push(word);
            }
            assert(all.take(words.len() as int) =~= all);
        },
        None => {
            assert(text::string_views(out@) =~= Seq::empty());
        },
    }
    assert(text::string_views(out@).len() == out@.len());
    if out.len() == 0 {
        let mut program = match home {
            Some(h) => h.to_owned(),
            None => "/home".to_owned(),
        };
        program.append("/.local/bin/voiceagent");
        out.push(program);
        out.push("command".to_owned());
        assert(text::string_views(out@) =~= agent_command(
            state::setting(configured),
            state::setting(home),
        ));
    }
    out
}

/// The sound file to play, if one is configured. A file that does not exist is not played
/// either.
pub fn sound_file(configured: Option<&str>) -> (r: Option<String>)
    ensures
        match r {
            Some(path) => state::setting(configured) == Some(path@) && path@.len() > 0,
            None => state::setting(configured) is None || state::setting(configured)->0.len() == 0,
        },
{
    match configured {
        Some(path) => if path.is_empty() {
            None
        } else {
            Some(path.to_owned())
        },
        None => None,
    }
}

/// The daemon after a run of events.
pub open spec fn after(d: Daemon, events: Seq<EventView>, fillers: Seq<Seq<char>>) -> Daemon
    decreases events.len(),
{
    if events.len() == 0 {
        d
    } else {
        after(d, events.drop_last(), fillers).next(events.last(), fillers).0
    }
}

/// The actions that a run of events leads to.
pub open spec fn actions(d: Daemon, events: Seq<EventView>, fillers: Seq<Seq<char>>) -> Seq<
    ActionView,
>
    decreases events.len(),
{
    if events.len() == 0 {
        Seq::empty()
    } else {
        actions(d, events.drop_last(), fillers).push(
            after(d, events.drop_last(), fillers).next(events.last(), fillers).1,
        )
    }
}

/// How many recordings a run of actions begins.
pub open spec fn begun(run: Seq<ActionView>) -> nat
    decreases run.len(),
{
    if run.len() == 0 {
        0
    } else {
        begun(run.drop_last()) + if run.last() is Listen {
            1nat
        } else {
            0
        }
    }
}

/// How many recordings a run of actions ends.
pub open spec fn ended(run: Seq<ActionView>) -> nat
    decreases run.len(),
{
    if run.len() == 0 {
        0
    } else {
        ended(run.drop_last()) + if run.last() is StopCapture || run.last()
            == (ActionView::CleanUp { recording: true }) {
            1nat
        } else {
            0
        }
    }
}

/// Recordings begin and end in turn, whatever happens: there is one more beginning than there
/// are endings while the daemon listens, and as many at all other times.
pub proof fn law_one_recording_at_a_time(events: Seq<EventView>, fillers: Seq<Seq<char>>)
    ensures
        ({
            let d = Daemon { phase: Phase::Idle, last_keystop: None };
            begun(actions(d, events, fillers)) == ended(actions(d, events, fillers)) + if after(
                d,
                events,
                fillers,
            ).phase == Phase::Listening {
                1nat
            } else {
                0
            }
        }),
    decreases events.len(),
{
    if events.len() > 0 {
        let d = Daemon { phase: Phase::Idle, last_keystop: None };
        law_one_recording_at_a_time(events.drop_last(), fillers);
        let run = actions(d, events, fillers);
        assert(run.drop_last() =~= actions(d, events.drop_last(), fillers));
    }
}

/// How many transcripts a run of actions hands over.
pub open spec fn handed(run: Seq<ActionView>) -> nat
    decreases run.len(),
{
    if run.len() == 0 {
        0
    } else {
        handed(run.drop_last()) + if run.last() is Deliver {
            1nat
        } else {
            0
        }
    }
}

/// A recording is handed over at most once, whatever happens: there are never more deliveries
/// than recordings that have ended, and one less while a recording waits for its transcript.
pub proof fn law_one_delivery_per_recording(events: Seq<EventView>, fillers: Seq<Seq<char>>)
    ensures
        ({
            let d = Daemon { phase: Phase::Idle, last_keystop: None };
            let phase = after(d, events, fillers).phase;
            handed(actions(d, events, fillers)) + if phase is Stopping || phase is Transcribing {
                1nat
            } else {
                0
            } <= ended(actions(d, events, fillers))
        }),
    decreases events.len(),
{
    if events.len() > 0 {
        let d = Daemon { phase: Phase::Idle, last_keystop: None };
        law_one_delivery_per_recording(events.drop_last(), fillers);
        let run = actions(d, events, fillers);
        assert(run.drop_last() =~= actions(d, events.drop_last(), fillers));
    }
}

/// After a recording that a key ended, a toggle within the guard time does nothing, so the
/// hotkey that was seen as a key does not start a new recording.
pub proof fn law_echo_is_swallowed(d: Daemon, end: u64, now: u64, fillers: Seq<Seq<char>>)
    requires
        d.phase == Phase::Settling(Some(Reason::AnyKey)),
        now < end + ECHO_GUARD_NS,
    ensures
        ({
            let idle = d.next(EventView::Settled { now: end }, fillers).0;
            &&& idle.phase == Phase::Idle
            &&& idle.next(EventView::Toggle { now }, fillers) == (idle, ActionView::Ignore)
        }),
{
}

/// After a recording that the hotkey ended, no guard is set: the next toggle is judged as it
/// would have been before.
pub proof fn law_toggle_sets_no_guard(d: Daemon, end: u64, fillers: Seq<Seq<char>>)
    requires
        d.phase == Phase::Settling(Some(Reason::Toggle)) || d.phase == Phase::Settling(None),
    ensures
        d.next(EventView::Settled { now: end }, fillers).0 == d.to(Phase::Idle),
{
}

/// While the daemon listens a toggle always ends the recording, whenever it comes.
pub proof fn law_toggle_ends_recording(d: Daemon, now: u64, fillers: Seq<Seq<char>>)
    requires
        d.phase == Phase::Listening,
    ensures
        d.next(EventView::Toggle { now }, fillers) == (
            d.to(Phase::Stopping(Reason::Toggle)),
            ActionView::StopCapture(Reason::Toggle),
        ),
{
}

/// A key press means nothing unless the daemon listens.
pub proof fn law_keys_matter_only_while_listening(d: Daemon, fillers: Seq<Seq<char>>)
    ensures
        d.next(EventView::KeyFinish, fillers) == if d.phase == Phase::Listening {
            (d.to(Phase::Stopping(Reason::AnyKey)), ActionView::StopCapture(Reason::AnyKey))
        } else {
            (d, ActionView::Ignore)
        },
{
}

/// With no window focused a toggle hands over to the voice-command agent and nothing is
/// recorded; with one focused, it opens the microphone.
pub proof fn law_desktop_is_for_commands(
    d: Daemon,
    now: u64,
    hint: Seq<char>,
    fillers: Seq<Seq<char>>,
)
    requires
        d.phase == Phase::Idle,
        !is_echo(d.last_keystop, now),
    ensures
        ({
            let (asking, first) = d.next(EventView::Toggle { now }, fillers);
            let (settled, second) = asking.next(EventView::Focus { hint }, fillers);
            &&& first == ActionView::ReadFocus
            &&& focus::is_desktop(focus::focus_of(hint)) ==> settled == d && second
                == ActionView::HandOff
            &&& !focus::is_desktop(focus::focus_of(hint)) ==> settled == d.to(Phase::Starting)
                && second == ActionView::StartCapture
        }),
{
}

/// A daemon that is down stays down and does nothing more.
pub proof fn law_down_is_final(d: Daemon, event: EventView, fillers: Seq<Seq<char>>)
    requires
        d.phase == Phase::Down,
    ensures
        d.next(event, fillers) == (d, ActionView::Ignore),
{
}

/// Whatever ends a cycle or the daemon, the last status shown is idle.
pub proof fn law_cycles_end_idle(action: ActionView)
    requires
        action is Settle || action is CleanUp,
    ensures
        shown(action).len() > 0,
        shown(action).last() == (Status::Idle, 0u64),
{
}

/// What is delivered is the transcript as it was heard, and beside it the cleaned one, which is
/// never empty. Nothing is delivered unless the recording was long enough and was transcribed.
pub proof fn law_deliveries(d: Daemon, event: EventView, fillers: Seq<Seq<char>>)
    ensures
        match d.next(event, fillers).1 {
            ActionView::Deliver { raw, text: t } => {
                &&& t.len() > 0
                &&& event == (EventView::Transcript { text: raw })
                &&& t == clean::stripped(raw, fillers)
                &&& d.phase is Transcribing
            },
            ActionView::Transcribe => {
                &&& event matches EventView::Recorded { samples, sample_rate }
                &&& !too_short(samples as int, sample_rate as int)
                &&& d.phase is Stopping
            },
            _ => true,
        },
{
}

/// Listeners get a transcript verbatim; cleaning only touches what is copied, and so what is
/// pasted. A transcript of which nothing is left reaches nobody.
pub proof fn law_cleaning_spares_the_listeners(
    d: Daemon,
    said: Seq<char>,
    fillers: Seq<Seq<char>>,
    focus: Seq<char>,
    routing: RoutingView,
    dry: bool,
)
    requires
        d.phase is Transcribing,
    ensures
        match d.next(EventView::Transcript { text: said }, fillers).1 {
            ActionView::Deliver { raw, text: t } => {
                let steps = paste::delivery(raw, t, focus, routing, dry);
                &&& clean::stripped(said, fillers).len() > 0
                &&& steps.len() > 0
                &&& steps[0] matches StepView::Broadcast { text: sent, .. }
                &&& sent == said
                &&& forall|i: int|
                    0 <= i < steps.len() ==> (#[trigger] steps[i] matches StepView::Copy {
                        text: copied,
                    } ==> copied == clean::stripped(said, fillers))
            },
            action => {
                &&& clean::stripped(said, fillers).len() == 0
                &&& action == ActionView::Settle(Ending::Empty)
            },
        },
{
}

/// A recording of at least a fifth of a second, however long, is transcribed; a shorter one, by a
/// whole sample at least, is a tap and is not.
pub proof fn law_recordings_are_transcribed(
    d: Daemon,
    reason: Reason,
    samples: usize,
    sample_rate: u32,
    fillers: Seq<Seq<char>>,
)
    requires
        d.phase == Phase::Stopping(reason),
    ensures
        5 * (samples + 1) > sample_rate ==> d.next(
            EventView::Recorded { samples, sample_rate },
            fillers,
        ) == (
            Daemon { phase: Phase::Transcribing(reason), last_keystop: d.last_keystop },
            ActionView::Transcribe,
        ),
        5 * (samples + 1) <= sample_rate ==> d.next(
            EventView::Recorded { samples, sample_rate },
            fillers,
        ) == (
            Daemon { phase: Phase::Settling(Some(reason)), last_keystop: d.last_keystop },
            ActionView::Settle(Ending::TooShort),
        ),
{
}

/// A toggle that finds the daemon idle asks for the focus, unless a key ended a recording less
/// than 600 milliseconds ago; then it does nothing. Without such a key it never does nothing.
pub proof fn law_toggle_when_idle(d: Daemon, now: u64, fillers: Seq<Seq<char>>)
    requires
        d.phase == Phase::Idle,
    ensures
        ({
            let asks = (
                Daemon { phase: Phase::CheckingFocus, last_keystop: d.last_keystop },
                ActionView::ReadFocus,
            );
            let r = d.next(EventView::Toggle { now }, fillers);
            &&& d.last_keystop is None ==> r == asks
            &&& d.last_keystop is Some && now - d.last_keystop->0 >= 600_000_000 ==> r == asks
            &&& d.last_keystop is Some && now - d.last_keystop->0 < 600_000_000 ==> r == (
                d,
                ActionView::Ignore,
            )
        }),
{
}

/// The focus decides between the agent and the microphone, and the microphone's answer between
/// listening and an error.
pub proof fn law_starting(d: Daemon, hint: Seq<char>, fillers: Seq<Seq<char>>)
    ensures
        d.phase == Phase::CheckingFocus ==> d.next(EventView::Focus { hint }, fillers)
            == if focus::focus_of(hint).len() == 0 || text::contains(
            focus::focus_of(hint),
            "plasmashell"@,
        ) {
            (
                Daemon { phase: Phase::Idle, last_keystop: d.last_keystop },
                ActionView::HandOff,
            )
        } else {
            (
                Daemon { phase: Phase::Starting, last_keystop: d.last_keystop },
                ActionView::StartCapture,
            )
        },
        d.phase == Phase::Starting ==> d.next(EventView::Started, fillers) == (
            Daemon { phase: Phase::Listening, last_keystop: d.last_keystop },
            ActionView::Listen,
        ),
        d.phase == Phase::Starting ==> d.next(EventView::StartFailed, fillers) == (
            Daemon { phase: Phase::Settling(None), last_keystop: d.last_keystop },
            ActionView::Settle(Ending::CaptureFailed),
        ),
{
}

/// While listening, a toggle and a key each end the recording for their reason, and a shutdown
/// ends the daemon with it; when idle a shutdown ends the daemon without one.
pub proof fn law_stopping(d: Daemon, now: u64, fillers: Seq<Seq<char>>)
    ensures
        d.phase == Phase::Listening ==> d.next(EventView::Toggle { now }, fillers) == (
            Daemon { phase: Phase::Stopping(Reason::Toggle), last_keystop: d.last_keystop },
            ActionView::StopCapture(Reason::Toggle),
        ),
        d.phase == Phase::Listening ==> d.next(EventView::KeyFinish, fillers) == (
            Daemon { phase: Phase::Stopping(Reason::AnyKey), last_keystop: d.last_keystop },
            ActionView::StopCapture(Reason::AnyKey),
        ),
        d.phase == Phase::Listening ==> d.next(EventView::Shutdown, fillers) == (
            Daemon { phase: Phase::Down, last_keystop: d.last_keystop },
            ActionView::CleanUp { recording: true },
        ),
        d.phase == Phase::Idle ==> d.next(EventView::Shutdown, fillers) == (
            Daemon { phase: Phase::Down, last_keystop: d.last_keystop },
            ActionView::CleanUp { recording: false },
        ),
{
}

/// A transcript of which something is left is handed over, whole and cleaned; one of which
/// nothing is left, or none at all, is an error.
pub proof fn law_transcripts(d: Daemon, reason: Reason, said: Seq<char>, fillers: Seq<Seq<char>>)
    requires
        d.phase == Phase::Transcribing(reason),
    ensures
        clean::stripped(said, fillers).len() > 0 ==> d.next(
            EventView::Transcript { text: said },
            fillers,
        ) == (
            Daemon { phase: Phase::Delivering(reason), last_keystop: d.last_keystop },
            ActionView::Deliver { raw: said, text: clean::stripped(said, fillers) },
        ),
        clean::stripped(said, fillers).len() == 0 ==> d.next(
            EventView::Transcript { text: said },
            fillers,
        ) == (
            Daemon { phase: Phase::Settling(Some(reason)), last_keystop: d.last_keystop },
            ActionView::Settle(Ending::Empty),
        ),
        d.next(EventView::TranscribeFailed, fillers) == (
            Daemon { phase: Phase::Settling(Some(reason)), last_keystop: d.last_keystop },
            ActionView::Settle(Ending::TranscribeFailed),
        ),
{
}

/// What was handed over is shown as done, and when that was shown the daemon is idle again; only
/// a recording that a key ended leaves its time behind.
pub proof fn law_settling(
    d: Daemon,
    reason: Reason,
    why: Option<Reason>,
    now: u64,
    fillers: Seq<Seq<char>>,
)
    ensures
        d.phase == Phase::Delivering(reason) ==> d.next(EventView::Handed, fillers) == (
            Daemon { phase: Phase::Settling(Some(reason)), last_keystop: d.last_keystop },
            ActionView::Settle(Ending::Delivered),
        ),
        d.phase == Phase::Settling(why) && why == Some(Reason::AnyKey) ==> d.next(
            EventView::Settled { now },
            fillers,
        ) == (Daemon { phase: Phase::Idle, last_keystop: Some(now) }, ActionView::Ignore),
        d.phase == Phase::Settling(why) && why != Some(Reason::AnyKey) ==> d.next(
            EventView::Settled { now },
            fillers,
        ) == (Daemon { phase: Phase::Idle, last_keystop: d.last_keystop }, ActionView::Ignore),
{
}

/// The daemon waits for an event of this kind in this phase.
pub open spec fn awaited(phase: Phase, event: EventView) -> bool {
    match event {
        EventView::Toggle { .. } => phase == Phase::Idle || phase == Phase::Listening,
        EventView::KeyFinish => phase == Phase::Listening,
        EventView::Shutdown => phase == Phase::Idle || phase == Phase::Listening,
        EventView::Focus { .. } => phase == Phase::CheckingFocus,
        EventView::Started => phase == Phase::Starting,
        EventView::StartFailed => phase == Phase::Starting,
        EventView::Recorded { .. } => phase is Stopping,
        EventView::Transcript { .. } => phase is Transcribing,
        EventView::TranscribeFailed => phase is Transcribing,
        EventView::Handed => phase is Delivering,
        EventView::Settled { .. } => phase is Settling,
    }
}

/// An event that is not waited for changes nothing and is answered with nothing; one that is
/// waited for takes the daemon on, but for the echo of a key.
pub proof fn law_out_of_turn(d: Daemon, event: EventView, fillers: Seq<Seq<char>>)
    ensures
        !awaited(d.phase, event) ==> d.next(event, fillers) == (d, ActionView::Ignore),
        awaited(d.phase, event) && !(event is Toggle && d.phase == Phase::Idle && d.last_keystop
            is Some) ==> d.next(event, fillers).0.phase != d.phase,
{
}

/// A dictation from end to end: with a window focused, a toggle, a recording of any length from
/// a fifth of a second on, and a transcript of which something is left, the daemon reads the
/// focus, records, stops, transcribes, hands the transcript over, shows that it is done, and is
/// idle again, whichever way the recording was ended.
pub proof fn law_a_dictation(
    d: Daemon,
    start: u64,
    hint: Seq<char>,
    by_key: bool,
    stop: u64,
    samples: usize,
    sample_rate: u32,
    said: Seq<char>,
    end: u64,
    fillers: Seq<Seq<char>>,
)
    requires
        d.phase == Phase::Idle,
        d.last_keystop is None || start - d.last_keystop->0 >= 600_000_000,
        !focus::is_desktop(focus::focus_of(hint)),
        5 * samples >= sample_rate,
        clean::stripped(said, fillers).len() > 0,
    ensures
        ({
            let ending = if by_key {
                EventView::KeyFinish
            } else {
                EventView::Toggle { now: stop }
            };
            let reason = if by_key {
                Reason::AnyKey
            } else {
                Reason::Toggle
            };
            let (d1, a1) = d.next(EventView::Toggle { now: start }, fillers);
            let (d2, a2) = d1.next(EventView::Focus { hint }, fillers);
            let (d3, a3) = d2.next(EventView::Started, fillers);
            let (d4, a4) = d3.next(ending, fillers);
            let (d5, a5) = d4.next(EventView::Recorded { samples, sample_rate }, fillers);
            let (d6, a6) = d5.next(EventView::Transcript { text: said }, fillers);
            let (d7, a7) = d6.next(EventView::Handed, fillers);
            let (d8, a8) = d7.next(EventView::Settled { now: end }, fillers);
            &&& a1 == ActionView::ReadFocus
            &&& a2 == ActionView::StartCapture
            &&& a3 == ActionView::Listen
            &&& a4 == ActionView::StopCapture(reason)
            &&& a5 == ActionView::Transcribe
            &&& a6 == (ActionView::Deliver { raw: said, text: clean::stripped(said, fillers) })
            &&& a7 == ActionView::Settle(Ending::Delivered)
            &&& a8 == ActionView::Ignore
            &&& d8.phase == Phase::Idle
            &&& d8.last_keystop == if by_key {
                Some(end)
            } else {
                d.last_keystop
            }
        }),
{
}

/// What listeners are shown: recording and processing as they begin, an error for a little over
/// a second, a delivery for a quarter of one, and then, as after a tap and at the end, that the
/// daemon is idle. No other action shows anything.
pub proof fn law_what_is_shown(action: ActionView)
    ensures
        action is Listen ==> shown(action) == seq![(Status::Listening, 0u64)],
        action is Transcribe ==> shown(action) == seq![(Status::Processing, 0u64)],
        action == ActionView::Settle(Ending::Delivered) ==> shown(action) == seq![
            (Status::Done, 250u64),
            (Status::Idle, 0u64),
        ],
        action == ActionView::Settle(Ending::TooShort) || action is CleanUp ==> shown(action)
            == seq![(Status::Idle, 0u64)],
        action == ActionView::Settle(Ending::CaptureFailed) || action == ActionView::Settle(
            Ending::Empty,
        ) || action == ActionView::Settle(Ending::TranscribeFailed) ==> shown(action) == seq![
            (Status::Error, 1100u64),
            (Status::Idle, 0u64),
        ],
        shown(action).len() > 0 <==> action is Listen || action is Transcribe || action is Settle
            || action is CleanUp,
{
}

/// Only the toggle signal toggles, at the time it is taken up; every other signal shuts down.
pub proof fn law_signals(signal: i32, toggle: i32, now: u64)
    ensures
        signal == toggle ==> signal_event(signal, toggle, now) == (EventView::Toggle { now }),
        signal != toggle ==> signal_event(signal, toggle, now) == EventView::Shutdown,
{
}

/// Three words signal the daemon, two words, or none, run it, and everything else is refused.
pub proof fn law_commands(arg: Option<Seq<char>>)
    ensures
        command_of(arg) == Command::Toggle <==> arg == Some("toggle"@) || arg == Some("start"@)
            || arg == Some("stop"@),
        command_of(arg) == Command::Run <==> arg is None || arg == Some(Seq::<char>::empty())
            || arg == Some("run"@) || arg == Some("daemon"@),
{
    reveal_strlit("");
    reveal_strlit("toggle");
    reveal_strlit("start");
    reveal_strlit("stop");
    reveal_strlit("run");
    reveal_strlit("daemon");
    assert(""@ =~= Seq::<char>::empty());
    assert("toggle"@[0] == 't');
    assert("start"@[0] == 's');
    assert("stop"@[0] == 's');
    assert("run"@[0] == 'r');
    assert("daemon"@[0] == 'd');
}

/// The directory for runtime files is the one that is set.
pub proof fn law_runtime_directory(dir: Seq<char>)
    ensures
        runtime(Some(dir)) == dir,
        runtime(None) == "/run/user/1000"@,
{
}

/// The agent's command line is the words that are configured; only where there are none it is
/// the agent in the home directory.
pub proof fn law_agent_command(configured: Seq<char>, home: Option<Seq<char>>, dir: Seq<char>)
    ensures
        text::words(configured).len() > 0 ==> agent_command(Some(configured), home) == text::words(
            configured,
        ),
        text::words(configured).len() == 0 ==> agent_command(Some(configured), home)
            == agent_command(None, home),
        agent_command(None, Some(dir)) == seq![dir + "/.local/bin/voiceagent"@, "command"@],
        agent_command(None, None) == agent_command(None, Some("/home"@)),
{
}

/// An event and an action stand for themselves, with nothing left out.
pub proof fn law_views_are_faithful(e: Event, a: Action)
    ensures
        e matches Event::Toggle { now } ==> e@ == (EventView::Toggle { now }),
        e is KeyFinish ==> e@ == EventView::KeyFinish,
        e is Shutdown ==> e@ == EventView::Shutdown,
        e matches Event::Focus { hint } ==> e@ == (EventView::Focus { hint: hint@ }),
        e is Started ==> e@ == EventView::Started,
        e is StartFailed ==> e@ == EventView::StartFailed,
        e matches Event::Recorded { samples, sample_rate } ==> e@ == (EventView::Recorded {
            samples,
            sample_rate,
        }),
        e matches Event::Transcript { text } ==> e@ == (EventView::Transcript { text: text@ }),
        e is TranscribeFailed ==> e@ == EventView::TranscribeFailed,
        e is Handed ==> e@ == EventView::Handed,
        e matches Event::Settled { now } ==> e@ == (EventView::Settled { now }),
        a is Ignore ==> a@ == ActionView::Ignore,
        a is ReadFocus ==> a@ == ActionView::ReadFocus,
        a is HandOff ==> a@ == ActionView::HandOff,
        a is StartCapture ==> a@ == ActionView::StartCapture,
        a is Listen ==> a@ == ActionView::Listen,
        a matches Action::StopCapture(reason) ==> a@ == ActionView::StopCapture(reason),
        a is Transcribe ==> a@ == ActionView::Transcribe,
        a matches Action::Deliver { raw, text } ==> a@ == (ActionView::Deliver {
            raw: raw@,
            text: text@,
        }),
        a matches Action::Settle(ending) ==> a@ == ActionView::Settle(ending),
        a matches Action::CleanUp { recording } ==> a@ == (ActionView::CleanUp { recording }),
{
}

} // verus!
