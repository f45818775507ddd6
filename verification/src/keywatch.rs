//! Ending a recording with any key.

use vstd::prelude::*;

use crate::state;
use crate::text;
use crate::text::{chars_of, equals, Class};
use crate::unicode;

verus! {

/// The code of the Enter key.
pub const KEY_ENTER: u16 = 28;

/// The code of the space bar.
pub const KEY_SPACE: u16 = 57;

/// The event type of keys.
pub const EVENT_KEY: u16 = 1;

/// The value of a key event that is a press; a release has 0, a repetition 2.
pub const PRESS: i32 = 1;

/// For so many milliseconds from the start of a recording key presses do not count.
pub const GRACE_MS: u64 = 250;

/// The setting switches any-key-stop off.
pub open spec fn switched_off(setting: Seq<char>) -> bool {
    let s = unicode::ascii_lowercase(text::trim(setting));
    s == "0"@ || s == "false"@ || s == "no"@ || s == "off"@
}

/// Whether any key ends a recording: unless it is switched off.
pub fn enabled(setting: Option<&str>) -> (r: bool)
    ensures
        r == match state::setting(setting) {
            Some(s) => !switched_off(s),
            None => true,
        },
{
    match setting {
        Some(s) => {
            let s = text::ascii_lowered(&text::trimmed(&chars_of(s), Class::Whitespace));
            !(equals(&s, "0") || equals(&s, "false") || equals(&s, "no") || equals(&s, "off"))
        },
        None => true,
    }
}

/// A set of key codes.
#[verifier::external_type_specification]
#[verifier::external_body]
#[verifier::reject_recursive_types(T)]
pub struct ExAttributeSetRef<T>(evdev::AttributeSetRef<T>);

/// A key code.
#[verifier::external_type_specification]
#[verifier::external_body]
pub struct ExKey(evdev::Key);

/// The codes of the keys in a set.
pub uninterp spec fn key_codes(keys: &evdev::AttributeSetRef<evdev::Key>) -> Set<u16>;

/// Calls `evdev::AttributeSetRef::contains`: whether the key with this code is in the set.
#[verifier::external_body]
fn has_key(keys: &evdev::AttributeSetRef<evdev::Key>, code: u16) -> (r: bool)
    ensures
        r == key_codes(keys).contains(code),
{
    keys.contains(evdev::Key::new(code))
}

/// Whether a device that reports these keys, if it reports any, is a real keyboard: it has an
/// Enter key or a space bar. That leaves out mice and power buttons.
pub fn is_keyboard(keys: Option<&evdev::AttributeSetRef<evdev::Key>>) -> (r: bool)
    ensures
        r == match keys {
            Some(set) => key_codes(set).contains(KEY_ENTER) || key_codes(set).contains(KEY_SPACE),
            None => false,
        },
{
    match keys {
        Some(set) => has_key(set, KEY_ENTER) || has_key(set, KEY_SPACE),
        None => false,
    }
}

/// Calls `evdev::InputEvent::kind` on an event made by `evdev::InputEvent::new`: an event of the
/// type of keys is about the key with its code; an event of any other type is about no key.
#[verifier::external_body]
fn key_of_event(event_type: u16, code: u16, value: i32) -> (r: Option<u16>)
    ensures
        r == if event_type == EVENT_KEY {
            Some(code)
        } else {
            None
        },
{
    let event = evdev::InputEvent::new(evdev::EventType(event_type), code, value);
    match event.kind() {
        evdev::InputEventKind::Key(key) => Some(key.code()),
        _ => None,
    }
}

/// The event is a key press, and the recording has gone on for longer than the grace period.
pub open spec fn counts(event_type: u16, value: i32, elapsed_ms: u64) -> bool {
    event_type == EVENT_KEY && value == PRESS && elapsed_ms >= GRACE_MS
}

/// What a watcher does after an input event.
#[derive(Clone, Copy, Debug, PartialEq, Eq, Structural)]
pub enum Watch {
    /// Go on watching.
    Continue,
    /// Report the key, by its code, and stop watching.
    Fire(u16),
    /// Stop watching; another watcher has reported a key.
    Stop,
}

/// Lets the first key press through, of all devices that are watched.
pub struct KeyGate {
    pub fired: bool,
}

impl KeyGate {
    /// No key was pressed yet.
    pub fn new() -> (r: KeyGate)
        ensures
            !r.fired,
    {
        KeyGate { fired: false }
    }

    /// Takes in an input event, so many milliseconds after the start of the recording.
    pub fn offer(&mut self, event_type: u16, code: u16, value: i32, elapsed_ms: u64) -> (r: Watch)
        ensures
            final(self).fired == (old(self).fired || counts(event_type, value, elapsed_ms)),
            r == if !counts(event_type, value, elapsed_ms) {
                Watch::Continue
            } else if old(self).fired {
                Watch::Stop
            } else {
                Watch::Fire(code)
            },
    {
        match key_of_event(event_type, code, value) {
            Some(key) => {
                if value == PRESS && elapsed_ms >= GRACE_MS {
                    if self.fired {
                        Watch::Stop
                    } else {
                        self.fired = true;
                        Watch::Fire(key)
                    }
                } else {
                    Watch::Continue
                }
            },
            None => Watch::Continue,
        }
    }
}

/// An input event, for stating what a gate lets through.
pub struct InputView {
    pub event_type: u16,
    pub value: i32,
    pub elapsed_ms: u64,
}

/// A gate has fired after a run of events.
pub open spec fn fired_after(events: Seq<InputView>) -> bool
    decreases events.len(),
{
    events.len() > 0 && (fired_after(events.drop_last()) || counts(
        events.last().event_type,
        events.last().value,
        events.last().elapsed_ms,
    ))
}

/// How often a gate fires in a run of events.
pub open spec fn times_fired(events: Seq<InputView>) -> nat
    decreases events.len(),
{
    if events.len() == 0 {
        0
    } else {
        times_fired(events.drop_last()) + if !fired_after(events.drop_last()) && counts(
            events.last().event_type,
            events.last().value,
            events.last().elapsed_ms,
        ) {
            1nat
        } else {
            0
        }
    }
}

/// A gate fires exactly once, on the first press that counts, however many follow and from
/// whichever devices.
pub proof fn law_fires_once(events: Seq<InputView>)
    ensures
        times_fired(events) == if fired_after(events) {
            1nat
        } else {
            0
        },
        fired_after(events) <==> exists|i: int|
            0 <= i < events.len() && counts(
                (#[trigger] events[i]).event_type,
                events[i].value,
                events[i].elapsed_ms,
            ),
    decreases events.len(),
{
    if events.len() > 0 {
        let front = events.drop_last();
        law_fires_once(front);
        if fired_after(front) {
            let i = choose|i: int|
                0 <= i < front.len() && counts(
                    (#[trigger] front[i]).event_type,
                    front[i].value,
                    front[i].elapsed_ms,
                );
            assert(events[i] == front[i]);
        } else if fired_after(events) {
            assert(events[events.len() - 1] == events.last());
        } else {
            assert forall|i: int| 0 <= i < events.len() implies !counts(
                (#[trigger] events[i]).event_type,
                events[i].value,
                events[i].elapsed_ms,
            ) by {
                if i < front.len() {
                    assert(front[i] == events[i]);
                }
            }
        }
    }
}

/// A key press counts from 250 milliseconds on and at every later time; before that none does,
/// and neither does a release, a repetition or an event that is not about a key.
pub proof fn law_presses_count_after_the_grace_period(
    event_type: u16,
    value: i32,
    elapsed_ms: u64,
    later_ms: u64,
)
    ensures
        event_type == 1 && value == 1 && elapsed_ms >= 250 ==> counts(
            event_type,
            value,
            elapsed_ms,
        ),
        counts(event_type, value, elapsed_ms) ==> event_type == 1 && value == 1 && elapsed_ms
            >= 250,
        counts(event_type, value, elapsed_ms) && later_ms >= elapsed_ms ==> counts(
            event_type,
            value,
            later_ms,
        ),
{
}

/// Any-key-stop is switched off by four words, in any case and with white space around them, and
/// by nothing else.
pub proof fn law_switching_off(p: Seq<char>, word: Seq<char>, q: Seq<char>)
    requires
        forall|i: int| 0 <= i < p.len() ==> unicode::whitespace(#[trigger] p[i]),
        forall|i: int| 0 <= i < q.len() ==> unicode::whitespace(#[trigger] q[i]),
        word.len() > 0 ==> !unicode::whitespace(word[0]) && !unicode::whitespace(word.last()),
    ensures
        switched_off(p + word + q) <==> ({
            let w = unicode::ascii_lowercase(word);
            w == "0"@ || w == "false"@ || w == "no"@ || w == "off"@
        }),
{
    text::law_trim(p, word, q);
}

/// What a keyboard is known by, and what a key press is, in the kernel's numbers.
pub proof fn law_key_numbers()
    ensures
        KEY_ENTER == 28,
        KEY_SPACE == 57,
        EVENT_KEY == 1,
        PRESS == 1,
        GRACE_MS == 250,
{
}

/// The first press that counts is the one that fires: nothing fires before it, and nothing fires
/// after it.
pub proof fn law_first_press_fires(events: Seq<InputView>, k: int)
    requires
        0 <= k < events.len(),
        events[k].event_type == 1 && events[k].value == 1 && events[k].elapsed_ms >= 250,
        forall|i: int|
            0 <= i < k ==> !((#[trigger] events[i]).event_type == 1 && events[i].value == 1
                && events[i].elapsed_ms >= 250),
    ensures
        !fired_after(events.take(k)),
        times_fired(events.take(k)) == 0,
        times_fired(events.take(k + 1)) == 1,
        times_fired(events) == 1,
{
    let front = events.take(k);
    law_fires_once(front);
    if fired_after(front) {
        let i = choose|i: int|
            0 <= i < front.len() && counts(
                (#[trigger] front[i]).event_type,
                front[i].value,
                front[i].elapsed_ms,
            );
        assert(front[i] == events[i]);
    }
    let upto = events.take(k + 1);
    law_fires_once(upto);
    assert(upto[k] == events[k]);
    law_fires_once(events);
}

} // verus!
