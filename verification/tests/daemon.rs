use voicechat::daemon::{
    agent_argv, event_for_signal, parse_command, parse_pid, pid_file, sound_file, statuses,
    Action, Command, Daemon, Ending, Event, Phase, Reason,
};
use voicechat::state::Status;

const GUARD: u64 = 600_000_000;

fn listening() -> Daemon {
    let mut d = Daemon::new();
    assert!(matches!(d.step(Event::Toggle { now: 0 }, None), Action::ReadFocus));
    let hint = "editor".to_string();
    assert!(matches!(d.step(Event::Focus { hint }, None), Action::StartCapture));
    assert!(matches!(d.step(Event::Started, None), Action::Listen));
    assert_eq!(d.phase, Phase::Listening);
    d
}

#[test]
fn a_whole_cycle() {
    let mut d = listening();
    assert!(matches!(d.step(Event::Toggle { now: 1 }, None), Action::StopCapture(Reason::Toggle)));
    let recorded = Event::Recorded { samples: 16000, sample_rate: 16000 };
    assert!(matches!(d.step(recorded, None), Action::Transcribe));
    match d.step(Event::Transcript { text: "um hello".to_string() }, None) {
        Action::Deliver { raw, text } => {
            assert_eq!(raw, "um hello");
            assert_eq!(text, "Hello");
        }
        other => panic!("{:?}", other),
    }
    assert!(matches!(d.step(Event::Handed, None), Action::Settle(Ending::Delivered)));
    assert!(matches!(d.step(Event::Settled { now: 5 }, None), Action::Ignore));
    assert_eq!(d, Daemon::new());
}

#[test]
fn the_echo_of_a_key_is_swallowed() {
    let mut d = listening();
    assert!(matches!(d.step(Event::KeyFinish, None), Action::StopCapture(Reason::AnyKey)));
    let recorded = Event::Recorded { samples: 10, sample_rate: 16000 };
    assert!(matches!(d.step(recorded, None), Action::Settle(Ending::TooShort)));
    d.step(Event::Settled { now: 1000 }, None);
    assert_eq!(d.phase, Phase::Idle);
    assert!(matches!(d.step(Event::Toggle { now: 1000 }, None), Action::Ignore));
    assert!(matches!(d.step(Event::Toggle { now: 999 + GUARD }, None), Action::Ignore));
    assert!(matches!(d.step(Event::Toggle { now: 1000 + GUARD }, None), Action::ReadFocus));
}

#[test]
fn a_fifth_of_a_second_is_enough() {
    for (samples, short) in [(0, true), (3199, true), (3200, false)] {
        let mut d = listening();
        d.step(Event::Toggle { now: 1 }, None);
        let action = d.step(Event::Recorded { samples, sample_rate: 16000 }, None);
        assert_eq!(matches!(action, Action::Settle(Ending::TooShort)), short);
        assert_eq!(matches!(action, Action::Transcribe), !short);
    }
}

#[test]
fn the_desktop_hands_over_to_the_agent() {
    for hint in ["", " \n", "org.kde.plasmashell"] {
        let mut d = Daemon::new();
        d.step(Event::Toggle { now: 0 }, None);
        assert!(matches!(d.step(Event::Focus { hint: hint.to_string() }, None), Action::HandOff));
        assert_eq!(d, Daemon::new());
    }
}

#[test]
fn failures_are_shown_and_end_the_cycle() {
    let mut d = Daemon::new();
    d.step(Event::Toggle { now: 0 }, None);
    d.step(Event::Focus { hint: "editor".to_string() }, None);
    assert!(matches!(d.step(Event::StartFailed, None), Action::Settle(Ending::CaptureFailed)));
    d.step(Event::Settled { now: 9 }, None);
    assert_eq!(d, Daemon::new());

    for failed in [true, false] {
        let mut d = listening();
        d.step(Event::Toggle { now: 1 }, None);
        d.step(Event::Recorded { samples: 16000, sample_rate: 16000 }, None);
        if failed {
            let action = d.step(Event::TranscribeFailed, None);
            assert!(matches!(action, Action::Settle(Ending::TranscribeFailed)));
        } else {
            let action = d.step(Event::Transcript { text: "um, uh".to_string() }, None);
            assert!(matches!(action, Action::Settle(Ending::Empty)));
        }
        d.step(Event::Settled { now: 9 }, None);
        assert_eq!(d, Daemon::new());
    }
}

#[test]
fn configured_fillers_reach_the_cleanup() {
    let mut d = listening();
    d.step(Event::Toggle { now: 1 }, None);
    d.step(Event::Recorded { samples: 16000, sample_rate: 16000 }, None);
    match d.step(Event::Transcript { text: "um hello".to_string() }, Some("")) {
        Action::Deliver { raw, text } => {
            assert_eq!(raw, "um hello");
            assert_eq!(text, "um hello");
        }
        other => panic!("{:?}", other),
    }
}

#[test]
fn shutting_down_ends_a_recording_and_is_final() {
    let mut d = listening();
    assert!(matches!(d.step(Event::Shutdown, None), Action::CleanUp { recording: true }));
    assert!(matches!(d.step(Event::Toggle { now: 1 }, None), Action::Ignore));
    assert_eq!(d.phase, Phase::Down);
    let mut d = Daemon::new();
    assert!(matches!(d.step(Event::Shutdown, None), Action::CleanUp { recording: false }));
}

#[test]
fn keys_are_ignored_while_idle() {
    let mut d = Daemon::new();
    assert!(matches!(d.step(Event::KeyFinish, None), Action::Ignore));
    assert_eq!(d, Daemon::new());
}

#[test]
fn statuses_of_actions() {
    assert_eq!(statuses(&Action::Listen), vec![(Status::Listening, 0)]);
    assert_eq!(statuses(&Action::Transcribe), vec![(Status::Processing, 0)]);
    assert_eq!(
        statuses(&Action::Settle(Ending::Delivered)),
        vec![(Status::Done, 250), (Status::Idle, 0)]
    );
    for ending in [Ending::CaptureFailed, Ending::Empty, Ending::TranscribeFailed] {
        assert_eq!(
            statuses(&Action::Settle(ending)),
            vec![(Status::Error, 1100), (Status::Idle, 0)]
        );
    }
    assert_eq!(statuses(&Action::Settle(Ending::TooShort)), vec![(Status::Idle, 0)]);
    assert_eq!(statuses(&Action::CleanUp { recording: false }), vec![(Status::Idle, 0)]);
    assert_eq!(statuses(&Action::ReadFocus), vec![]);
}

#[test]
fn commands() {
    for a in ["toggle", "start", "stop"] {
        assert_eq!(parse_command(Some(a)), Command::Toggle);
    }
    for a in ["", "run", "daemon"] {
        assert_eq!(parse_command(Some(a)), Command::Run);
    }
    assert_eq!(parse_command(None), Command::Run);
    assert_eq!(parse_command(Some("Toggle")), Command::Unknown);
}

#[test]
fn signals() {
    assert!(matches!(event_for_signal(10, 10, 3), Event::Toggle { now: 3 }));
    assert!(matches!(event_for_signal(15, 10, 3), Event::Shutdown));
}

#[test]
fn process_ids() {
    assert_eq!(pid_file(Some("/run/u")), "/run/u/voicechat.pid");
    assert_eq!(pid_file(None), "/run/user/1000/voicechat.pid");
    assert_eq!(parse_pid("1234\n"), Some(1234));
    assert_eq!(parse_pid("x"), None);
    assert_eq!(parse_pid(""), None);
}

#[test]
fn agent_command_lines() {
    let own = vec!["/home/me/.local/bin/voiceagent", "command"];
    assert_eq!(agent_argv(None, Some("/home/me")), own);
    assert_eq!(agent_argv(Some(" \t"), Some("/home/me")), own);
    assert_eq!(agent_argv(None, None), vec!["/home/.local/bin/voiceagent", "command"]);
    assert_eq!(agent_argv(Some(" my  agent -x"), None), vec!["my", "agent", "-x"]);
}

#[test]
fn sounds() {
    assert_eq!(sound_file(None), None);
    assert_eq!(sound_file(Some("")), None);
    assert_eq!(sound_file(Some("/s.mp3")), Some("/s.mp3".to_string()));
}

#[test]
fn a_recording_is_handed_over_once() {
    let mut d = listening();
    let recorded = || Event::Recorded { samples: 16000, sample_rate: 16000 };
    let said = || Event::Transcript { text: "hello".to_string() };
    let mut delivered = 0;
    let events = [
        Event::Toggle { now: 1 }, Event::KeyFinish, recorded(), recorded(), said(), said(),
        Event::Handed, said(), Event::Handed, Event::Settled { now: 2 }, said(),
    ];
    for event in events {
        if matches!(d.step(event, None), Action::Deliver { .. }) {
            delivered += 1;
        }
    }
    assert_eq!(delivered, 1);
    assert_eq!(d, Daemon::new());
}
