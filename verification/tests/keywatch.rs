use evdev::{AttributeSet, Key};
use voicechat::keywatch::{enabled, is_keyboard, KeyGate, Watch};

#[test]
fn any_key_stop_is_on_unless_switched_off() {
    assert!(enabled(None));
    for s in ["", "1", "true", "on", "nope"] {
        assert!(enabled(Some(s)), "{}", s);
    }
    for s in ["0", "false", "no", "off", " OFF ", "False\n"] {
        assert!(!enabled(Some(s)), "{}", s);
    }
}

#[test]
fn keyboards_have_enter_or_space() {
    let mut keys = AttributeSet::<Key>::new();
    assert!(!is_keyboard(Some(&*keys)));
    keys.insert(Key::BTN_LEFT);
    keys.insert(Key::KEY_POWER);
    assert!(!is_keyboard(Some(&*keys)));
    keys.insert(Key::KEY_SPACE);
    assert!(is_keyboard(Some(&*keys)));
    keys.remove(Key::KEY_SPACE);
    assert!(!is_keyboard(Some(&*keys)));
    keys.insert(Key::KEY_ENTER);
    assert!(is_keyboard(Some(&*keys)));
    assert!(!is_keyboard(None));
}

#[test]
fn gate_fires_once_on_a_press_after_the_grace_period() {
    let key = evdev::EventType::KEY.0;
    let a = Key::KEY_A.code();
    let mut gate = KeyGate::new();
    assert_eq!(gate.offer(key, a, 1, 249), Watch::Continue);
    assert_eq!(gate.offer(key, a, 0, 300), Watch::Continue);
    assert_eq!(gate.offer(key, a, 2, 300), Watch::Continue);
    assert_eq!(gate.offer(evdev::EventType::RELATIVE.0, a, 1, 300), Watch::Continue);
    assert_eq!(gate.offer(evdev::EventType::MISC.0, a, 1, 300), Watch::Continue);
    assert_eq!(gate.offer(key, a, 1, 250), Watch::Fire(a));
    assert_eq!(gate.offer(key, a, 1, 260), Watch::Stop);
    assert_eq!(gate.offer(key, a, 0, 260), Watch::Continue);
    assert_eq!(gate.offer(key, a, 1, 500), Watch::Stop);
}
