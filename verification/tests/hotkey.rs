use evdev::Key;
use sensor_core::config::Hotkey;
use sensor_core::hotkey::{choose_hotkey, is_modifier, HotkeyEvent, KeyWatch};
use std::collections::HashSet;

fn held(hotkey: Hotkey, keys: &[Key]) -> bool {
    let down: HashSet<u16> = keys.iter().map(|k| k.code()).collect();
    hotkey.is_held(&down)
}

#[test]
fn single_key_matches_itself() {
    let h = Hotkey::single(Key::KEY_F12.code());
    assert!(held(h, &[Key::KEY_F12]));
    assert!(!held(h, &[Key::KEY_A]));
}

#[test]
fn single_key_still_matches_with_other_keys_down() {
    // Typing while the hotkey is held must not stop the recording.
    let h = Hotkey::single(Key::KEY_F12.code());
    assert!(held(h, &[Key::KEY_F12, Key::KEY_A]));
}

#[test]
fn chord_needs_both_keys() {
    let h = Hotkey::chord(Key::KEY_RIGHTALT.code(), Key::KEY_DOT.code());
    assert!(!held(h, &[Key::KEY_RIGHTALT]));
    assert!(!held(h, &[Key::KEY_DOT]));
    assert!(held(h, &[Key::KEY_RIGHTALT, Key::KEY_DOT]));
}

#[test]
fn chord_releases_when_either_key_lifts() {
    let h = Hotkey::chord(Key::KEY_RIGHTALT.code(), Key::KEY_DOT.code());
    // Whichever the user lifts first, the chord is no longer held.
    assert!(!held(h, &[Key::KEY_DOT]));
    assert!(!held(h, &[Key::KEY_RIGHTALT]));
}

#[test]
fn watch_reports_press_and_release_once() {
    let h = Hotkey::chord(Key::KEY_RIGHTALT.code(), Key::KEY_DOT.code());
    let mut w = KeyWatch::new(h);
    let alt = Key::KEY_RIGHTALT.code();
    let dot = Key::KEY_DOT.code();
    assert_eq!(w.on_key(alt, 1), None);
    assert_eq!(w.on_key(dot, 1), Some(HotkeyEvent::Pressed));
    // Autorepeat and other keys do not re-trigger.
    assert_eq!(w.on_key(dot, 2), None);
    assert_eq!(w.on_key(Key::KEY_A.code(), 1), None);
    assert_eq!(w.on_key(Key::KEY_A.code(), 0), None);
    assert_eq!(w.on_key(alt, 0), Some(HotkeyEvent::Released));
    assert_eq!(w.on_key(dot, 0), None);
    assert_eq!(w.on_key(alt, 1), None);
    assert_eq!(w.on_key(dot, 1), Some(HotkeyEvent::Pressed));
}

#[test]
fn watch_single_key_alternates() {
    let f12 = Key::KEY_F12.code();
    let mut w = KeyWatch::new(Hotkey::single(f12));
    let mut seen = Vec::new();
    for (k, v) in [(f12, 1), (f12, 2), (f12, 1), (f12, 0), (f12, 0), (f12, 1), (f12, 0)] {
        if let Some(s) = w.on_key(k, v) {
            seen.push(s);
        }
    }
    assert_eq!(
        seen,
        vec![
            HotkeyEvent::Pressed,
            HotkeyEvent::Released,
            HotkeyEvent::Pressed,
            HotkeyEvent::Released
        ]
    );
}

#[test]
fn modifiers_are_the_shift_ctrl_alt_meta_keys() {
    for k in [
        Key::KEY_LEFTSHIFT,
        Key::KEY_RIGHTSHIFT,
        Key::KEY_LEFTCTRL,
        Key::KEY_RIGHTCTRL,
        Key::KEY_LEFTALT,
        Key::KEY_RIGHTALT,
        Key::KEY_LEFTMETA,
        Key::KEY_RIGHTMETA,
    ] {
        assert!(is_modifier(k.code()), "{k:?}");
    }
    assert!(!is_modifier(Key::KEY_A.code()));
    assert!(!is_modifier(Key::KEY_F12.code()));
}

#[test]
fn chosen_hotkey_prefers_a_chord() {
    let alt = Key::KEY_RIGHTALT.code();
    let dot = Key::KEY_DOT.code();
    let shift = Key::KEY_LEFTSHIFT.code();
    assert_eq!(choose_hotkey(&vec![alt, dot]), Hotkey::chord(alt, dot));
    assert_eq!(choose_hotkey(&vec![dot]), Hotkey::single(dot));
    assert_eq!(choose_hotkey(&vec![alt]), Hotkey::single(alt));
    assert_eq!(choose_hotkey(&vec![alt, shift]), Hotkey::single(alt));
    // The first modifier other than Shift is the chord's modifier.
    assert_eq!(choose_hotkey(&vec![shift, dot, alt]), Hotkey::chord(alt, dot));
}

#[test]
fn holding_shift_to_reach_a_key_does_not_bind_shift() {
    let shift = Key::KEY_LEFTSHIFT.code();
    let rshift = Key::KEY_RIGHTSHIFT.code();
    let slash = Key::KEY_SLASH.code();
    let ctrl = Key::KEY_LEFTCTRL.code();
    assert_eq!(choose_hotkey(&vec![shift, slash]), Hotkey::single(slash));
    assert_eq!(choose_hotkey(&vec![rshift, slash]), Hotkey::single(slash));
    assert_eq!(choose_hotkey(&vec![shift, ctrl, slash]), Hotkey::chord(ctrl, slash));
    // Shift pressed alone is still a valid choice.
    assert_eq!(choose_hotkey(&vec![shift]), Hotkey::single(shift));
}

#[test]
fn streams_with_the_same_held_steps_send_the_same() {
    let alt = Key::KEY_RIGHTALT.code();
    let dot = Key::KEY_DOT.code();
    let a = Key::KEY_A.code();
    let run = |events: &[(u16, i32)]| {
        let mut w = KeyWatch::new(Hotkey::chord(alt, dot));
        events.iter().filter_map(|&(k, v)| w.on_key(k, v)).collect::<Vec<_>>()
    };
    // Both hold the chord at the second step and let go at the fourth; the
    // second also types and autorepeats in between.
    let plain = run(&[(alt, 1), (dot, 1), (dot, 1), (dot, 0)]);
    let noisy = run(&[(alt, 1), (dot, 1), (a, 1), (dot, 2), (a, 0), (alt, 0)]);
    assert_eq!(plain, vec![HotkeyEvent::Pressed, HotkeyEvent::Released]);
    assert_eq!(noisy, plain);
}

#[test]
fn a_batch_gives_what_the_events_give_one_by_one() {
    let alt = Key::KEY_RIGHTALT.code();
    let dot = Key::KEY_DOT.code();
    let events = vec![(alt, 1), (dot, 1), (dot, 2), (Key::KEY_A.code(), 1), (dot, 0), (dot, 1)];
    let mut batch = KeyWatch::new(Hotkey::chord(alt, dot));
    let mut single = KeyWatch::new(Hotkey::chord(alt, dot));
    let one_by_one: Vec<HotkeyEvent> = events.iter().filter_map(|&(k, v)| single.on_key(k, v)).collect();
    assert_eq!(batch.on_keys(&events), one_by_one);
    assert_eq!(
        one_by_one,
        vec![HotkeyEvent::Pressed, HotkeyEvent::Released, HotkeyEvent::Pressed]
    );
    // The watch carries on from where the batch left it.
    assert_eq!(batch.on_keys(&vec![(alt, 0)]), vec![HotkeyEvent::Released]);
}
