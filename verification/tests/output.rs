use sensor_core::output::{
    chord_events, clipboard_claimed, clipboard_read_args, clipboard_serve_args, next_poll_ms,
    paste_chord, paste_keys, paste_steps, PasteChord, PasteStep, FIRST_POLL_MS,
};
use evdev::Key;

/// `--paste-once` serves the selection exactly once, and the claim check is
/// itself a read -- so it spent the one paste and the focused app got
/// nothing, while the dead server read as success.
#[test]
fn clipboard_is_not_served_one_shot() {
    // Built at runtime so this test's own text is not a match.
    let flag = format!("--{}-once", "paste");
    let uses = clipboard_serve_args().iter().filter(|a| **a == flag).count();
    assert_eq!(uses, 0, "one-shot serve is consumed by our own claim check");
}

#[test]
fn serve_and_read_arguments() {
    assert_eq!(clipboard_serve_args(), vec!["--foreground"]);
    assert_eq!(clipboard_read_args(), vec!["--no-newline"]);
}

#[test]
fn chords_press_then_release_in_reverse() {
    let ctrl = Key::KEY_LEFTCTRL.code();
    let shift = Key::KEY_LEFTSHIFT.code();
    let v = Key::KEY_V.code();
    assert_eq!(chord_events(PasteChord::CtrlV), vec![(ctrl, 1), (v, 1), (v, 0), (ctrl, 0)]);
    assert_eq!(
        chord_events(PasteChord::CtrlShiftV),
        vec![(ctrl, 1), (shift, 1), (v, 1), (v, 0), (shift, 0), (ctrl, 0)]
    );
    assert_eq!(paste_keys(), vec![ctrl, shift, v]);
}

#[test]
fn claim_ignores_trailing_whitespace() {
    assert!(clipboard_claimed(Some("hello".into()), "hello\n"));
    assert!(clipboard_claimed(Some("hello \n".into()), "hello"));
    assert!(!clipboard_claimed(Some(" hello".into()), "hello"));
    assert!(!clipboard_claimed(Some("older".into()), "hello"));
    assert!(!clipboard_claimed(None, ""));
}

#[test]
fn polling_backs_off_to_a_cap() {
    let mut ms = FIRST_POLL_MS;
    let mut seen = vec![ms];
    for _ in 0..4 {
        ms = next_poll_ms(ms);
        seen.push(ms);
    }
    assert_eq!(seen, vec![10, 20, 40, 60, 60]);
}

#[test]
fn paste_restores_what_was_there() {
    assert_eq!(
        paste_steps(true, Some("before".into()), "words", PasteChord::CtrlShiftV),
        vec![
            PasteStep::SendChord(PasteChord::CtrlShiftV),
            PasteStep::Settle,
            PasteStep::StopServer,
            PasteStep::SetClipboard("before".into())
        ]
    );
    assert_eq!(
        paste_steps(true, None, "words", PasteChord::CtrlV),
        vec![
            PasteStep::SendChord(PasteChord::CtrlV),
            PasteStep::Settle,
            PasteStep::StopServer,
            PasteStep::SetClipboard("words".into())
        ]
    );
}

#[test]
fn unclaimed_paste_leaves_the_words() {
    assert_eq!(
        paste_steps(false, Some("before".into()), "words", PasteChord::CtrlV),
        vec![
            PasteStep::StopServer,
            PasteStep::SetClipboard("words".into()),
            PasteStep::GiveUp
        ]
    );
}

#[test]
fn paste_shift_picks_the_terminal_chord() {
    assert_eq!(paste_chord(false), PasteChord::CtrlV);
    assert_eq!(paste_chord(true), PasteChord::CtrlShiftV);
    assert_eq!(chord_events(paste_chord(true)).len(), 6);
}
