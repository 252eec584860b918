//! Getting text into the focused window.
//!
//! Per-key typing depends on the active keyboard layout, so the text travels
//! via the clipboard and only the paste chord is injected, whose scancodes
//! are layout-stable. This module decides the chord's key events, how the
//! clipboard is served and checked, and what happens after the claim check.

use vstd::prelude::*;

use crate::config::KeyCode;
use crate::text::{chars_of, trim_end};

verus! {

pub const KEY_LEFTCTRL: KeyCode = 29;

pub const KEY_LEFTSHIFT: KeyCode = 42;

pub const KEY_V: KeyCode = 47;

/// How long to wait for the clipboard to be claimed. Timing out loses the
/// paste, which is far worse than a slow one, so the budget is generous.
pub const CLIPBOARD_CLAIM_TIMEOUT_MS: u64 = 1500;

/// How long the text stays on the clipboard after the chord is sent: the
/// whole window the focused app has to notice the keystroke and read it.
pub const PASTE_SETTLE_MS: u64 = 400;

/// The first pause between clipboard checks; it doubles up to the cap.
pub const FIRST_POLL_MS: u64 = 10;

pub const MAX_POLL_MS: u64 = 60;

/// Which paste chord to send. Terminals use Ctrl+Shift+V for paste.
#[derive(Debug, Clone, Copy, PartialEq, Eq, Structural)]
pub enum PasteChord {
    CtrlV,
    CtrlShiftV,
}

/// The chord that pastes where the user types: terminals need
/// Ctrl+Shift+V, and Wayland gives no way to ask which window has focus, so
/// the `paste_shift` setting decides.
pub fn paste_chord(paste_shift: bool) -> (c: PasteChord)
    ensures
        c == (if paste_shift {
            PasteChord::CtrlShiftV
        } else {
            PasteChord::CtrlV
        }),
{
    if paste_shift {
        PasteChord::CtrlShiftV
    } else {
        PasteChord::CtrlV
    }
}

/// The key events of a chord, in order: each key pressed (1) in turn, then
/// released (0) in the reverse order.
pub open spec fn chord_events_spec(chord: PasteChord) -> Seq<(KeyCode, i32)> {
    match chord {
        PasteChord::CtrlV => seq![(KEY_LEFTCTRL, 1), (KEY_V, 1), (KEY_V, 0), (KEY_LEFTCTRL, 0)],
        PasteChord::CtrlShiftV => seq![
            (KEY_LEFTCTRL, 1),
            (KEY_LEFTSHIFT, 1),
            (KEY_V, 1),
            (KEY_V, 0),
            (KEY_LEFTSHIFT, 0),
            (KEY_LEFTCTRL, 0),
        ],
    }
}

/// The key events that send `chord`.
pub fn chord_events(chord: PasteChord) -> (evs: Vec<(KeyCode, i32)>)
    ensures
        evs@ == chord_events_spec(chord),
{
    let shift = chord == PasteChord::CtrlShiftV;
    let mut evs: Vec<(KeyCode, i32)> = Vec::new();
    evs.push((KEY_LEFTCTRL, 1));
    if shift {
        evs.push((KEY_LEFTSHIFT, 1));
    }
    evs.push((KEY_V, 1));
    evs.push((KEY_V, 0));
    if shift {
        evs.push((KEY_LEFTSHIFT, 0));
    }
    evs.push((KEY_LEFTCTRL, 0));
    assert(evs@ =~= chord_events_spec(chord));
    evs
}

/// The keys the virtual keyboard must be able to send.
pub fn paste_keys() -> (keys: Vec<KeyCode>)
    ensures
        keys@ == seq![KEY_LEFTCTRL, KEY_LEFTSHIFT, KEY_V],
{
    vec![KEY_LEFTCTRL, KEY_LEFTSHIFT, KEY_V]
}

/// The arguments for `wl-copy` that serve the clipboard for the whole paste
/// attempt. A one-shot serve would be spent by the claim check's own read,
/// leaving nothing for the focused app, so the server runs until stopped.
pub fn clipboard_serve_args() -> (args: Vec<&'static str>)
    ensures
        args@.len() == 1,
        args@[0]@ == "--foreground"@,
{
    vec!["--foreground"]
}

/// The arguments for `wl-paste` that read the clipboard back.
pub fn clipboard_read_args() -> (args: Vec<&'static str>)
    ensures
        args@.len() == 1,
        args@[0]@ == "--no-newline"@,
{
    vec!["--no-newline"]
}

/// Whether the clipboard, as read back, holds `text`. `wl-paste
/// --no-newline` strips one trailing newline, so trailing whitespace is not
/// compared.
pub open spec fn claimed_spec(current: Option<Seq<char>>, text: Seq<char>) -> bool {
    match current {
        Some(c) => trim_end(c) == trim_end(text),
        None => false,
    }
}

pub fn clipboard_claimed(current: Option<String>, text: &str) -> (r: bool)
    ensures
        r == claimed_spec(
            match current {
                Some(c) => Some(c@),
                None => None,
            },
            text@,
        ),
{
    match current {
        None => false,
        Some(c) => {
            let a = chars_of(c.as_str());
            let b = chars_of(text);
            let ea = crate::text::trim_end_len(&a, 0, a.len());
            let eb = crate::text::trim_end_len(&b, 0, b.len());
            assert(a@.subrange(0, a@.len() as int) =~= a@);
            assert(b@.subrange(0, b@.len() as int) =~= b@);
            let mut ta: Vec<char> = Vec::new();
            crate::text::push_range(&mut ta, &a, 0, ea);
            let mut tb: Vec<char> = Vec::new();
            crate::text::push_range(&mut tb, &b, 0, eb);
            assert(ta@ =~= trim_end(c@));
            assert(tb@ =~= trim_end(text@));
            crate::text::same_chars(&ta, &tb)
        },
    }
}

/// The next pause between clipboard checks: doubled, up to the cap. Backing
/// off keeps each check's `wl-paste` from hammering the compositor.
pub fn next_poll_ms(ms: u64) -> (next: u64)
    requires
        ms <= u64::MAX / 2,
    ensures
        next == (if 2 * ms < MAX_POLL_MS {
            2 * ms
        } else {
            MAX_POLL_MS as int
        }),
{
    let doubled = ms * 2;
    if doubled < MAX_POLL_MS {
        doubled
    } else {
        MAX_POLL_MS
    }
}

/// One step of a paste, after the clipboard server was started.
#[derive(Debug, Clone, PartialEq)]
pub enum PasteStep {
    /// Inject the paste chord.
    SendChord(PasteChord),
    /// Wait `PASTE_SETTLE_MS` for the app to read the clipboard.
    Settle,
    /// Stop the clipboard server.
    StopServer,
    /// Put this text on the clipboard and leave it there.
    SetClipboard(String),
    /// Report that the paste could not be made; the text is on the clipboard.
    GiveUp,
}

/// What remains of a paste once the claim check has run. If the clipboard
/// never held the text, nothing is pasted and the transcription is left on
/// the clipboard rather than lost. Otherwise the chord is sent, the app is
/// given time to read, and the user's previous clipboard is put back -- or,
/// if there was none, the words themselves, so they are still reachable.
pub fn paste_steps(claimed: bool, saved: Option<String>, text: &str, chord: PasteChord) -> (steps:
    Vec<PasteStep>)
    ensures
        !claimed ==> steps@.len() == 3 && steps@[0] == PasteStep::StopServer && (
        steps@[1] matches PasteStep::SetClipboard(t) && t@ == text@) && steps@[2]
            == PasteStep::GiveUp,
        claimed ==> steps@.len() == 4 && steps@[0] == PasteStep::SendChord(chord) && steps@[1]
            == PasteStep::Settle && steps@[2] == PasteStep::StopServer && (
        steps@[3] matches PasteStep::SetClipboard(t) && t@ == match saved {
            Some(prev) => prev@,
            None => text@,
        }),
{
    let mut steps: Vec<PasteStep> = Vec::new();
    if !claimed {
        steps.push(PasteStep::StopServer);
        steps.push(PasteStep::SetClipboard(String::from_str(text)));
        steps.push(PasteStep::GiveUp);
        return steps;
    }
    steps.push(PasteStep::SendChord(chord));
    steps.push(PasteStep::Settle);
    steps.push(PasteStep::StopServer);
    let restore = match saved {
        Some(prev) => prev,
        None => String::from_str(text),
    };
    steps.push(PasteStep::SetClipboard(restore));
    steps
}

} // verus!
