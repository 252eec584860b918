//! The dictation loop's decisions: hold the hotkey, speak, release, and the
//! text lands in the focused window. Capture starts on press, so the audio is
//! already buffered by the time the user stops speaking.

use vstd::prelude::*;

use crate::audio::TARGET_RATE;
use crate::hotkey::HotkeyEvent;

verus! {

/// What the daemon does next.
#[derive(Debug, Clone, Copy, PartialEq, Eq, Structural)]
pub enum Action {
    /// Start capturing from the microphone.
    StartRecording,
    /// Stop capturing, then transcribe and paste what was said.
    FinishUtterance,
    /// Nothing to do.
    Ignore,
}

/// The action for a hotkey signal, given whether a recording is under way.
/// A press while already recording does not restart it, and a release with
/// nothing recorded is ignored.
pub open spec fn action_for(recording: bool, event: HotkeyEvent) -> Action {
    match event {
        HotkeyEvent::Pressed => if recording {
            Action::Ignore
        } else {
            Action::StartRecording
        },
        HotkeyEvent::Released => if recording {
            Action::FinishUtterance
        } else {
            Action::Ignore
        },
    }
}

pub fn on_hotkey(recording: bool, event: HotkeyEvent) -> (a: Action)
    ensures
        a == action_for(recording, event),
{
    match event {
        HotkeyEvent::Pressed => if recording {
            Action::Ignore
        } else {
            Action::StartRecording
        },
        HotkeyEvent::Released => if recording {
            Action::FinishUtterance
        } else {
            Action::Ignore
        },
    }
}

/// Utterances shorter than 0.3 s are dropped: whisper turns near-silence into
/// confident nonsense, and a tapped hotkey should produce nothing.
pub open spec fn too_short_spec(samples: nat) -> bool {
    10 * samples < 3 * TARGET_RATE
}

/// Whether `samples` mono samples at `TARGET_RATE` last under 0.3 s.
pub fn too_short(samples: usize) -> (r: bool)
    ensures
        r == too_short_spec(samples as nat),
{
    samples < 4800
}

} // verus!
