//! What the settings window shows, decided from the service's state and what
//! the running daemon reports. The window shows real state read from the
//! daemon rather than what the config file claims.

use vstd::prelude::*;

use crate::config::{hotkey_text, short_name, strip_key_prefix, Hotkey};
use crate::ipc::Status;
use crate::service::{start, stop, Invocation, State};
use crate::text::{chars_of, range_is};

verus! {

/// How the status card reads.
pub struct StatusDisplay {
    /// The style of the status dot: `running`, `stopped` or `off`.
    pub dot: &'static str,
    pub text: &'static str,
    pub detail: &'static str,
    /// The label of the start/stop button.
    pub button: &'static str,
}

/// The status card for the service's state and the daemon's report (`None`
/// when nothing answers). A daemon that answers is stronger evidence than
/// systemd's view: it may have been started by hand.
pub open spec fn status_display_spec(state: State, live: bool, recording: bool) -> (
    Seq<char>,
    Seq<char>,
    Seq<char>,
    Seq<char>,
) {
    let dot = if recording || live {
        "running"@
    } else if state == State::Disabled {
        "off"@
    } else {
        "stopped"@
    };
    let text = if recording {
        "Recording…"@
    } else if live {
        "Running"@
    } else {
        state.label_text()
    };
    let detail = if recording {
        "Listening to your microphone right now."@
    } else if live && state == State::Unmanaged {
        "Running, but started by hand rather than as a service. It will not come back on its own after you log out."@
    } else if live {
        State::Running.description_text()
    } else {
        state.description_text()
    };
    let button = if live {
        "Stop"@
    } else {
        "Start"@
    };
    (dot, text, detail, button)
}

/// The start/stop button follows the daemon alone: whenever the daemon
/// answers it reads `Stop`, whatever systemd says of the service and whether
/// or not it is recording, and it reads `Start` only when nothing answers.
/// A daemon that answers also lights the dot, and a recording one says so.
pub proof fn button_follows_the_daemon(state: State, live: bool, recording: bool)
    ensures
        live ==> status_display_spec(state, live, recording).3 == "Stop"@,
        !live ==> status_display_spec(state, live, recording).3 == "Start"@,
        forall|other: State, r: bool| #[trigger]
            status_display_spec(other, live, r).3 == status_display_spec(state, live, recording).3,
        live ==> status_display_spec(state, live, recording).0 == "running"@,
        recording ==> status_display_spec(state, live, recording).1 == "Recording…"@,
        !live && !recording ==> status_display_spec(state, live, recording).1 == state.label_text(),
{
}

pub fn status_display(state: State, daemon: &Option<Status>) -> (d: StatusDisplay)
    ensures
        ({
            let (dot, text, detail, button) = status_display_spec(
                state,
                daemon is Some,
                match daemon {
                    Some(s) => s.recording,
                    None => false,
                },
            );
            &&& d.dot@ == dot
            &&& d.text@ == text
            &&& d.detail@ == detail
            &&& d.button@ == button
        }),
{
    let live = daemon.is_some();
    let recording = match daemon {
        Some(s) => s.recording,
        None => false,
    };
    let dot = if recording || live {
        "running"
    } else if state == State::Disabled {
        "off"
    } else {
        "stopped"
    };
    let text = if recording {
        "Recording…"
    } else if live {
        "Running"
    } else {
        state.label()
    };
    let detail = if recording {
        "Listening to your microphone right now."
    } else if live && state == State::Unmanaged {
        "Running, but started by hand rather than as a service. It will not come back on its own after you log out."
    } else if live {
        State::Running.description()
    } else {
        state.description()
    };
    let button = if live {
        "Stop"
    } else {
        "Start"
    };
    StatusDisplay { dot, text, detail, button }
}

/// What the start/stop button does, acting on what the service is doing
/// right now rather than on stale state: stop it if it runs, else start it.
pub fn toggle(state: State) -> (inv: Invocation)
    ensures
        state == State::Running ==> crate::service::runs(inv, seq!["stop"@], "stopping"@),
        state != State::Running ==> crate::service::runs(
            inv,
            seq!["enable"@, "--now"@],
            "starting"@,
        ),
{
    if state == State::Running {
        stop()
    } else {
        start()
    }
}

/// The hotkeys offered in the window's list, as config names and labels.
/// Anything else is reachable with `sensorctl keys`.
pub open spec fn hotkey_choice_names() -> Seq<Seq<char>> {
    seq!["RIGHTALT"@, "RIGHTCTRL"@, "SCROLLLOCK"@, "F12"@, "PAUSE"@, "INSERT"@]
}

pub fn hotkey_choices() -> (choices: Vec<(&'static str, &'static str)>)
    ensures
        choices@.len() == 6,
        forall|i: int| 0 <= i < 6 ==> (#[trigger] choices@[i]).0@ == hotkey_choice_names()[i],
        choices@[0].1@ == "Right Alt"@,
        choices@[1].1@ == "Right Ctrl"@,
        choices@[2].1@ == "Scroll Lock"@,
        choices@[3].1@ == "F12"@,
        choices@[4].1@ == "Pause"@,
        choices@[5].1@ == "Insert"@,
{
    let v = vec![
        ("RIGHTALT", "Right Alt"),
        ("RIGHTCTRL", "Right Ctrl"),
        ("SCROLLLOCK", "Scroll Lock"),
        ("F12", "F12"),
        ("PAUSE", "Pause"),
        ("INSERT", "Insert"),
    ];
    assert forall|i: int| 0 <= i < 6 implies (#[trigger] v@[i]).0@ == hotkey_choice_names()[i] by {
    }
    v
}

/// The first index in `names` at or after `from` holding `name`.
pub open spec fn index_of_from(names: Seq<Seq<char>>, name: Seq<char>, from: int) -> Option<int>
    decreases names.len() - from,
{
    if from < 0 || from >= names.len() {
        None
    } else if names[from] == name {
        Some(from)
    } else {
        index_of_from(names, name, from + 1)
    }
}

/// Which entry of the list holds the config name `text`.
pub fn choice_index_of_text(text: &str) -> (r: Option<usize>)
    ensures
        r matches Some(i) ==> index_of_from(hotkey_choice_names(), text@, 0) == Some(i as int),
        r is None ==> index_of_from(hotkey_choice_names(), text@, 0) is None,
{
    let v = chars_of(text);
    let n = v.len();
    assert(v@.subrange(0, n as int) =~= v@);
    let choices = hotkey_choices();
    let mut i: usize = 0;
    while i < choices.len()
        invariant
            i <= 6,
            choices@.len() == 6,
            forall|k: int| 0 <= k < 6 ==> (#[trigger] choices@[k]).0@ == hotkey_choice_names()[k],
            n == v@.len(),
            v@.subrange(0, n as int) == text@,
            index_of_from(hotkey_choice_names(), text@, 0) == index_of_from(
                hotkey_choice_names(),
                text@,
                i as int,
            ),
        decreases 6 - i,
    {
        if range_is(&v, 0, n, choices[i].0) {
            assert(hotkey_choice_names().len() == 6);
            assert(hotkey_choice_names()[i as int] == text@);
            assert(index_of_from(hotkey_choice_names(), text@, i as int) == Some(i as int));
            return Some(i);
        }
        assert(hotkey_choice_names().len() == 6);
        i = i + 1;
    }
    assert(hotkey_choice_names().len() == 6);
    None
}

/// Which entry of the list a key with evdev name `name` is.
pub fn choice_index_of_name(name: &str) -> (r: Option<usize>)
    ensures
        r matches Some(i) ==> index_of_from(hotkey_choice_names(), short_name(name@), 0) == Some(
            i as int,
        ),
        r is None ==> index_of_from(hotkey_choice_names(), short_name(name@), 0) is None,
{
    choice_index_of_text(strip_key_prefix(name).as_str())
}

/// Which entry of the list to select for the configured hotkey; `None` when
/// it is a key or chord set some other way, so that the window can say so
/// rather than show the wrong one.
pub fn choice_index(hotkey: Hotkey) -> (r: Option<usize>)
    ensures
        r matches Some(i) ==> index_of_from(hotkey_choice_names(), hotkey_text(hotkey), 0)
            == Some(i as int),
        r is None ==> index_of_from(hotkey_choice_names(), hotkey_text(hotkey), 0) is None,
{
    choice_index_of_text(hotkey.encode().as_str())
}

} // verus!
