use evdev::Key;
use sensor_core::doctor::in_groups;
use sensor_core::ipc::Status;
use sensor_core::config::Hotkey;
use sensor_core::panel::{
    choice_index, choice_index_of_name, choice_index_of_text, hotkey_choices, status_display, toggle,
};
use sensor_core::service::State;

#[test]
fn status_card_prefers_what_the_daemon_says() {
    let live = Some(Status { running: true, ..Default::default() });
    let rec = Some(Status { running: true, recording: true, ..Default::default() });

    let d = status_display(State::Stopped, &rec);
    assert_eq!((d.dot, d.text, d.detail, d.button), ("running", "Recording…", "Listening to your microphone right now.", "Stop"));

    let d = status_display(State::Unmanaged, &live);
    assert_eq!((d.dot, d.text, d.button), ("running", "Running", "Stop"));
    assert!(d.detail.starts_with("Running, but started by hand"));

    let d = status_display(State::Stopped, &live);
    assert_eq!(d.detail, State::Running.description());

    let d = status_display(State::Disabled, &None);
    assert_eq!((d.dot, d.text, d.button), ("off", "Disabled", "Start"));
    assert_eq!(d.detail, State::Disabled.description());

    let d = status_display(State::Unmanaged, &None);
    assert_eq!((d.dot, d.text), ("stopped", "Not installed as a service"));
}

#[test]
fn button_stops_a_running_service_else_starts_it() {
    assert_eq!(toggle(State::Running).doing, "stopping");
    assert_eq!(toggle(State::Stopped).doing, "starting");
    assert_eq!(toggle(State::Unmanaged).args, vec!["--user", "enable", "--now", "sensord.service"]);
}

#[test]
fn configured_hotkey_selects_its_entry() {
    let names: Vec<&str> = hotkey_choices().iter().map(|c| c.0).collect();
    assert_eq!(names, vec!["RIGHTALT", "RIGHTCTRL", "SCROLLLOCK", "F12", "PAUSE", "INSERT"]);
    assert_eq!(hotkey_choices()[2].1, "Scroll Lock");
    assert_eq!(choice_index(Hotkey::single(Key::KEY_RIGHTALT.code())), Some(0));
    assert_eq!(choice_index(Hotkey::single(Key::KEY_F12.code())), Some(3));
    assert_eq!(choice_index(Hotkey::single(Key::KEY_INSERT.code())), Some(5));
    assert_eq!(choice_index(Hotkey::single(Key::KEY_A.code())), None);
    // A chord is never one of the single keys in the list.
    assert_eq!(choice_index(Hotkey::chord(Key::KEY_RIGHTALT.code(), Key::KEY_DOT.code())), None);
    assert_eq!(choice_index(Hotkey::chord(Key::KEY_RIGHTCTRL.code(), Key::KEY_F12.code())), None);
    assert_eq!(choice_index_of_text("PAUSE"), Some(4));
    assert_eq!(choice_index_of_text("KEY_PAUSE"), None);
}

#[test]
fn session_groups() {
    assert!(in_groups("user adm input uinput sudo\n"));
    assert!(in_groups("uinput\tinput"));
    assert!(!in_groups("user input sudo"));
    assert!(!in_groups("user inputs uinputs"));
    assert!(!in_groups(""));
}

#[test]
fn list_index_from_key_name() {
    assert_eq!(choice_index_of_name("KEY_PAUSE"), Some(4));
    assert_eq!(choice_index_of_name("SCROLLLOCK"), Some(2));
    assert_eq!(choice_index_of_name("KEY_KEY_F12"), None);
    assert_eq!(choice_index_of_name("unknown key: 700"), None);
}
