use sensor_core::service::{
    active_query, disable, enabled_query, restart, start, state, stop, State, SYSTEMCTL, UNIT,
};

#[test]
fn labels_and_descriptions() {
    assert_eq!(State::Running.label(), "Running");
    assert_eq!(State::Stopped.label(), "Stopped");
    assert_eq!(State::Disabled.label(), "Disabled");
    assert_eq!(State::Unmanaged.label(), "Not installed as a service");
    assert_eq!(
        State::Running.description(),
        "Listening for your hotkey. Starts automatically when you log in."
    );
    assert_eq!(
        State::Unmanaged.description(),
        "No systemd service found. Run `sensorctl setup`, or start sensord yourself."
    );
}

#[test]
fn state_from_probe_outputs() {
    let s = |a: Option<&str>, e: Option<&str>| state(a.map(String::from), e.map(String::from));
    assert_eq!(s(None, Some("enabled\n")), State::Unmanaged);
    assert_eq!(s(Some(""), None), State::Unmanaged);
    assert_eq!(s(Some("\n"), Some("  \n")), State::Unmanaged);
    assert_eq!(s(Some("active\n"), Some("enabled\n")), State::Running);
    // Running now but not set to start at login: it will not start on its own.
    assert_eq!(s(Some("active\n"), Some("disabled\n")), State::Disabled);
    assert_eq!(s(Some("active"), None), State::Disabled);
    assert_eq!(s(Some("inactive\n"), Some("enabled\n")), State::Stopped);
    assert_eq!(s(Some("inactive\n"), Some("disabled\n")), State::Disabled);
    assert_eq!(s(Some("failed\n"), None), State::Disabled);
}

#[test]
fn commands_name_the_unit() {
    assert_eq!(SYSTEMCTL, "systemctl");
    assert_eq!(UNIT, "sensord.service");
    assert_eq!(start().args, vec!["--user", "enable", "--now", UNIT]);
    assert_eq!(stop().args, vec!["--user", "stop", UNIT]);
    assert_eq!(disable().args, vec!["--user", "disable", "--now", UNIT]);
    assert_eq!(restart().args, vec!["--user", "restart", UNIT]);
    assert_eq!(active_query(), vec!["--user", "is-active", UNIT]);
    assert_eq!(enabled_query(), vec!["--user", "is-enabled", UNIT]);
}

#[test]
fn failures_carry_stderr() {
    assert!(start().outcome(true, "ignored").is_ok());
    let e = stop().outcome(false, "  Unit not found.\n").unwrap_err();
    assert_eq!(e.message, "stopping the service failed: Unit not found.");
    let e = restart().outcome(false, "\n").unwrap_err();
    assert_eq!(e.message, "restarting the service failed");
}
