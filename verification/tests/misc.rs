use sensor_core::audio::{input_devices, AudioError, TARGET_RATE};
use sensor_core::daemon::{on_hotkey, too_short, Action};
use sensor_core::hotkey::HotkeyEvent;
use sensor_core::stt::transcript;
use sensor_core::text::trimmed;
use sensor_core::APP_NAME;

#[test]
fn app_name() {
    assert_eq!(APP_NAME, "sensor");
}

#[test]
fn offers_only_real_choices() {
    let names = vec![
        Some("default".to_string()),
        Some("hw:CARD=PCH,DEV=0".to_string()),
        None,
        Some("pipewire".to_string()),
        Some("pulse".to_string()),
        Some("USB Mic".to_string()),
    ];
    let ds = input_devices(names, Some("pipewire".to_string())).unwrap();
    let got: Vec<(&str, &str, bool)> =
        ds.iter().map(|d| (d.id.as_str(), d.label.as_str(), d.is_default)).collect();
    assert_eq!(
        got,
        vec![
            ("default", "System default", false),
            ("pipewire", "PipeWire", true),
            ("pulse", "PulseAudio", false),
            ("USB Mic", "USB Mic", false),
        ]
    );
}

#[test]
fn no_microphone_is_an_error() {
    let e = input_devices(vec![None, Some("plughw:0".to_string())], None).unwrap_err();
    assert_eq!(e, AudioError::NoMicrophone);
    assert_eq!(e.message(), "no usable microphone found");
    assert_eq!(input_devices(vec![], None).unwrap_err(), AudioError::NoMicrophone);
}

#[test]
fn target_rate() {
    assert_eq!(TARGET_RATE, 16_000);
}

#[test]
fn press_starts_release_finishes() {
    assert_eq!(on_hotkey(false, HotkeyEvent::Pressed), Action::StartRecording);
    assert_eq!(on_hotkey(true, HotkeyEvent::Pressed), Action::Ignore);
    assert_eq!(on_hotkey(true, HotkeyEvent::Released), Action::FinishUtterance);
    assert_eq!(on_hotkey(false, HotkeyEvent::Released), Action::Ignore);
}

#[test]
fn taps_are_too_short() {
    assert!(too_short(0));
    assert!(too_short(4799));
    assert!(!too_short(4800));
    // The threshold is 0.3 s at the target rate.
    assert_eq!((4800.0f32 / TARGET_RATE as f32) < 0.3, false);
    assert!((4799.0f32 / TARGET_RATE as f32) < 0.3);
}

#[test]
fn transcript_joins_and_trims() {
    assert_eq!(transcript(&vec![" Hello".to_string(), " world. ".to_string()]), "Hello world.");
    assert_eq!(transcript(&vec![]), "");
    assert_eq!(trimmed("  status\r\n"), "status");
}
