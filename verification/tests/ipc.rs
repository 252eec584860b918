use sensor_core::ipc::{socket_path, Status};

#[test]
fn status_survives_a_round_trip() {
    let st = Status {
        running: true,
        hotkey: "KEY_RIGHTALT".into(),
        model: "tiny.en".into(),
        microphone: "System default".into(),
        recording: false,
        utterances: 7,
        recent: vec!["hello there".into(), "second one".into()],
    };
    assert_eq!(Status::decode(&st.encode()), st);
}

#[test]
fn newlines_in_transcripts_do_not_break_framing() {
    let st = Status {
        recent: vec!["two\nlines".into()],
        ..Default::default()
    };
    let decoded = Status::decode(&st.encode());
    assert_eq!(decoded.recent, vec!["two lines".to_string()]);
}

#[test]
fn unknown_fields_are_ignored() {
    let st = Status::decode("running: true\nfuture_field: 3\nutterances: 2\n");
    assert!(st.running);
    assert_eq!(st.utterances, 2);
}

#[test]
fn encode_writes_one_line_per_field() {
    let st = Status {
        running: false,
        hotkey: "KEY_F12".into(),
        model: "m".into(),
        microphone: "mic".into(),
        recording: true,
        utterances: 18446744073709551615,
        recent: vec!["a: b".into(), "".into()],
    };
    assert_eq!(
        st.encode(),
        "running: false\nhotkey: KEY_F12\nmodel: m\nmicrophone: mic\nrecording: true\n\
         utterances: 18446744073709551615\nrecent: a: b\nrecent: \n"
    );
    assert_eq!(Status::decode(&st.encode()), st);
}

#[test]
fn decode_tolerates_odd_input() {
    let st = Status::decode("utterances: lots\nrunning: yes\nno separator\r\nrecording: true\r\nutterances: +12");
    assert!(!st.running);
    assert!(st.recording);
    assert_eq!(st.utterances, 12);
    assert_eq!(Status::decode("utterances: 18446744073709551616").utterances, 0);
    assert_eq!(Status::decode("utterances: -1").utterances, 0);
    assert_eq!(Status::decode(""), Status::default());
    assert_eq!(Status::decode("hotkey:KEY_A").hotkey, "");
}

#[test]
fn recent_entries_keep_their_order() {
    let st = Status::decode("recent: newest\nrecent: older\n");
    assert_eq!(st.recent, vec!["newest".to_string(), "older".to_string()]);
}

#[test]
fn socket_lives_in_the_runtime_dir() {
    assert_eq!(socket_path(Some("/run/user/1000".into())), "/run/user/1000/sensor.sock");
    assert_eq!(socket_path(Some(String::new())), "/tmp/sensor.sock");
    assert_eq!(socket_path(None), "/tmp/sensor.sock");
}
