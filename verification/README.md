# sensor-core

Local push-to-talk dictation for Linux: hold a key or chord (Right Alt + `.`
unless configured otherwise), speak, and the text is pasted into the focused
window, with Ctrl+V or, with `paste_shift = true` for terminals,
Ctrl+Shift+V.

`src/` is the verified library. It holds the decisions and the formats:

- `config` — the `key = value` settings file, key names and chords
  (`hotkey = RIGHTALT + DOT`), the config and model paths;
- `rewrite` — saving one setting in place, and the proof that the saved
  file reads back with the new value and every other setting unchanged;
- `ipc` — the daemon's one-line-per-field status text, with the proof that
  a status survives encoding and decoding;
- `hotkey` — per-keyboard tracking of the push-to-talk key or chord, and
  the choice of a hotkey from a burst of presses;
- `daemon`, `output`, `stt`, `audio`, `service`, `panel`, `doctor` — the
  dictation loop, the paste plan, transcript text, microphone choices,
  systemctl commands, the settings window's status card and the install
  checks;
- `text`, `numbers` — character-level helpers with their specifications.

`app/` is the unverified rest: microphone capture, whisper, evdev devices,
the clipboard, the socket, systemd and the GTK window. It runs the daemon,
and, installed as `sensorctl` or `sensor-gui`, the command-line tool and
the settings window.
