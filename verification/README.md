# localvox

The verified core of a local-first voice dictation tool: hold a hotkey,
speak, and the transcript is typed into the focused application.

`src/` is the library, proved with Verus:

- `text` — character-level helpers (white space, trimming, substring search).
- `corrections` — the user's find-and-replace rules (ASCII case ignored).
- `digits` — collapsing dictated digit groups ("555, 123, 4567") into numbers.
- `digits_stable` — the proof that this repair is stable: repairing a
  repaired text changes nothing.
- `hardware` — the hardware profile, the model tier it gets, and reading the
  GPU driver's query output.
- `models` — the speech-model catalog and the cleanup model's location.
- `checksum` — SHA-256 checksums of model files in hexadecimal.
- `hotkeys` — push-to-talk events and the hotkey grammar of both backends.
- `vad` — the speech segmenter's decisions.
- `cleanup` — prompt, budget and output handling for transcript cleanup.
- `pipeline` — the dictation loop's decisions: recording, what gets typed,
  start-up model choice, microphone watchdog, status display.
- `inject` — the clipboard-and-paste sequence as a state machine.
- `settings` — the persisted settings and their defaults.

`app/` is the desktop application around it (microphone, whisper.cpp,
llama.cpp, hotkey backends, clipboard, downloads, settings files, Tauri
shell). `tests/` exercises the library, including comparisons with the
`regex` crate and with std's own string functions.
