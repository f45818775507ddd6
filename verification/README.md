# voicechat

A headless dictation daemon for Linux desktops. A hotkey starts a recording, the hotkey or any
key ends it; the recording goes to a speech-to-text server. The transcript is broadcast verbatim
on a socket, and, cleaned of filler words, copied or pasted as the focused application's rule
says.

## Layout

- `src/` is the library, verified with Verus: everything that the daemon decides or computes.
  - `daemon`: the dictation cycle as a state machine, from events to actions.
  - `clean`: dropping filler words.
  - `rules`, `focus`: routing by the focused application.
  - `paste`: key sequences, and the steps that hand a transcript over.
  - `bus`, `state`: messages for listeners, and where they are published.
  - `stt`, `wav`, `capture`: requests and answers of the server, WAV files, raw audio.
  - `keywatch`: which key press ends a recording.
  - `clock`, `number`, `text`, `unicode`: what the others are built on.
- `app/` is the program around it: processes, sockets, files, devices, threads and HTTP.
- `tests/` runs the library.

Functions named `law_...` are proofs about the library as a whole, such as that a listener reads
back what was sent, or that a recording is handed over at most once. Calls into other crates and
into parts of the standard library that have no specification stand in small functions marked
`external_body`, each with a comment that says what is taken on trust.
