# serial_tool

A graphical serial-port tool whose logic is verified with Verus.

- `src/` is the library: what is saved, what is typed and sent, what is logged and shown, when to
  send again, and what the background worker does. Every function is proved against its contract,
  save for three whose contracts are trusted: `clock::local_time` (the local time of day, from
  `chrono`), `display::decode_lossy` (`String::from_utf8_lossy`) and the specification of
  `String::push` in `text`.
  - `text`, `names`: characters, words, numbers and the order of names
  - `config`, `platform`: the settings file and where it lies
  - `send_input`, `display`: from typed text to bytes, and from bytes to shown text
  - `clock`: time stamps and deadlines
  - `serial_worker`: the background worker of an open port, as a state machine
  - `model`, `app`, `labels`: the state of the tool, everything that changes it, what it shows
  - `laws`: what holds of the tool as a whole
- `app/` is the window, the port and the settings file around it.
- `tests/` runs the library on examples.
