# audio-system-tray

A system tray sink switcher for PipeWire (`wpctl`) and PulseAudio (`pactl`).

- `src/` is the verified library: the readers of `wpctl status`,
  `pactl list sinks`, `pactl get-default-sink` and `pactl info`, the order in
  which backends are tried, and the tray's title, menu and state changes.
  Each public function's contract states its result exactly, over spec
  functions that define the formats; the `law_*` proof functions state what
  holds across calls.
- `app/` is the program around it: it runs the commands, drives the backend
  detection, and draws the tray with `ksni` on `tokio`.
- `tests/` runs the library on sample outputs.
