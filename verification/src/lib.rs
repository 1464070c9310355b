//! Audio sink switching for a PipeWire / PulseAudio system tray: reading the
//! sinks out of `wpctl status` and `pactl list sinks`, finding the default
//! sink, choosing the backend, and the tray's title, menu and state.
//!
//! - [`text`]: the `str` operations the readers use, over characters.
//! - [`wpctl`]: the `wpctl status` format and its sinks with numeric IDs.
//! - [`backend`]: both backends' readers, with sinks identified by text.
//! - [`tray`]: what the tray icon shows and how it changes.
pub mod backend;
pub mod text;
pub mod tray;
pub mod wpctl;
