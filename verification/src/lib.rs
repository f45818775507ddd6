//! Decision logic of a headless dictation daemon.
//!
//! A toggle starts a recording, a toggle or any key ends it, and the transcript is broadcast to
//! listeners and, cleaned, handed to the focused application. [`daemon`] decides what happens
//! when; the other modules hold what it takes: routing, messages, requests, key sequences.
//! Nothing here reads or writes anything: settings, file contents and times are arguments, and
//! what is to be done is returned.

pub mod bus;
pub mod capture;
pub mod clean;
pub mod clock;
pub mod daemon;
pub mod focus;
pub mod keywatch;
pub mod number;
pub mod paste;
pub mod rules;
pub mod state;
pub mod stt;
pub mod text;
pub mod unicode;
pub mod wav;
