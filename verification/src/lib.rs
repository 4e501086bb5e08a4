//! Event store and pattern matchers for a stream of note-on / note-off events
//! coming from a musical keyboard.
//!
//! The store keeps a linear log of the events of the current run and a
//! time-bucketed projection of the keys that are held. The matchers are pure
//! functions over the log and the projection that recognise scales, interval
//! runs and chords. The dispatcher and the practice programs say, for each
//! event and each control message, what becomes of their state and what is
//! to be done; the threads, the queues and the devices that carry this out
//! are left to the program around the library.

pub mod console;
pub mod dispatch;
pub mod hold_laws;
pub mod hold_model;
pub mod key_handler;
pub mod log_model;
pub mod midi;
pub mod music;
pub mod practice_program;
pub mod speech;
pub mod time;
