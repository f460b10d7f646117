//! Streaming observation engine for live audio and MIDI.
//!
//! The crate holds the rules of the engine: what the application core does
//! with each event that reaches it, what the script worker answers, which
//! events are offered to the worker and in which order, and how captured data
//! is kept for display. Every function is verified against a contract over a
//! mathematical view of the state it touches.
//!
//! * [`events`]: the data that moves between the threads.
//! * [`channel`]: the bounded queues between them.
//! * [`source`]: what a capture device offers.
//! * [`ring`]: bounded recent history and the alert mailbox.
//! * [`midimon`]: the application core with scripts.
//! * [`auscope`]: the application core of the audio scope.
//! * [`engine`]: the script worker.
//! * [`files`]: the script on disk, its watcher, and the tree under `~/.aud`.
//! * [`options`]: what the command line means.
pub mod auscope;
pub mod channel;
mod clock;
pub mod engine;
pub mod events;
pub mod files;
pub mod midimon;
pub mod options;
pub mod ring;
pub mod source;
