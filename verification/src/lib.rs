//! Hardware-independent music validation, playback, and browser/Worker protocols.
//!
//! This library has no hardware, networking, clock, or FFI dependencies. Callers
//! supply elapsed time and perform the resulting effects.
pub mod analysis;
pub mod benchmark;
pub mod checksum;
pub mod console;
pub mod crypto;
pub mod error;
pub mod metrics;
pub mod music;
pub mod now_playing;
pub mod platform;
pub mod playback;
pub mod probe;
pub mod protocol;
pub mod radio;
pub mod recovery;
pub mod session;
pub mod signaling;
pub mod spectrum;
pub mod station;
pub mod storage;
pub mod text;
