//! The archived single-song radio of the FFT benchmark: packs of version 1, which carry their
//! spectrum with them, and a peer that allocates its own streams.
pub mod music;
pub mod playback;
pub mod radio;
pub mod signaling;
