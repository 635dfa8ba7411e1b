//! What follows the client's own log: the queue of songs and the
//! compensation of audio offsets.

pub mod audio_compensator;
pub mod log_watcher;
