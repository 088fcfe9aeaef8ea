//! Voice activity segmentation for audio that arrives in chunks.
//!
//! A chunk is cut into windows of one second ([`window`]). Every window is
//! scored by a recurrent network whose memory is carried from window to window
//! and from chunk to chunk, and the score is held against a threshold
//! ([`classifier`], [`probability`]). Windows that follow each other with the
//! same decision are merged into runs: spans of voice and stretches of silence
//! ([`coalesce`]). Each span is handed to a transcription engine, whose clock
//! starts at zero with every slice, and the text that comes back is placed on
//! the clock of the whole stream ([`reconcile`], [`timeline`]). A session
//! ([`vad_session`]) does all of this for one stream.
//!
//! The network and the engine are not part of this crate: a caller hands them
//! in as functions. Samples are of any type that can be copied; this crate
//! never looks inside them. Probabilities and the memory of
//! the network are single-precision numbers, carried here as their IEEE-754
//! bit patterns in `u32`. Sample indices are inclusive at both ends. Times are
//! whole centiseconds.

pub mod args;
pub mod classifier;
pub mod coalesce;
pub mod determinism;
pub mod error;
pub mod model_info;
pub mod probability;
pub mod reconcile;
pub mod timeline;
pub mod vad_session;
pub mod wav;
pub mod window;
