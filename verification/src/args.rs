use vstd::prelude::*;

verus! {

/// What a run of the detector is started with.
#[derive(Clone, Debug, PartialEq, Eq)]
pub struct Args {
    /// Path/location of the model
    pub model: String,
    /// Path/location of the audio file
    pub audio: String,
}

} // verus!
