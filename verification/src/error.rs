use vstd::prelude::*;

verus! {

/// Why a chunk, a window or a span could not be processed.
#[derive(Clone, Copy, Debug, PartialEq, Eq, Structural)]
pub enum VadError {
    /// The audio buffer holds no samples.
    EmptyInput,
    /// The sample rate is neither 8000 nor 16000.
    UnsupportedSampleRate,
    /// The scorer gave no usable answer for the window with this index
    /// (counted from the start of the chunk).
    InferenceFailure { window: usize },
    /// The transcription engine gave no usable answer for the span with this
    /// index (counted from the start of the chunk).
    TranscriptionFailure { span: usize },
}

} // verus!
