use crate::error::VadError;
use crate::probability::{bits_are_probability, is_probability, is_voice, reaches};
use crate::window::{
    is_slicing, is_window, lemma_count_bounds, lemma_window_bounds, prepare_audio_data,
    window_count, window_start, window_stop, AudioDetectWindow,
};
use vstd::prelude::*;

verus! {

// The scorer is a recurrent network that this crate does not run itself: the
// caller hands it in as a function. It is called once per window with the
// window's samples, the sample rate and the two memory tensors that its last
// call returned, and answers with a speech probability and the two tensors for
// its next call. Tensors and probabilities are carried as IEEE-754 bit
// patterns; a tensor is flattened in row-major order.

/// Layers of each memory tensor.
pub const STATE_LAYERS: usize = 2;

/// Batch size of each memory tensor.
pub const STATE_BATCH: usize = 1;

/// Width of each memory tensor.
pub const STATE_WIDTH: usize = 64;

/// Number of values in each memory tensor: layers times batch times width.
pub const STATE_LEN: usize = STATE_LAYERS * STATE_BATCH * STATE_WIDTH;

/// What the scorer answers for one window.
#[derive(Clone, Debug, PartialEq, Eq)]
pub struct ScorerOutput {
    /// Probability that the window holds speech.
    pub probability: u32,
    /// The first memory tensor for the next call.
    pub hn: Vec<u32>,
    /// The second memory tensor for the next call.
    pub cn: Vec<u32>,
}

/// The decision taken for one window.
#[derive(Clone, Copy, Debug, PartialEq, Eq, Structural)]
pub struct VoiceDetectResult {
    /// Index of the window's first sample.
    pub start_period: usize,
    /// Index of the window's last sample.
    pub end_period: usize,
    /// What the scorer answered.
    pub probability: u32,
    /// Whether the probability reaches the threshold.
    pub voice_detect: bool,
}

impl VoiceDetectResult {
    /// A decision with these bounds, this probability and this verdict.
    pub fn new(start_period: usize, end_period: usize, probability: u32, voice_detect: bool) -> (r:
        Self)
        ensures
            r == (VoiceDetectResult { start_period, end_period, probability, voice_detect }),
    {
        Self { start_period, end_period, probability, voice_detect }
    }
}

/// The memory of the scorer between two calls.
#[derive(Clone, Debug, PartialEq, Eq)]
pub struct ClassifierState {
    h: Vec<u32>,
    c: Vec<u32>,
}

/// Whether a sample rate is one the scorer was trained for.
pub open spec fn is_supported_rate(sample_rate: i64) -> bool {
    sample_rate == 8000 || sample_rate == 16000
}

/// Tells whether a sample rate is one the scorer was trained for.
pub fn supported_sample_rate(sample_rate: i64) -> (supported: bool)
    ensures
        supported == is_supported_rate(sample_rate),
{
    sample_rate == 8000 || sample_rate == 16000
}

/// A memory tensor of zeros.
pub open spec fn zero_tensor() -> Seq<u32> {
    Seq::new(STATE_LEN as nat, |i: int| 0u32)
}

/// An answer can be committed when there is one, what it gives for the
/// probability is a number from zero to one, and both its tensors have the
/// shape of the memory.
pub open spec fn accepted(answer: Option<ScorerOutput>) -> bool {
    answer matches Some(output) && is_probability(output.probability) && output.hn@.len()
        == STATE_LEN && output.cn@.len() == STATE_LEN
}

/// The decision on window `index` of a buffer of `len` samples, from the
/// probability that the scorer gave it.
pub open spec fn decision_for(
    index: int,
    len: int,
    sample_rate: i64,
    probability: u32,
    detection_threshold: u32,
) -> VoiceDetectResult {
    VoiceDetectResult {
        start_period: window_start(index, sample_rate as int) as usize,
        end_period: (window_stop(index, len, sample_rate as int) - 1) as usize,
        probability,
        voice_detect: reaches(probability, detection_threshold),
    }
}

/// The decisions are those of the windows of a buffer of `len` samples: one
/// per window, each with the bounds of its window.
pub open spec fn are_window_decisions(
    decisions: Seq<VoiceDetectResult>,
    len: int,
    sample_rate: int,
) -> bool {
    &&& decisions.len() == window_count(len, sample_rate)
    &&& forall|i: int|
        0 <= i < decisions.len() ==> (#[trigger] decisions[i]).start_period == window_start(
            i,
            sample_rate,
        ) && decisions[i].end_period == window_stop(i, len, sample_rate) - 1
}

/// The decisions are sound: each holds a probability and says voice exactly
/// where the probability reaches the threshold.
pub open spec fn are_sound_decisions(
    decisions: Seq<VoiceDetectResult>,
    detection_threshold: u32,
) -> bool {
    forall|i: int|
        0 <= i < decisions.len() ==> is_probability((#[trigger] decisions[i]).probability)
            && decisions[i].voice_detect == reaches(decisions[i].probability, detection_threshold)
}

fn zeros() -> (tensor: Vec<u32>)
    ensures
        tensor@ == zero_tensor(),
{
    let mut tensor: Vec<u32> = Vec::new();
    let mut i: usize = 0;
    while i < STATE_LEN
        invariant
            i <= STATE_LEN,
            tensor@.len() == i,
            forall|j: int| 0 <= j < i ==> tensor@[j] == 0u32,
        decreases STATE_LEN - i,
    {
        tensor.push(0u32);
        i = i + 1;
    }
    assert(tensor@ =~= zero_tensor());
    tensor
}

impl ClassifierState {
    /// The first memory tensor.
    pub closed spec fn h(&self) -> Seq<u32> {
        self.h@
    }

    /// The second memory tensor.
    pub closed spec fn c(&self) -> Seq<u32> {
        self.c@
    }

    /// Both tensors have their fixed shape.
    pub open spec fn wf(&self) -> bool {
        self.h().len() == STATE_LEN && self.c().len() == STATE_LEN
    }

    /// The memory before the first window of a stream: all zeros.
    pub fn new() -> (state: Self)
        ensures
            state.wf(),
            state.h() == zero_tensor(),
            state.c() == zero_tensor(),
    {
        Self { h: zeros(), c: zeros() }
    }

    /// Clears the memory.
    pub fn reset(&mut self)
        ensures
            final(self).wf(),
            final(self).h() == zero_tensor(),
            final(self).c() == zero_tensor(),
    {
        self.h = zeros();
        self.c = zeros();
    }

    /// The first memory tensor, as handed to the scorer.
    pub fn hidden(&self) -> (h: &Vec<u32>)
        ensures
            h@ == self.h(),
    {
        &self.h
    }

    /// The second memory tensor, as handed to the scorer.
    pub fn cell(&self) -> (c: &Vec<u32>)
        ensures
            c@ == self.c(),
    {
        &self.c
    }

    /// Takes in what the scorer answered for one window. An answer that can
    /// be committed replaces the memory and gives its probability; anything
    /// else leaves the memory as it was.
    pub fn commit(&mut self, answer: Option<ScorerOutput>) -> (probability: Option<u32>)
        requires
            old(self).wf(),
        ensures
            final(self).wf(),
            accepted(answer) ==> probability == Some(answer.unwrap().probability)
                && final(self).h() == answer.unwrap().hn@
                && final(self).c() == answer.unwrap().cn@,
            !accepted(answer) ==> probability.is_none() && final(self).h() == old(self).h()
                && final(self).c() == old(self).c(),
    {
        match answer {
            Some(output) => {
                if bits_are_probability(output.probability) && output.hn.len() == STATE_LEN
                    && output.cn.len() == STATE_LEN {
                    self.h = output.hn;
                    self.c = output.cn;
                    Some(output.probability)
                } else {
                    None
                }
            },
            None => None,
        }
    }
}

/// One call of the scorer: what it was handed and what it answered.
pub struct ScorerCall<T> {
    pub samples: Vec<T>,
    pub h: Vec<u32>,
    pub c: Vec<u32>,
    pub answer: Option<ScorerOutput>,
}

/// The scorer can be called on every window of a buffer at this rate,
/// whatever the memory holds.
pub open spec fn scorer_accepts<T, F: Fn(&Vec<T>, i64, &Vec<u32>, &Vec<u32>) -> Option<ScorerOutput>>(
    score: F,
    sample_rate: i64,
) -> bool {
    forall|samples: &Vec<T>, h: &Vec<u32>, c: &Vec<u32>|
        samples@.len() > 0 && h@.len() == STATE_LEN && c@.len() == STATE_LEN ==> call_requires(
            score,
            (samples, sample_rate, h, c),
        )
}

/// The first memory tensor before call `index`: the initial one before the
/// first call, then what the call before answered.
pub open spec fn h_before<T>(h0: Seq<u32>, calls: Seq<ScorerCall<T>>, index: int) -> Seq<u32> {
    if index == 0 {
        h0
    } else {
        calls[index - 1].answer.unwrap().hn@
    }
}

/// The second memory tensor before call `index`.
pub open spec fn c_before<T>(c0: Seq<u32>, calls: Seq<ScorerCall<T>>, index: int) -> Seq<u32> {
    if index == 0 {
        c0
    } else {
        calls[index - 1].answer.unwrap().cn@
    }
}

/// The scorer was handed these samples and this memory, and could answer as
/// the call records.
pub open spec fn is_call_on<T, F: Fn(&Vec<T>, i64, &Vec<u32>, &Vec<u32>) -> Option<ScorerOutput>>(
    score: F,
    samples: Seq<T>,
    sample_rate: i64,
    h: Seq<u32>,
    c: Seq<u32>,
    call: ScorerCall<T>,
) -> bool {
    &&& call_ensures(score, (&call.samples, sample_rate, &call.h, &call.c), call.answer)
    &&& call.samples@ == samples
    &&& call.h@ == h
    &&& call.c@ == c
}

/// What classifying one window gives and leaves behind, for the answer of
/// the scorer. An answer that can be committed gives the decision on the
/// window and becomes the memory. Any other answer is a failure of the
/// window with this index and leaves the memory as it was.
pub open spec fn window_outcome(
    start_period: usize,
    end_period: usize,
    index: usize,
    detection_threshold: u32,
    h0: Seq<u32>,
    c0: Seq<u32>,
    answer: Option<ScorerOutput>,
    result: Result<VoiceDetectResult, VadError>,
    h: Seq<u32>,
    c: Seq<u32>,
) -> bool {
    if accepted(answer) {
        &&& result == Ok::<VoiceDetectResult, VadError>(
            VoiceDetectResult {
                start_period,
                end_period,
                probability: answer.unwrap().probability,
                voice_detect: reaches(answer.unwrap().probability, detection_threshold),
            },
        )
        &&& h == answer.unwrap().hn@
        &&& c == answer.unwrap().cn@
    } else {
        &&& result == Err::<VoiceDetectResult, VadError>(VadError::InferenceFailure { window: index })
        &&& h == h0
        &&& c == c0
    }
}

/// Call `index` was made on window `index` of the buffer with the memory
/// that the calls before it left, and `score` could answer as recorded.
pub open spec fn is_window_call<T, F: Fn(&Vec<T>, i64, &Vec<u32>, &Vec<u32>) -> Option<ScorerOutput>>(
    score: F,
    samples: Seq<T>,
    sample_rate: i64,
    h0: Seq<u32>,
    c0: Seq<u32>,
    calls: Seq<ScorerCall<T>>,
    index: int,
) -> bool {
    is_call_on(
        score,
        samples.subrange(
            window_start(index, sample_rate as int),
            window_stop(index, samples.len() as int, sample_rate as int),
        ),
        sample_rate,
        h_before(h0, calls, index),
        c_before(c0, calls, index),
        calls[index],
    )
}

/// `calls` are the calls that classifying a buffer makes, in order: one per
/// window from the first window on, each with the memory that the one before
/// left, and none after an answer that cannot be committed.
pub open spec fn is_scoring_run<T, F: Fn(&Vec<T>, i64, &Vec<u32>, &Vec<u32>) -> Option<ScorerOutput>>(
    score: F,
    samples: Seq<T>,
    sample_rate: i64,
    h0: Seq<u32>,
    c0: Seq<u32>,
    calls: Seq<ScorerCall<T>>,
) -> bool {
    &&& 1 <= calls.len() <= window_count(samples.len() as int, sample_rate as int)
    &&& forall|i: int|
        0 <= i < calls.len() ==> #[trigger] is_window_call(
            score,
            samples,
            sample_rate,
            h0,
            c0,
            calls,
            i,
        )
    &&& forall|i: int| 0 <= i < calls.len() - 1 ==> accepted(#[trigger] calls[i].answer)
    &&& calls.len() < window_count(samples.len() as int, sample_rate as int) ==> !accepted(
        calls.last().answer,
    )
}

/// What classifying a buffer gives and leaves behind, for the calls that it
/// made. Where every answer was committed, there is one decision per window
/// and the memory is what the last call answered. Where the last answer could
/// not be committed, the window of that call is reported, and the memory is
/// what the calls before it left: they stay committed.
pub open spec fn scoring_outcome<T>(
    samples: Seq<T>,
    sample_rate: i64,
    detection_threshold: u32,
    h0: Seq<u32>,
    c0: Seq<u32>,
    calls: Seq<ScorerCall<T>>,
    result: Result<Vec<VoiceDetectResult>, VadError>,
    h: Seq<u32>,
    c: Seq<u32>,
) -> bool {
    if accepted(calls.last().answer) {
        &&& result matches Ok(decisions)
        &&& decisions@.len() == calls.len()
        &&& forall|i: int|
            0 <= i < decisions@.len() ==> #[trigger] decisions@[i] == decision_for(
                i,
                samples.len() as int,
                sample_rate,
                calls[i].answer.unwrap().probability,
                detection_threshold,
            )
        &&& h == calls.last().answer.unwrap().hn@
        &&& c == calls.last().answer.unwrap().cn@
    } else {
        &&& result == Err::<Vec<VoiceDetectResult>, VadError>(
            VadError::InferenceFailure { window: (calls.len() - 1) as usize },
        )
        &&& h == h_before(h0, calls, calls.len() - 1)
        &&& c == c_before(c0, calls, calls.len() - 1)
    }
}

/// Classifies one window: hands its samples and the memory to the scorer,
/// commits the answer, and decides whether the window is voice. The memory is
/// replaced whatever the decision is.
///
/// A rate that is not supported, or a window without samples, is refused
/// before the scorer is called. Where the scorer gives no answer that can be
/// committed, the window is reported under the index given, and the memory
/// stays.
pub fn classify_window<T, F: Fn(&Vec<T>, i64, &Vec<u32>, &Vec<u32>) -> Option<ScorerOutput>>(
    state: &mut ClassifierState,
    detection_threshold: u32,
    window: &AudioDetectWindow<T>,
    index: usize,
    sample_rate: i64,
    score: &F,
) -> (result: Result<VoiceDetectResult, VadError>)
    requires
        old(state).wf(),
        is_supported_rate(sample_rate) ==> scorer_accepts(*score, sample_rate),
    ensures
        final(state).wf(),
        !is_supported_rate(sample_rate) ==> result == Err::<VoiceDetectResult, VadError>(
            VadError::UnsupportedSampleRate,
        ) && final(state).h() == old(state).h() && final(state).c() == old(state).c(),
        is_supported_rate(sample_rate) && window.audio_data@.len() == 0 ==> result == Err::<
            VoiceDetectResult,
            VadError,
        >(VadError::EmptyInput) && final(state).h() == old(state).h() && final(state).c() == old(
            state,
        ).c(),
        is_supported_rate(sample_rate) && window.audio_data@.len() > 0 ==> exists|
            call: ScorerCall<T>,
        |
            #[trigger] is_call_on(
                *score,
                window.audio_data@,
                sample_rate,
                old(state).h(),
                old(state).c(),
                call,
            ) && window_outcome(
                window.start_period,
                window.end_period,
                index,
                detection_threshold,
                old(state).h(),
                old(state).c(),
                call.answer,
                result,
                final(state).h(),
                final(state).c(),
            ),
{
    if !supported_sample_rate(sample_rate) {
        return Err(VadError::UnsupportedSampleRate);
    }
    if window.audio_data.len() == 0 {
        return Err(VadError::EmptyInput);
    }
    let answer = score(&window.audio_data, sample_rate, &state.h, &state.c);
    let ghost call = ScorerCall { samples: window.audio_data, h: state.h, c: state.c, answer };
    proof {
        assert(is_call_on(
            *score,
            window.audio_data@,
            sample_rate,
            old(state).h(),
            old(state).c(),
            call,
        ));
    }
    match state.commit(answer) {
        Some(probability) => {
            let voice = is_voice(probability, detection_threshold);
            Ok(VoiceDetectResult::new(window.start_period, window.end_period, probability, voice))
        },
        None => Err(VadError::InferenceFailure { window: index }),
    }
}

/// Classifies every window of a buffer, in order, carrying the memory from
/// one window to the next. Each answer is committed before the next window
/// is scored.
///
/// A rate that is not supported, or an empty buffer, is refused before the
/// scorer is called. The first answer that cannot be committed ends the run:
/// its window is reported, and what was committed before it stays.
pub fn classify_windows<T: Copy, F: Fn(&Vec<T>, i64, &Vec<u32>, &Vec<u32>) -> Option<ScorerOutput>>(
    state: &mut ClassifierState,
    detection_threshold: u32,
    audio_data: &Vec<T>,
    sample_rate: i64,
    score: &F,
) -> (result: Result<Vec<VoiceDetectResult>, VadError>)
    requires
        old(state).wf(),
        is_supported_rate(sample_rate) ==> scorer_accepts(*score, sample_rate),
    ensures
        final(state).wf(),
        result matches Ok(decisions) ==> are_window_decisions(
            decisions@,
            audio_data@.len() as int,
            sample_rate as int,
        ) && are_sound_decisions(decisions@, detection_threshold),
        !is_supported_rate(sample_rate) ==> result == Err::<Vec<VoiceDetectResult>, VadError>(
            VadError::UnsupportedSampleRate,
        ) && final(state).h() == old(state).h() && final(state).c() == old(state).c(),
        is_supported_rate(sample_rate) && audio_data@.len() == 0 ==> result == Err::<
            Vec<VoiceDetectResult>,
            VadError,
        >(VadError::EmptyInput) && final(state).h() == old(state).h() && final(state).c() == old(
            state,
        ).c(),
        is_supported_rate(sample_rate) && audio_data@.len() > 0 ==> exists|
            calls: Seq<ScorerCall<T>>,
        |
            #[trigger] is_scoring_run(
                *score,
                audio_data@,
                sample_rate,
                old(state).h(),
                old(state).c(),
                calls,
            ) && scoring_outcome(
                audio_data@,
                sample_rate,
                detection_threshold,
                old(state).h(),
                old(state).c(),
                calls,
                result,
                final(state).h(),
                final(state).c(),
            ),
{
    if !supported_sample_rate(sample_rate) {
        return Err(VadError::UnsupportedSampleRate);
    }
    let rate: usize = sample_rate as usize;
    let windows = match prepare_audio_data(audio_data, rate) {
        Ok(windows) => windows,
        Err(e) => {
            return Err(e);
        },
    };
    let ghost h0 = state.h();
    let ghost c0 = state.c();
    let ghost len = audio_data@.len() as int;
    let ghost calls: Seq<ScorerCall<T>> = Seq::empty();
    let mut decisions: Vec<VoiceDetectResult> = Vec::new();
    let mut i: usize = 0;
    while i < windows.len()
        invariant
            state.wf(),
            h0 == old(state).h(),
            c0 == old(state).c(),
            is_supported_rate(sample_rate),
            scorer_accepts(*score, sample_rate),
            len == audio_data@.len(),
            len > 0,
            is_slicing(windows@, audio_data@, sample_rate as int),
            i <= windows.len(),
            calls.len() == i,
            decisions@.len() == i,
            forall|j: int|
                0 <= j < i ==> #[trigger] is_window_call(
                    *score,
                    audio_data@,
                    sample_rate,
                    h0,
                    c0,
                    calls,
                    j,
                ),
            forall|j: int| 0 <= j < i ==> accepted(#[trigger] calls[j].answer),
            forall|j: int|
                0 <= j < i ==> #[trigger] decisions@[j] == decision_for(
                    j,
                    len,
                    sample_rate,
                    calls[j].answer.unwrap().probability,
                    detection_threshold,
                ),
            state.h() == h_before(h0, calls, i as int),
            state.c() == c_before(c0, calls, i as int),
        decreases windows.len() - i,
    {
        let window = &windows[i];
        proof {
            assert(is_window(windows@[i as int], audio_data@, sample_rate as int, i as int));
            lemma_window_bounds(i as int, len, sample_rate as int);
        }
        let ghost h_in = state.h();
        let ghost c_in = state.c();
        let decision = classify_window(state, detection_threshold, window, i, sample_rate, score);
        let ghost call = choose|call: ScorerCall<T>|
            #[trigger] is_call_on(*score, window.audio_data@, sample_rate, h_in, c_in, call)
                && window_outcome(
                window.start_period,
                window.end_period,
                i,
                detection_threshold,
                h_in,
                c_in,
                call.answer,
                decision,
                state.h(),
                state.c(),
            );
        let ghost before = calls;
        proof {
            calls = before.push(call);
            assert forall|j: int| 0 <= j < i + 1 implies #[trigger] is_window_call(
                *score,
                audio_data@,
                sample_rate,
                h0,
                c0,
                calls,
                j,
            ) by {
                if j < i {
                    assert(is_window_call(*score, audio_data@, sample_rate, h0, c0, before, j));
                }
            }
        }
        match decision {
            Ok(decision) => {
                decisions.push(decision);
            },
            Err(e) => {
                proof {
                    assert(is_scoring_run(*score, audio_data@, sample_rate, h0, c0, calls));
                    assert(scoring_outcome(
                        audio_data@,
                        sample_rate,
                        detection_threshold,
                        h0,
                        c0,
                        calls,
                        Err::<Vec<VoiceDetectResult>, VadError>(
                            VadError::InferenceFailure { window: i },
                        ),
                        state.h(),
                        state.c(),
                    ));
                }
                return Err(e);
            },
        }
        i = i + 1;
    }
    proof {
        lemma_count_bounds(len, sample_rate as int);
        assert(is_scoring_run(*score, audio_data@, sample_rate, h0, c0, calls));
        assert(scoring_outcome(
            audio_data@,
            sample_rate,
            detection_threshold,
            h0,
            c0,
            calls,
            Ok::<Vec<VoiceDetectResult>, VadError>(decisions),
            state.h(),
            state.c(),
        ));
    }
    Ok(decisions)
}

} // verus!
