use crate::classifier::{
    accepted, are_sound_decisions, are_window_decisions, c_before, classify_windows, decision_for,
    h_before, is_scoring_run, is_supported_rate, scorer_accepts, scoring_outcome,
    supported_sample_rate, zero_tensor, ClassifierState, ScorerCall, ScorerOutput,
    VoiceDetectResult, STATE_LEN,
};
use crate::coalesce::{is_run_partition, runs_of, segment_runs};
use crate::error::VadError;
use crate::reconcile::{
    are_placed, can_place_all, centiseconds, centiseconds_of, place_fragments, LocalFragment,
    ReconciliationState, TranscribedFragment,
};
use crate::timeline::{
    lemma_runs_fit_in_chunk, lemma_span_starts_are_sorted, lemma_timed_spans_lie_in_chunk,
    offset_at, runs_are_ordered, silence_before, span_at, span_lies_within, timed_spans, TimedSpan,
};
use crate::window::extract_samples;
use vstd::prelude::*;

verus! {

// A session follows one stream of audio that arrives chunk by chunk. It owns
// the memory of the scorer and the clock of the stream, and carries both from
// one chunk to the next. The scorer and the transcription engine are handed
// in with every call: the session keeps no model.

/// What became of one span of voice.
#[derive(Debug, PartialEq, Eq)]
pub struct SpanOutcome {
    /// The span and its place on the clock of the stream.
    pub span: TimedSpan,
    /// The text of the span on the clock of the stream, or the failure of
    /// the transcription engine on this span.
    pub fragments: Result<Vec<TranscribedFragment>, VadError>,
}

/// One call of the transcription engine: the audio it was handed and what it
/// answered.
pub struct TranscriberCall<T> {
    pub audio: Vec<T>,
    pub answer: Option<Vec<LocalFragment>>,
}

/// What a session holds.
pub struct SessionView {
    /// The first memory tensor of the scorer.
    pub h: Seq<u32>,
    /// The second memory tensor of the scorer.
    pub c: Seq<u32>,
    /// The probability from which a window counts as voice.
    pub detection_threshold: u32,
    /// The offset of the next chunk on the clock of the stream.
    pub wallclock_offset: int,
    /// The silence skipped in the chunk at hand.
    pub accumulated_silence: int,
    /// Whether a chunk was taken in since the session was made or reset.
    pub streaming: bool,
}

/// A session that follows one stream.
pub struct VadSession {
    state: ClassifierState,
    detection_threshold: u32,
    clock: ReconciliationState,
    streaming: bool,
}

impl View for VadSession {
    type V = SessionView;

    closed spec fn view(&self) -> SessionView {
        SessionView {
            h: self.state.h(),
            c: self.state.c(),
            detection_threshold: self.detection_threshold,
            wallclock_offset: self.clock.wallclock_offset(),
            accumulated_silence: self.clock.accumulated_silence(),
            streaming: self.streaming,
        }
    }
}

/// A session before its first chunk: the memory is all zeros, the clock is at
/// zero.
pub open spec fn fresh_session(detection_threshold: u32) -> SessionView {
    SessionView {
        h: zero_tensor(),
        c: zero_tensor(),
        detection_threshold,
        wallclock_offset: 0,
        accumulated_silence: 0,
        streaming: false,
    }
}

/// The transcription engine can be called on every slice that is not empty.
pub open spec fn transcriber_accepts<T, G: Fn(&Vec<T>) -> Option<Vec<LocalFragment>>>(
    transcribe: G,
) -> bool {
    forall|audio: &Vec<T>| audio@.len() > 0 ==> call_requires(transcribe, (audio,))
}

/// The decisions that follow from the answers of the scorer, one per call.
pub open spec fn decisions_of<T>(
    len: int,
    sample_rate: i64,
    detection_threshold: u32,
    calls: Seq<ScorerCall<T>>,
) -> Seq<VoiceDetectResult> {
    Seq::new(
        calls.len(),
        |i: int|
            decision_for(
                i,
                len,
                sample_rate,
                calls[i].answer.unwrap().probability,
                detection_threshold,
            ),
    )
}

/// What a span gets from the answer of the engine. An answer whose fragments
/// can all be placed gives them, each moved by the offset of the span. No
/// answer, or one with a fragment that cannot be placed, is a failure of the
/// span with this index.
pub open spec fn is_span_result(
    answer: Option<Vec<LocalFragment>>,
    offset: i64,
    index: int,
    fragments: Result<Vec<TranscribedFragment>, VadError>,
) -> bool {
    if answer.is_some() && can_place_all(answer.unwrap()@, offset) {
        fragments matches Ok(placed) && are_placed(placed@, answer.unwrap()@, offset)
    } else {
        fragments == Err::<Vec<TranscribedFragment>, VadError>(
            VadError::TranscriptionFailure { span: index as usize },
        )
    }
}

/// The engine was handed the samples of the span, could answer as recorded,
/// and the outcome is what follows from that answer.
pub open spec fn is_span_outcome<T, G: Fn(&Vec<T>) -> Option<Vec<LocalFragment>>>(
    transcribe: G,
    samples: Seq<T>,
    span: TimedSpan,
    index: int,
    call: TranscriberCall<T>,
    outcome: SpanOutcome,
) -> bool {
    &&& call_ensures(transcribe, (&call.audio,), call.answer)
    &&& call.audio@ == samples.subrange(span.start_sample as int, span.end_sample + 1)
    &&& outcome.span == span
    &&& is_span_result(call.answer, span.absolute_start_ts, index, outcome.fragments)
}

/// The engine was called once for every span, in order, and every span has
/// its outcome.
pub open spec fn is_transcription<T, G: Fn(&Vec<T>) -> Option<Vec<LocalFragment>>>(
    transcribe: G,
    samples: Seq<T>,
    spans: Seq<TimedSpan>,
    heard: Seq<TranscriberCall<T>>,
    outcomes: Seq<SpanOutcome>,
) -> bool {
    &&& heard.len() == spans.len()
    &&& outcomes.len() == spans.len()
    &&& forall|k: int|
        0 <= k < spans.len() ==> is_span_outcome(
            transcribe,
            samples,
            #[trigger] spans[k],
            k,
            heard[k],
            outcomes[k],
        )
}

/// What a chunk gives and leaves behind, for the calls that were made.
///
/// Where the scorer answered for every window, the decisions are merged into
/// runs, every span of voice is placed at the offset that the silence before
/// it has reached and is handed to the engine, and the clock ends where the
/// chunk ends. Where an answer of the scorer could not be committed, its
/// window is reported, the clock stays where it was, and the engine is not
/// called.
pub open spec fn is_chunk_outcome<T, G: Fn(&Vec<T>) -> Option<Vec<LocalFragment>>>(
    transcribe: G,
    samples: Seq<T>,
    sample_rate: i64,
    before: SessionView,
    calls: Seq<ScorerCall<T>>,
    heard: Seq<TranscriberCall<T>>,
    result: Result<Vec<SpanOutcome>, VadError>,
    after: SessionView,
) -> bool {
    let decisions = decisions_of(
        samples.len() as int,
        sample_rate,
        before.detection_threshold,
        calls,
    );
    let runs = runs_of(decisions);
    let spans = timed_spans(
        runs,
        sample_rate as int,
        before.wallclock_offset,
        runs.len() as int,
    );
    &&& after.detection_threshold == before.detection_threshold
    &&& after.streaming
    &&& after.accumulated_silence == 0
    &&& if accepted(calls.last().answer) {
        &&& result matches Ok(outcomes)
        &&& is_transcription(transcribe, samples, spans, heard, outcomes@)
        &&& after.h == calls.last().answer.unwrap().hn@
        &&& after.c == calls.last().answer.unwrap().cn@
        &&& after.wallclock_offset == before.wallclock_offset + centiseconds_of(
            samples.len() as int,
            sample_rate as int,
        )
    } else {
        &&& result == Err::<Vec<SpanOutcome>, VadError>(
            VadError::InferenceFailure { window: (calls.len() - 1) as usize },
        )
        &&& heard.len() == 0
        &&& after.h == h_before(before.h, calls, calls.len() - 1)
        &&& after.c == c_before(before.c, calls, calls.len() - 1)
        &&& after.wallclock_offset == before.wallclock_offset
    }
}

/// `calls` and `heard` are the calls that a chunk made, and the result and
/// the session after it are what follows from them.
pub open spec fn is_chunk_trace<
    T,
    F: Fn(&Vec<T>, i64, &Vec<u32>, &Vec<u32>) -> Option<ScorerOutput>,
    G: Fn(&Vec<T>) -> Option<Vec<LocalFragment>>,
>(
    score: F,
    transcribe: G,
    samples: Seq<T>,
    sample_rate: i64,
    before: SessionView,
    calls: Seq<ScorerCall<T>>,
    heard: Seq<TranscriberCall<T>>,
    result: Result<Vec<SpanOutcome>, VadError>,
    after: SessionView,
) -> bool {
    &&& is_scoring_run(score, samples, sample_rate, before.h, before.c, calls)
    &&& is_chunk_outcome(transcribe, samples, sample_rate, before, calls, heard, result, after)
}

/// The spans come out in time order on the clock of the stream, none before
/// `from` and none after `to`.
pub open spec fn starts_are_sorted(outcomes: Seq<SpanOutcome>, from: int, to: int) -> bool {
    &&& forall|k: int|
        0 <= k < outcomes.len() ==> from <= (#[trigger] outcomes[k]).span.absolute_start_ts <= to
    &&& forall|k: int, l: int|
        0 <= k <= l < outcomes.len() ==> (#[trigger] outcomes[k]).span.absolute_start_ts <= (
        #[trigger] outcomes[l]).span.absolute_start_ts
}

/// Spans stay in time order from one chunk to the next: where the spans of a
/// chunk lie between two offsets and those of the next chunk lie between the
/// second offset and a third, the spans of both chunks, one after the other,
/// are in time order too.
pub proof fn lemma_starts_are_sorted_across_chunks(
    earlier: Seq<SpanOutcome>,
    later: Seq<SpanOutcome>,
    from: int,
    between: int,
    to: int,
)
    requires
        starts_are_sorted(earlier, from, between),
        starts_are_sorted(later, between, to),
        from <= between <= to,
    ensures
        starts_are_sorted(earlier + later, from, to),
{
    let all = earlier + later;
    assert forall|k: int| 0 <= k < all.len() implies from <= (
    #[trigger] all[k]).span.absolute_start_ts <= to by {
        if k < earlier.len() {
            assert(all[k] == earlier[k]);
        } else {
            assert(all[k] == later[k - earlier.len()]);
        }
    }
    assert forall|k: int, l: int| 0 <= k <= l < all.len() implies (
    #[trigger] all[k]).span.absolute_start_ts <= (#[trigger] all[l]).span.absolute_start_ts by {
        if k < earlier.len() {
            assert(all[k] == earlier[k]);
        } else {
            assert(all[k] == later[k - earlier.len()]);
        }
        if l < earlier.len() {
            assert(all[l] == earlier[l]);
        } else {
            assert(all[l] == later[l - earlier.len()]);
        }
    }
}

impl VadSession {
    /// The memory has its fixed shape, the clock is not negative, and no
    /// chunk is half done.
    pub open spec fn wf(&self) -> bool {
        &&& self@.h.len() == STATE_LEN
        &&& self@.c.len() == STATE_LEN
        &&& 0 <= self@.wallclock_offset <= i64::MAX
        &&& self@.accumulated_silence == 0
    }

    /// A session for a new stream.
    pub fn new(detection_threshold: u32) -> (session: Self)
        ensures
            session.wf(),
            session@ == fresh_session(detection_threshold),
    {
        Self {
            state: ClassifierState::new(),
            detection_threshold,
            clock: ReconciliationState::new(),
            streaming: false,
        }
    }

    /// Makes the session ready for another stream: the memory and the clock
    /// are cleared together, the threshold stays.
    pub fn reset(&mut self)
        ensures
            final(self).wf(),
            final(self)@ == fresh_session(old(self)@.detection_threshold),
    {
        self.state.reset();
        self.clock.reset();
        self.streaming = false;
    }

    /// The probability from which a window counts as voice.
    pub fn detection_threshold(&self) -> (threshold: u32)
        ensures
            threshold == self@.detection_threshold,
    {
        self.detection_threshold
    }

    /// The offset of the next chunk on the clock of the stream.
    pub fn wallclock_offset(&self) -> (offset: i64)
        ensures
            offset == self@.wallclock_offset,
    {
        self.clock.snapshot()
    }

    /// Whether a chunk was taken in since the session was made or reset.
    pub fn is_streaming(&self) -> (streaming: bool)
        ensures
            streaming == self@.streaming,
    {
        self.streaming
    }

    /// The memory of the scorer, as it is handed to the next call.
    pub fn state(&self) -> (state: &ClassifierState)
        ensures
            state.h() == self@.h,
            state.c() == self@.c,
            self.wf() ==> state.wf(),
    {
        &self.state
    }

    /// Tells whether the clock has room for a chunk of this many samples:
    /// whether the offset at the end of the chunk is a time that an `i64`
    /// holds. At a rate that is not supported no room is needed.
    pub fn has_room_for(&self, samples: usize, sample_rate: i64) -> (room: bool)
        requires
            self.wf(),
        ensures
            room == (is_supported_rate(sample_rate) ==> self@.wallclock_offset + centiseconds_of(
                samples as int,
                sample_rate as int,
            ) <= i64::MAX),
    {
        if !supported_sample_rate(sample_rate) {
            return true;
        }
        match centiseconds(samples, sample_rate as usize) {
            Some(chunk) => self.clock.snapshot().checked_add(chunk).is_some(),
            None => false,
        }
    }

    /// Classifies the windows of one chunk of the stream. The memory is
    /// carried on from the chunk before and left for the next one.
    ///
    /// A rate that is not supported, or an empty chunk, is refused before
    /// anything changes. After that every answer of the scorer is committed
    /// as it comes: where the scorer fails on a window, that window is
    /// reported and the windows before it stay committed.
    pub fn stateful_vad<T: Copy, F: Fn(&Vec<T>, i64, &Vec<u32>, &Vec<u32>) -> Option<ScorerOutput>>(
        &mut self,
        audio_data: &Vec<T>,
        sample_rate: i64,
        score: &F,
    ) -> (result: Result<Vec<VoiceDetectResult>, VadError>)
        requires
            old(self).wf(),
            is_supported_rate(sample_rate) ==> scorer_accepts(*score, sample_rate),
        ensures
            final(self).wf(),
            final(self)@.detection_threshold == old(self)@.detection_threshold,
            final(self)@.wallclock_offset == old(self)@.wallclock_offset,
            result matches Ok(decisions) ==> are_window_decisions(
                decisions@,
                audio_data@.len() as int,
                sample_rate as int,
            ) && are_sound_decisions(decisions@, old(self)@.detection_threshold),
            !is_supported_rate(sample_rate) ==> result == Err::<Vec<VoiceDetectResult>, VadError>(
                VadError::UnsupportedSampleRate,
            ) && final(self)@ == old(self)@,
            is_supported_rate(sample_rate) && audio_data.len() == 0 ==> result == Err::<
                Vec<VoiceDetectResult>,
                VadError,
            >(VadError::EmptyInput) && final(self)@ == old(self)@,
            is_supported_rate(sample_rate) && audio_data.len() > 0 ==> final(self)@.streaming
                && exists|calls: Seq<ScorerCall<T>>|
                #[trigger] is_scoring_run(
                    *score,
                    audio_data@,
                    sample_rate,
                    old(self)@.h,
                    old(self)@.c,
                    calls,
                ) && scoring_outcome(
                    audio_data@,
                    sample_rate,
                    old(self)@.detection_threshold,
                    old(self)@.h,
                    old(self)@.c,
                    calls,
                    result,
                    final(self)@.h,
                    final(self)@.c,
                ),
    {
        if !supported_sample_rate(sample_rate) {
            return Err(VadError::UnsupportedSampleRate);
        }
        if audio_data.len() == 0 {
            return Err(VadError::EmptyInput);
        }
        self.streaming = true;
        classify_windows(&mut self.state, self.detection_threshold, audio_data, sample_rate, score)
    }

    /// Classifies the windows of a buffer on its own: the memory starts from
    /// zeros, and the session is left as it was.
    pub fn run_voice_detection<
        T: Copy,
        F: Fn(&Vec<T>, i64, &Vec<u32>, &Vec<u32>) -> Option<ScorerOutput>,
    >(&self, audio_data: &Vec<T>, sample_rate: i64, score: &F) -> (result: Result<
        Vec<VoiceDetectResult>,
        VadError,
    >)
        requires
            is_supported_rate(sample_rate) ==> scorer_accepts(*score, sample_rate),
        ensures
            result matches Ok(decisions) ==> are_window_decisions(
                decisions@,
                audio_data@.len() as int,
                sample_rate as int,
            ) && are_sound_decisions(decisions@, self@.detection_threshold),
            !is_supported_rate(sample_rate) ==> result == Err::<Vec<VoiceDetectResult>, VadError>(
                VadError::UnsupportedSampleRate,
            ),
            is_supported_rate(sample_rate) && audio_data.len() == 0 ==> result == Err::<
                Vec<VoiceDetectResult>,
                VadError,
            >(VadError::EmptyInput),
            is_supported_rate(sample_rate) && audio_data.len() > 0 ==> exists|
                calls: Seq<ScorerCall<T>>,
                h: Seq<u32>,
                c: Seq<u32>,
            |
                is_scoring_run(*score, audio_data@, sample_rate, zero_tensor(), zero_tensor(), calls)
                    && #[trigger] scoring_outcome(
                    audio_data@,
                    sample_rate,
                    self@.detection_threshold,
                    zero_tensor(),
                    zero_tensor(),
                    calls,
                    result,
                    h,
                    c,
                ),
    {
        let mut state = ClassifierState::new();
        let result = classify_windows(
            &mut state,
            self.detection_threshold,
            audio_data,
            sample_rate,
            score,
        );
        proof {
            if is_supported_rate(sample_rate) && audio_data@.len() > 0 {
                let calls = choose|calls: Seq<ScorerCall<T>>|
                    #[trigger] is_scoring_run(
                        *score,
                        audio_data@,
                        sample_rate,
                        zero_tensor(),
                        zero_tensor(),
                        calls,
                    ) && scoring_outcome(
                        audio_data@,
                        sample_rate,
                        self.detection_threshold,
                        zero_tensor(),
                        zero_tensor(),
                        calls,
                        result,
                        state.h(),
                        state.c(),
                    );
                assert(scoring_outcome(
                    audio_data@,
                    sample_rate,
                    self@.detection_threshold,
                    zero_tensor(),
                    zero_tensor(),
                    calls,
                    result,
                    state.h(),
                    state.c(),
                ));
            }
        }
        result
    }

    /// Takes in the next chunk of the stream: classifies its windows, merges
    /// them into runs, and hands every span of voice to the transcription
    /// engine, with the text of each span placed on the clock of the stream.
    ///
    /// A rate that is not supported, or an empty chunk, is refused before
    /// anything changes. The answers of the scorer are committed window by
    /// window: where it fails, the window is reported, the windows before it
    /// stay committed, and the clock does not move. A failure of the engine
    /// is the outcome of its span alone; the spans after it are still
    /// transcribed.
    ///
    /// The clock must have room for the chunk.
    pub fn process_chunk<
        T: Copy,
        F: Fn(&Vec<T>, i64, &Vec<u32>, &Vec<u32>) -> Option<ScorerOutput>,
        G: Fn(&Vec<T>) -> Option<Vec<LocalFragment>>,
    >(&mut self, samples: &Vec<T>, sample_rate: i64, score: &F, transcribe: &G) -> (result: Result<
        Vec<SpanOutcome>,
        VadError,
    >)
        requires
            old(self).wf(),
            is_supported_rate(sample_rate) ==> scorer_accepts(*score, sample_rate),
            is_supported_rate(sample_rate) ==> transcriber_accepts(*transcribe),
            is_supported_rate(sample_rate) ==> old(self)@.wallclock_offset + centiseconds_of(
                samples.len() as int,
                sample_rate as int,
            ) <= i64::MAX,
        ensures
            final(self).wf(),
            !is_supported_rate(sample_rate) ==> result == Err::<Vec<SpanOutcome>, VadError>(
                VadError::UnsupportedSampleRate,
            ) && final(self)@ == old(self)@,
            is_supported_rate(sample_rate) && samples.len() == 0 ==> result == Err::<
                Vec<SpanOutcome>,
                VadError,
            >(VadError::EmptyInput) && final(self)@ == old(self)@,
            is_supported_rate(sample_rate) && samples.len() > 0 ==> exists|
                calls: Seq<ScorerCall<T>>,
                heard: Seq<TranscriberCall<T>>,
            |
                #[trigger] is_chunk_trace(
                    *score,
                    *transcribe,
                    samples@,
                    sample_rate,
                    old(self)@,
                    calls,
                    heard,
                    result,
                    final(self)@,
                ),
            old(self)@.wallclock_offset <= final(self)@.wallclock_offset,
            result matches Ok(outcomes) ==> starts_are_sorted(
                outcomes@,
                old(self)@.wallclock_offset,
                final(self)@.wallclock_offset,
            ),
            result matches Ok(outcomes) ==> forall|k: int|
                0 <= k < outcomes@.len() ==> span_lies_within(
                    (#[trigger] outcomes@[k]).span,
                    samples@.len() as int,
                    old(self)@.wallclock_offset,
                    final(self)@.wallclock_offset,
                ),
    {
        if !supported_sample_rate(sample_rate) {
            return Err(VadError::UnsupportedSampleRate);
        }
        if samples.len() == 0 {
            return Err(VadError::EmptyInput);
        }
        let ghost before = self@;
        let ghost len = samples@.len() as int;
        let ghost rate = sample_rate as int;
        self.streaming = true;
        let classified = classify_windows(
            &mut self.state,
            self.detection_threshold,
            samples,
            sample_rate,
            score,
        );
        let ghost calls = choose|calls: Seq<ScorerCall<T>>|
            #[trigger] is_scoring_run(*score, samples@, sample_rate, before.h, before.c, calls)
                && scoring_outcome(
                samples@,
                sample_rate,
                before.detection_threshold,
                before.h,
                before.c,
                calls,
                classified,
                self.state.h(),
                self.state.c(),
            );
        let decisions = match classified {
            Ok(decisions) => decisions,
            Err(e) => {
                proof {
                    assert(is_chunk_trace(
                        *score,
                        *transcribe,
                        samples@,
                        sample_rate,
                        before,
                        calls,
                        Seq::<TranscriberCall<T>>::empty(),
                        Err::<Vec<SpanOutcome>, VadError>(e),
                        self@,
                    ));
                }
                return Err(e);
            },
        };
        proof {
            assert(decisions@ =~= decisions_of(
                len,
                sample_rate,
                before.detection_threshold,
                calls,
            ));
            assert(are_window_decisions(decisions@, len, rate));
        }
        let runs = segment_runs(&decisions);
        let window_rate: usize = sample_rate as usize;
        let total = samples.len();
        let ghost base = before.wallclock_offset;
        let ghost heard: Seq<TranscriberCall<T>> = Seq::empty();
        let mut outcomes: Vec<SpanOutcome> = Vec::new();
        let mut j: usize = 0;
        while j < runs.len()
            invariant
                j <= runs.len(),
                len == samples@.len(),
                len == total,
                len > 0,
                calls.len() > 0,
                accepted(calls.last().answer),
                rate == sample_rate as int,
                window_rate == sample_rate as int,
                is_supported_rate(sample_rate),
                transcriber_accepts(*transcribe),
                are_window_decisions(decisions@, len, rate),
                is_run_partition(decisions@, runs@),
                0 <= base,
                base + centiseconds_of(len, rate) <= i64::MAX,
                self.clock.wf(),
                self.clock.wallclock_offset() == offset_at(runs@, rate, base, j as int),
                self.clock.accumulated_silence() == silence_before(runs@, rate, j as int),
                self.state.h() == calls.last().answer.unwrap().hn@,
                self.state.c() == calls.last().answer.unwrap().cn@,
                self.detection_threshold == before.detection_threshold,
                self.streaming,
                heard.len() == timed_spans(runs@, rate, base, j as int).len(),
                outcomes@.len() == heard.len(),
                forall|k: int|
                    0 <= k < heard.len() ==> is_span_outcome(
                        *transcribe,
                        samples@,
                        #[trigger] timed_spans(runs@, rate, base, j as int)[k],
                        k,
                        heard[k],
                        outcomes@[k],
                    ),
            decreases runs.len() - j,
        {
            let run = runs[j];
            proof {
                lemma_runs_fit_in_chunk(decisions@, runs@, len, rate, j as int);
            }
            let duration = centiseconds(run.end_sample - run.start_sample, window_rate).unwrap();
            if run.voice {
                let offset = self.clock.snapshot();
                let span = TimedSpan {
                    start_sample: run.start_sample,
                    end_sample: run.end_sample,
                    absolute_start_ts: offset,
                    absolute_end_ts: offset + duration,
                };
                let audio = extract_samples(samples, run.start_sample, run.end_sample + 1);
                let answer = transcribe(&audio);
                let ghost call = TranscriberCall { audio, answer };
                let index = outcomes.len();
                let fragments = match answer {
                    Some(locals) => match place_fragments(&locals, offset) {
                        Some(placed) => Ok(placed),
                        None => Err(VadError::TranscriptionFailure { span: index }),
                    },
                    None => Err(VadError::TranscriptionFailure { span: index }),
                };
                let outcome = SpanOutcome { span, fragments };
                let ghost spans_before = timed_spans(runs@, rate, base, j as int);
                let ghost heard_before = heard;
                let ghost outcomes_before = outcomes@;
                proof {
                    heard = heard.push(call);
                    assert(span == span_at(run, rate, offset_at(runs@, rate, base, j as int)));
                    assert(is_span_outcome(
                        *transcribe,
                        samples@,
                        span,
                        index as int,
                        call,
                        outcome,
                    ));
                }
                outcomes.push(outcome);
                proof {
                    let spans_after = timed_spans(runs@, rate, base, j + 1);
                    assert(spans_after == spans_before.push(span));
                    assert forall|k: int| 0 <= k < heard.len() implies is_span_outcome(
                        *transcribe,
                        samples@,
                        #[trigger] spans_after[k],
                        k,
                        heard[k],
                        outcomes@[k],
                    ) by {
                        if k < heard_before.len() {
                            assert(is_span_outcome(
                                *transcribe,
                                samples@,
                                spans_before[k],
                                k,
                                heard_before[k],
                                outcomes_before[k],
                            ));
                        }
                    }
                }
            } else {
                self.clock.advance(duration);
            }
            j = j + 1;
        }
        proof {
            lemma_runs_fit_in_chunk(decisions@, runs@, len, rate, runs@.len() - 1);
        }
        let chunk = centiseconds(total, window_rate).unwrap();
        self.clock.finish_chunk(chunk);
        proof {
            assert forall|i: int| 0 <= i < runs@.len() implies (#[trigger] runs@[i]).start_sample
                <= runs@[i].end_sample by {
                lemma_runs_fit_in_chunk(decisions@, runs@, len, rate, i);
            }
            assert(runs_are_ordered(runs@));
            lemma_span_starts_are_sorted(runs@, rate, base, runs@.len() as int);
            lemma_timed_spans_lie_in_chunk(decisions@, runs@, len, rate, base, runs@.len() as int);
            let spans = timed_spans(runs@, rate, base, runs@.len() as int);
            assert(is_transcription(*transcribe, samples@, spans, heard, outcomes@));
            assert(is_chunk_trace(
                *score,
                *transcribe,
                samples@,
                sample_rate,
                before,
                calls,
                heard,
                Ok::<Vec<SpanOutcome>, VadError>(outcomes),
                self@,
            ));
            assert forall|k: int| 0 <= k < outcomes@.len() implies (
            #[trigger] outcomes@[k]).span == spans[k] by {
                assert(is_span_outcome(
                    *transcribe,
                    samples@,
                    spans[k],
                    k,
                    heard[k],
                    outcomes@[k],
                ));
            }
        }
        Ok(outcomes)
    }
}

} // verus!
