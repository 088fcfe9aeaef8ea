use crate::classifier::{
    accepted, c_before, h_before, is_scoring_run, is_window_call, scoring_outcome, ScorerCall,
    ScorerOutput, VoiceDetectResult,
};
use crate::coalesce::runs_of;
use crate::error::VadError;
use crate::reconcile::{can_place, can_place_all, is_placed, LocalFragment, TranscribedFragment};
use crate::vad_session::{
    decisions_of, fresh_session, is_chunk_trace, is_span_outcome, is_span_result,
    is_transcription, SessionView, SpanOutcome, TranscriberCall,
};
use crate::timeline::timed_spans;
use vstd::prelude::*;

verus! {

// What a session gives depends on nothing but the session, the audio, the
// scorer and the engine: where these two answer alike whenever they are
// handed the same values, two runs over the same audio from the same state
// give the same decisions, the same spans and the same text, and leave the
// same state behind.

/// Two answers of the scorer hold the same values.
pub open spec fn same_answer(first: Option<ScorerOutput>, second: Option<ScorerOutput>) -> bool {
    match (first, second) {
        (Some(a), Some(b)) => a.probability == b.probability && a.hn@ == b.hn@ && a.cn@ == b.cn@,
        (None, None) => true,
        _ => false,
    }
}

/// The scorer answers alike whenever it is handed the same values.
pub open spec fn scorer_is_deterministic<
    T,
    F: Fn(&Vec<T>, i64, &Vec<u32>, &Vec<u32>) -> Option<ScorerOutput>,
>(score: F) -> bool {
    forall|
        samples1: &Vec<T>,
        samples2: &Vec<T>,
        sample_rate: i64,
        h1: &Vec<u32>,
        h2: &Vec<u32>,
        c1: &Vec<u32>,
        c2: &Vec<u32>,
        answer1: Option<ScorerOutput>,
        answer2: Option<ScorerOutput>,
    |
        #![trigger
            call_ensures(score, (samples1, sample_rate, h1, c1), answer1),
            call_ensures(score, (samples2, sample_rate, h2, c2), answer2)
        ]
        samples1@ == samples2@ && h1@ == h2@ && c1@ == c2@ && call_ensures(
            score,
            (samples1, sample_rate, h1, c1),
            answer1,
        ) && call_ensures(score, (samples2, sample_rate, h2, c2), answer2) ==> same_answer(
            answer1,
            answer2,
        )
}

/// Two fragments of the engine hold the same values.
pub open spec fn same_local(first: LocalFragment, second: LocalFragment) -> bool {
    &&& first.local_start == second.local_start
    &&& first.local_end == second.local_end
    &&& first.text@ == second.text@
}

/// Two answers of the engine hold the same fragments.
pub open spec fn same_text(
    first: Option<Vec<LocalFragment>>,
    second: Option<Vec<LocalFragment>>,
) -> bool {
    match (first, second) {
        (Some(a), Some(b)) => a@.len() == b@.len() && forall|i: int|
            0 <= i < a@.len() ==> same_local(#[trigger] a@[i], b@[i]),
        (None, None) => true,
        _ => false,
    }
}

/// The engine answers alike whenever it is handed the same audio.
pub open spec fn transcriber_is_deterministic<T, G: Fn(&Vec<T>) -> Option<Vec<LocalFragment>>>(
    transcribe: G,
) -> bool {
    forall|
        audio1: &Vec<T>,
        audio2: &Vec<T>,
        answer1: Option<Vec<LocalFragment>>,
        answer2: Option<Vec<LocalFragment>>,
    |
        #![trigger
            call_ensures(transcribe, (audio1,), answer1),
            call_ensures(transcribe, (audio2,), answer2)
        ]
        audio1@ == audio2@ && call_ensures(transcribe, (audio1,), answer1) && call_ensures(
            transcribe,
            (audio2,),
            answer2,
        ) ==> same_text(answer1, answer2)
}

/// Two classifications gave the same decisions, or failed on the same
/// window.
pub open spec fn same_decisions(
    first: Result<Vec<VoiceDetectResult>, VadError>,
    second: Result<Vec<VoiceDetectResult>, VadError>,
) -> bool {
    match (first, second) {
        (Ok(a), Ok(b)) => a@ == b@,
        (Err(a), Err(b)) => a == b,
        _ => false,
    }
}

/// Two fragments on the clock hold the same values.
pub open spec fn same_fragment(first: TranscribedFragment, second: TranscribedFragment) -> bool {
    &&& first.absolute_start_ts == second.absolute_start_ts
    &&& first.absolute_end_ts == second.absolute_end_ts
    &&& first.text@ == second.text@
}

/// Two spans had the same outcome: the same place on the clock, and the same
/// text or the same failure.
pub open spec fn same_outcome(first: SpanOutcome, second: SpanOutcome) -> bool {
    &&& first.span == second.span
    &&& match (first.fragments, second.fragments) {
        (Ok(a), Ok(b)) => a@.len() == b@.len() && forall|i: int|
            0 <= i < a@.len() ==> same_fragment(#[trigger] a@[i], b@[i]),
        (Err(a), Err(b)) => a == b,
        _ => false,
    }
}

/// Two chunks gave the same spans with the same outcomes, or failed alike.
pub open spec fn same_results(
    first: Result<Vec<SpanOutcome>, VadError>,
    second: Result<Vec<SpanOutcome>, VadError>,
) -> bool {
    match (first, second) {
        (Ok(a), Ok(b)) => a@.len() == b@.len() && forall|k: int|
            0 <= k < a@.len() ==> same_outcome(#[trigger] a@[k], b@[k]),
        (Err(a), Err(b)) => a == b,
        _ => false,
    }
}

proof fn lemma_same_answers_upto<
    T,
    F: Fn(&Vec<T>, i64, &Vec<u32>, &Vec<u32>) -> Option<ScorerOutput>,
>(
    score: F,
    samples: Seq<T>,
    sample_rate: i64,
    h0: Seq<u32>,
    c0: Seq<u32>,
    calls1: Seq<ScorerCall<T>>,
    calls2: Seq<ScorerCall<T>>,
    index: int,
)
    requires
        scorer_is_deterministic(score),
        is_scoring_run(score, samples, sample_rate, h0, c0, calls1),
        is_scoring_run(score, samples, sample_rate, h0, c0, calls2),
        0 <= index < calls1.len(),
        index < calls2.len(),
    ensures
        same_answer(calls1[index].answer, calls2[index].answer),
        accepted(calls1[index].answer) == accepted(calls2[index].answer),
    decreases index,
{
    assert(is_window_call(score, samples, sample_rate, h0, c0, calls1, index));
    assert(is_window_call(score, samples, sample_rate, h0, c0, calls2, index));
    if index > 0 {
        lemma_same_answers_upto(score, samples, sample_rate, h0, c0, calls1, calls2, index - 1);
        assert(accepted(calls1[index - 1].answer));
        assert(accepted(calls2[index - 1].answer));
    }
    assert(h_before(h0, calls1, index) == h_before(h0, calls2, index));
    assert(c_before(c0, calls1, index) == c_before(c0, calls2, index));
}

/// With a scorer that answers alike on the same values, the calls that
/// classifying a buffer makes are settled by the buffer and the memory it
/// starts from: two runs make the same number of calls and get the same
/// answers.
pub proof fn lemma_scoring_runs_agree<
    T,
    F: Fn(&Vec<T>, i64, &Vec<u32>, &Vec<u32>) -> Option<ScorerOutput>,
>(
    score: F,
    samples: Seq<T>,
    sample_rate: i64,
    h0: Seq<u32>,
    c0: Seq<u32>,
    calls1: Seq<ScorerCall<T>>,
    calls2: Seq<ScorerCall<T>>,
)
    requires
        scorer_is_deterministic(score),
        is_scoring_run(score, samples, sample_rate, h0, c0, calls1),
        is_scoring_run(score, samples, sample_rate, h0, c0, calls2),
    ensures
        calls1.len() == calls2.len(),
        forall|i: int|
            0 <= i < calls1.len() ==> same_answer(
                (#[trigger] calls1[i]).answer,
                calls2[i].answer,
            ),
        accepted(calls1.last().answer) == accepted(calls2.last().answer),
{
    if calls1.len() < calls2.len() {
        let last = calls1.len() - 1;
        lemma_same_answers_upto(score, samples, sample_rate, h0, c0, calls1, calls2, last);
        assert(accepted(calls2[last].answer));
    } else if calls2.len() < calls1.len() {
        let last = calls2.len() - 1;
        lemma_same_answers_upto(score, samples, sample_rate, h0, c0, calls1, calls2, last);
        assert(accepted(calls1[last].answer));
    }
    assert forall|i: int| 0 <= i < calls1.len() implies same_answer(
        (#[trigger] calls1[i]).answer,
        calls2[i].answer,
    ) by {
        lemma_same_answers_upto(score, samples, sample_rate, h0, c0, calls1, calls2, i);
    }
    lemma_same_answers_upto(
        score,
        samples,
        sample_rate,
        h0,
        c0,
        calls1,
        calls2,
        calls1.len() - 1,
    );
}

/// Classifying is repeatable: with a scorer that answers alike on the same
/// values, two classifications of the same buffer from the same memory give
/// the same decisions, or fail on the same window, and leave the same memory.
pub proof fn lemma_classification_is_deterministic<
    T,
    F: Fn(&Vec<T>, i64, &Vec<u32>, &Vec<u32>) -> Option<ScorerOutput>,
>(
    score: F,
    samples: Seq<T>,
    sample_rate: i64,
    detection_threshold: u32,
    h0: Seq<u32>,
    c0: Seq<u32>,
    calls1: Seq<ScorerCall<T>>,
    result1: Result<Vec<VoiceDetectResult>, VadError>,
    h1: Seq<u32>,
    c1: Seq<u32>,
    calls2: Seq<ScorerCall<T>>,
    result2: Result<Vec<VoiceDetectResult>, VadError>,
    h2: Seq<u32>,
    c2: Seq<u32>,
)
    requires
        scorer_is_deterministic(score),
        is_scoring_run(score, samples, sample_rate, h0, c0, calls1),
        scoring_outcome(
            samples,
            sample_rate,
            detection_threshold,
            h0,
            c0,
            calls1,
            result1,
            h1,
            c1,
        ),
        is_scoring_run(score, samples, sample_rate, h0, c0, calls2),
        scoring_outcome(
            samples,
            sample_rate,
            detection_threshold,
            h0,
            c0,
            calls2,
            result2,
            h2,
            c2,
        ),
    ensures
        same_decisions(result1, result2),
        h1 == h2,
        c1 == c2,
{
    lemma_scoring_runs_agree(score, samples, sample_rate, h0, c0, calls1, calls2);
    let last = calls1.len() - 1;
    if accepted(calls1.last().answer) {
        let a = result1->Ok_0;
        let b = result2->Ok_0;
        assert forall|i: int| 0 <= i < a@.len() implies a@[i] == b@[i] by {
            assert(same_answer(calls1[i].answer, calls2[i].answer));
        }
        assert(a@ =~= b@);
    } else if last > 0 {
        assert(same_answer(calls1[last - 1].answer, calls2[last - 1].answer));
    }
}

proof fn lemma_same_placement(
    first: Option<Vec<LocalFragment>>,
    second: Option<Vec<LocalFragment>>,
    offset: i64,
    index: int,
    fragments1: Result<Vec<TranscribedFragment>, VadError>,
    fragments2: Result<Vec<TranscribedFragment>, VadError>,
)
    requires
        same_text(first, second),
        is_span_result(first, offset, index, fragments1),
        is_span_result(second, offset, index, fragments2),
    ensures
        match (fragments1, fragments2) {
            (Ok(a), Ok(b)) => a@.len() == b@.len() && forall|i: int|
                0 <= i < a@.len() ==> same_fragment(#[trigger] a@[i], b@[i]),
            (Err(a), Err(b)) => a == b,
            _ => false,
        },
{
    if first.is_some() {
        let a = first.unwrap()@;
        let b = second.unwrap()@;
        if can_place_all(a, offset) {
            assert forall|i: int| 0 <= i < b.len() implies can_place(#[trigger] b[i], offset) by {
                assert(same_local(a[i], b[i]));
                assert(can_place(a[i], offset));
            }
            let pa = fragments1->Ok_0@;
            let pb = fragments2->Ok_0@;
            assert forall|i: int| 0 <= i < pa.len() implies same_fragment(
                #[trigger] pa[i],
                pb[i],
            ) by {
                assert(same_local(a[i], b[i]));
                assert(is_placed(pa[i], a[i], offset));
                assert(is_placed(pb[i], b[i], offset));
            }
        } else {
            let i = choose|i: int| 0 <= i < a.len() && !can_place(#[trigger] a[i], offset);
            assert(same_local(a[i], b[i]));
            assert(!can_place(b[i], offset));
        }
    }
}

/// A chunk is repeatable: with a scorer and an engine that answer alike on the
/// same values, two runs of the same chunk through sessions that hold the same
/// values give the same spans at the same places with the same text, or fail
/// alike, and the two sessions hold the same values afterwards.
pub proof fn lemma_chunks_are_deterministic<
    T,
    F: Fn(&Vec<T>, i64, &Vec<u32>, &Vec<u32>) -> Option<ScorerOutput>,
    G: Fn(&Vec<T>) -> Option<Vec<LocalFragment>>,
>(
    score: F,
    transcribe: G,
    samples: Seq<T>,
    sample_rate: i64,
    before: SessionView,
    calls1: Seq<ScorerCall<T>>,
    heard1: Seq<TranscriberCall<T>>,
    result1: Result<Vec<SpanOutcome>, VadError>,
    after1: SessionView,
    calls2: Seq<ScorerCall<T>>,
    heard2: Seq<TranscriberCall<T>>,
    result2: Result<Vec<SpanOutcome>, VadError>,
    after2: SessionView,
)
    requires
        scorer_is_deterministic(score),
        transcriber_is_deterministic(transcribe),
        is_chunk_trace(
            score,
            transcribe,
            samples,
            sample_rate,
            before,
            calls1,
            heard1,
            result1,
            after1,
        ),
        is_chunk_trace(
            score,
            transcribe,
            samples,
            sample_rate,
            before,
            calls2,
            heard2,
            result2,
            after2,
        ),
    ensures
        same_results(result1, result2),
        after1 == after2,
{
    lemma_scoring_runs_agree(score, samples, sample_rate, before.h, before.c, calls1, calls2);
    let last = calls1.len() - 1;
    let len = samples.len() as int;
    if accepted(calls1.last().answer) {
        let d1 = decisions_of(len, sample_rate, before.detection_threshold, calls1);
        let d2 = decisions_of(len, sample_rate, before.detection_threshold, calls2);
        assert forall|i: int| 0 <= i < d1.len() implies d1[i] == d2[i] by {
            assert(same_answer(calls1[i].answer, calls2[i].answer));
        }
        assert(d1 =~= d2);
        let a = result1->Ok_0@;
        let b = result2->Ok_0@;
        let runs = runs_of(d1);
        let spans = timed_spans(
            runs,
            sample_rate as int,
            before.wallclock_offset,
            runs.len() as int,
        );
        assert(is_transcription(transcribe, samples, spans, heard1, a));
        assert(is_transcription(transcribe, samples, spans, heard2, b));
        assert forall|k: int| 0 <= k < a.len() implies same_outcome(#[trigger] a[k], b[k]) by {
            assert(is_span_outcome(transcribe, samples, spans[k], k, heard1[k], a[k]));
            assert(is_span_outcome(transcribe, samples, spans[k], k, heard2[k], b[k]));
            assert(same_text(heard1[k].answer, heard2[k].answer));
            lemma_same_placement(
                heard1[k].answer,
                heard2[k].answer,
                a[k].span.absolute_start_ts,
                k,
                a[k].fragments,
                b[k].fragments,
            );
        }
        assert(same_answer(calls1[last].answer, calls2[last].answer));
    } else if last > 0 {
        assert(same_answer(calls1[last - 1].answer, calls2[last - 1].answer));
    }
    assert(after1.h =~= after2.h);
    assert(after1.c =~= after2.c);
}

/// A session that was reset runs as a new one: the values it holds after the
/// reset are those of a session made with the same threshold, so with a scorer
/// and an engine that answer alike on the same values, a chunk through the one
/// gives what the same chunk through the other gives.
pub proof fn lemma_reset_session_runs_as_new<
    T,
    F: Fn(&Vec<T>, i64, &Vec<u32>, &Vec<u32>) -> Option<ScorerOutput>,
    G: Fn(&Vec<T>) -> Option<Vec<LocalFragment>>,
>(
    score: F,
    transcribe: G,
    samples: Seq<T>,
    sample_rate: i64,
    detection_threshold: u32,
    reset: SessionView,
    calls1: Seq<ScorerCall<T>>,
    heard1: Seq<TranscriberCall<T>>,
    result1: Result<Vec<SpanOutcome>, VadError>,
    after1: SessionView,
    calls2: Seq<ScorerCall<T>>,
    heard2: Seq<TranscriberCall<T>>,
    result2: Result<Vec<SpanOutcome>, VadError>,
    after2: SessionView,
)
    requires
        scorer_is_deterministic(score),
        transcriber_is_deterministic(transcribe),
        reset == fresh_session(detection_threshold),
        is_chunk_trace(
            score,
            transcribe,
            samples,
            sample_rate,
            reset,
            calls1,
            heard1,
            result1,
            after1,
        ),
        is_chunk_trace(
            score,
            transcribe,
            samples,
            sample_rate,
            fresh_session(detection_threshold),
            calls2,
            heard2,
            result2,
            after2,
        ),
    ensures
        same_results(result1, result2),
        after1 == after2,
{
    lemma_chunks_are_deterministic(
        score,
        transcribe,
        samples,
        sample_rate,
        reset,
        calls1,
        heard1,
        result1,
        after1,
        calls2,
        heard2,
        result2,
        after2,
    );
}

} // verus!
