use crate::classifier::{are_window_decisions, VoiceDetectResult};
use crate::coalesce::{
    is_run_of, is_run_partition, lemma_runs_partition, runs_of, voice_spans, Run,
};
use crate::reconcile::{centiseconds_of, lemma_rounding_is_monotone, lemma_whole_seconds};
use crate::window::{
    lemma_count_bounds, lemma_window_bounds, window_count, window_start, window_stop,
};
use vstd::arithmetic::mul::lemma_mul_inequality;
use vstd::prelude::*;

verus! {

// Where the spans of one chunk lie on the clock of the stream. The offset of
// a span is the offset at the start of the chunk plus the silence that the
// chunk holds before the span: a run of silence from sample `s` to sample `e`
// counts for `e - s` samples, rounded to centiseconds.

/// A span of voice with its place on the clock of the stream.
#[derive(Clone, Copy, Debug, PartialEq, Eq, Structural)]
pub struct TimedSpan {
    /// Index of the span's first sample in its chunk.
    pub start_sample: usize,
    /// Index of the span's last sample in its chunk.
    pub end_sample: usize,
    /// The offset that was in force when the span was handed to the engine.
    pub absolute_start_ts: i64,
    /// The start plus the length of the span.
    pub absolute_end_ts: i64,
}

/// The length of a run in centiseconds, counted from its first sample to its
/// last.
pub open spec fn run_duration(run: Run, sample_rate: int) -> int {
    centiseconds_of(run.end_sample - run.start_sample, sample_rate)
}

/// The silence in the runs before run `upto`, in centiseconds.
pub open spec fn silence_before(runs: Seq<Run>, sample_rate: int, upto: int) -> int
    decreases upto,
{
    if upto <= 0 {
        0
    } else if runs[upto - 1].voice {
        silence_before(runs, sample_rate, upto - 1)
    } else {
        silence_before(runs, sample_rate, upto - 1) + run_duration(runs[upto - 1], sample_rate)
    }
}

/// The offset in force when run `index` begins, in a chunk that began at
/// offset `base`.
pub open spec fn offset_at(runs: Seq<Run>, sample_rate: int, base: int, index: int) -> int {
    base + silence_before(runs, sample_rate, index)
}

/// A run of voice with its place on the clock, given the offset in force.
pub open spec fn span_at(run: Run, sample_rate: int, offset: int) -> TimedSpan {
    TimedSpan {
        start_sample: run.start_sample,
        end_sample: run.end_sample,
        absolute_start_ts: offset as i64,
        absolute_end_ts: (offset + run_duration(run, sample_rate)) as i64,
    }
}

/// The spans of voice among the first `upto` runs, in order, each with its
/// place on the clock.
pub open spec fn timed_spans(runs: Seq<Run>, sample_rate: int, base: int, upto: int) -> Seq<
    TimedSpan,
>
    decreases upto,
{
    if upto <= 0 {
        Seq::empty()
    } else if runs[upto - 1].voice {
        timed_spans(runs, sample_rate, base, upto - 1).push(
            span_at(runs[upto - 1], sample_rate, offset_at(runs, sample_rate, base, upto - 1)),
        )
    } else {
        timed_spans(runs, sample_rate, base, upto - 1)
    }
}

/// No run has a negative length where each run ends no earlier than it
/// starts.
pub open spec fn runs_are_ordered(runs: Seq<Run>) -> bool {
    forall|j: int| 0 <= j < runs.len() ==> (#[trigger] runs[j]).start_sample <= runs[j].end_sample
}

proof fn lemma_duration_is_not_negative(run: Run, sample_rate: int)
    requires
        sample_rate > 0,
        run.start_sample <= run.end_sample,
    ensures
        run_duration(run, sample_rate) >= 0,
{
    lemma_rounding_is_monotone(0, 100 * (run.end_sample - run.start_sample), sample_rate);
    lemma_whole_seconds(0, 0, sample_rate);
}

/// The silence before a run is never negative and never shrinks from one run
/// to a later one.
pub proof fn lemma_silence_only_grows(runs: Seq<Run>, sample_rate: int, earlier: int, later: int)
    requires
        sample_rate > 0,
        runs_are_ordered(runs),
        0 <= earlier <= later <= runs.len(),
    ensures
        0 <= silence_before(runs, sample_rate, earlier) <= silence_before(
            runs,
            sample_rate,
            later,
        ),
    decreases later,
{
    if later > 0 {
        lemma_duration_is_not_negative(runs[later - 1], sample_rate);
        if earlier < later {
            lemma_silence_only_grows(runs, sample_rate, earlier, later - 1);
        } else {
            lemma_silence_only_grows(runs, sample_rate, earlier - 1, later - 1);
        }
    }
}

/// The offsets of the runs of one chunk never decrease: a later run is never
/// placed before an earlier one, and none before the start of the chunk.
pub proof fn lemma_offsets_never_decrease(
    runs: Seq<Run>,
    sample_rate: int,
    base: int,
    earlier: int,
    later: int,
)
    requires
        sample_rate > 0,
        runs_are_ordered(runs),
        0 <= earlier <= later <= runs.len(),
    ensures
        base <= offset_at(runs, sample_rate, base, earlier) <= offset_at(
            runs,
            sample_rate,
            base,
            later,
        ),
{
    lemma_silence_only_grows(runs, sample_rate, earlier, later);
}

/// The spans of one chunk start in time order, none before the offset at the
/// start of the chunk and none after the offset reached when the runs end.
pub proof fn lemma_span_starts_are_sorted(runs: Seq<Run>, sample_rate: int, base: int, upto: int)
    requires
        sample_rate > 0,
        runs_are_ordered(runs),
        0 <= upto <= runs.len(),
        i64::MIN <= base,
        offset_at(runs, sample_rate, base, upto) <= i64::MAX,
    ensures
        timed_spans(runs, sample_rate, base, upto).len() <= upto,
        forall|k: int|
            0 <= k < timed_spans(runs, sample_rate, base, upto).len() ==> base <= (
            #[trigger] timed_spans(runs, sample_rate, base, upto)[k]).absolute_start_ts
                <= offset_at(runs, sample_rate, base, upto),
        forall|k: int, l: int|
            0 <= k <= l < timed_spans(runs, sample_rate, base, upto).len() ==> (
            #[trigger] timed_spans(runs, sample_rate, base, upto)[k]).absolute_start_ts <= (
            #[trigger] timed_spans(runs, sample_rate, base, upto)[l]).absolute_start_ts,
    decreases upto,
{
    if upto > 0 {
        lemma_silence_only_grows(runs, sample_rate, upto - 1, upto);
        lemma_silence_only_grows(runs, sample_rate, 0, upto - 1);
        lemma_span_starts_are_sorted(runs, sample_rate, base, upto - 1);
    }
}

/// In the runs of the windows of one buffer, every run lies inside the
/// buffer and begins on a whole second; the silence before a run is no more
/// than the time before it; and the silence before a run together with the
/// run's own length is no more than the length of the buffer.
pub proof fn lemma_runs_fit_in_chunk(
    decisions: Seq<VoiceDetectResult>,
    runs: Seq<Run>,
    len: int,
    sample_rate: int,
    index: int,
)
    requires
        sample_rate > 0,
        len > 0,
        are_window_decisions(decisions, len, sample_rate),
        is_run_partition(decisions, runs),
        0 <= index < runs.len(),
    ensures
        runs[index].start_sample == window_start(runs[index].first_window as int, sample_rate),
        runs[index].end_sample == window_stop(runs[index].last_window as int, len, sample_rate)
            - 1,
        runs[index].start_sample <= runs[index].end_sample < len,
        0 <= run_duration(runs[index], sample_rate),
        0 <= silence_before(runs, sample_rate, index) <= 100 * runs[index].first_window,
        silence_before(runs, sample_rate, index) + run_duration(runs[index], sample_rate)
            <= centiseconds_of(len, sample_rate),
        silence_before(runs, sample_rate, index + 1) <= centiseconds_of(len, sample_rate),
        silence_before(runs, sample_rate, index + 1) <= 100 * (runs[index].last_window + 1),
    decreases index,
{
    let run = runs[index];
    let first = run.first_window as int;
    let last = run.last_window as int;
    let count = window_count(len, sample_rate);
    assert(is_run_of(decisions, run));
    assert(decisions[first].start_period == window_start(first, sample_rate));
    assert(decisions[last].end_period == window_stop(last, len, sample_rate) - 1);
    lemma_count_bounds(len, sample_rate);
    lemma_window_bounds(first, len, sample_rate);
    lemma_window_bounds(last, len, sample_rate);
    lemma_mul_inequality(first, last, sample_rate);
    lemma_duration_is_not_negative(run, sample_rate);
    // The silence before the run fits in the seconds before it.
    if index == 0 {
        assert(first == 0);
    } else {
        lemma_runs_fit_in_chunk(decisions, runs, len, sample_rate, index - 1);
        assert(runs[index - 1 + 1].first_window == runs[index - 1].last_window + 1);
    }
    assert(silence_before(runs, sample_rate, index) <= 100 * first);
    // The run itself takes no more than one second for each of its windows.
    let samples = run.end_sample - run.start_sample;
    let seconds = last - first;
    assert((last + 1) * sample_rate == last * sample_rate + sample_rate) by (nonlinear_arith);
    assert(seconds * sample_rate == last * sample_rate - first * sample_rate)
        by (nonlinear_arith)
        requires
            seconds == last - first,
    ;
    assert((count - 1) * sample_rate == count * sample_rate - sample_rate) by (nonlinear_arith);
    let rest = samples - seconds * sample_rate;
    assert(0 <= rest < sample_rate);
    lemma_whole_seconds(seconds, rest, sample_rate);
    lemma_whole_seconds(count - 1, len - (count - 1) * sample_rate, sample_rate);
    lemma_whole_seconds(1, 0, sample_rate);
    lemma_rounding_is_monotone(100 * rest, 100 * sample_rate, sample_rate);
    assert(1 * sample_rate + 0 == sample_rate) by (nonlinear_arith);
    assert(run_duration(run, sample_rate) == 100 * seconds + centiseconds_of(rest, sample_rate));
    assert(centiseconds_of(rest, sample_rate) <= 100);
    if last < count - 1 {
        lemma_mul_inequality(last + 1, count - 1, sample_rate);
        lemma_rounding_is_monotone(
            0,
            100 * (len - (count - 1) * sample_rate),
            sample_rate,
        );
    } else {
        lemma_rounding_is_monotone(
            100 * rest,
            100 * (len - (count - 1) * sample_rate),
            sample_rate,
        );
    }
}

/// Whatever the decisions on the windows of a chunk are, its runs are placed
/// in time order: a later run never gets a smaller offset than an earlier
/// one, none is placed before the start of the chunk, and none is placed
/// after its end, which is where the next chunk starts.
pub proof fn lemma_spans_never_go_back(
    decisions: Seq<VoiceDetectResult>,
    len: int,
    sample_rate: int,
    base: int,
    earlier: int,
    later: int,
)
    requires
        sample_rate > 0,
        len > 0,
        decisions.len() <= usize::MAX,
        are_window_decisions(decisions, len, sample_rate),
        0 <= earlier <= later < runs_of(decisions).len(),
    ensures
        base <= offset_at(runs_of(decisions), sample_rate, base, earlier) <= offset_at(
            runs_of(decisions),
            sample_rate,
            base,
            later,
        ) <= base + centiseconds_of(len, sample_rate),
{
    let runs = runs_of(decisions);
    lemma_runs_partition(decisions);
    assert forall|j: int| 0 <= j < runs.len() implies (#[trigger] runs[j]).start_sample
        <= runs[j].end_sample by {
        lemma_runs_fit_in_chunk(decisions, runs, len, sample_rate, j);
    }
    lemma_offsets_never_decrease(runs, sample_rate, base, earlier, later);
    lemma_runs_fit_in_chunk(decisions, runs, len, sample_rate, later);
    lemma_duration_is_not_negative(runs[later], sample_rate);
}

/// The spans that are placed on the clock are the spans of voice among the
/// runs, one for one and in the same order, each with its own samples.
pub proof fn lemma_timed_spans_are_the_voice_spans(
    runs: Seq<Run>,
    sample_rate: int,
    base: int,
    upto: int,
)
    requires
        0 <= upto <= runs.len(),
    ensures
        timed_spans(runs, sample_rate, base, upto).len() == voice_spans(runs.take(upto)).len(),
        forall|k: int|
            0 <= k < voice_spans(runs.take(upto)).len() ==> (#[trigger] timed_spans(
                runs,
                sample_rate,
                base,
                upto,
            )[k]).start_sample == voice_spans(runs.take(upto))[k].start_sample && timed_spans(
                runs,
                sample_rate,
                base,
                upto,
            )[k].end_sample == voice_spans(runs.take(upto))[k].end_sample,
    decreases upto,
{
    if upto > 0 {
        lemma_timed_spans_are_the_voice_spans(runs, sample_rate, base, upto - 1);
        assert(runs.take(upto).drop_last() == runs.take(upto - 1));
        assert(runs.take(upto).last() == runs[upto - 1]);
    }
}

/// A span lies inside a chunk of `len` samples, is not empty, and its place
/// on the clock is between `from` and `to` and does not end before it starts.
pub open spec fn span_lies_within(span: TimedSpan, len: int, from: int, to: int) -> bool {
    &&& span.start_sample <= span.end_sample < len
    &&& from <= span.absolute_start_ts <= span.absolute_end_ts <= to
}

/// Every span of the windows of a chunk lies inside the chunk, and on the
/// clock between the start of the chunk and its end.
pub proof fn lemma_timed_spans_lie_in_chunk(
    decisions: Seq<VoiceDetectResult>,
    runs: Seq<Run>,
    len: int,
    sample_rate: int,
    base: int,
    upto: int,
)
    requires
        sample_rate > 0,
        len > 0,
        are_window_decisions(decisions, len, sample_rate),
        is_run_partition(decisions, runs),
        0 <= upto <= runs.len(),
        i64::MIN <= base,
        base + centiseconds_of(len, sample_rate) <= i64::MAX,
    ensures
        forall|k: int|
            0 <= k < timed_spans(runs, sample_rate, base, upto).len() ==> span_lies_within(
                #[trigger] timed_spans(runs, sample_rate, base, upto)[k],
                len,
                base,
                base + centiseconds_of(len, sample_rate),
            ),
    decreases upto,
{
    if upto > 0 {
        lemma_timed_spans_lie_in_chunk(decisions, runs, len, sample_rate, base, upto - 1);
        lemma_runs_fit_in_chunk(decisions, runs, len, sample_rate, upto - 1);
        let earlier = timed_spans(runs, sample_rate, base, upto - 1);
        let spans = timed_spans(runs, sample_rate, base, upto);
        let to = base + centiseconds_of(len, sample_rate);
        assert forall|k: int| 0 <= k < spans.len() implies span_lies_within(
            #[trigger] spans[k],
            len,
            base,
            to,
        ) by {
            if k < earlier.len() {
                assert(spans[k] == earlier[k]);
            } else {
                let offset = offset_at(runs, sample_rate, base, upto - 1);
                assert(spans[k] == span_at(runs[upto - 1], sample_rate, offset));
            }
        }
    }
}

} // verus!
