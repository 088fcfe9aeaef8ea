use crate::classifier::VoiceDetectResult;
use vstd::prelude::*;

verus! {

// Decisions come one per window, in time order. A run is a stretch of
// consecutive windows with the same decision that cannot be made longer. The
// runs of voice are the spans that go to the transcription engine; the runs
// of silence are the events that move the clock forward.

/// A stretch of consecutive windows with the same decision.
#[derive(Clone, Copy, Debug, PartialEq, Eq, Structural)]
pub struct Run {
    /// The decision that all its windows share.
    pub voice: bool,
    /// Index of its first window among the decisions.
    pub first_window: usize,
    /// Index of its last window among the decisions.
    pub last_window: usize,
    /// Index of the first sample of its first window.
    pub start_sample: usize,
    /// Index of the last sample of its last window.
    pub end_sample: usize,
}

/// A run of voice windows, by its samples.
#[derive(Clone, Copy, Debug, PartialEq, Eq, Structural)]
pub struct VoiceSpan {
    /// Index of the span's first sample.
    pub start_sample: usize,
    /// Index of the span's last sample.
    pub end_sample: usize,
}

/// A run of windows without voice.
#[derive(Clone, Copy, Debug, PartialEq, Eq, Structural)]
pub struct SilenceEvent {
    /// Index of the run's first sample.
    pub start_sample: usize,
    /// Index of the run's last sample.
    pub end_sample: usize,
    /// How many windows the run is made of.
    pub windows: usize,
}

/// `run` describes windows `first_window ..= last_window` of the decisions:
/// they exist, they all decide as the run says, and the run's samples go from
/// the start of the first to the end of the last.
pub open spec fn is_run_of(decisions: Seq<VoiceDetectResult>, run: Run) -> bool {
    &&& 0 <= run.first_window <= run.last_window < decisions.len()
    &&& forall|k: int|
        run.first_window <= k <= run.last_window ==> (#[trigger] decisions[k]).voice_detect
            == run.voice
    &&& run.start_sample == decisions[run.first_window as int].start_period
    &&& run.end_sample == decisions[run.last_window as int].end_period
}

/// `runs` cut the decisions into their runs: every window is in exactly one
/// run, the runs are in time order, and neighbours decide differently, so no
/// run can be made longer.
pub open spec fn is_run_partition(decisions: Seq<VoiceDetectResult>, runs: Seq<Run>) -> bool {
    &&& forall|j: int| 0 <= j < runs.len() ==> is_run_of(decisions, #[trigger] runs[j])
    &&& decisions.len() == 0 ==> runs.len() == 0
    &&& decisions.len() > 0 ==> runs.len() > 0 && runs[0].first_window == 0
        && runs.last().last_window == decisions.len() - 1
    &&& forall|j: int|
        0 <= j < runs.len() - 1 ==> (#[trigger] runs[j + 1]).first_window == runs[j].last_window
            + 1 && runs[j + 1].voice != runs[j].voice
}

/// The run that holds a single window.
pub open spec fn single_run(decision: VoiceDetectResult, index: int) -> Run {
    Run {
        voice: decision.voice_detect,
        first_window: index as usize,
        last_window: index as usize,
        start_sample: decision.start_period,
        end_sample: decision.end_period,
    }
}

/// A run made one window longer.
pub open spec fn extended_run(run: Run, decision: VoiceDetectResult, index: int) -> Run {
    Run {
        voice: run.voice,
        first_window: run.first_window,
        last_window: index as usize,
        start_sample: run.start_sample,
        end_sample: decision.end_period,
    }
}

/// The runs of a sequence of decisions, built window by window: a window
/// that decides as the last run does makes that run longer, any other window
/// opens a new run.
pub open spec fn runs_of(decisions: Seq<VoiceDetectResult>) -> Seq<Run>
    decreases decisions.len(),
{
    if decisions.len() == 0 {
        Seq::empty()
    } else {
        let before = runs_of(decisions.drop_last());
        let decision = decisions.last();
        let index = decisions.len() - 1;
        if before.len() > 0 && before.last().voice == decision.voice_detect {
            before.update(before.len() - 1, extended_run(before.last(), decision, index))
        } else {
            before.push(single_run(decision, index))
        }
    }
}

/// The span of a run of voice.
pub open spec fn span_of(run: Run) -> VoiceSpan {
    VoiceSpan { start_sample: run.start_sample, end_sample: run.end_sample }
}

/// The event of a run of silence.
pub open spec fn event_of(run: Run) -> SilenceEvent {
    SilenceEvent {
        start_sample: run.start_sample,
        end_sample: run.end_sample,
        windows: (run.last_window - run.first_window + 1) as usize,
    }
}

/// The spans of the runs of voice, in order.
pub open spec fn voice_spans(runs: Seq<Run>) -> Seq<VoiceSpan>
    decreases runs.len(),
{
    if runs.len() == 0 {
        Seq::empty()
    } else if runs.last().voice {
        voice_spans(runs.drop_last()).push(span_of(runs.last()))
    } else {
        voice_spans(runs.drop_last())
    }
}

/// The events of the runs of silence, in order.
pub open spec fn silence_events(runs: Seq<Run>) -> Seq<SilenceEvent>
    decreases runs.len(),
{
    if runs.len() == 0 {
        Seq::empty()
    } else if runs.last().voice {
        silence_events(runs.drop_last())
    } else {
        silence_events(runs.drop_last()).push(event_of(runs.last()))
    }
}

/// How many windows a sequence of silence events is made of.
pub open spec fn silent_windows(events: Seq<SilenceEvent>) -> int
    decreases events.len(),
{
    if events.len() == 0 {
        0
    } else {
        silent_windows(events.drop_last()) + events.last().windows
    }
}

/// `runs_of` cuts the decisions into their runs.
pub proof fn lemma_runs_partition(decisions: Seq<VoiceDetectResult>)
    requires
        decisions.len() <= usize::MAX,
    ensures
        is_run_partition(decisions, runs_of(decisions)),
    decreases decisions.len(),
{
    if decisions.len() > 0 {
        let shorter = decisions.drop_last();
        let before = runs_of(shorter);
        let decision = decisions.last();
        let index = decisions.len() - 1;
        let runs = runs_of(decisions);
        lemma_runs_partition(shorter);
        assert forall|j: int| 0 <= j < before.len() implies is_run_of(
            decisions,
            #[trigger] before[j],
        ) by {
            let run = before[j];
            assert(is_run_of(shorter, run));
            assert forall|k: int| run.first_window <= k <= run.last_window implies (
            #[trigger] decisions[k]).voice_detect == run.voice by {
                assert(shorter[k] == decisions[k]);
            }
        }
        if before.len() > 0 && before.last().voice == decision.voice_detect {
            let open = before.last();
            let longer = extended_run(open, decision, index);
            assert(is_run_of(decisions, open));
            assert forall|k: int| longer.first_window <= k <= longer.last_window implies (
            #[trigger] decisions[k]).voice_detect == longer.voice by {
                if k < index {
                    assert(open.first_window <= k <= open.last_window);
                }
            }
            assert(is_run_of(decisions, longer));
            assert forall|j: int| 0 <= j < runs.len() implies is_run_of(
                decisions,
                #[trigger] runs[j],
            ) by {
                if j < runs.len() - 1 {
                    assert(runs[j] == before[j]);
                }
            }
            assert forall|j: int| 0 <= j < runs.len() - 1 implies (#[trigger] runs[j
                + 1]).first_window == runs[j].last_window + 1 && runs[j + 1].voice
                != runs[j].voice by {
                assert(runs[j] == before[j]);
                assert(before[j + 1].first_window == before[j].last_window + 1);
            }
        } else {
            let alone = single_run(decision, index);
            assert(is_run_of(decisions, alone));
            assert forall|j: int| 0 <= j < runs.len() implies is_run_of(
                decisions,
                #[trigger] runs[j],
            ) by {
                if j < runs.len() - 1 {
                    assert(runs[j] == before[j]);
                }
            }
            assert forall|j: int| 0 <= j < runs.len() - 1 implies (#[trigger] runs[j
                + 1]).first_window == runs[j].last_window + 1 && runs[j + 1].voice
                != runs[j].voice by {
                assert(runs[j] == before[j]);
                if j + 1 < before.len() {
                    assert(runs[j + 1] == before[j + 1]);
                    assert(before[j + 1].first_window == before[j].last_window + 1);
                }
            }
        }
    }
}

proof fn lemma_same_run(
    decisions: Seq<VoiceDetectResult>,
    first: Seq<Run>,
    second: Seq<Run>,
    index: int,
)
    requires
        is_run_partition(decisions, first),
        is_run_partition(decisions, second),
        0 <= index < first.len(),
        index < second.len(),
    ensures
        first[index] == second[index],
    decreases index,
{
    let a = first[index];
    let b = second[index];
    assert(is_run_of(decisions, a));
    assert(is_run_of(decisions, b));
    if index > 0 {
        lemma_same_run(decisions, first, second, index - 1);
        assert(first[index - 1 + 1].first_window == first[index - 1].last_window + 1);
        assert(second[index - 1 + 1].first_window == second[index - 1].last_window + 1);
    }
    assert(a.first_window == b.first_window);
    assert(decisions[a.first_window as int].voice_detect == a.voice);
    assert(decisions[b.first_window as int].voice_detect == b.voice);
    if a.last_window < b.last_window {
        let next = first[index + 1];
        assert(is_run_of(decisions, next));
        assert(next.first_window == a.last_window + 1);
        assert(decisions[next.first_window as int].voice_detect == next.voice);
        assert(decisions[next.first_window as int].voice_detect == b.voice);
    } else if b.last_window < a.last_window {
        let next = second[index + 1];
        assert(is_run_of(decisions, next));
        assert(next.first_window == b.last_window + 1);
        assert(decisions[next.first_window as int].voice_detect == next.voice);
        assert(decisions[next.first_window as int].voice_detect == a.voice);
    }
}

/// The decisions have one cut into runs and no other: whatever cuts them
/// into runs is `runs_of`.
pub proof fn lemma_run_partition_is_unique(decisions: Seq<VoiceDetectResult>, runs: Seq<Run>)
    requires
        decisions.len() <= usize::MAX,
        is_run_partition(decisions, runs),
    ensures
        runs == runs_of(decisions),
{
    let other = runs_of(decisions);
    lemma_runs_partition(decisions);
    if runs.len() < other.len() {
        let last = runs.len() - 1;
        if last >= 0 {
            lemma_same_run(decisions, runs, other, last);
            assert(is_run_of(decisions, other[last + 1]));
        }
    } else if other.len() < runs.len() {
        let last = other.len() - 1;
        if last >= 0 {
            lemma_same_run(decisions, runs, other, last);
            assert(is_run_of(decisions, runs[last + 1]));
        }
    }
    assert forall|j: int| 0 <= j < runs.len() implies runs[j] == other[j] by {
        lemma_same_run(decisions, runs, other, j);
    }
    assert(runs =~= other);
}

/// Every run is a span or an event, and none is both.
pub proof fn lemma_runs_are_spans_or_events(runs: Seq<Run>)
    ensures
        voice_spans(runs).len() + silence_events(runs).len() == runs.len(),
    decreases runs.len(),
{
    if runs.len() > 0 {
        lemma_runs_are_spans_or_events(runs.drop_last());
    }
}

/// The decisions come in time order: none ends before it starts, and each
/// ends before the next one starts.
pub open spec fn are_in_time_order(decisions: Seq<VoiceDetectResult>) -> bool {
    &&& forall|i: int|
        0 <= i < decisions.len() ==> (#[trigger] decisions[i]).start_period
            <= decisions[i].end_period
    &&& forall|i: int, j: int|
        0 <= i < j < decisions.len() ==> (#[trigger] decisions[i]).end_period < (
        #[trigger] decisions[j]).start_period
}

/// Every span is the span of a run of voice.
pub proof fn lemma_spans_come_from_runs(runs: Seq<Run>, index: int)
    requires
        0 <= index < voice_spans(runs).len(),
    ensures
        exists|j: int|
            0 <= j < runs.len() && (#[trigger] runs[j]).voice && voice_spans(runs)[index]
                == span_of(runs[j]),
    decreases runs.len(),
{
    if runs.len() > 0 {
        let shorter = runs.drop_last();
        if index < voice_spans(shorter).len() {
            lemma_spans_come_from_runs(shorter, index);
            let j = choose|j: int|
                0 <= j < shorter.len() && (#[trigger] shorter[j]).voice && voice_spans(
                    shorter,
                )[index] == span_of(shorter[j]);
            assert(runs[j] == shorter[j]);
        } else {
            assert(runs[runs.len() - 1].voice);
        }
    }
}

/// No span is empty: where the decisions come in time order, every span ends
/// no earlier than it starts.
pub proof fn lemma_spans_are_not_empty(decisions: Seq<VoiceDetectResult>, index: int)
    requires
        decisions.len() <= usize::MAX,
        are_in_time_order(decisions),
        0 <= index < voice_spans(runs_of(decisions)).len(),
    ensures
        voice_spans(runs_of(decisions))[index].start_sample <= voice_spans(
            runs_of(decisions),
        )[index].end_sample,
{
    let runs = runs_of(decisions);
    lemma_runs_partition(decisions);
    lemma_spans_come_from_runs(runs, index);
    let j = choose|j: int|
        0 <= j < runs.len() && (#[trigger] runs[j]).voice && voice_spans(runs)[index] == span_of(
            runs[j],
        );
    assert(is_run_of(decisions, runs[j]));
}

/// How many of the decisions are not voice.
pub open spec fn count_silent(decisions: Seq<VoiceDetectResult>) -> int
    decreases decisions.len(),
{
    if decisions.len() == 0 {
        0
    } else if decisions.last().voice_detect {
        count_silent(decisions.drop_last())
    } else {
        count_silent(decisions.drop_last()) + 1
    }
}

/// The events count every window without voice once: their windows add up
/// to the number of decisions that are not voice.
pub proof fn lemma_events_count_silent_windows(decisions: Seq<VoiceDetectResult>)
    requires
        decisions.len() <= usize::MAX,
    ensures
        silent_windows(silence_events(runs_of(decisions))) == count_silent(decisions),
    decreases decisions.len(),
{
    if decisions.len() > 0 {
        let shorter = decisions.drop_last();
        let before = runs_of(shorter);
        let decision = decisions.last();
        let index = decisions.len() - 1;
        let runs = runs_of(decisions);
        lemma_events_count_silent_windows(shorter);
        lemma_runs_partition(shorter);
        if before.len() > 0 && before.last().voice == decision.voice_detect {
            let open = before.last();
            let longer = extended_run(open, decision, index);
            let earlier = silence_events(before.drop_last());
            assert(is_run_of(shorter, open));
            assert(open.last_window == index - 1);
            assert(runs.drop_last() == before.drop_last());
            assert(runs.last() == longer);
            if !open.voice {
                assert(earlier.push(event_of(open)).drop_last() == earlier);
                assert(earlier.push(event_of(longer)).drop_last() == earlier);
            }
        } else {
            let alone = single_run(decision, index);
            let earlier = silence_events(before);
            assert(runs.drop_last() == before);
            assert(runs.last() == alone);
            if !alone.voice {
                assert(earlier.push(event_of(alone)).drop_last() == earlier);
            }
        }
    }
}

/// Cuts the decisions into their runs.
pub fn segment_runs(decisions: &Vec<VoiceDetectResult>) -> (runs: Vec<Run>)
    ensures
        runs@ == runs_of(decisions@),
        is_run_partition(decisions@, runs@),
{
    let mut runs: Vec<Run> = Vec::new();
    let mut i: usize = 0;
    while i < decisions.len()
        invariant
            i <= decisions.len(),
            runs@ == runs_of(decisions@.take(i as int)),
        decreases decisions.len() - i,
    {
        let decision = decisions[i];
        let count = runs.len();
        proof {
            assert(decisions@.take(i + 1).drop_last() == decisions@.take(i as int));
        }
        if count > 0 && runs[count - 1].voice == decision.voice_detect {
            let open = runs[count - 1];
            runs.set(
                count - 1,
                Run {
                    voice: open.voice,
                    first_window: open.first_window,
                    last_window: i,
                    start_sample: open.start_sample,
                    end_sample: decision.end_period,
                },
            );
        } else {
            runs.push(
                Run {
                    voice: decision.voice_detect,
                    first_window: i,
                    last_window: i,
                    start_sample: decision.start_period,
                    end_sample: decision.end_period,
                },
            );
        }
        i = i + 1;
    }
    proof {
        assert(decisions@.take(i as int) == decisions@);
        lemma_runs_partition(decisions@);
    }
    runs
}

/// Merges the decisions into the spans of voice and the events of silence,
/// each list in time order. A span reaches from the first sample of its first
/// window to the last sample of its last window.
pub fn coalesce(decisions: &Vec<VoiceDetectResult>) -> (merged: (Vec<VoiceSpan>, Vec<SilenceEvent>))
    ensures
        merged.0@ == voice_spans(runs_of(decisions@)),
        merged.1@ == silence_events(runs_of(decisions@)),
{
    let runs = segment_runs(decisions);
    let total = decisions.len();
    let mut spans: Vec<VoiceSpan> = Vec::new();
    let mut events: Vec<SilenceEvent> = Vec::new();
    let mut j: usize = 0;
    while j < runs.len()
        invariant
            j <= runs.len(),
            total == decisions@.len(),
            is_run_partition(decisions@, runs@),
            spans@ == voice_spans(runs@.take(j as int)),
            events@ == silence_events(runs@.take(j as int)),
        decreases runs.len() - j,
    {
        let run = runs[j];
        proof {
            assert(runs@.take(j + 1).drop_last() == runs@.take(j as int));
            assert(is_run_of(decisions@, runs@[j as int]));
        }
        if run.voice {
            spans.push(VoiceSpan { start_sample: run.start_sample, end_sample: run.end_sample });
        } else {
            events.push(
                SilenceEvent {
                    start_sample: run.start_sample,
                    end_sample: run.end_sample,
                    windows: run.last_window - run.first_window + 1,
                },
            );
        }
        j = j + 1;
    }
    proof {
        assert(runs@.take(j as int) == runs@);
    }
    (spans, events)
}

} // verus!
