use vstd::arithmetic::div_mod::{lemma_fundamental_div_mod, lemma_fundamental_div_mod_converse};
use vstd::prelude::*;

verus! {

// The transcription engine counts time from zero in every slice of audio it
// is given. The reconciler keeps the offset that places a slice on the clock
// of the whole stream. Time is counted in centiseconds.

/// `num / den` rounded to the nearest integer, a half rounded away from zero.
pub open spec fn round_half_away(num: int, den: int) -> int {
    if num >= 0 {
        (2 * num + den) / (2 * den)
    } else {
        -((2 * (-num) + den) / (2 * den))
    }
}

/// The time that `samples` samples take at `sample_rate` samples a second, in
/// centiseconds.
pub open spec fn centiseconds_of(samples: int, sample_rate: int) -> int {
    round_half_away(100 * samples, sample_rate)
}

/// The rounded quotient is within a half of the exact one, and a half rounds
/// away from zero.
pub proof fn lemma_rounding_is_nearest(num: int, den: int)
    requires
        den > 0,
    ensures
        num >= 0 ==> 2 * num - den < 2 * den * round_half_away(num, den) <= 2 * num + den,
        num < 0 ==> 2 * num - den <= 2 * den * round_half_away(num, den) < 2 * num + den,
{
    let m = if num >= 0 {
        num
    } else {
        -num
    };
    let q = (2 * m + den) / (2 * den);
    lemma_fundamental_div_mod(2 * m + den, 2 * den);
    assert(2 * den * (-q) == -(2 * den * q)) by (nonlinear_arith);
}

/// Rounding treats a quotient and its negative alike.
pub proof fn lemma_rounding_is_odd(num: int, den: int)
    requires
        den > 0,
    ensures
        round_half_away(-num, den) == -round_half_away(num, den),
{
    if num == 0 {
        assert(round_half_away(0, den) == 0) by {
            lemma_fundamental_div_mod_converse(den, 2 * den, 0, den);
        }
    }
}

/// Whole multiples pass through the rounding unchanged.
pub proof fn lemma_rounding_shifts(whole: int, rest: int, den: int)
    requires
        den > 0,
        whole >= 0,
        rest >= 0,
    ensures
        round_half_away(whole * den + rest, den) == whole + round_half_away(rest, den),
{
    let q = (2 * rest + den) / (2 * den);
    let r = (2 * rest + den) % (2 * den);
    lemma_fundamental_div_mod(2 * rest + den, 2 * den);
    assert(whole * den >= 0) by (nonlinear_arith)
        requires
            whole >= 0,
            den > 0,
    ;
    assert(2 * (whole * den + rest) + den == (2 * den) * (whole + q) + r) by (nonlinear_arith)
        requires
            2 * rest + den == (2 * den) * q + r,
    ;
    lemma_fundamental_div_mod_converse(2 * (whole * den + rest) + den, 2 * den, whole + q, r);
}

/// A larger quotient does not round to a smaller integer.
pub proof fn lemma_rounding_is_monotone(low: int, high: int, den: int)
    requires
        den > 0,
        low <= high,
    ensures
        round_half_away(low, den) <= round_half_away(high, den),
{
    lemma_rounding_is_nearest(low, den);
    lemma_rounding_is_nearest(high, den);
    let a = round_half_away(low, den);
    let b = round_half_away(high, den);
    if a > b {
        assert(2 * den * a >= 2 * den * b + 2 * den) by (nonlinear_arith)
            requires
                a >= b + 1,
                den > 0,
        ;
    }
}

/// Whole seconds convert exactly, and what is left of a second is rounded on
/// its own.
pub proof fn lemma_whole_seconds(seconds: int, rest: int, sample_rate: int)
    requires
        sample_rate > 0,
        seconds >= 0,
        rest >= 0,
    ensures
        centiseconds_of(seconds * sample_rate + rest, sample_rate) == 100 * seconds
            + centiseconds_of(rest, sample_rate),
        centiseconds_of(0, sample_rate) == 0,
{
    assert(100 * (seconds * sample_rate + rest) == (100 * seconds) * sample_rate + 100 * rest)
        by (nonlinear_arith);
    lemma_rounding_shifts(100 * seconds, 100 * rest, sample_rate);
    lemma_fundamental_div_mod_converse(sample_rate, 2 * sample_rate, 0, sample_rate);
}

/// Converts a number of samples to centiseconds. Gives nothing where the
/// result is more than an `i64` holds.
pub fn centiseconds(samples: usize, sample_rate: usize) -> (cs: Option<i64>)
    requires
        sample_rate > 0,
    ensures
        centiseconds_of(samples as int, sample_rate as int) <= i64::MAX ==> cs == Some(
            centiseconds_of(samples as int, sample_rate as int) as i64,
        ),
        centiseconds_of(samples as int, sample_rate as int) > i64::MAX ==> cs.is_none(),
{
    let num: u128 = 200 * (samples as u128) + (sample_rate as u128);
    let den: u128 = 2 * (sample_rate as u128);
    let rounded: u128 = num / den;
    assert(num == 2 * (100 * samples) + sample_rate);
    if rounded <= 0x7fff_ffff_ffff_ffff {
        Some(rounded as i64)
    } else {
        None
    }
}

/// The clock of one stream.
#[derive(Clone, Copy, Debug, PartialEq, Eq)]
pub struct ReconciliationState {
    wallclock_offset: i64,
    accumulated_silence: i64,
}

impl ReconciliationState {
    /// What is added to a time that the engine reports for the slice it is
    /// given next.
    pub closed spec fn wallclock_offset(&self) -> int {
        self.wallclock_offset as int
    }

    /// How much of the offset is silence skipped in the chunk at hand.
    pub closed spec fn accumulated_silence(&self) -> int {
        self.accumulated_silence as int
    }

    /// The silence of the chunk at hand is part of the offset, and neither
    /// is negative.
    pub open spec fn wf(&self) -> bool {
        0 <= self.accumulated_silence() <= self.wallclock_offset() <= i64::MAX
    }

    /// The clock at the start of a stream.
    pub fn new() -> (clock: Self)
        ensures
            clock.wf(),
            clock.wallclock_offset() == 0,
            clock.accumulated_silence() == 0,
    {
        Self { wallclock_offset: 0, accumulated_silence: 0 }
    }

    /// Sets the clock back to the start of a stream.
    pub fn reset(&mut self)
        ensures
            final(self).wf(),
            final(self).wallclock_offset() == 0,
            final(self).accumulated_silence() == 0,
    {
        self.wallclock_offset = 0;
        self.accumulated_silence = 0;
    }

    /// The offset as it stands.
    pub fn snapshot(&self) -> (offset: i64)
        ensures
            offset == self.wallclock_offset(),
    {
        self.wallclock_offset
    }

    /// The silence skipped so far in the chunk at hand.
    pub fn silence(&self) -> (silence: i64)
        ensures
            silence == self.accumulated_silence(),
    {
        self.accumulated_silence
    }

    /// Moves the clock past a run of silence.
    pub fn advance(&mut self, silence: i64)
        requires
            old(self).wf(),
            silence >= 0,
            old(self).wallclock_offset() + silence <= i64::MAX,
        ensures
            final(self).wf(),
            final(self).wallclock_offset() == old(self).wallclock_offset() + silence,
            final(self).accumulated_silence() == old(self).accumulated_silence() + silence,
    {
        self.wallclock_offset = self.wallclock_offset + silence;
        self.accumulated_silence = self.accumulated_silence + silence;
    }

    /// Ends a chunk of the given length: the clock moves to where the chunk
    /// ends, which is its start plus its whole length, silence and voice
    /// alike. The clock does not go back where the silence skipped in the
    /// chunk is no longer than the chunk.
    pub fn finish_chunk(&mut self, chunk: i64)
        requires
            old(self).wf(),
            chunk >= 0,
            old(self).wallclock_offset() - old(self).accumulated_silence() + chunk <= i64::MAX,
        ensures
            final(self).wf(),
            final(self).wallclock_offset() == old(self).wallclock_offset() - old(
                self
            ).accumulated_silence() + chunk,
            final(self).accumulated_silence() == 0,
            old(self).accumulated_silence() <= chunk ==> final(self).wallclock_offset() >= old(
                self
            ).wallclock_offset(),
    {
        self.wallclock_offset = self.wallclock_offset - self.accumulated_silence + chunk;
        self.accumulated_silence = 0;
    }
}

/// A piece of text as the engine reports it: its times count from the start
/// of the slice that the engine was given.
#[derive(Clone, Debug, PartialEq, Eq)]
pub struct LocalFragment {
    pub local_start: i64,
    pub local_end: i64,
    pub text: String,
}

/// A piece of text on the clock of the stream.
#[derive(Clone, Debug, PartialEq, Eq)]
pub struct TranscribedFragment {
    pub absolute_start_ts: i64,
    pub absolute_end_ts: i64,
    pub text: String,
}

/// Both ends of the fragment, moved by the offset, are times that an `i64`
/// holds.
pub open spec fn can_place(fragment: LocalFragment, offset: i64) -> bool {
    &&& i64::MIN <= fragment.local_start + offset <= i64::MAX
    &&& i64::MIN <= fragment.local_end + offset <= i64::MAX
}

/// `placed` is `fragment` moved by the offset, with the same text.
pub open spec fn is_placed(
    placed: TranscribedFragment,
    fragment: LocalFragment,
    offset: i64,
) -> bool {
    &&& placed.absolute_start_ts == fragment.local_start + offset
    &&& placed.absolute_end_ts == fragment.local_end + offset
    &&& placed.text@ == fragment.text@
}

/// Every fragment can be placed.
pub open spec fn can_place_all(fragments: Seq<LocalFragment>, offset: i64) -> bool {
    forall|i: int| 0 <= i < fragments.len() ==> can_place(#[trigger] fragments[i], offset)
}

/// `placed` are the fragments, each moved by the offset, in the same order.
pub open spec fn are_placed(
    placed: Seq<TranscribedFragment>,
    fragments: Seq<LocalFragment>,
    offset: i64,
) -> bool {
    &&& placed.len() == fragments.len()
    &&& forall|i: int|
        0 <= i < placed.len() ==> is_placed(#[trigger] placed[i], fragments[i], offset)
}

/// Puts one fragment on the clock of the stream: both its times move by the
/// offset. Gives nothing where a moved time is outside what an `i64` holds.
pub fn place_fragment(fragment: &LocalFragment, offset: i64) -> (placed: Option<
    TranscribedFragment,
>)
    ensures
        can_place(*fragment, offset) ==> (placed matches Some(p) && is_placed(
            p,
            *fragment,
            offset,
        )),
        !can_place(*fragment, offset) ==> placed.is_none(),
{
    match (fragment.local_start.checked_add(offset), fragment.local_end.checked_add(offset)) {
        (Some(start), Some(end)) => Some(
            TranscribedFragment {
                absolute_start_ts: start,
                absolute_end_ts: end,
                text: fragment.text.clone(),
            },
        ),
        _ => None,
    }
}

/// Puts the fragments of one slice on the clock of the stream, all by the
/// same offset. Gives nothing where one of them cannot be placed.
pub fn place_fragments(fragments: &Vec<LocalFragment>, offset: i64) -> (placed: Option<
    Vec<TranscribedFragment>,
>)
    ensures
        can_place_all(fragments@, offset) ==> (placed matches Some(p) && are_placed(
            p@,
            fragments@,
            offset,
        )),
        !can_place_all(fragments@, offset) ==> placed.is_none(),
{
    let mut placed: Vec<TranscribedFragment> = Vec::new();
    let mut i: usize = 0;
    while i < fragments.len()
        invariant
            i <= fragments.len(),
            placed@.len() == i,
            forall|j: int| 0 <= j < i ==> can_place(#[trigger] fragments@[j], offset),
            forall|j: int|
                0 <= j < i ==> is_placed(#[trigger] placed@[j], fragments@[j], offset),
        decreases fragments.len() - i,
    {
        match place_fragment(&fragments[i], offset) {
            Some(p) => {
                placed.push(p);
            },
            None => {
                assert(!can_place(fragments@[i as int], offset));
                return None;
            },
        }
        i = i + 1;
    }
    Some(placed)
}

} // verus!
