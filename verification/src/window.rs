use crate::error::VadError;
use vstd::arithmetic::div_mod::{lemma_fundamental_div_mod, lemma_fundamental_div_mod_converse};
use vstd::arithmetic::mul::lemma_mul_inequality;
use vstd::prelude::*;

verus! {

// A buffer is cut into windows of `sample_rate` samples, one second each, the
// last one shorter where the buffer does not end on a second. A window's
// bounds are sample indices into the buffer, both inclusive.

/// One window of audio, with a copy of its samples.
#[derive(Clone, Debug, PartialEq)]
pub struct AudioDetectWindow<T> {
    pub audio_data: Vec<T>,
    /// Index of the window's first sample.
    pub start_period: usize,
    /// Index of the window's last sample.
    pub end_period: usize,
}

impl<T> AudioDetectWindow<T> {
    /// A window with these samples and these bounds.
    pub fn new(audio_data: Vec<T>, start_period: usize, end_period: usize) -> (window: Self)
        ensures
            window.audio_data == audio_data,
            window.start_period == start_period,
            window.end_period == end_period,
    {
        Self { audio_data, start_period, end_period }
    }
}

/// How many windows a buffer of `len` samples has: `len / rate`, rounded up.
pub open spec fn window_count(len: int, rate: int) -> int {
    if len % rate == 0 {
        len / rate
    } else {
        len / rate + 1
    }
}

/// Index of the first sample of window `index`.
pub open spec fn window_start(index: int, rate: int) -> int {
    index * rate
}

/// Index just past the last sample of window `index`.
pub open spec fn window_stop(index: int, len: int, rate: int) -> int {
    if (index + 1) * rate <= len {
        (index + 1) * rate
    } else {
        len
    }
}

/// `window` is window number `index` of `samples`.
pub open spec fn is_window<T>(
    window: AudioDetectWindow<T>,
    samples: Seq<T>,
    rate: int,
    index: int,
) -> bool {
    &&& window.start_period == window_start(index, rate)
    &&& window.end_period == window_stop(index, samples.len() as int, rate) - 1
    &&& window.audio_data@ == samples.subrange(
        window_start(index, rate),
        window_stop(index, samples.len() as int, rate),
    )
}

/// `windows` are the windows of `samples`, all of them and in order.
pub open spec fn is_slicing<T>(
    windows: Seq<AudioDetectWindow<T>>,
    samples: Seq<T>,
    rate: int,
) -> bool {
    &&& windows.len() == window_count(samples.len() as int, rate)
    &&& forall|i: int|
        0 <= i < windows.len() ==> is_window(#[trigger] windows[i], samples, rate, i)
}

/// The samples of all the windows, one after the other.
pub open spec fn joined<T>(windows: Seq<AudioDetectWindow<T>>) -> Seq<T>
    decreases windows.len(),
{
    if windows.len() == 0 {
        Seq::empty()
    } else {
        joined(windows.drop_last()) + windows.last().audio_data@
    }
}

/// The number of samples in all the windows together.
pub open spec fn total_samples<T>(windows: Seq<AudioDetectWindow<T>>) -> int
    decreases windows.len(),
{
    if windows.len() == 0 {
        0
    } else {
        total_samples(windows.drop_last()) + windows.last().audio_data@.len()
    }
}

/// Copies the samples `start .. stop` of a buffer.
pub fn extract_samples<T: Copy>(samples: &Vec<T>, start: usize, stop: usize) -> (slice: Vec<T>)
    requires
        start <= stop <= samples.len(),
    ensures
        slice@ == samples@.subrange(start as int, stop as int),
{
    let mut slice: Vec<T> = Vec::new();
    let mut i: usize = start;
    while i < stop
        invariant
            start <= i <= stop <= samples.len(),
            slice@ == samples@.subrange(start as int, i as int),
        decreases stop - i,
    {
        slice.push(samples[i]);
        i = i + 1;
    }
    slice
}

proof fn lemma_count_of_multiple(index: int, rate: int)
    requires
        index >= 0,
        rate > 0,
    ensures
        index * rate >= 0,
        (index + 1) * rate == index * rate + rate,
        window_count(index * rate, rate) == index,
{
    assert(index * rate >= 0) by (nonlinear_arith)
        requires
            index >= 0,
            rate > 0,
    ;
    assert((index + 1) * rate == index * rate + rate) by (nonlinear_arith);
    lemma_fundamental_div_mod_converse(index * rate, rate, index, 0);
}

proof fn lemma_count_with_remainder(index: int, rate: int, len: int)
    requires
        index >= 0,
        rate > 0,
        index * rate < len < (index + 1) * rate,
    ensures
        window_count(len, rate) == index + 1,
{
    assert((index + 1) * rate == index * rate + rate) by (nonlinear_arith);
    lemma_fundamental_div_mod_converse(len, rate, index, len - index * rate);
}

/// Cuts a buffer into its windows. An empty buffer is refused; a buffer
/// shorter than one second gives a single short window.
pub fn prepare_audio_data<T: Copy>(audio_data: &Vec<T>, sample_rate: usize) -> (result: Result<
    Vec<AudioDetectWindow<T>>,
    VadError,
>)
    requires
        sample_rate > 0,
    ensures
        audio_data.len() == 0 ==> result == Err::<Vec<AudioDetectWindow<T>>, VadError>(
            VadError::EmptyInput,
        ),
        audio_data.len() > 0 ==> (result matches Ok(windows) && is_slicing(
            windows@,
            audio_data@,
            sample_rate as int,
        )),
{
    let len = audio_data.len();
    if len == 0 {
        return Err(VadError::EmptyInput);
    }
    let ghost rate = sample_rate as int;
    let mut windows: Vec<AudioDetectWindow<T>> = Vec::new();
    let mut start: usize = 0;
    proof {
        lemma_count_of_multiple(0, rate);
    }
    while start < len
        invariant
            len == audio_data.len(),
            rate == sample_rate as int,
            rate > 0,
            start <= len,
            start < len ==> start == windows.len() * rate,
            start == len ==> windows.len() == window_count(len as int, rate),
            forall|i: int|
                0 <= i < windows.len() ==> is_window(#[trigger] windows[i], audio_data@, rate, i),
        decreases len - start,
    {
        let ghost index = windows.len() as int;
        proof {
            lemma_count_of_multiple(index, rate);
        }
        let stop: usize = if len - start >= sample_rate {
            start + sample_rate
        } else {
            len
        };
        let data = extract_samples(audio_data, start, stop);
        let window = AudioDetectWindow::new(data, start, stop - 1);
        proof {
            assert(is_window(window, audio_data@, rate, index));
            if stop == len {
                if len == (index + 1) * rate {
                    lemma_count_of_multiple(index + 1, rate);
                } else {
                    lemma_count_with_remainder(index, rate, len as int);
                }
            }
        }
        windows.push(window);
        start = stop;
    }
    Ok(windows)
}

/// The last window begins before the buffer ends, and the windows reach the
/// buffer's end: with `n` windows, `(n - 1) * rate < len <= n * rate`.
pub proof fn lemma_count_bounds(len: int, rate: int)
    requires
        len > 0,
        rate > 0,
    ensures
        window_count(len, rate) >= 1,
        (window_count(len, rate) - 1) * rate < len <= window_count(len, rate) * rate,
{
    let q = len / rate;
    let r = len % rate;
    lemma_fundamental_div_mod(len, rate);
    assert(rate * q == q * rate) by (nonlinear_arith);
    assert((q + 1) * rate == q * rate + rate) by (nonlinear_arith);
    assert((q - 1) * rate == q * rate - rate) by (nonlinear_arith);
    if q <= 0 {
        assert(q * rate <= 0) by (nonlinear_arith)
            requires
                q <= 0,
                rate > 0,
        ;
    }
}

/// The bounds of window `index` among the `window_count(len, rate)` windows
/// of a buffer: it starts inside the buffer, and is full unless it is the last.
pub proof fn lemma_window_bounds(index: int, len: int, rate: int)
    requires
        len > 0,
        rate > 0,
        0 <= index < window_count(len, rate),
    ensures
        0 <= window_start(index, rate) < window_stop(index, len, rate) <= len,
        window_stop(index, len, rate) - window_start(index, rate) <= rate,
        index < window_count(len, rate) - 1 ==> window_stop(index, len, rate) == window_start(
            index + 1,
            rate,
        ),
        index == window_count(len, rate) - 1 ==> window_stop(index, len, rate) == len,
{
    let n = window_count(len, rate);
    lemma_count_bounds(len, rate);
    lemma_mul_inequality(index, n - 1, rate);
    lemma_mul_inequality(0, index, rate);
    assert((index + 1) * rate == index * rate + rate) by (nonlinear_arith);
    if index < n - 1 {
        lemma_mul_inequality(index + 1, n - 1, rate);
    }
}

/// The windows of a buffer lie end to end: the first starts at sample 0, each
/// later one starts right after the one before it, the last one ends on the
/// buffer's last sample, and none is empty.
pub proof fn lemma_windows_are_contiguous<T>(
    windows: Seq<AudioDetectWindow<T>>,
    samples: Seq<T>,
    rate: int,
)
    requires
        rate > 0,
        samples.len() > 0,
        is_slicing(windows, samples, rate),
    ensures
        windows.len() >= 1,
        windows[0].start_period == 0,
        windows.last().end_period == samples.len() - 1,
        forall|i: int|
            0 <= i < windows.len() - 1 ==> (#[trigger] windows[i + 1]).start_period
                == windows[i].end_period + 1,
        forall|i: int|
            0 <= i < windows.len() ==> (#[trigger] windows[i]).start_period
                <= windows[i].end_period,
{
    let len = samples.len() as int;
    lemma_count_bounds(len, rate);
    lemma_window_bounds(0, len, rate);
    lemma_window_bounds(windows.len() - 1, len, rate);
    assert(is_window(windows[0], samples, rate, 0));
    assert(is_window(windows.last(), samples, rate, windows.len() - 1));
    assert forall|i: int| 0 <= i < windows.len() - 1 implies (#[trigger] windows[i
        + 1]).start_period == windows[i].end_period + 1 by {
        lemma_window_bounds(i, len, rate);
        assert(is_window(windows[i], samples, rate, i));
        assert(is_window(windows[i + 1], samples, rate, i + 1));
    }
    assert forall|i: int| 0 <= i < windows.len() implies (#[trigger] windows[i]).start_period
        <= windows[i].end_period by {
        lemma_window_bounds(i, len, rate);
        assert(is_window(windows[i], samples, rate, i));
    }
}

/// Every window but the last holds exactly `rate` samples; the last holds at
/// least one and at most `rate`.
pub proof fn lemma_all_but_last_are_full<T>(
    windows: Seq<AudioDetectWindow<T>>,
    samples: Seq<T>,
    rate: int,
)
    requires
        rate > 0,
        samples.len() > 0,
        is_slicing(windows, samples, rate),
    ensures
        windows.len() >= 1,
        forall|i: int|
            0 <= i < windows.len() - 1 ==> (#[trigger] windows[i]).audio_data@.len() == rate,
        1 <= windows.last().audio_data@.len() <= rate,
        forall|i: int|
            0 <= i < windows.len() ==> (#[trigger] windows[i]).audio_data@.len()
                == windows[i].end_period - windows[i].start_period + 1,
{
    let len = samples.len() as int;
    lemma_count_bounds(len, rate);
    assert forall|i: int| 0 <= i < windows.len() implies (#[trigger] windows[i]).audio_data@.len()
        == windows[i].end_period - windows[i].start_period + 1 && 1
        <= windows[i].audio_data@.len() <= rate && (i < windows.len() - 1
        ==> windows[i].audio_data@.len() == rate) by {
        lemma_window_bounds(i, len, rate);
        assert(is_window(windows[i], samples, rate, i));
        assert((i + 1) * rate == i * rate + rate) by (nonlinear_arith);
    }
    assert(1 <= windows[windows.len() - 1].audio_data@.len() <= rate);
}

proof fn lemma_prefix_covers<T>(
    windows: Seq<AudioDetectWindow<T>>,
    samples: Seq<T>,
    rate: int,
    count: int,
)
    requires
        rate > 0,
        samples.len() > 0,
        is_slicing(windows, samples, rate),
        1 <= count <= windows.len(),
    ensures
        joined(windows.take(count)) == samples.subrange(
            0,
            window_stop(count - 1, samples.len() as int, rate),
        ),
        total_samples(windows.take(count)) == window_stop(count - 1, samples.len() as int, rate),
    decreases count,
{
    let len = samples.len() as int;
    let prefix = windows.take(count);
    assert(prefix.drop_last() == windows.take(count - 1));
    assert(prefix.last() == windows[count - 1]);
    assert(is_window(windows[count - 1], samples, rate, count - 1));
    lemma_window_bounds(count - 1, len, rate);
    if count == 1 {
        assert(joined(windows.take(0)) == Seq::<T>::empty());
        assert(total_samples(windows.take(0)) == 0);
        assert(0 * rate == 0) by (nonlinear_arith);
        assert(joined(prefix) == samples.subrange(0, window_stop(0, len, rate)));
    } else {
        lemma_prefix_covers(windows, samples, rate, count - 1);
        lemma_window_bounds(count - 2, len, rate);
        let middle = window_start(count - 1, rate);
        let stop = window_stop(count - 1, len, rate);
        assert(samples.subrange(0, middle) + samples.subrange(middle, stop) == samples.subrange(
            0,
            stop,
        ));
    }
}

/// The windows cover the buffer exactly: joined in order they are the buffer,
/// so their lengths sum to the buffer's length.
pub proof fn lemma_windows_cover_input<T>(
    windows: Seq<AudioDetectWindow<T>>,
    samples: Seq<T>,
    rate: int,
)
    requires
        rate > 0,
        samples.len() > 0,
        is_slicing(windows, samples, rate),
    ensures
        joined(windows) == samples,
        total_samples(windows) == samples.len(),
{
    let len = samples.len() as int;
    lemma_count_bounds(len, rate);
    lemma_prefix_covers(windows, samples, rate, windows.len() as int);
    lemma_window_bounds(windows.len() - 1, len, rate);
    assert(windows.take(windows.len() as int) == windows);
    assert(samples.subrange(0, len) == samples);
}

/// A buffer shorter than one second has a single window: the whole buffer.
pub proof fn lemma_short_buffer_is_one_window<T>(
    windows: Seq<AudioDetectWindow<T>>,
    samples: Seq<T>,
    rate: int,
)
    requires
        0 < samples.len() < rate,
        is_slicing(windows, samples, rate),
    ensures
        windows.len() == 1,
        windows[0].start_period == 0,
        windows[0].end_period == samples.len() - 1,
        windows[0].audio_data@ == samples,
{
    let len = samples.len() as int;
    lemma_count_with_remainder(0, rate, len);
    lemma_window_bounds(0, len, rate);
    assert(is_window(windows[0], samples, rate, 0));
    assert(samples.subrange(0, len) == samples);
}

} // verus!
