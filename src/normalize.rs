use vstd::prelude::*;

use crate::data_types::{
    amplitude_in_range, NormalizedFrame, NormalizedSeries, RawWaveData, RawWaveFrame, WaveError,
    MAX_SCALE,
};

verus! {

/// The smallest amplitude of a non-empty series.
pub open spec fn min_amp(s: Seq<RawWaveFrame>) -> u64
    decreases s.len(),
{
    if s.len() <= 1 {
        s[0].1
    } else {
        let m = min_amp(s.drop_last());
        if s.last().1 < m {
            s.last().1
        } else {
            m
        }
    }
}

/// The largest amplitude of a non-empty series.
pub open spec fn max_amp(s: Seq<RawWaveFrame>) -> u64
    decreases s.len(),
{
    if s.len() <= 1 {
        s[0].1
    } else {
        let m = max_amp(s.drop_last());
        if s.last().1 > m {
            s.last().1
        } else {
            m
        }
    }
}

/// The width of the amplitude range of a non-empty series.
pub open spec fn amp_span(s: Seq<RawWaveFrame>) -> int {
    max_amp(s) - min_amp(s)
}

/// The common denominator of a normalised series: twice the amplitude range,
/// or 1 when every amplitude is the same.
pub open spec fn normal_scale(s: Seq<RawWaveFrame>) -> int {
    if amp_span(s) == 0 {
        1
    } else {
        2 * amp_span(s)
    }
}

/// Frame `f` of series `s`, rescaled. Its time becomes the offset from the
/// first frame's timestamp. Its amplitude `a` maps linearly from
/// `[min, max]` onto `[-1/2, 1/2]`, that is to
/// `(a - min) / (max - min) - 1/2 = (2 (a - min) - (max - min)) / (2 (max - min))`;
/// when `min == max` it becomes 0.
pub open spec fn normal_frame(s: Seq<RawWaveFrame>, f: RawWaveFrame) -> NormalizedFrame {
    NormalizedFrame {
        time: (f.0 - s[0].0) as i128,
        amplitude: (if amp_span(s) == 0 {
            0
        } else {
            2 * (f.1 - min_amp(s)) - amp_span(s)
        }) as i128,
    }
}

/// `series` is the normalisation of `raw`.
pub open spec fn normalizes(raw: Seq<RawWaveFrame>, series: NormalizedSeries) -> bool {
    &&& series.scale == normal_scale(raw)
    &&& series.frames@ == raw.map_values(|f: RawWaveFrame| normal_frame(raw, f))
}

/// Every amplitude of a non-empty series lies between its minimum and maximum.
pub proof fn lemma_amp_bounds(s: Seq<RawWaveFrame>, i: int)
    requires
        0 <= i < s.len(),
    ensures
        min_amp(s) <= s[i].1 <= max_amp(s),
    decreases s.len(),
{
    if s.len() > 1 && i < s.len() - 1 {
        lemma_amp_bounds(s.drop_last(), i);
    }
}

/// The smallest and the largest amplitude of a non-empty series.
pub fn compute_amp_range(raw_data: &RawWaveData) -> (r: (u64, u64))
    requires
        raw_data@.len() > 0,
    ensures
        r == (min_amp(raw_data@), max_amp(raw_data@)),
{
    let n = raw_data.len();
    let mut lo = raw_data[0].1;
    let mut hi = raw_data[0].1;
    let mut i: usize = 1;
    while i < n
        invariant
            1 <= i <= n,
            n == raw_data@.len(),
            lo == min_amp(raw_data@.subrange(0, i as int)),
            hi == max_amp(raw_data@.subrange(0, i as int)),
        decreases n - i,
    {
        let a = raw_data[i].1;
        proof {
            let p = raw_data@.subrange(0, i + 1);
            assert(p.drop_last() =~= raw_data@.subrange(0, i as int));
        }
        if a < lo {
            lo = a;
        }
        if a > hi {
            hi = a;
        }
        i = i + 1;
    }
    assert(raw_data@.subrange(0, n as int) =~= raw_data@);
    (lo, hi)
}

/// Rescales a series: times become offsets from the first timestamp, and
/// amplitudes map linearly onto `[-1/2, 1/2]` (all zero when every amplitude
/// is the same). An empty series is an `EmptyInput` error.
pub fn normalise_values(raw_data: &RawWaveData) -> (r: Result<NormalizedSeries, WaveError>)
    ensures
        raw_data@.len() == 0 <==> r is Err,
        r is Err ==> r == Err::<NormalizedSeries, WaveError>(WaveError::EmptyInput),
        r matches Ok(series) ==> {
            &&& normalizes(raw_data@, series)
            &&& series.wf()
            &&& series.frames@.len() == raw_data@.len()
            &&& amp_span(raw_data@) == 0 ==> forall|i: int|
                0 <= i < series.frames@.len() ==> #[trigger] series.frames@[i].amplitude == 0
        },
{
    let n = raw_data.len();
    if n == 0 {
        return Err(WaveError::EmptyInput);
    }
    let time_start = raw_data[0].0;
    let (amp_min, amp_max) = compute_amp_range(raw_data);
    let span = amp_max - amp_min;
    let scale: i128 = if span == 0 { 1 } else { 2 * (span as i128) };
    let mut frames: Vec<NormalizedFrame> = Vec::new();
    let mut i: usize = 0;
    while i < n
        invariant
            i <= n,
            n == raw_data@.len(),
            n > 0,
            time_start == raw_data@[0].0,
            amp_min == min_amp(raw_data@),
            amp_max == max_amp(raw_data@),
            span == amp_span(raw_data@),
            scale == normal_scale(raw_data@),
            frames@.len() == i,
            forall|j: int| 0 <= j < i ==> #[trigger] frames@[j] == normal_frame(raw_data@, raw_data@[j]),
            forall|j: int| 0 <= j < i ==> amplitude_in_range(#[trigger] frames@[j].amplitude as int, scale as int),
        decreases n - i,
    {
        let (t, a) = raw_data[i];
        proof {
            lemma_amp_bounds(raw_data@, i as int);
        }
        let time = t as i128 - time_start as i128;
        let amplitude: i128 = if span == 0 {
            0
        } else {
            2 * ((a - amp_min) as i128) - span as i128
        };
        frames.push(NormalizedFrame { time, amplitude });
        i = i + 1;
    }
    let series = NormalizedSeries { frames, scale };
    assert(series.frames@ =~= raw_data@.map_values(|f: RawWaveFrame| normal_frame(raw_data@, f)));
    assert(scale <= MAX_SCALE);
    Ok(series)
}

} // verus!
