use vstd::prelude::*;

use crate::data_types::{amplitude_in_range, Crossing, NormalizedFrame, NormalizedSeries, MAX_SCALE};

verus! {

pub open spec fn abs(x: int) -> int {
    if x < 0 {
        -x
    } else {
        x
    }
}

/// Adjacent amplitudes `a1`, `a2` bracket a zero: the second is zero, or the
/// sign changes from non-positive to positive or from non-negative to negative.
pub open spec fn is_crossing(a1: int, a2: int) -> bool {
    ||| a2 == 0
    ||| (a1 <= 0 && 0 < a2)
    ||| (a1 >= 0 && 0 > a2)
}

/// The crossing between two adjacent frames. When the first amplitude is
/// zero, the crossing is at the first frame's time. Otherwise it is where the
/// segment between the frames meets zero:
/// `t1 + (t2 - t1) * (-a1) / (a2 - a1)`, and as the amplitudes lie on opposite
/// sides of zero (or the second is zero), `-a1 / (a2 - a1) = |a1| / (|a1| + |a2|)`.
pub open spec fn crossing_between(f1: NormalizedFrame, f2: NormalizedFrame) -> Crossing {
    if f1.amplitude == 0 {
        Crossing { before: f1.time, after: f1.time, offset: 0, span: 1 }
    } else {
        Crossing {
            before: f1.time,
            after: f2.time,
            offset: abs(f1.amplitude as int) as i128,
            span: (abs(f1.amplitude as int) + abs(f2.amplitude as int)) as i128,
        }
    }
}

/// The crossings among the pairs `(frames[j], frames[j + 1])` with `j < k`,
/// in order.
pub open spec fn crossings_upto(frames: Seq<NormalizedFrame>, k: int) -> Seq<Crossing>
    decreases k,
{
    if k <= 0 {
        Seq::empty()
    } else {
        let prev = crossings_upto(frames, k - 1);
        let j = k - 1;
        if is_crossing(frames[j].amplitude as int, frames[j + 1].amplitude as int) {
            prev.push(crossing_between(frames[j], frames[j + 1]))
        } else {
            prev
        }
    }
}

/// All crossings of a series of frames, in order.
pub open spec fn crossings(frames: Seq<NormalizedFrame>) -> Seq<Crossing> {
    if frames.len() == 0 {
        Seq::empty()
    } else {
        crossings_upto(frames, frames.len() - 1)
    }
}

/// The crossing lies on the segment between its frames, and the amplitude
/// interpolated linearly along that segment is zero there: with
/// `x = offset / span`, `a1 + (a2 - a1) * x == 0`.
pub proof fn lemma_crossing_interpolates(f1: NormalizedFrame, f2: NormalizedFrame, scale: int)
    requires
        0 < scale <= MAX_SCALE,
        amplitude_in_range(f1.amplitude as int, scale),
        amplitude_in_range(f2.amplitude as int, scale),
        is_crossing(f1.amplitude as int, f2.amplitude as int),
    ensures
        ({
            let c = crossing_between(f1, f2);
            &&& 0 <= c.offset <= c.span
            &&& c.span > 0
            &&& c.before == f1.time
            &&& f1.amplitude != 0 ==> c.after == f2.time
            &&& f1.amplitude as int * c.span as int + (f2.amplitude as int - f1.amplitude as int)
                * c.offset as int == 0
        }),
{
    let a1 = f1.amplitude as int;
    let a2 = f2.amplitude as int;
    let c = crossing_between(f1, f2);
    if a1 != 0 {
        assert(c.offset as int == abs(a1));
        assert(c.span as int == abs(a1) + abs(a2));
        if a1 < 0 {
            assert(a2 >= 0);
            assert(a1 * (-a1 + a2) + (a2 - a1) * (-a1) == 0) by (nonlinear_arith);
        } else {
            assert(a2 <= 0);
            assert(a1 * (a1 - a2) + (a2 - a1) * a1 == 0) by (nonlinear_arith);
        }
    }
}

fn abs_amplitude(a: i128) -> (r: i128)
    requires
        a > i128::MIN,
    ensures
        r == abs(a as int),
{
    if a < 0 {
        -a
    } else {
        a
    }
}

/// The zero crossings of a normalised series, one per adjacent pair of frames
/// that brackets a zero, in order.
pub fn gather_zero_crossings(series: &NormalizedSeries) -> (r: Vec<Crossing>)
    requires
        series.wf(),
    ensures
        r@ == crossings(series.frames@),
{
    let frames = &series.frames;
    let n = frames.len();
    let mut r: Vec<Crossing> = Vec::new();
    if n == 0 {
        return r;
    }
    let mut j: usize = 0;
    while j + 1 < n
        invariant
            j + 1 <= n,
            n == frames@.len(),
            series.wf(),
            frames == &series.frames,
            r@ == crossings_upto(frames@, j as int),
        decreases n - j,
    {
        let f1 = frames[j];
        let f2 = frames[j + 1];
        let a1 = f1.amplitude;
        let a2 = f2.amplitude;
        proof {
            assert(amplitude_in_range(frames@[j as int].amplitude as int, series.scale as int));
            assert(amplitude_in_range(frames@[j + 1].amplitude as int, series.scale as int));
        }
        if a2 == 0 || (a1 <= 0 && 0 < a2) || (a1 >= 0 && 0 > a2) {
            let c = if a1 == 0 {
                Crossing { before: f1.time, after: f1.time, offset: 0, span: 1 }
            } else {
                let m1 = abs_amplitude(a1);
                let m2 = abs_amplitude(a2);
                Crossing { before: f1.time, after: f2.time, offset: m1, span: m1 + m2 }
            };
            r.push(c);
        }
        j = j + 1;
    }
    r
}

} // verus!
