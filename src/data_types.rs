use vstd::prelude::*;

verus! {

/// One unprocessed sample: `(timestamp, amplitude)`.
pub type RawWaveFrame = (u64, u64);

/// A series of unprocessed samples, in file line order.
pub type RawWaveData = Vec<RawWaveFrame>;

/// Why ingestion or normalisation failed.
#[derive(Debug, Clone, Copy, PartialEq, Eq, Structural)]
pub enum WaveError {
    /// A non-blank line does not hold two comma-separated fields.
    MalformedLine,
    /// A field does not parse as a non-negative 64-bit integer.
    MalformedValue,
    /// There is no frame to normalise.
    EmptyInput,
}

/// The outcome of ingesting lines: every frame, or the first error.
pub type RawWaveDataResult = Result<RawWaveData, WaveError>;

/// The mathematical value of an ingestion outcome.
pub open spec fn raw_result_view(r: RawWaveDataResult) -> Result<Seq<RawWaveFrame>, WaveError> {
    match r {
        Ok(v) => Ok(v@),
        Err(e) => Err(e),
    }
}

/// One rescaled sample. `time` is the offset in milliseconds from the first
/// sample; the amplitude is the exact rational `amplitude / scale`, where
/// `scale` belongs to the series that holds the frame.
#[derive(Debug, Clone, Copy, PartialEq, Eq, Structural)]
pub struct NormalizedFrame {
    pub time: i128,
    pub amplitude: i128,
}

/// A rescaled series: frame amplitudes are numerators over the common,
/// positive denominator `scale`.
#[derive(Debug)]
pub struct NormalizedSeries {
    pub frames: Vec<NormalizedFrame>,
    pub scale: i128,
}

/// Largest denominator a series may carry: twice the widest amplitude range.
pub const MAX_SCALE: i128 = 36893488147419103230;

impl NormalizedSeries {
    /// The denominator is positive and bounded, and every amplitude lies in
    /// the closed interval `[-1/2, 1/2]`.
    pub open spec fn wf(&self) -> bool {
        &&& 0 < self.scale <= MAX_SCALE
        &&& forall|i: int| 0 <= i < self.frames@.len() ==> #[trigger] amplitude_in_range(self.frames@[i].amplitude as int, self.scale as int)
    }
}

/// `num / scale` lies within `[-1/2, 1/2]`.
pub open spec fn amplitude_in_range(num: int, scale: int) -> bool {
    -scale <= 2 * num <= scale
}

/// A zero-amplitude event between two adjacent frames. The crossing time is
/// `before + (after - before) * offset / span`, with `0 <= offset <= span`
/// and `span > 0`.
#[derive(Debug, Clone, Copy, PartialEq, Eq, Structural)]
pub struct Crossing {
    pub before: i128,
    pub after: i128,
    pub offset: i128,
    pub span: i128,
}

} // verus!
