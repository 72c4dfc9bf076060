//! Ingests a waveform written as `timestamp,amplitude` lines, rescales it,
//! and finds where its amplitude crosses zero.
//!
//! Normalised values are exact rationals: a frame's time is its offset in
//! milliseconds from the first sample, and its amplitude is a numerator over
//! the series' common positive denominator, within `[-1/2, 1/2]`.
use vstd::prelude::*;

pub mod crossing;
pub mod data_types;
pub mod normalize;
pub mod number;
pub mod parser;
pub mod text;

use crate::data_types::{NormalizedSeries, WaveError};
use crate::normalize::{normal_frame, normalise_values, normalizes};
use crate::parser::{
    all_frames, frame_of, ingest_text, lemma_frames_follow_lines, nonblank, parse_csv_text, text_lines,
};

verus! {

/// What loading a text yields: the error of its first malformed non-blank
/// line, `EmptyInput` when it holds no frame, and otherwise the normalisation
/// of its frames.
pub open spec fn loads_to(text: Seq<char>, r: Result<NormalizedSeries, WaveError>) -> bool {
    match ingest_text(text) {
        Err(e) => r == Err::<NormalizedSeries, WaveError>(e),
        Ok(raw) => if raw.len() == 0 {
            r == Err::<NormalizedSeries, WaveError>(WaveError::EmptyInput)
        } else {
            r matches Ok(series) && normalizes(raw, series) && series.wf()
        },
    }
}

/// Ingests a text and normalises its frames.
pub fn load_csv_text(text: &str) -> (r: Result<NormalizedSeries, WaveError>)
    ensures
        loads_to(text@, r),
{
    match parse_csv_text(text) {
        Err(e) => Err(e),
        Ok(raw) => normalise_values(&raw),
    }
}

/// A text whose non-blank lines all hold frames loads to one normalised frame
/// per non-blank line, each the rescaling of that line's frame, in line order.
pub proof fn lemma_load_keeps_lines(text: Seq<char>, r: Result<NormalizedSeries, WaveError>)
    requires
        loads_to(text, r),
        all_frames(nonblank(text_lines(text))),
        r is Ok,
    ensures
        ({
            let lines = nonblank(text_lines(text));
            let raw = ingest_text(text)->Ok_0;
            &&& r->Ok_0.frames@.len() == lines.len()
            &&& forall|i: int|
                0 <= i < lines.len() ==> #[trigger] r->Ok_0.frames@[i] == normal_frame(
                    raw,
                    frame_of(lines[i])->Ok_0,
                )
        }),
{
    lemma_frames_follow_lines(text);
}

} // verus!
