use vstd::prelude::*;
use vstd::slice::slice_subrange;

use crate::data_types::{raw_result_view, RawWaveDataResult, RawWaveFrame, WaveError};
use crate::number::{parse_u64, parse_u64_spec};
use crate::text::{chars_of, is_white_space, white_space};

verus! {

/// Index of the first `c` in `s` at or after `from`, or `s.len()` if there is none.
pub open spec fn find_from(s: Seq<char>, c: char, from: int) -> int
    decreases s.len() - from,
{
    if from < 0 || from >= s.len() {
        s.len() as int
    } else if s[from] == c {
        from
    } else {
        find_from(s, c, from + 1)
    }
}

/// A line holds only white space (or nothing at all).
pub open spec fn is_blank(line: Seq<char>) -> bool {
    forall|i: int| 0 <= i < line.len() ==> #[trigger] is_white_space(line[i])
}

/// The first two comma-separated fields of a line: the text before the first
/// comma, and the text between it and the next comma (or the end of the
/// line). `None` when the line has no comma.
pub open spec fn split_fields(line: Seq<char>) -> Option<(Seq<char>, Seq<char>)> {
    let p = find_from(line, ',', 0);
    if p >= line.len() {
        None
    } else {
        let q = find_from(line, ',', p + 1);
        Some((line.subrange(0, p), line.subrange(p + 1, q)))
    }
}

/// A frame from its two fields: both must be non-negative 64-bit integers.
pub open spec fn frame_of_fields(time: Seq<char>, amplitude: Seq<char>) -> Result<
    RawWaveFrame,
    WaveError,
> {
    match (parse_u64_spec(time), parse_u64_spec(amplitude)) {
        (Some(t), Some(a)) => Ok((t, a)),
        _ => Err(WaveError::MalformedValue),
    }
}

/// The frame that a non-blank line describes, or why it describes none.
pub open spec fn frame_of(line: Seq<char>) -> Result<RawWaveFrame, WaveError> {
    match split_fields(line) {
        None => Err(WaveError::MalformedLine),
        Some(fields) => frame_of_fields(fields.0, fields.1),
    }
}

/// One step of ingestion: blank lines leave the outcome as it is, an error
/// stays, and otherwise the line's frame is appended or its error replaces
/// the frames gathered so far.
pub open spec fn ingest_step(
    acc: Result<Seq<RawWaveFrame>, WaveError>,
    line: Seq<char>,
) -> Result<Seq<RawWaveFrame>, WaveError> {
    if is_blank(line) {
        acc
    } else {
        match acc {
            Err(e) => Err(e),
            Ok(frames) => match frame_of(line) {
                Ok(f) => Ok(frames.push(f)),
                Err(e) => Err(e),
            },
        }
    }
}

/// Ingestion of a sequence of lines, left to right, starting from `acc`.
pub open spec fn ingest_lines(
    acc: Result<Seq<RawWaveFrame>, WaveError>,
    lines: Seq<Seq<char>>,
) -> Result<Seq<RawWaveFrame>, WaveError>
    decreases lines.len(),
{
    if lines.len() == 0 {
        acc
    } else {
        ingest_lines(ingest_step(acc, lines[0]), lines.drop_first())
    }
}

/// A line without the carriage return of a `\r\n` line ending.
pub open spec fn line_body(piece: Seq<char>) -> Seq<char> {
    if piece.len() > 0 && piece.last() == '\r' {
        piece.drop_last()
    } else {
        piece
    }
}

/// The lines of `s` from position `start` on. Lines end at `\n`, which may
/// be preceded by `\r`; the text after the last `\n` is the final line.
pub open spec fn lines_from(s: Seq<char>, start: int) -> Seq<Seq<char>>
    decreases s.len() - start via lines_from_decreases
{
    if start < 0 || start > s.len() {
        Seq::empty()
    } else {
        let e = find_from(s, '\n', start);
        if e >= s.len() {
            seq![s.subrange(start, s.len() as int)]
        } else {
            seq![line_body(s.subrange(start, e))] + lines_from(s, e + 1)
        }
    }
}

#[via_fn]
proof fn lines_from_decreases(s: Seq<char>, start: int) {
    if 0 <= start <= s.len() {
        lemma_find_from_bounds(s, '\n', start);
    }
}

/// The lines of a text.
pub open spec fn text_lines(s: Seq<char>) -> Seq<Seq<char>> {
    lines_from(s, 0)
}

/// What ingesting a whole text yields: its frames in line order, or the error
/// of its first malformed non-blank line.
pub open spec fn ingest_text(s: Seq<char>) -> Result<Seq<RawWaveFrame>, WaveError> {
    ingest_lines(Ok(Seq::empty()), text_lines(s))
}

proof fn lemma_find_from_bounds(s: Seq<char>, c: char, from: int)
    requires
        0 <= from <= s.len(),
    ensures
        from <= find_from(s, c, from) <= s.len(),
    decreases s.len() - from,
{
    if from < s.len() && s[from] != c {
        lemma_find_from_bounds(s, c, from + 1);
    }
}

/// Once an error is reached, ingestion keeps it.
proof fn lemma_ingest_error_stays(e: WaveError, lines: Seq<Seq<char>>)
    ensures
        ingest_lines(Err(e), lines) == Err::<Seq<RawWaveFrame>, WaveError>(e),
    decreases lines.len(),
{
    if lines.len() > 0 {
        lemma_ingest_error_stays(e, lines.drop_first());
    }
}

proof fn lemma_ingest_first(
    acc: Result<Seq<RawWaveFrame>, WaveError>,
    line: Seq<char>,
    rest: Seq<Seq<char>>,
)
    ensures
        ingest_lines(acc, seq![line] + rest) == ingest_lines(ingest_step(acc, line), rest),
{
    let ls = seq![line] + rest;
    assert(ls.drop_first() =~= rest);
    assert(ls[0] == line);
}

proof fn lemma_find_from(s: Seq<char>, c: char, from: int, p: int)
    requires
        0 <= from <= p <= s.len(),
        forall|j: int| from <= j < p ==> s[j] != c,
        p == s.len() || s[p] == c,
    ensures
        find_from(s, c, from) == p,
    decreases p - from,
{
    if from < p {
        lemma_find_from(s, c, from + 1, p);
    }
}

/// Position of the first `c` in `s` at or after `from`, or `s.len()`.
fn find_char(s: &[char], c: char, from: usize) -> (r: usize)
    requires
        from <= s@.len(),
    ensures
        r as int == find_from(s@, c, from as int),
        from <= r <= s@.len(),
{
    let mut i: usize = from;
    while i < s.len() && s[i] != c
        invariant
            from <= i <= s@.len(),
            forall|j: int| from <= j < i ==> s@[j] != c,
        decreases s@.len() - i,
    {
        i = i + 1;
    }
    proof {
        lemma_find_from(s@, c, from as int, i as int);
    }
    i
}

/// Whether a line holds only white space.
pub fn is_empty(line: &[char]) -> (r: bool)
    ensures
        r == is_blank(line@),
{
    let mut i: usize = 0;
    while i < line.len()
        invariant
            i <= line@.len(),
            forall|j: int| 0 <= j < i ==> #[trigger] is_white_space(line@[j]),
        decreases line@.len() - i,
    {
        if !white_space(line[i]) {
            return false;
        }
        i = i + 1;
    }
    true
}

/// Splits a line into its first two comma-separated fields; further fields
/// are ignored. A line without a comma is a `MalformedLine`.
pub fn split_line(line: &[char]) -> (r: Result<(&[char], &[char]), WaveError>)
    ensures
        match r {
            Ok(fields) => split_fields(line@) == Some((fields.0@, fields.1@)),
            Err(e) => split_fields(line@) is None && e == WaveError::MalformedLine,
        },
{
    let p = find_char(line, ',', 0);
    if p >= line.len() {
        return Err(WaveError::MalformedLine);
    }
    let q = find_char(line, ',', p + 1);
    Ok((slice_subrange(line, 0, p), slice_subrange(line, p + 1, q)))
}

/// Parses the two fields of a line as a timestamp and an amplitude.
pub fn parse_wave_data(fields: (&[char], &[char])) -> (r: Result<RawWaveFrame, WaveError>)
    ensures
        r == frame_of_fields(fields.0@, fields.1@),
{
    let time = parse_u64(fields.0);
    let amplitude = parse_u64(fields.1);
    match (time, amplitude) {
        (Some(t), Some(a)) => Ok((t, a)),
        _ => Err(WaveError::MalformedValue),
    }
}

/// Parses one non-blank line into a frame.
pub fn parse_csv_line(line: &[char]) -> (r: Result<RawWaveFrame, WaveError>)
    ensures
        r == frame_of(line@),
{
    match split_line(line) {
        Ok(fields) => parse_wave_data(fields),
        Err(e) => Err(e),
    }
}

/// Folds one line, given as characters, into an ingestion outcome.
fn ingest_line(res: RawWaveDataResult, line: &[char]) -> (r: RawWaveDataResult)
    ensures
        raw_result_view(r) == ingest_step(raw_result_view(res), line@),
{
    if is_empty(line) {
        return res;
    }
    match res {
        Err(e) => Err(e),
        Ok(mut frames) => match parse_csv_line(line) {
            Ok(f) => {
                frames.push(f);
                Ok(frames)
            },
            Err(e) => Err(e),
        },
    }
}

/// Folds one line into an ingestion outcome: blank lines are skipped, an
/// earlier error is kept, and otherwise the line's frame is appended or its
/// error is returned in place of the frames.
pub fn process_line(res: RawWaveDataResult, line: &str) -> (r: RawWaveDataResult)
    ensures
        raw_result_view(r) == ingest_step(raw_result_view(res), line@),
{
    let chars = chars_of(line);
    ingest_line(res, chars.as_slice())
}

/// The non-blank lines among `lines`, in order.
pub open spec fn nonblank(lines: Seq<Seq<char>>) -> Seq<Seq<char>>
    decreases lines.len(),
{
    if lines.len() == 0 {
        lines
    } else if is_blank(lines[0]) {
        nonblank(lines.drop_first())
    } else {
        seq![lines[0]] + nonblank(lines.drop_first())
    }
}

/// Every line among `lines` holds a frame.
pub open spec fn all_frames(lines: Seq<Seq<char>>) -> bool {
    forall|i: int| 0 <= i < lines.len() ==> #[trigger] frame_of(lines[i]) is Ok
}

/// The frames that `lines` hold, in order.
pub open spec fn frames_of(lines: Seq<Seq<char>>) -> Seq<RawWaveFrame> {
    lines.map_values(|l: Seq<char>| frame_of(l)->Ok_0)
}

proof fn lemma_nonblank_has_no_blank(lines: Seq<Seq<char>>)
    ensures
        forall|i: int| 0 <= i < nonblank(lines).len() ==> !is_blank(#[trigger] nonblank(lines)[i]),
    decreases lines.len(),
{
    if lines.len() > 0 {
        lemma_nonblank_has_no_blank(lines.drop_first());
        let rest = nonblank(lines.drop_first());
        if !is_blank(lines[0]) {
            assert forall|i: int| 0 <= i < nonblank(lines).len() implies !is_blank(
                #[trigger] nonblank(lines)[i],
            ) by {
                if i > 0 {
                    assert(nonblank(lines)[i] == rest[i - 1]);
                }
            }
        }
    }
}

/// Blank lines never change the outcome of ingestion.
pub proof fn lemma_blank_lines_skipped(
    acc: Result<Seq<RawWaveFrame>, WaveError>,
    lines: Seq<Seq<char>>,
)
    ensures
        ingest_lines(acc, lines) == ingest_lines(acc, nonblank(lines)),
    decreases lines.len(),
{
    if lines.len() > 0 {
        let rest = lines.drop_first();
        lemma_blank_lines_skipped(ingest_step(acc, lines[0]), rest);
        if !is_blank(lines[0]) {
            lemma_ingest_first(acc, lines[0], nonblank(rest));
        }
    }
}

proof fn lemma_ingest_nonblank(v: Seq<RawWaveFrame>, lines: Seq<Seq<char>>)
    requires
        forall|i: int| 0 <= i < lines.len() ==> !is_blank(#[trigger] lines[i]),
    ensures
        all_frames(lines) ==> ingest_lines(Ok(v), lines) == Ok::<Seq<RawWaveFrame>, WaveError>(
            v + frames_of(lines),
        ),
        forall|k: int|
            0 <= k < lines.len() && all_frames(lines.take(k)) && #[trigger] frame_of(lines[k]) is Err
                ==> ingest_lines(Ok(v), lines) == Err::<Seq<RawWaveFrame>, WaveError>(
                frame_of(lines[k])->Err_0,
            ),
    decreases lines.len(),
{
    if lines.len() == 0 {
        assert(v + frames_of(lines) =~= v);
    } else {
        let rest = lines.drop_first();
        assert forall|i: int| 0 <= i < rest.len() implies !is_blank(#[trigger] rest[i]) by {
            assert(rest[i] == lines[i + 1]);
        }
        assert(!is_blank(lines[0]));
        match frame_of(lines[0]) {
            Ok(f) => {
                lemma_ingest_nonblank(v.push(f), rest);
                if all_frames(lines) {
                    assert forall|i: int| 0 <= i < rest.len() implies #[trigger] frame_of(rest[i]) is Ok by {
                        assert(rest[i] == lines[i + 1]);
                    }
                    assert(v.push(f) + frames_of(rest) =~= v + frames_of(lines));
                }
                assert forall|k: int|
                    0 <= k < lines.len() && all_frames(lines.take(k)) && #[trigger] frame_of(lines[k]) is Err
                    implies ingest_lines(Ok(v), lines) == Err::<Seq<RawWaveFrame>, WaveError>(
                    frame_of(lines[k])->Err_0,
                ) by {
                    assert(k > 0);
                    assert(rest[k - 1] == lines[k]);
                    assert forall|i: int| 0 <= i < rest.take(k - 1).len() implies #[trigger] frame_of(rest.take(k - 1)[i]) is Ok by {
                        assert(rest.take(k - 1)[i] == lines.take(k)[i + 1]);
                    }
                }
            },
            Err(e) => {
                lemma_ingest_error_stays(e, rest);
                assert forall|k: int|
                    0 <= k < lines.len() && all_frames(lines.take(k)) && #[trigger] frame_of(lines[k]) is Err
                    implies ingest_lines(Ok(v), lines) == Err::<Seq<RawWaveFrame>, WaveError>(
                    frame_of(lines[k])->Err_0,
                ) by {
                    if k > 0 {
                        assert(lines.take(k)[0] == lines[0]);
                    }
                }
            },
        }
    }
}

/// A text whose non-blank lines all hold frames ingests to those frames, one
/// per non-blank line, in line order.
pub proof fn lemma_frames_follow_lines(text: Seq<char>)
    requires
        all_frames(nonblank(text_lines(text))),
    ensures
        ingest_text(text) == Ok::<Seq<RawWaveFrame>, WaveError>(frames_of(nonblank(text_lines(text)))),
        frames_of(nonblank(text_lines(text))).len() == nonblank(text_lines(text)).len(),
{
    let nb = nonblank(text_lines(text));
    lemma_blank_lines_skipped(Ok(Seq::empty()), text_lines(text));
    lemma_nonblank_has_no_blank(text_lines(text));
    lemma_ingest_nonblank(Seq::empty(), nb);
    assert(Seq::<RawWaveFrame>::empty() + frames_of(nb) =~= frames_of(nb));
}

/// The first non-blank line that holds no frame ends ingestion: the outcome
/// is that line's error, and no frame of the lines before it is returned.
pub proof fn lemma_first_error_wins(text: Seq<char>, k: int)
    requires
        0 <= k < nonblank(text_lines(text)).len(),
        all_frames(nonblank(text_lines(text)).take(k)),
        frame_of(nonblank(text_lines(text))[k]) is Err,
    ensures
        ingest_text(text) == Err::<Seq<RawWaveFrame>, WaveError>(
            frame_of(nonblank(text_lines(text))[k])->Err_0,
        ),
{
    let nb = nonblank(text_lines(text));
    lemma_blank_lines_skipped(Ok(Seq::empty()), text_lines(text));
    lemma_nonblank_has_no_blank(text_lines(text));
    lemma_ingest_nonblank(Seq::empty(), nb);
}

/// Two texts with the same non-blank lines, in the same order, ingest alike:
/// blank lines placed among them change nothing.
pub proof fn lemma_blank_lines_ignored(a: Seq<char>, b: Seq<char>)
    requires
        nonblank(text_lines(a)) == nonblank(text_lines(b)),
    ensures
        ingest_text(a) == ingest_text(b),
{
    lemma_blank_lines_skipped(Ok(Seq::empty()), text_lines(a));
    lemma_blank_lines_skipped(Ok(Seq::empty()), text_lines(b));
}

/// A line without a comma holds one field only: it is a `MalformedLine`.
pub proof fn lemma_single_field_line(line: Seq<char>)
    requires
        forall|i: int| 0 <= i < line.len() ==> line[i] != ',',
    ensures
        frame_of(line) == Err::<RawWaveFrame, WaveError>(WaveError::MalformedLine),
{
    lemma_find_from(line, ',', 0, line.len() as int);
}

/// Ingests a whole text: every non-blank line, in order, must hold a frame;
/// the first line that does not ends ingestion with its error.
pub fn parse_csv_text(text: &str) -> (r: RawWaveDataResult)
    ensures
        raw_result_view(r) == ingest_text(text@),
{
    let chars = chars_of(text);
    let s = chars.as_slice();
    let mut acc: RawWaveDataResult = Ok(Vec::new());
    let mut start: usize = 0;
    proof {
        assert(raw_result_view(acc) == Ok::<Seq<RawWaveFrame>, WaveError>(Seq::empty()));
    }
    loop
        invariant_except_break
            ingest_text(s@) == ingest_lines(raw_result_view(acc), lines_from(s@, start as int)),
        invariant
            start <= s@.len(),
            s@ == text@,
        ensures
            raw_result_view(acc) == ingest_text(s@),
        decreases s@.len() - start,
    {
        if let Err(e) = acc {
            proof {
                lemma_ingest_error_stays(e, lines_from(s@, start as int));
            }
            break;
        }
        let e = find_char(s, '\n', start);
        if e >= s.len() {
            let ghost before = raw_result_view(acc);
            let line = slice_subrange(s, start, s.len());
            acc = ingest_line(acc, line);
            proof {
                lemma_ingest_first(before, line@, Seq::empty());
                assert(seq![line@] + Seq::<Seq<char>>::empty() =~= seq![line@]);
            }
            break;
        }
        let mut end = e;
        if end > start && s[end - 1] == '\r' {
            end = end - 1;
        }
        let ghost before = raw_result_view(acc);
        let line = slice_subrange(s, start, end);
        proof {
            assert(line@ =~= line_body(s@.subrange(start as int, e as int)));
            lemma_ingest_first(before, line@, lines_from(s@, e + 1));
        }
        acc = ingest_line(acc, line);
        start = e + 1;
    }
    acc
}

} // verus!
