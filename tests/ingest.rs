use waveform::data_types::WaveError;
use waveform::number::parse_u64;
use waveform::parser::{
    is_empty, parse_csv_line, parse_csv_text, parse_wave_data, process_line, split_line,
};
use waveform::text::{chars_of, white_space};

fn chars(s: &str) -> Vec<char> {
    s.chars().collect()
}

#[test]
fn verify_successful_csv_reading() {
    let text = "1554451200000,10\n1554454800000,25\n1554458400000,25\n1554462000000,22\n";
    assert_eq!(
        parse_csv_text(text).unwrap(),
        vec!(
            (1554451200000, 10),
            (1554454800000, 25),
            (1554458400000, 25),
            (1554462000000, 22)
        )
    );
}

#[test]
fn verify_bad_line_errors() {
    let text = "1554451200000,10\n1554454800000\n1554458400000,25\n";
    assert!(parse_csv_text(text).is_err());
}

#[test]
fn verify_bad_data_errors() {
    let text = "1554451200000,10\n1554454800000,2x5\n1554458400000,25\n";
    assert!(parse_csv_text(text).is_err());
}

#[test]
fn single_field_line_is_malformed_line() {
    assert_eq!(parse_csv_line(&chars("1554451200000")), Err(WaveError::MalformedLine));
    assert_eq!(parse_csv_text("1554451200000\n"), Err(WaveError::MalformedLine));
}

#[test]
fn non_numeric_amplitude_is_malformed_value() {
    assert_eq!(parse_csv_line(&chars("1000,abc")), Err(WaveError::MalformedValue));
    assert_eq!(parse_csv_line(&chars("abc,1000")), Err(WaveError::MalformedValue));
    assert_eq!(parse_csv_line(&chars("1000,")), Err(WaveError::MalformedValue));
    assert_eq!(parse_csv_line(&chars("1000, 5")), Err(WaveError::MalformedValue));
}

#[test]
fn first_error_discards_earlier_frames() {
    assert_eq!(parse_csv_text("1,2\nbad\n3,4\n"), Err(WaveError::MalformedLine));
    assert_eq!(parse_csv_text("1,2\n3,x\n"), Err(WaveError::MalformedValue));
    assert_eq!(parse_csv_text("1,2\n3,x\nfour\n"), Err(WaveError::MalformedValue));
    assert_eq!(parse_csv_text("1,2\nfour\n3,x\n"), Err(WaveError::MalformedLine));
}

#[test]
fn blank_lines_are_ignored() {
    let plain = parse_csv_text("1,5\n2,7\n");
    let spaced = parse_csv_text("\n1,5\n   \n\t\n2,7\n\n");
    assert_eq!(plain, Ok(vec![(1, 5), (2, 7)]));
    assert_eq!(spaced, plain);
}

#[test]
fn empty_text_has_no_frames() {
    assert_eq!(parse_csv_text(""), Ok(vec![]));
    assert_eq!(parse_csv_text(" \n\n"), Ok(vec![]));
}

#[test]
fn crlf_line_endings_are_accepted() {
    assert_eq!(parse_csv_text("1,5\r\n2,7\r\n"), Ok(vec![(1, 5), (2, 7)]));
}

#[test]
fn last_line_without_newline_is_read() {
    assert_eq!(parse_csv_text("1,5\n2,7"), Ok(vec![(1, 5), (2, 7)]));
}

#[test]
fn trailing_fields_are_ignored() {
    assert_eq!(parse_csv_line(&chars("1,2,3")), Ok((1, 2)));
    assert_eq!(parse_csv_line(&chars("1,2,")), Ok((1, 2)));
}

#[test]
fn split_line_takes_first_two_fields() {
    let line = chars("12,34,56");
    let (a, b) = split_line(&line).unwrap();
    assert_eq!(a, &['1', '2'][..]);
    assert_eq!(b, &['3', '4'][..]);
    assert_eq!(split_line(&chars("1234")), Err(WaveError::MalformedLine));
}

#[test]
fn parse_wave_data_reads_both_fields() {
    let a = chars("42");
    let b = chars("+7");
    assert_eq!(parse_wave_data((&a[..], &b[..])), Ok((42, 7)));
    let c = chars("-7");
    assert_eq!(parse_wave_data((&a[..], &c[..])), Err(WaveError::MalformedValue));
}

#[test]
fn decimal_parse_edges() {
    assert_eq!(parse_u64(&chars("0")), Some(0));
    assert_eq!(parse_u64(&chars("+15")), Some(15));
    assert_eq!(parse_u64(&chars("18446744073709551615")), Some(u64::MAX));
    assert_eq!(parse_u64(&chars("18446744073709551616")), None);
    assert_eq!(parse_u64(&chars("")), None);
    assert_eq!(parse_u64(&chars("+")), None);
    assert_eq!(parse_u64(&chars(" 1")), None);
    assert_eq!(parse_u64(&chars("1a")), None);
}

#[test]
fn blank_line_detection() {
    assert!(is_empty(&chars("")));
    assert!(is_empty(&chars(" \t\r")));
    assert!(is_empty(&chars("\u{3000}\u{a0}")));
    assert!(!is_empty(&chars(" x ")));
    assert!(white_space('\u{2009}'));
    assert!(!white_space('_'));
}

#[test]
fn chars_of_keeps_every_character() {
    assert_eq!(chars_of("aé,1"), vec!['a', 'é', ',', '1']);
}

#[test]
fn process_line_folds_one_line() {
    let r = process_line(Ok(vec![(1, 2)]), "3,4");
    assert_eq!(r, Ok(vec![(1, 2), (3, 4)]));
    let r = process_line(Ok(vec![(1, 2)]), "   ");
    assert_eq!(r, Ok(vec![(1, 2)]));
    let r = process_line(Ok(vec![(1, 2)]), "3;4");
    assert_eq!(r, Err(WaveError::MalformedLine));
    let r = process_line(Err(WaveError::MalformedValue), "3,4");
    assert_eq!(r, Err(WaveError::MalformedValue));
}
