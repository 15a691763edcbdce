use exposure_bracketing::rational::ExposureValue;
use exposure_bracketing::sequence::{format_exposure_sequence, parse_exposure_sequence};

fn ev(n: i32, d: i32) -> ExposureValue {
    ExposureValue::new(n, d).unwrap()
}

fn parts(values: &[ExposureValue]) -> Vec<(i32, i32)> {
    values.iter().map(|v| (v.numer(), v.denom())).collect()
}

#[test]
fn parses_fractions_and_integers() {
    let values = parse_exposure_sequence("0/10, -10/10, 3, 1/2");
    assert_eq!(parts(&values), vec![(0, 1), (-1, 1), (3, 1), (1, 2)]);
}

#[test]
fn keeps_order_and_duplicates() {
    let values = parse_exposure_sequence("5,5,1/3,5");
    assert_eq!(parts(&values), vec![(5, 1), (5, 1), (1, 3), (5, 1)]);
}

#[test]
fn trims_whitespace_round_a_token() {
    let values = parse_exposure_sequence(" \t7 ,\n-3/4\u{a0},\u{3000}2/6");
    assert_eq!(parts(&values), vec![(7, 1), (-3, 4), (1, 3)]);
}

#[test]
fn drops_tokens_without_a_value() {
    let values = parse_exposure_sequence("1/0, abc, 1 / 2, 1/2/3, , 7, +5/-10, 1.5, /2, 3/");
    assert_eq!(parts(&values), vec![(7, 1), (-1, 2)]);
}

#[test]
fn empty_text_has_no_value() {
    assert!(parse_exposure_sequence("").is_empty());
    assert!(parse_exposure_sequence(" , ,").is_empty());
}

#[test]
fn signs_and_leading_zeros_are_read() {
    let values = parse_exposure_sequence("+4, -0, 007, -08/016, +, -, --1");
    assert_eq!(parts(&values), vec![(4, 1), (0, 1), (7, 1), (-1, 2)]);
}

#[test]
fn integers_beyond_32_bits_are_dropped() {
    let values = parse_exposure_sequence(
        "2147483647, -2147483648, 2147483648, -2147483649, 99999999999999999999, 1/2147483648",
    );
    assert_eq!(parts(&values), vec![(2147483647, 1), (-2147483648, 1)]);
}

#[test]
fn fractions_whose_lowest_terms_do_not_fit_are_dropped() {
    let values = parse_exposure_sequence(
        "-2147483648/-1, 3/-2147483648, -2147483648/-2, 2/-2147483648, -2147483648/-2147483648",
    );
    assert_eq!(parts(&values), vec![(1073741824, 1), (-1, 1073741824), (1, 1)]);
}

#[test]
fn writes_values_with_comma_and_space() {
    let values = vec![ev(0, 10), ev(-10, 10), ev(3, 2)];
    assert_eq!(format_exposure_sequence(&values), "0/1, -1/1, 3/2");
    assert_eq!(format_exposure_sequence(&Vec::new()), "");
    assert_eq!(format_exposure_sequence(&vec![ev(-7, 14)]), "-1/2");
}

#[test]
fn written_sequence_is_read_back() {
    let values = parse_exposure_sequence(" 0/10 ,\t-10/10,10/10, x, 15/10, -2147483648, 7/2147483647");
    let text = format_exposure_sequence(&values);
    assert_eq!(text, "0/1, -1/1, 1/1, 3/2, -2147483648/1, 7/2147483647");
    let again = parse_exposure_sequence(&text);
    assert_eq!(again, values);
    assert_eq!(parts(&again), parts(&values));
    assert_eq!(format_exposure_sequence(&again), text);
}
