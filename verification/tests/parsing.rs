use substcalc::Input;

fn record(a: bool, b: bool, c: bool, d: &str, e: i32, f: i32) -> Input {
    Input { a, b, c, d: String::from(d), e, f }
}

#[test]
fn input_can_be_parsed() {
    let input_str = "\nA: true\nB: true\nC: false\nD: 33.3\nE: 10\nF: 7\n";
    let expected_input = record(true, true, false, "33.3", 10, 7);

    let input = Input::from_str(input_str);
    assert_eq!(input, Some(expected_input));
}

#[test]
fn input_from_str_returns_none() {
    let input_str = "BAD STRING";

    let input = Input::from_str(input_str);
    assert_eq!(input, None);
}

#[test]
fn parse_accepts_lowercase_keys() {
    let input_str = "a: true\nb: false\nc: true\nd: -0.5\ne: -3\nf: 0\n";
    let expected_input = record(true, false, true, "-0.5", -3, 0);

    assert_eq!(Input::from_str(input_str), Some(expected_input));
}

#[test]
fn parse_tolerates_blank_lines_unknown_keys_and_spaces() {
    let input_str = "\nA:   true  \nnote: ignored\n\nB: true\nC: false\nD: 2.\nE: +4\nF: 7\n";
    let expected_input = record(true, true, false, "2.", 4, 7);

    assert_eq!(Input::from_str(input_str), Some(expected_input));
}

#[test]
fn parse_missing_key_fails() {
    let input_str = "A: true\nB: true\nC: false\nD: 33.3\nE: 10\n";

    assert_eq!(Input::from_str(input_str), None);
}

#[test]
fn parse_bad_boolean_fails() {
    let input_str = "A: maybe\nB: true\nC: false\nD: 33.3\nE: 10\nF: 7\n";

    assert_eq!(Input::from_str(input_str), None);
}

#[test]
fn parse_bad_integer_fails() {
    let input_str = "A: true\nB: true\nC: false\nD: 33.3\nE: 12.5\nF: 7\n";

    assert_eq!(Input::from_str(input_str), None);
}

#[test]
fn parse_integer_out_of_range_fails() {
    let input_str = "A: true\nB: true\nC: false\nD: 33.3\nE: 99999999999999999999\nF: 7\n";

    assert_eq!(Input::from_str(input_str), None);
}

#[test]
fn parse_integer_range_bounds() {
    let ok = "A: true\nB: true\nC: false\nD: 1\nE: -2147483648\nF: 2147483647\n";
    let expected_input = record(true, true, false, "1", i32::MIN, i32::MAX);
    assert_eq!(Input::from_str(ok), Some(expected_input));

    let too_small = "A: true\nB: true\nC: false\nD: 1\nE: -2147483649\nF: 7\n";
    assert_eq!(Input::from_str(too_small), None);
}

#[test]
fn parse_bad_float_fails() {
    let input_str = "A: true\nB: true\nC: false\nD: 3.3.3\nE: 10\nF: 7\n";

    assert_eq!(Input::from_str(input_str), None);
}

#[test]
fn parse_duplicate_key_fails() {
    let input_str = "A: true\nA: false\nB: true\nC: false\nD: 33.3\nE: 10\nF: 7\n";

    assert_eq!(Input::from_str(input_str), None);
}

#[test]
fn parse_empty_fails() {
    assert_eq!(Input::from_str(""), None);
}
