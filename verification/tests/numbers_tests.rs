use distributed_sort::numbers::{
    format_number, format_numbers, parse_line, parse_numbers, InvalidLine,
};

#[test]
fn format_number_writes_sign_and_digits() {
    assert_eq!(format_number(0), b"0".to_vec());
    assert_eq!(format_number(7), b"7".to_vec());
    assert_eq!(format_number(10), b"10".to_vec());
    assert_eq!(format_number(-1), b"-1".to_vec());
    assert_eq!(format_number(1203), b"1203".to_vec());
    assert_eq!(format_number(i64::MAX), b"9223372036854775807".to_vec());
    assert_eq!(format_number(i64::MIN), b"-9223372036854775808".to_vec());
}

#[test]
fn format_number_agrees_with_std() {
    for n in [0i64, 1, -1, 9, 10, 99, 100, -100, 123456789, -987654321, i64::MAX, i64::MIN] {
        assert_eq!(format_number(n), n.to_string().into_bytes());
    }
}

#[test]
fn format_numbers_writes_one_number_per_line() {
    assert_eq!(format_numbers(&vec![1, -2, 30]), b"1\n-2\n30\n".to_vec());
    assert_eq!(format_numbers(&vec![]), Vec::<u8>::new());
}

#[test]
fn parse_line_reads_signed_decimal() {
    assert_eq!(parse_line(b"42"), Some(42));
    assert_eq!(parse_line(b"+42"), Some(42));
    assert_eq!(parse_line(b"-42"), Some(-42));
    assert_eq!(parse_line(b"007"), Some(7));
    assert_eq!(parse_line(b"-0"), Some(0));
    assert_eq!(parse_line(b"9223372036854775807"), Some(i64::MAX));
    assert_eq!(parse_line(b"-9223372036854775808"), Some(i64::MIN));
}

#[test]
fn parse_line_refuses_what_is_no_number() {
    assert_eq!(parse_line(b""), None);
    assert_eq!(parse_line(b"+"), None);
    assert_eq!(parse_line(b"-"), None);
    assert_eq!(parse_line(b" 1"), None);
    assert_eq!(parse_line(b"1 "), None);
    assert_eq!(parse_line(b"1a"), None);
    assert_eq!(parse_line(b"--1"), None);
    assert_eq!(parse_line(b"1.0"), None);
    assert_eq!(parse_line(b"9223372036854775808"), None);
    assert_eq!(parse_line(b"-9223372036854775809"), None);
    assert_eq!(parse_line(b"99999999999999999999999999"), None);
}

#[test]
fn parse_line_agrees_with_std() {
    let samples = [
        "", "0", "-0", "+0", "1", "-1", "+1", "0001", "12x", "x12", "+-1", "-+1", "1_000",
        "9223372036854775806", "9223372036854775807", "9223372036854775808",
        "-9223372036854775807", "-9223372036854775808", "-9223372036854775809",
        "18446744073709551616", "00000000000000000000000000000000000012", "1\r", "\t1",
    ];
    for s in samples.iter() {
        assert_eq!(parse_line(s.as_bytes()), s.parse::<i64>().ok(), "line {:?}", s);
    }
}

#[test]
fn parse_numbers_reads_every_line() {
    let lines = vec![b"6".to_vec(), b"-5".to_vec(), b"+4".to_vec()];
    assert_eq!(parse_numbers(&lines), Ok(vec![6, -5, 4]));
    assert_eq!(parse_numbers(&vec![]), Ok(vec![]));
}

#[test]
fn parse_numbers_reports_first_invalid_line() {
    let lines = vec![b"6".to_vec(), b"five".to_vec(), b"4".to_vec(), b"".to_vec()];
    assert_eq!(parse_numbers(&lines), Err(InvalidLine { line: 1 }));
    let lines = vec![b"6".to_vec(), b"5".to_vec(), b"".to_vec()];
    assert_eq!(parse_numbers(&lines), Err(InvalidLine { line: 2 }));
}

#[test]
fn parse_reads_back_what_format_wrote() {
    let numbers = vec![0, -1, 1, i64::MIN, i64::MAX, 1234567890123];
    let text = format_numbers(&numbers);
    let lines: Vec<Vec<u8>> = text
        .split(|b| *b == b'\n')
        .take(numbers.len())
        .map(|line| line.to_vec())
        .collect();
    assert_eq!(parse_numbers(&lines), Ok(numbers));
}
