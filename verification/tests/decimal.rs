use modfetch::decimal::{append_decimal, append_digits, digit_of, format_i64, parse_i64, parse_i64_in};

#[test]
fn formats_zero_and_single_digits() {
    assert_eq!(format_i64(0), "0");
    assert_eq!(format_i64(7), "7");
    assert_eq!(format_i64(9), "9");
}

#[test]
fn formats_several_digits_without_leading_zeros() {
    assert_eq!(format_i64(10), "10");
    assert_eq!(format_i64(123), "123");
    assert_eq!(format_i64(294100), "294100");
    assert_eq!(format_i64(1000000007), "1000000007");
}

#[test]
fn formats_negative_numbers_with_a_minus_sign() {
    assert_eq!(format_i64(-1), "-1");
    assert_eq!(format_i64(-450), "-450");
}

#[test]
fn formats_the_extremes() {
    assert_eq!(format_i64(i64::MAX), "9223372036854775807");
    assert_eq!(format_i64(i64::MIN), "-9223372036854775808");
}

#[test]
fn formats_as_std_does() {
    let samples: [i64; 12] = [
        0,
        1,
        -1,
        9,
        10,
        99,
        100,
        -100,
        123456789,
        -987654321,
        i64::MAX - 1,
        i64::MIN + 1,
    ];
    for n in samples {
        assert_eq!(format_i64(n), n.to_string());
    }
}

#[test]
fn appends_to_what_is_there() {
    let mut out = String::from("id ");
    append_decimal(&mut out, -42);
    assert_eq!(out, "id -42");
    append_digits(&mut out, 0);
    assert_eq!(out, "id -420");
    append_digits(&mut out, u64::MAX);
    assert_eq!(out, "id -42018446744073709551615");
}

#[test]
fn reads_digits() {
    assert_eq!(digit_of('0'), Some(0));
    assert_eq!(digit_of('9'), Some(9));
    assert_eq!(digit_of('/'), None);
    assert_eq!(digit_of(':'), None);
    assert_eq!(digit_of('a'), None);
    assert_eq!(digit_of('\u{0663}'), None);
}

#[test]
fn parses_plain_numbers() {
    assert_eq!(parse_i64("0"), Some(0));
    assert_eq!(parse_i64("123"), Some(123));
    assert_eq!(parse_i64("0007"), Some(7));
}

#[test]
fn parses_signs() {
    assert_eq!(parse_i64("+5"), Some(5));
    assert_eq!(parse_i64("-5"), Some(-5));
    assert_eq!(parse_i64("-0"), Some(0));
}

#[test]
fn rejects_what_is_no_number() {
    assert_eq!(parse_i64(""), None);
    assert_eq!(parse_i64("+"), None);
    assert_eq!(parse_i64("-"), None);
    assert_eq!(parse_i64("12a"), None);
    assert_eq!(parse_i64("a12"), None);
    assert_eq!(parse_i64("1 2"), None);
    assert_eq!(parse_i64(" 12"), None);
    assert_eq!(parse_i64("12 "), None);
    assert_eq!(parse_i64("--1"), None);
    assert_eq!(parse_i64("+-1"), None);
    assert_eq!(parse_i64("1-"), None);
    assert_eq!(parse_i64("123&x=1"), None);
}

#[test]
fn parses_up_to_the_limits_and_not_beyond() {
    assert_eq!(parse_i64("9223372036854775807"), Some(i64::MAX));
    assert_eq!(parse_i64("9223372036854775808"), None);
    assert_eq!(parse_i64("-9223372036854775808"), Some(i64::MIN));
    assert_eq!(parse_i64("-9223372036854775809"), None);
    assert_eq!(parse_i64("99999999999999999999999999999999999999999999"), None);
    assert_eq!(parse_i64("-99999999999999999999999999999999999999999999"), None);
    assert_eq!(parse_i64("000000000000000000000000000009223372036854775807"), Some(i64::MAX));
}

#[test]
fn an_overflow_followed_by_a_letter_is_no_number() {
    assert_eq!(parse_i64("99999999999999999999x"), None);
}

#[test]
fn parses_as_std_does() {
    let samples = [
        "", "0", "+0", "-0", "1", "+1", "-1", "00", "1_000", "0x10", "９", "١٢", "12.0", "1e3",
        "9223372036854775807", "9223372036854775808", "-9223372036854775808",
        "-9223372036854775809", "+9223372036854775807", " 1", "1 ", "+", "-", "+-", "1+",
    ];
    for text in samples {
        assert_eq!(parse_i64(text), text.parse::<i64>().ok(), "{:?}", text);
    }
}

#[test]
fn parses_a_part_of_a_text() {
    let chars: Vec<char> = "x?id=-77&y".chars().collect();
    assert_eq!(parse_i64_in(&chars, 5, 8), Some(-77));
    assert_eq!(parse_i64_in(&chars, 6, 8), Some(77));
    assert_eq!(parse_i64_in(&chars, 5, 9), None);
    assert_eq!(parse_i64_in(&chars, 5, 5), None);
    assert_eq!(parse_i64_in(&chars, 5, 6), None);
}

#[test]
fn reading_what_was_written_gives_the_number_back() {
    let samples: [i64; 9] = [0, 1, -1, 42, -42, 294100, i64::MAX, i64::MIN, 1000000];
    for n in samples {
        assert_eq!(parse_i64(&format_i64(n)), Some(n));
    }
}
