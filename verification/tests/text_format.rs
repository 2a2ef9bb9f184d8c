use fam_core_lib::text::{
    decimal_is_within, i64_to_text, parse_i32, push_amount_text, push_int_text,
};

fn amount(a: i64) -> String {
    let mut out = String::new();
    push_amount_text(&mut out, a);
    out
}

#[test]
fn integers_are_written_in_decimal() {
    assert_eq!(i64_to_text(0), "0");
    assert_eq!(i64_to_text(7), "7");
    assert_eq!(i64_to_text(10), "10");
    assert_eq!(i64_to_text(-5), "-5");
    assert_eq!(i64_to_text(1700000000), "1700000000");
    assert_eq!(i64_to_text(i64::MAX), "9223372036854775807");
    assert_eq!(i64_to_text(i64::MIN), "-9223372036854775808");
}

#[test]
fn integers_are_appended_to_what_is_there() {
    let mut out = String::from("id=");
    push_int_text(&mut out, -42);
    assert_eq!(out, "id=-42");
    push_int_text(&mut out, 170141183460469231731687303715884105727);
    assert_eq!(out, "id=-42170141183460469231731687303715884105727");
}

#[test]
fn amounts_keep_one_or_two_fraction_digits() {
    assert_eq!(amount(0), "0.0");
    assert_eq!(amount(100_000), "1000.0");
    assert_eq!(amount(10_050), "100.5");
    assert_eq!(amount(123_456), "1234.56");
    assert_eq!(amount(-20_000), "-200.0");
    assert_eq!(amount(5), "0.05");
    assert_eq!(amount(-5), "-0.05");
    assert_eq!(amount(10), "0.1");
    assert_eq!(amount(-2_030), "-20.3");
    assert_eq!(amount(101), "1.01");
    assert_eq!(amount(i64::MAX), "92233720368547758.07");
    assert_eq!(amount(i64::MIN), "-92233720368547758.08");
}

#[test]
fn amounts_read_as_the_numbers_they_stand_for() {
    for a in [0i64, 1, 9, 10, 99, 100, 101, 110, 12_345, -1, -10, -99, -100, -12_345, 160_000] {
        let text = amount(a);
        let value: f64 = text.parse().unwrap();
        assert_eq!(value, (a as f64) / 100.0, "{}", text);
    }
}

#[test]
fn version_text_is_read_like_a_rust_integer() {
    let cases = [
        "0",
        "7",
        "+7",
        "-7",
        "-0",
        "007",
        "",
        "+",
        "-",
        "abc",
        "7a",
        " 7",
        "7 ",
        "2147483647",
        "2147483648",
        "-2147483648",
        "-2147483649",
        "99999999999999999999999999",
        "0000000000000000000000000000012",
        "١٢",
        "７",
        "1.0",
        "--1",
    ];
    for case in cases {
        assert_eq!(parse_i32(case), case.parse::<i32>().ok(), "{:?}", case);
    }
    assert_eq!(parse_i32("7"), Some(7));
    assert_eq!(parse_i32("-2147483648"), Some(i32::MIN));
    assert_eq!(parse_i32("2147483648"), None);
    assert_eq!(parse_i32(""), None);
}

#[test]
fn written_integers_read_back() {
    for n in [0i32, 1, 7, 10, -1, -10, 12345, i32::MAX, i32::MIN] {
        assert_eq!(parse_i32(&i64_to_text(n as i64)), Some(n));
    }
}

#[test]
fn the_smallest_integer_is_written_too() {
    let mut out = String::new();
    push_int_text(&mut out, i128::MIN);
    assert_eq!(out, "-170141183460469231731687303715884105728");
    assert_eq!(out, i128::MIN.to_string());
}

#[test]
fn decimal_texts_are_held_to_a_bound() {
    assert!(decimal_is_within("0", 0));
    assert!(decimal_is_within("", 0));
    assert!(decimal_is_within("16777215", 16777215));
    assert!(!decimal_is_within("16777216", 16777215));
    assert!(!decimal_is_within("99999999999999999999999999999999", u32::MAX));
    assert!(decimal_is_within("4294967295", u32::MAX));
    assert!(!decimal_is_within("4294967296", u32::MAX));
    assert!(decimal_is_within("0004", 4));
    assert!(!decimal_is_within("0005", 4));
    assert!(decimal_is_within("5x", 4));
    assert!(decimal_is_within("99999999999x", 4));
    assert!(decimal_is_within("-1", 4));
    assert!(decimal_is_within("٩٩٩٩٩٩", 4));
}
