use route_dispatch::text::{
    append_signed, append_unsigned, chars_of, eq_ignoring_case, find, read_signed, read_unsigned,
    same_text, slice_of, split,
};

#[test]
fn split_keeps_the_pieces_that_are_not_empty() {
    assert_eq!(split("/a//b/", '/'), vec!["a".to_string(), "b".to_string()]);
    assert_eq!(split("", '/'), Vec::<String>::new());
    assert_eq!(split("///", '/'), Vec::<String>::new());
    assert_eq!(split("abc", '/'), vec!["abc".to_string()]);
    assert_eq!(split("x=1&y=2", '&'), vec!["x=1".to_string(), "y=2".to_string()]);
}

#[test]
fn split_counts_characters_not_bytes() {
    assert_eq!(split("/中文/é", '/'), vec!["中文".to_string(), "é".to_string()]);
}

#[test]
fn find_gives_the_first_position_or_the_length() {
    assert_eq!(find(&chars_of("a=b=c"), '='), 1);
    assert_eq!(find(&chars_of("abc"), '='), 3);
    assert_eq!(find(&chars_of(""), '='), 0);
}

#[test]
fn slice_of_copies_a_range_of_characters() {
    assert_eq!(slice_of("héllo", 1, 3), "él");
    assert_eq!(slice_of("héllo", 2, 2), "");
}

#[test]
fn read_unsigned_reads_digits_with_an_optional_plus() {
    assert_eq!(read_unsigned("0", 255), Some(0));
    assert_eq!(read_unsigned("255", 255), Some(255));
    assert_eq!(read_unsigned("+7", 255), Some(7));
    assert_eq!(read_unsigned("007", 255), Some(7));
    assert_eq!(read_unsigned("18446744073709551615", u64::MAX), Some(u64::MAX));
}

#[test]
fn read_unsigned_rejects_what_is_no_number_in_range() {
    assert_eq!(read_unsigned("256", 255), None);
    assert_eq!(read_unsigned("18446744073709551616", u64::MAX), None);
    assert_eq!(read_unsigned("", 255), None);
    assert_eq!(read_unsigned("+", 255), None);
    assert_eq!(read_unsigned("-1", 255), None);
    assert_eq!(read_unsigned("1 ", 255), None);
    assert_eq!(read_unsigned("1_0", 255), None);
    assert_eq!(read_unsigned("12a", 255), None);
    assert_eq!(read_unsigned("٣", 255), None);
}

#[test]
fn read_signed_reads_both_signs_and_both_bounds() {
    assert_eq!(read_signed("-128", -128, 127), Some(-128));
    assert_eq!(read_signed("127", -128, 127), Some(127));
    assert_eq!(read_signed("+5", -128, 127), Some(5));
    assert_eq!(read_signed("-0", -128, 127), Some(0));
    assert_eq!(read_signed("-9223372036854775808", i64::MIN, i64::MAX), Some(i64::MIN));
    assert_eq!(read_signed("9223372036854775807", i64::MIN, i64::MAX), Some(i64::MAX));
}

#[test]
fn read_signed_rejects_what_is_no_number_in_range() {
    assert_eq!(read_signed("-129", -128, 127), None);
    assert_eq!(read_signed("128", -128, 127), None);
    assert_eq!(read_signed("-9223372036854775809", i64::MIN, i64::MAX), None);
    assert_eq!(read_signed("9223372036854775808", i64::MIN, i64::MAX), None);
    assert_eq!(read_signed("-", -128, 127), None);
    assert_eq!(read_signed("--1", -128, 127), None);
    assert_eq!(read_signed("+-1", -128, 127), None);
    assert_eq!(read_signed("abc", -128, 127), None);
}

#[test]
fn append_unsigned_writes_decimal_digits() {
    let mut out = String::from("n=");
    append_unsigned(&mut out, 0);
    out.push(',');
    append_unsigned(&mut out, 1203);
    out.push(',');
    append_unsigned(&mut out, u64::MAX);
    assert_eq!(out, "n=0,1203,18446744073709551615");
}

#[test]
fn append_signed_writes_the_sign_of_a_negative_number() {
    let mut out = String::new();
    append_signed(&mut out, -45);
    out.push(' ');
    append_signed(&mut out, 45);
    out.push(' ');
    append_signed(&mut out, i64::MIN);
    assert_eq!(out, "-45 45 -9223372036854775808");
}

#[test]
fn written_numbers_read_back() {
    for n in [0u64, 9, 10, 99, 100, 65535, u64::MAX] {
        let mut out = String::new();
        append_unsigned(&mut out, n);
        assert_eq!(out, n.to_string());
        assert_eq!(read_unsigned(&out, u64::MAX), Some(n));
    }
    for v in [i64::MIN, -1, 0, 1, i64::MAX] {
        let mut out = String::new();
        append_signed(&mut out, v);
        assert_eq!(out, v.to_string());
        assert_eq!(read_signed(&out, i64::MIN, i64::MAX), Some(v));
    }
}

#[test]
fn eq_ignoring_case_folds_ascii_letters_only() {
    assert!(eq_ignoring_case("Authorization", "authorization"));
    assert!(eq_ignoring_case("X-API-Key", "x-api-key"));
    assert!(!eq_ignoring_case("Authorization", "Authorisation"));
    assert!(!eq_ignoring_case("abc", "abcd"));
    assert!(!eq_ignoring_case("É", "é"));
    assert!(!eq_ignoring_case("[", "{"));
}

#[test]
fn same_text_compares_exactly() {
    assert!(same_text("abc", "abc"));
    assert!(!same_text("abc", "Abc"));
    assert!(!same_text("abc", "ab"));
    assert!(same_text("", ""));
}

#[test]
fn read_signed_takes_ranges_that_leave_zero_out() {
    assert_eq!(read_signed("5", 1, 10), Some(5));
    assert_eq!(read_signed("+10", 1, 10), Some(10));
    assert_eq!(read_signed("0", 1, 10), None);
    assert_eq!(read_signed("-0", 1, 10), None);
    assert_eq!(read_signed("-5", 1, 10), None);
    assert_eq!(read_signed("11", 1, 10), None);
    assert_eq!(read_signed("-5", -10, -1), Some(-5));
    assert_eq!(read_signed("-10", -10, -1), Some(-10));
    assert_eq!(read_signed("0", -10, -1), None);
    assert_eq!(read_signed("5", -10, -1), None);
    assert_eq!(read_signed("-11", -10, -1), None);
}

#[test]
fn read_signed_reads_nothing_in_an_empty_range() {
    assert_eq!(read_signed("0", 1, -1), None);
    assert_eq!(read_signed("1", 1, -1), None);
    assert_eq!(read_signed("-1", 1, -1), None);
    assert_eq!(read_signed("7", 7, 7), Some(7));
    assert_eq!(read_signed("-9223372036854775808", i64::MIN, i64::MIN), Some(i64::MIN));
    assert_eq!(read_signed("-9223372036854775807", i64::MIN, i64::MIN), None);
}
