use champion_ranking::identity::resolve_id;

#[test]
fn plain_digits_resolve() {
    assert_eq!(resolve_id("1"), Some(1));
    assert_eq!(resolve_id("266"), Some(266));
    assert_eq!(resolve_id("0"), Some(0));
    assert_eq!(resolve_id("007"), Some(7));
}

#[test]
fn signs_are_read() {
    assert_eq!(resolve_id("+7"), Some(7));
    assert_eq!(resolve_id("-12"), Some(-12));
    assert_eq!(resolve_id("-0"), Some(0));
}

#[test]
fn a_sign_alone_is_no_identity() {
    assert_eq!(resolve_id(""), None);
    assert_eq!(resolve_id("+"), None);
    assert_eq!(resolve_id("-"), None);
    assert_eq!(resolve_id("+-1"), None);
    assert_eq!(resolve_id("--1"), None);
}

#[test]
fn anything_but_digits_is_refused() {
    assert_eq!(resolve_id("12a"), None);
    assert_eq!(resolve_id("a12"), None);
    assert_eq!(resolve_id(" 1"), None);
    assert_eq!(resolve_id("1 "), None);
    assert_eq!(resolve_id("1_000"), None);
    assert_eq!(resolve_id("1.0"), None);
    assert_eq!(resolve_id("0x10"), None);
    assert_eq!(resolve_id("Aatrox"), None);
}

#[test]
fn digits_outside_ascii_are_refused() {
    assert_eq!(resolve_id("\u{661}\u{662}"), None);
    assert_eq!(resolve_id("1\u{e9}"), None);
    assert_eq!(resolve_id("\u{ff11}"), None);
}

#[test]
fn the_range_of_i32_is_the_limit() {
    assert_eq!(resolve_id("2147483647"), Some(i32::MAX));
    assert_eq!(resolve_id("2147483648"), None);
    assert_eq!(resolve_id("+2147483647"), Some(i32::MAX));
    assert_eq!(resolve_id("-2147483648"), Some(i32::MIN));
    assert_eq!(resolve_id("-2147483649"), None);
    assert_eq!(resolve_id("21474836470"), None);
    assert_eq!(resolve_id("99999999999999999999999999"), None);
    assert_eq!(resolve_id("-99999999999999999999999999"), None);
    assert_eq!(resolve_id("00000000000000000000000042"), Some(42));
}

#[test]
fn overflow_followed_by_a_letter_is_refused() {
    assert_eq!(resolve_id("99999999999x"), None);
}

#[test]
fn resolving_agrees_with_the_standard_parser() {
    let samples = [
        "", "0", "1", "-1", "+1", "10", "103", "0103", "+", "-", "++1", "1+", "1-", "12 ", " 12",
        "2147483646", "2147483647", "2147483648", "-2147483647", "-2147483648", "-2147483649",
        "4294967296", "abc", "1e3", "\u{661}\u{662}\u{663}", "12\n", "\t12", "000", "-000", "+000", "9", "99",
        "999", "9999", "99999", "999999", "9999999", "99999999", "999999999", "9999999999",
    ];
    for text in samples {
        assert_eq!(resolve_id(text), text.parse::<i32>().ok(), "for {:?}", text);
    }
}
