use gcpv_lynx_export::names::{compare_race_nums, event_of, heat_letters_of, heat_of, letter_to_number};
use gcpv_lynx_export::strings::push_i32_dec;

#[test]
fn heat_decomposition_101a() {
    assert_eq!(event_of("101A"), "101");
    assert_eq!(heat_letters_of("101A"), "A");
    assert_eq!(heat_of("101A"), 1);
}

#[test]
fn heat_decomposition_plain_number() {
    assert_eq!(event_of("7"), "7");
    assert_eq!(heat_letters_of("7"), "");
    assert_eq!(heat_of("7"), 0);
}

#[test]
fn heat_decomposition_12c() {
    assert_eq!(event_of("12C"), "12");
    assert_eq!(heat_of("12C"), 3);
}

#[test]
fn letter_ordinal_is_case_insensitive() {
    assert_eq!(letter_to_number("A"), 1);
    assert_eq!(letter_to_number("a"), 1);
    assert_eq!(letter_to_number("B"), 2);
    assert_eq!(letter_to_number("z"), 26);
}

#[test]
fn letter_ordinal_empty_or_non_letter_is_zero() {
    assert_eq!(letter_to_number(""), 0);
    assert_eq!(letter_to_number("1"), 0);
    assert_eq!(letter_to_number("-"), 0);
}

#[test]
fn numeric_keys_compare_the_maximal_digit_runs() {
    assert_eq!(compare_race_nums("2A", "10B"), -1);
    assert_eq!(compare_race_nums("101A", "101B"), 0);
    assert_eq!(compare_race_nums("10B", "2A"), 1);
    assert_eq!(compare_race_nums("A12", "1"), -1);
    assert_eq!(compare_race_nums("", "0"), 0);
    assert_eq!(compare_race_nums("0007", "7"), 0);
}

#[test]
fn numeric_keys_have_no_width_cap() {
    assert_eq!(compare_race_nums("2147483648", "2"), 1);
    assert_eq!(compare_race_nums("99999999999999999999X", "1"), 1);
    assert_eq!(compare_race_nums("99999999999999999999", "100000000000000000000"), -1);
    assert_eq!(compare_race_nums("99999999999999999999", "99999999999999999999"), 0);
}

#[test]
fn decimal_rendering_matches_standard_formatting() {
    for n in [0, 7, 10, 999, 2147483647, -1, -500, -2147483648] {
        let mut s = String::new();
        push_i32_dec(&mut s, n);
        assert_eq!(s, n.to_string());
    }
}

#[test]
fn decimal_rendering_appends() {
    let mut s = String::from("x=");
    push_i32_dec(&mut s, 42);
    assert_eq!(s, "x=42");
}
