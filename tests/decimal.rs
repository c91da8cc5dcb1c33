use mjai_review::score::{parse_decimal, Score};

fn dec(s: &str) -> Option<Score> {
    parse_decimal(&s.chars().collect())
}

fn score(negative: bool, digits: &str, scale: usize, exp_negative: bool, exp: &str) -> Score {
    Score {
        negative,
        digits: digits.chars().collect(),
        scale,
        exp_negative,
        exp_digits: exp.chars().collect(),
    }
}

#[test]
fn two_fragments_join_into_one_value() {
    assert_eq!(dec("12.34"), Some(score(false, "1234", 2, false, "")));
}

#[test]
fn sign_is_kept() {
    assert_eq!(dec("-0.5"), Some(score(true, "05", 1, false, "")));
    assert_eq!(dec("+3.25"), Some(score(false, "325", 2, false, "")));
}

#[test]
fn empty_fraction_is_accepted() {
    assert_eq!(dec("7."), Some(score(false, "7", 0, false, "")));
    assert_eq!(dec(".5"), Some(score(false, "5", 1, false, "")));
}

#[test]
fn exponent_is_accepted() {
    assert_eq!(dec("1.5e3"), Some(score(false, "15", 1, false, "3")));
    assert_eq!(dec("1.5E-03"), Some(score(false, "15", 1, true, "03")));
    assert_eq!(dec("-2.e+7"), Some(score(true, "2", 0, false, "7")));
}

#[test]
fn malformed_literals_are_rejected() {
    assert_eq!(dec("."), None);
    assert_eq!(dec(""), None);
    assert_eq!(dec("12"), None);
    assert_eq!(dec("1.2.3"), None);
    assert_eq!(dec("1.2x"), None);
    assert_eq!(dec("-."), None);
    assert_eq!(dec("1.5e"), None);
    assert_eq!(dec("1.5e+"), None);
    assert_eq!(dec("1.5e3x"), None);
    assert_eq!(dec(".e3"), None);
}

#[test]
fn long_digit_strings_are_kept_whole() {
    assert_eq!(
        dec("18446744073709551616.0"),
        Some(score(false, "184467440737095516160", 1, false, ""))
    );
}

#[test]
fn leading_zeros_of_the_fraction_count() {
    assert_eq!(dec("0.05"), Some(score(false, "005", 2, false, "")));
    assert_eq!(dec("3.400"), Some(score(false, "3400", 3, false, "")));
}
