use review_dedup::nums::{format_i32, parse_i32};

fn chars(s: &str) -> Vec<char> {
    s.chars().collect()
}

fn text(v: Vec<char>) -> String {
    v.into_iter().collect()
}

#[test]
fn parse_accepts_what_std_accepts() {
    assert_eq!(parse_i32(&chars("0")), Some(0));
    assert_eq!(parse_i32(&chars("5")), Some(5));
    assert_eq!(parse_i32(&chars("+5")), Some(5));
    assert_eq!(parse_i32(&chars("-1")), Some(-1));
    assert_eq!(parse_i32(&chars("007")), Some(7));
    assert_eq!(parse_i32(&chars("2147483647")), Some(2147483647));
    assert_eq!(parse_i32(&chars("-2147483648")), Some(-2147483648));
}

#[test]
fn parse_rejects_what_std_rejects() {
    assert_eq!(parse_i32(&chars("")), None);
    assert_eq!(parse_i32(&chars("+")), None);
    assert_eq!(parse_i32(&chars("-")), None);
    assert_eq!(parse_i32(&chars(" 5")), None);
    assert_eq!(parse_i32(&chars("5 ")), None);
    assert_eq!(parse_i32(&chars("1.5")), None);
    assert_eq!(parse_i32(&chars("--1")), None);
    assert_eq!(parse_i32(&chars("2147483648")), None);
    assert_eq!(parse_i32(&chars("-2147483649")), None);
    assert_eq!(parse_i32(&chars("99999999999999999999")), None);
}

#[test]
fn parse_matches_std_on_samples() {
    for s in ["0", "-0", "+12", "x", "3e4", "  7", "421", "-2147483648", "2147483648"] {
        assert_eq!(parse_i32(&chars(s)), s.parse::<i32>().ok(), "on {:?}", s);
    }
}

#[test]
fn format_renders_decimal() {
    assert_eq!(text(format_i32(0)), "0");
    assert_eq!(text(format_i32(42)), "42");
    assert_eq!(text(format_i32(-42)), "-42");
    assert_eq!(text(format_i32(i32::MAX)), "2147483647");
    assert_eq!(text(format_i32(i32::MIN)), "-2147483648");
}
