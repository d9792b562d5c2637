use field_sim::cli::{parse_i32, parse_mode, Mode};

#[test]
fn mode_accepts_t_and_s_in_both_cases() {
    assert_eq!(parse_mode("t"), Some(Mode::Timed));
    assert_eq!(parse_mode("T"), Some(Mode::Timed));
    assert_eq!(parse_mode("s"), Some(Mode::Stepped));
    assert_eq!(parse_mode("S"), Some(Mode::Stepped));
}

#[test]
fn mode_accepts_positive_integers() {
    assert_eq!(parse_mode("1"), Some(Mode::Years(1)));
    assert_eq!(parse_mode("42"), Some(Mode::Years(42)));
    assert_eq!(parse_mode("+7"), Some(Mode::Years(7)));
    assert_eq!(parse_mode("007"), Some(Mode::Years(7)));
    assert_eq!(parse_mode("2147483647"), Some(Mode::Years(2147483647)));
}

#[test]
fn mode_rejects_zero_negatives_and_garbage() {
    assert_eq!(parse_mode("0"), None);
    assert_eq!(parse_mode("-3"), None);
    assert_eq!(parse_mode(""), None);
    assert_eq!(parse_mode("x"), None);
    assert_eq!(parse_mode("ten"), None);
    assert_eq!(parse_mode("tt"), None);
    assert_eq!(parse_mode("2147483648"), None);
    assert_eq!(parse_mode("1.5"), None);
    assert_eq!(parse_mode("t "), None);
}

#[test]
fn parse_i32_accepts_what_str_parse_accepts() {
    assert_eq!(parse_i32("0"), Some(0));
    assert_eq!(parse_i32("12"), Some(12));
    assert_eq!(parse_i32("+42"), Some(42));
    assert_eq!(parse_i32("-17"), Some(-17));
    assert_eq!(parse_i32("0012"), Some(12));
    assert_eq!(parse_i32("2147483647"), Some(i32::MAX));
    assert_eq!(parse_i32("-2147483648"), Some(i32::MIN));
}

#[test]
fn parse_i32_rejects_what_str_parse_rejects() {
    assert_eq!(parse_i32(""), None);
    assert_eq!(parse_i32("+"), None);
    assert_eq!(parse_i32("-"), None);
    assert_eq!(parse_i32("1 2"), None);
    assert_eq!(parse_i32(" 1"), None);
    assert_eq!(parse_i32("12a"), None);
    assert_eq!(parse_i32("--4"), None);
    assert_eq!(parse_i32("2147483648"), None);
    assert_eq!(parse_i32("-2147483649"), None);
    assert_eq!(parse_i32("99999999999999999999"), None);
}

#[test]
fn parse_i32_agrees_with_std_on_samples() {
    let samples = ["0", "5", "-5", "+0", "00", "2147483647", "-2147483648", "21474836470", "x", ""];
    for s in samples {
        assert_eq!(parse_i32(s), s.parse::<i32>().ok(), "input {:?}", s);
    }
}
