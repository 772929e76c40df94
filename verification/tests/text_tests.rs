use resist::text::{has_prefix, parse_usize, push_decimal, same_text};

#[test]
fn parse_usize_reads_numerals() {
    assert_eq!(parse_usize("0"), Some(0));
    assert_eq!(parse_usize("42"), Some(42));
    assert_eq!(parse_usize("007"), Some(7));
    assert_eq!(parse_usize("+12"), Some(12));
    assert_eq!(parse_usize("18446744073709551615"), "18446744073709551615".parse::<usize>().ok());
}

#[test]
fn parse_usize_rejects_what_std_rejects() {
    for s in ["", "+", "-", "-1", "12a", "a12", " 1", "1 ", "++1", "1.0", "99999999999999999999999"] {
        assert_eq!(parse_usize(s), s.parse::<usize>().ok(), "{:?}", s);
        assert_eq!(parse_usize(s), None);
    }
}

#[test]
fn push_decimal_writes_numerals() {
    let mut s = String::from("R");
    push_decimal(&mut s, 0);
    assert_eq!(s, "R0");
    let mut t = String::new();
    push_decimal(&mut t, 1203);
    assert_eq!(t, "1203");
    let mut u = String::new();
    push_decimal(&mut u, usize::MAX as u64);
    assert_eq!(u, usize::MAX.to_string());
    assert_eq!(parse_usize(&u), Some(usize::MAX));
}

#[test]
fn prefix_and_equality() {
    assert!(has_prefix("VF2", "VF"));
    assert!(has_prefix("VF2", ""));
    assert!(!has_prefix("V", "VF"));
    assert!(same_text("gnd", "gnd"));
    assert!(!same_text("gnd", "GND"));
    assert!(!same_text("gn", "gnd"));
}

#[test]
fn suffix_test() {
    assert!(resist::text::has_suffix("10kHz", "Hz"));
    assert!(resist::text::has_suffix("10kHz", "kHz"));
    assert!(!resist::text::has_suffix("Hz", "kHz"));
    assert!(resist::text::has_suffix("", ""));
}

#[test]
fn signed_numerals() {
    let mut s = String::new();
    resist::text::push_signed_decimal(&mut s, -45);
    assert_eq!(s, "-45");
    let mut t = String::new();
    resist::text::push_signed_decimal(&mut t, 0);
    assert_eq!(t, "0");
}
