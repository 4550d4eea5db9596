use weecord::number::parse_u64;
use weecord::text::{skip_chars, split_off_bytes, starts_with, str_equal, trim, trim_matches, Pattern};

#[test]
fn parse_u64_plain_digits() {
    assert_eq!(parse_u64("123"), Some(123));
    assert_eq!(parse_u64("0"), Some(0));
    assert_eq!(parse_u64("007"), Some(7));
}

#[test]
fn parse_u64_accepts_one_plus_sign() {
    assert_eq!(parse_u64("+42"), Some(42));
    assert_eq!(parse_u64("++42"), None);
    assert_eq!(parse_u64("+"), None);
}

#[test]
fn parse_u64_rejects_minus_and_junk() {
    assert_eq!(parse_u64("-1"), None);
    assert_eq!(parse_u64("-0"), None);
    assert_eq!(parse_u64(""), None);
    assert_eq!(parse_u64("12a"), None);
    assert_eq!(parse_u64(" 1"), None);
    assert_eq!(parse_u64("1 "), None);
    assert_eq!(parse_u64("\u{663}"), None);
}

#[test]
fn parse_u64_bounds() {
    assert_eq!(parse_u64("18446744073709551615"), Some(u64::MAX));
    assert_eq!(parse_u64("18446744073709551616"), None);
    assert_eq!(parse_u64("99999999999999999999999x"), None);
}

#[test]
fn parse_u64_agrees_with_std() {
    let cases = [
        "", "+", "-", "0", "+0", "-0", "1", "42", "+42", "4_2", "18446744073709551615",
        "18446744073709551616", "000000000000000000000001", "１", "12345678901234567890",
    ];
    for c in cases.iter() {
        assert_eq!(parse_u64(c), c.parse::<u64>().ok(), "input {:?}", c);
    }
}

#[test]
fn trim_strips_unicode_whitespace() {
    assert_eq!(trim("  hi \n"), "hi");
    assert_eq!(trim("\u{3000}x y\u{85}\u{2029}"), "x y");
    assert_eq!(trim(" \t\r\n"), "");
    assert_eq!(trim(""), "");
    assert_eq!(trim("\u{200b}a"), "\u{200b}a");
}

#[test]
fn trim_agrees_with_std() {
    let cases = ["", " ", "a", " a ", "\u{a0}a\u{1680}", "\u{2000}\u{200a}b\u{202f}\u{205f}", "a b", "\u{feff}a"];
    for c in cases.iter() {
        assert_eq!(trim(c), c.trim(), "input {:?}", c);
    }
}

#[test]
fn trim_matches_quote() {
    assert_eq!(trim_matches("\"\"abc\"", Pattern::Char('"')), "abc");
    assert_eq!(trim_matches("a\"b", Pattern::Char('"')), "a\"b");
    assert_eq!(trim_matches("\"\"\"", Pattern::Char('"')), "");
    assert_eq!(trim_matches(" \"x\" ", Pattern::Char('"')), " \"x\" ");
}

#[test]
fn trim_is_idempotent_on_examples() {
    for c in [" a ", "\"\"q\"", "  ", "x"].iter() {
        let once = trim(c);
        assert_eq!(trim(once), once);
        let q = trim_matches(c, Pattern::Char('"'));
        assert_eq!(trim_matches(q, Pattern::Char('"')), q);
    }
}

#[test]
fn prefixes_and_equality() {
    assert!(starts_with("token abc", "token "));
    assert!(!starts_with("toke", "token "));
    assert!(starts_with("x", ""));
    assert!(str_equal("connect", "connect"));
    assert!(!str_equal("connect", "connected"));
    assert!(!str_equal("", "a"));
}

#[test]
fn slicing_by_bytes_and_chars() {
    assert_eq!(split_off_bytes("/nick é", 5), " é");
    assert_eq!(split_off_bytes("é/", 2), "/");
    assert_eq!(skip_chars("é/x", 1), "/x");
    assert_eq!(skip_chars("ab", 2), "");
}
