use tor_downloader_rs::errors::IntErrorKind;
use tor_downloader_rs::text::{
    contains_str, decimal_string, ends_with_str, join_strings, parse_unsigned_exec, split_string,
    starts_with_str, trim_string, words_of,
};

#[test]
fn parse_unsigned_like_std() {
    let cases = ["", "+", "-", "0", "+7", "-7", "12x", "007", " 1", "18446744073709551615", "18446744073709551616", "99999999999999999999x"];
    for c in cases {
        let ours = parse_unsigned_exec(c, u64::MAX);
        let std = c.parse::<u64>();
        match (ours, std) {
            (Ok(a), Ok(b)) => assert_eq!(a, b, "{:?}", c),
            (Err(k), Err(e)) => {
                let expected = match e.kind() {
                    std::num::IntErrorKind::Empty => IntErrorKind::Empty,
                    std::num::IntErrorKind::InvalidDigit => IntErrorKind::InvalidDigit,
                    std::num::IntErrorKind::PosOverflow => IntErrorKind::PosOverflow,
                    _ => panic!("unexpected kind"),
                };
                assert_eq!(k, expected, "{:?}", c);
            }
            (a, b) => panic!("{:?}: {:?} vs {:?}", c, a, b),
        }
    }
    assert_eq!(parse_unsigned_exec("65536", 65535), Err(IntErrorKind::PosOverflow));
    assert_eq!(parse_unsigned_exec("9050", 65535), Ok(9050));
}

#[test]
fn decimal_round_trip() {
    for n in [0u64, 9, 10, 12345, u64::MAX] {
        let s = decimal_string(n as u128);
        assert_eq!(s, n.to_string());
        assert_eq!(parse_unsigned_exec(&s, u64::MAX), Ok(n));
    }
}

#[test]
fn trim_like_std() {
    for s in ["", "  ", " a b ", "\u{3000}x\u{85}", "\ty\n"] {
        assert_eq!(trim_string(s), s.trim());
        assert_eq!(trim_string(&trim_string(s)), trim_string(s));
    }
}

#[test]
fn split_and_join() {
    assert_eq!(split_string("a,,b", ','), vec!["a", "", "b"]);
    assert_eq!(split_string("", ','), vec![""]);
    let parts = vec!["x".to_string(), "y".to_string()];
    assert_eq!(join_strings(&parts, ", "), "x, y");
    assert_eq!(join_strings(&Vec::new(), ", "), "");
}

#[test]
fn substring_checks() {
    assert!(contains_str("text/html; charset=utf-8", "text/html"));
    assert!(!contains_str("text/plain", "text/html"));
    assert!(contains_str("abc", ""));
    assert!(ends_with_str("x.onion", ".onion"));
    assert!(!ends_with_str("onion", ".onion"));
}

#[test]
fn words_match_split_whitespace() {
    let samples = ["", "  ", "a", " a  b\tc\n", "VmRSS:\t  1234 kB", "x\u{3000}y\u{a0}z", "\r\n"];
    for s in samples.iter() {
        let expected: Vec<String> = s.split_whitespace().map(|w| w.to_string()).collect();
        assert_eq!(words_of(s), expected, "{:?}", s);
    }
}

#[test]
fn prefix_test() {
    assert!(starts_with_str("VmRSS: 1", "VmRSS:"));
    assert!(starts_with_str("abc", ""));
    assert!(!starts_with_str("Vm", "VmRSS:"));
    assert!(!starts_with_str("xVmRSS:", "VmRSS:"));
}
