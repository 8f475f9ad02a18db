//! The library's text handling agrees with the standard library's.
use shush_vault_core::dotenv::{quote_if_needed, unquote};
use shush_vault_core::present::{can_mask, mask};
use shush_vault_core::text::{str_contains, str_eq_ignore_ascii_case, trim_str};

const SPACES: [char; 25] = [
    '\u{9}', '\u{a}', '\u{b}', '\u{c}', '\u{d}', ' ', '\u{85}', '\u{a0}', '\u{1680}', '\u{2000}', '\u{2001}',
    '\u{2002}', '\u{2003}', '\u{2004}', '\u{2005}', '\u{2006}', '\u{2007}', '\u{2008}', '\u{2009}', '\u{200a}',
    '\u{2028}', '\u{2029}', '\u{202f}', '\u{205f}', '\u{3000}',
];

fn samples() -> Vec<String> {
    let mut out: Vec<String> = vec![
        "".into(),
        "a".into(),
        "  padded  ".into(),
        "\u{200b}zero-width\u{200b}".into(),
        "\u{feff}bom".into(),
        "\"quoted\"".into(),
        "'single'".into(),
        "é€😀x".into(),
        "Prod".into(),
        "pROD".into(),
    ];
    for c in SPACES {
        out.push(format!("{c}mid{c}"));
    }
    out
}

#[test]
fn trimming_agrees_with_str_trim() {
    for s in samples() {
        assert_eq!(trim_str(&s), s.trim(), "trim of {s:?}");
    }
    for u in 0u32..0x3100 {
        if let Some(c) = char::from_u32(u) {
            let s = format!("{c}x{c}");
            assert_eq!(trim_str(&s), s.trim(), "trim around U+{u:04X}");
        }
    }
}

#[test]
fn case_folding_and_search_agree() {
    for a in samples() {
        for b in samples() {
            assert_eq!(str_eq_ignore_ascii_case(&a, &b), a.eq_ignore_ascii_case(&b));
            assert_eq!(str_contains(&a, &b), a.contains(b.as_str()));
        }
    }
}

#[test]
fn masking_agrees_with_byte_slicing() {
    for s in ["", "a", "abcd", "abcde", "sk-secret", "é", "ééé", "abcdé", "x😀", "😀😀", "ab€€", "abcé€"] {
        let n = s.len();
        if n <= 4 {
            assert_eq!(mask(s), "•".repeat(n.max(1)));
        } else if s.is_char_boundary(n - 4) {
            assert!(can_mask(s));
            assert_eq!(mask(s), format!("{}{}", "•".repeat(8), &s[n - 4..]));
        } else {
            assert!(!can_mask(s));
        }
    }
}

#[test]
fn quoting_round_trip_examples() {
    for v in ["plain", "two words", "hash#tag", "", "tab\there"] {
        let q = quote_if_needed(v);
        assert_eq!(unquote(q.trim()), v);
    }
}
