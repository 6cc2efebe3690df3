use hyprgradient::order::sort_stops;
use hyprgradient::config::Stop;
use hyprgradient::text::{is_whitespace, str_eq, trim};

#[test]
fn trim_removes_unicode_whitespace_at_both_ends() {
    assert_eq!(trim("  next\n"), "next");
    assert_eq!(trim("\u{3000}\u{85}halt\u{2029}"), "halt");
    assert_eq!(trim(" a b "), "a b");
    assert_eq!(trim(" \t\r\n"), "");
    assert_eq!(trim(""), "");
}

#[test]
fn trim_agrees_with_std() {
    for s in ["x", "  y  ", "\u{a0}z", "é ", " \u{1680}ü\u{205f}", "\u{200b}k"] {
        assert_eq!(trim(s), s.trim());
    }
}

#[test]
fn whitespace_is_the_unicode_property() {
    for c in ['\t', '\n', '\u{b}', '\u{c}', '\r', ' ', '\u{85}', '\u{a0}', '\u{1680}', '\u{2000}', '\u{200a}', '\u{2028}', '\u{2029}', '\u{202f}', '\u{205f}', '\u{3000}'] {
        assert!(is_whitespace(c));
        assert!(c.is_whitespace());
    }
    for c in ['a', '\u{200b}', '\u{1f}', '\u{feff}', '0'] {
        assert!(!is_whitespace(c));
        assert_eq!(is_whitespace(c), c.is_whitespace());
    }
}

#[test]
fn str_eq_compares_characters() {
    assert!(str_eq("halt", "halt"));
    assert!(!str_eq("halt", "halts"));
    assert!(!str_eq("next", "nexT"));
    assert!(str_eq("", ""));
}

#[test]
fn sort_is_ordered_stable_and_keeps_every_stop() {
    let stops = vec![
        Stop { position: 70, color: [1, 0, 0] },
        Stop { position: 10, color: [2, 0, 0] },
        Stop { position: 70, color: [3, 0, 0] },
        Stop { position: 0, color: [4, 0, 0] },
        Stop { position: 10, color: [5, 0, 0] },
    ];
    let sorted = sort_stops(&stops);
    let got: Vec<(u8, u8)> = sorted.iter().map(|s| (s.position, s.color[0])).collect();
    assert_eq!(got, vec![(0, 4), (10, 2), (10, 5), (70, 1), (70, 3)]);
    let mut expected: Vec<(u8, u8)> = stops.iter().map(|s| (s.position, s.color[0])).collect();
    expected.sort_by_key(|p| p.0);
    assert_eq!(got, expected);
}
