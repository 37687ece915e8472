use fxbrowser::numbers::{parse_i64, to_signed, write_i64};
use fxbrowser::paths::{extension, file_name, file_stem, join_path};
use fxbrowser::text::{
    ascii_digit, comes_before, is_listed, join, same_ignoring_ascii_case, split, split_once,
    to_ascii_lower, to_chars, trim, white_space, Separator,
};
use std::path::Path;

fn samples() -> Vec<&'static str> {
    vec![
        "", " ", "a", "abc", " a b ", "\t\u{3000}x\u{a0}\r\n", "Kick_01-loud", "a,b;;c,", ",,",
        "Größe ÉTÉ 12", "naïve\u{2028}text", "\u{85}\u{1680}z", "日本 語", "a\nb\r\n\nc", "::",
    ]
}

#[test]
fn white_space_is_the_unicode_property() {
    for n in 0..0x11_0000u32 {
        if let Some(c) = char::from_u32(n) {
            assert_eq!(white_space(c), c.is_whitespace(), "{n:x}");
            assert!(!white_space(c) || !c.is_alphanumeric(), "{n:x}");
            assert_eq!(ascii_digit(c), c.is_ascii_digit(), "{n:x}");
            assert_eq!(to_ascii_lower(c), c.to_ascii_lowercase(), "{n:x}");
        }
    }
}

#[test]
fn chars_come_in_order() {
    assert_eq!(to_chars("aß日"), vec!['a', 'ß', '日']);
    assert_eq!(to_chars(""), Vec::<char>::new());
}

#[test]
fn trimming_takes_white_space_off_both_ends() {
    for s in samples() {
        assert_eq!(trim(s), s.trim());
        assert_eq!(trim(&trim(s)), trim(s));
    }
    assert_eq!(trim("  a  b  "), "a  b");
}

#[test]
fn splitting_keeps_empty_pieces() {
    assert_eq!(split(",a,,b", Separator::Comma), vec!["", "a", "", "b"]);
    assert_eq!(split("", Separator::Comma), vec![""]);
    for s in samples() {
        let comma: Vec<&str> = s.split(',').collect();
        assert_eq!(split(s, Separator::Comma), comma);
        let either: Vec<&str> = s.split(|c| c == ',' || c == ';').collect();
        assert_eq!(split(s, Separator::CommaOrSemicolon), either);
        let lines: Vec<&str> = s.split('\n').collect();
        assert_eq!(split(s, Separator::LineFeed), lines);
        let words: Vec<&str> = s.split(char::is_whitespace).collect();
        assert_eq!(split(s, Separator::WhiteSpace), words);
        let names: Vec<&str> = s.split(|c: char| !c.is_alphanumeric()).collect();
        assert_eq!(split(s, Separator::NonAlphanumeric), names);
    }
}

#[test]
fn joining_puts_the_separator_between() {
    let parts = vec!["a".to_string(), "".to_string(), "b".to_string()];
    assert_eq!(join(&parts, ", "), "a, , b");
    assert_eq!(join(&Vec::new(), ", "), "");
    assert_eq!(join(&vec!["x".to_string()], ","), "x");
}

#[test]
fn first_occurrence_cuts_the_text() {
    for s in samples() {
        for pat in [",", " ", "::", "b", "aa", "日"] {
            let cut = s.split_once(pat).map(|(l, r)| (l.to_string(), r.to_string()));
            assert_eq!(split_once(s, pat), cut);
        }
    }
    assert_eq!(split_once("abab", "ab"), Some(("".to_string(), "ab".to_string())));
    assert_eq!(split_once("ab", "abc"), None);
}

#[test]
fn order_is_that_of_code_points() {
    for a in samples() {
        for b in samples() {
            assert_eq!(comes_before(a, b), a < b, "{a:?} {b:?}");
            assert_eq!(same_ignoring_ascii_case(a, b), a.eq_ignore_ascii_case(b));
        }
    }
    assert!(same_ignoring_ascii_case("DeSc", "desc"));
    assert!(!same_ignoring_ascii_case("É", "é"));
}

#[test]
fn lists_are_searched_by_contents() {
    let list = vec!["wav", "mp3"];
    assert!(is_listed(&list, "mp3"));
    assert!(!is_listed(&list, "mp"));
    assert!(!is_listed(&Vec::new(), ""));
}

#[test]
fn names_in_paths_follow_the_path_type() {
    let paths = [
        "", "a", "a.b", ".a", ".a.b", "a.", "..", ".", "/", "/a", "/a/", "/a/.", "a/..", "a/b.c.d",
        "a.b/c", "..a", "...", "./.", "a//b", "a/./b/./", "kick drum.WAV", "folder/.hidden",
        "x/y.tar.gz/", "été.wav", "//", "/..",
    ];
    for p in paths {
        let path = Path::new(p);
        assert_eq!(file_name(p).as_deref(), path.file_name().and_then(|s| s.to_str()), "{p}");
        assert_eq!(file_stem(p).as_deref(), path.file_stem().and_then(|s| s.to_str()), "{p}");
        assert_eq!(extension(p).as_deref(), path.extension().and_then(|s| s.to_str()), "{p}");
        assert_eq!(join_path(p, "n.x"), path.join("n.x").to_str().unwrap(), "{p}");
    }
    assert_eq!(file_stem("loop.final.wav"), Some("loop.final".to_string()));
    assert_eq!(extension("loop.final.wav"), Some("wav".to_string()));
}

#[test]
fn integers_read_and_write_in_decimal() {
    let texts = [
        "", "-", "+", "0", "-0", "+7", "007", "12a", " 1", "1 ", "--1", "9223372036854775807",
        "9223372036854775808", "-9223372036854775808", "-9223372036854775809",
        "99999999999999999999999999999999999999999999", "0000000000000000000000000000000000000001",
    ];
    for t in texts {
        assert_eq!(parse_i64(t), t.parse::<i64>().ok(), "{t}");
    }
    for n in [0, 1, -1, 10, 99, 100, -4410, i64::MAX, i64::MIN] {
        assert_eq!(write_i64(n), n.to_string());
        assert_eq!(parse_i64(&write_i64(n)), Some(n));
    }
}

#[test]
fn large_counts_wrap() {
    for n in [0, 1, i64::MAX as u64, i64::MAX as u64 + 1, u64::MAX] {
        assert_eq!(to_signed(n), n as i64);
    }
}
