//! Text and paths against the standard library.

use servant::db::Kind;
use servant::paths::{
    canonicalize_user_path, classify, expand_tilde, file_name, is_absolute, join, user_path,
    FileType,
};
use servant::text::{
    align_left, decimal, decimal_signed, digit, ends_with, escape, letter, only_digits, pad_zero,
    parse_digits, same, same_ignoring_case, space, split_text, starts_with, strip_prefix, trim,
};

const PATHS: [&str; 22] = [
    "", "/", "//", ".", "..", "/.", "/..", "a", "a/", "/a", "/a/", "/a/b", "a/b/", "a//b", "a/.",
    "a/./.", "./a", "a/..", "a/../", "/a/../b", ".env", "/x/.hidden/",
];

#[test]
fn characters_are_told_apart_as_std_does() {
    for n in 0..=0x10ffffu32 {
        if let Some(c) = char::from_u32(n) {
            assert_eq!(space(c), c.is_whitespace(), "{n:x}");
            assert_eq!(digit(c), c.is_ascii_digit());
            assert_eq!(letter(c), c.is_ascii_alphabetic());
        }
    }
}

#[test]
fn text_is_handled_as_std_does() {
    let texts = ["", " ", "a", " a ", "\u{85}x\u{2003}", "a b", "\u{200b}", "NeVeR", "é/ü/", "//"];
    for s in texts {
        assert_eq!(trim(s), s.trim());
        assert_eq!(
            split_text(s, '/'),
            s.split('/').map(|p| p.to_string()).collect::<Vec<_>>()
        );
        for t in texts {
            assert_eq!(same(s, t), s == t);
            assert_eq!(starts_with(s, t), s.starts_with(t));
            assert_eq!(ends_with(s, t), s.ends_with(t));
            assert_eq!(strip_prefix(s, t).as_deref(), s.strip_prefix(t));
            assert_eq!(same_ignoring_case(s, t), s.eq_ignore_ascii_case(t));
        }
    }
    assert!(same_ignoring_case("never", "NEVER"));
    // Only ASCII letters have two cases here.
    assert!(!same_ignoring_case("\u{212a}", "k"));
}

#[test]
fn numbers_are_written_and_read() {
    for n in [0u64, 1, 9, 10, 99, 100, 4769, u64::MAX] {
        assert_eq!(decimal(n), n.to_string());
        assert_eq!(pad_zero(n, 4), format!("{n:04}"));
    }
    for n in [0i64, -1, 5, i64::MIN, i64::MAX, -10] {
        assert_eq!(decimal_signed(n), n.to_string());
    }
    for s in ["0", "007", "9223372036854775807", "9223372036854775808", "99999999999999999999"] {
        assert!(only_digits(s));
        assert_eq!(parse_digits(s), s.parse::<i64>().ok());
    }
    assert!(only_digits(""));
    assert!(!only_digits("1a"));
    assert!(!only_digits("\u{661}"));
}

#[test]
fn columns_are_filled() {
    for s in ["", "ab", "abcdef", "éü"] {
        assert_eq!(align_left(s, 5), format!("{s:<5}"));
    }
}

#[test]
fn html_is_escaped() {
    assert_eq!(escape("<a href=\"x\">&</a>", false), "&lt;a href=\"x\"&gt;&amp;&lt;/a&gt;");
    assert_eq!(escape("<a href=\"x\">&amp;", true), "&lt;a href=&quot;x&quot;&gt;&amp;amp;");
}

#[test]
fn paths_are_handled_as_std_does() {
    for p in PATHS {
        let path = std::path::Path::new(p);
        assert_eq!(is_absolute(p), path.is_absolute(), "{p}");
        let name = path.file_name().map(|n| n.to_str().unwrap().to_string());
        assert_eq!(file_name(p), name, "{p}");
        for q in PATHS {
            assert_eq!(join(p, q), path.join(q).to_str().unwrap(), "{p} {q}");
        }
    }
}

#[test]
fn tilde_expansion() {
    assert_eq!(expand_tilde("~", Some("/h")).as_deref(), Some("/h"));
    assert_eq!(expand_tilde("~/x", Some("/h")).as_deref(), Some("/h/x"));
    assert_eq!(expand_tilde("~//etc", Some("/h")).as_deref(), Some("/etc"));
    assert_eq!(expand_tilde("~user", Some("/h")).as_deref(), Some("~user"));
    assert_eq!(expand_tilde("~/x", None), None);
    assert_eq!(expand_tilde("a", None).as_deref(), Some("a"));
    assert_eq!(user_path("~/x", "/", Some("/h")), Ok("/h/x".to_string()));
    assert_eq!(
        user_path("~", "/", None),
        Err("could not resolve home directory".to_string())
    );
}

#[test]
fn canonicalizes_relative() {
    assert_eq!(user_path("a.txt", "/work", None), Ok("/work/a.txt".to_string()));
    assert_eq!(user_path("/a.txt", "/work", None), Ok("/a.txt".to_string()));
    let (got, kind) = canonicalize_user_path(
        "/work/a.txt",
        Some(("/real/a.txt".to_string(), FileType::File)),
    )
    .unwrap();
    assert_eq!(got, "/real/a.txt");
    assert_eq!(kind, Kind::File);
}

#[test]
fn classifies_dir() {
    let (_, kind) =
        canonicalize_user_path("/work/sub", Some(("/work/sub".to_string(), FileType::Dir))).unwrap();
    assert_eq!(kind, Kind::Dir);
    assert_eq!(classify("/x", FileType::Dir), Ok(Kind::Dir));
    assert_eq!(
        canonicalize_user_path("/dev/null", Some(("/dev/null".to_string(), FileType::Other))),
        Err("/dev/null is neither a regular file nor a directory".to_string())
    );
}

#[test]
fn missing_path_errors() {
    assert_eq!(
        canonicalize_user_path("/work/nope", None),
        Err("path not found or unreadable: /work/nope".to_string())
    );
}
