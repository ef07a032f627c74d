use veloce::numbers::{decimal_i64, decimal_u32, decimal_u64, decimal_usize};
use veloce::numbers::{parse_i32, parse_u32, parse_u64};
use veloce::order::text_at_most;
use veloce::paths::{file_name, is_absolute, join_path, lies_under, parent};
use veloce::text::{contains, ends_with, find, rfind_char, space, starts_with, trim};
use veloce::text::{skip_chars, take_chars, trim_end_char, trim_start_char};

#[test]
fn spaces_are_those_of_unicode() {
    for n in 0..0x11_0000u32 {
        if let Some(c) = char::from_u32(n) {
            assert_eq!(space(c), c.is_whitespace(), "character {n}");
        }
    }
}

#[test]
fn trimming_agrees_with_str() {
    for s in ["", " ", "a", " a ", "\t a b \u{3000}\n", "\u{2003}x", "é "] {
        assert_eq!(trim(s), s.trim());
    }
    assert_eq!(trim_end_char("a//", '/'), "a");
    assert_eq!(trim_end_char("///", '/'), "");
    assert_eq!(trim_start_char("//a/", '/'), "a/");
}

#[test]
fn searching_agrees_with_str() {
    let texts = ["", "a", "aa", "aab", "abab", "héllo", "llo"];
    let patterns = ["", "a", "b", "ab", "é", "llo", "aabb"];
    for s in texts {
        for p in patterns {
            assert_eq!(contains(s, p), s.contains(p), "{s} {p}");
            assert_eq!(starts_with(s, p), s.starts_with(p), "{s} {p}");
            assert_eq!(ends_with(s, p), s.ends_with(p), "{s} {p}");
            let expected = s.find(p).map(|at| s[..at].chars().count());
            assert_eq!(find(s, p), expected, "{s} {p}");
        }
    }
    assert_eq!(rfind_char("a)b)c", ')'), Some(3));
    assert_eq!(rfind_char("abc", ')'), None);
    assert_eq!(skip_chars("héllo", 2), "llo");
    assert_eq!(take_chars("héllo", 2), "hé");
}

#[test]
fn numbers_are_written_as_rust_writes_them() {
    for n in [0u64, 1, 9, 10, 99, 100, 12345, u64::MAX] {
        assert_eq!(decimal_u64(n), n.to_string());
    }
    assert_eq!(decimal_u32(u32::MAX), "4294967295");
    assert_eq!(decimal_usize(70), "70");
    for n in [0i64, 7, -1, -10, i64::MAX, i64::MIN] {
        assert_eq!(decimal_i64(n), n.to_string());
    }
}

#[test]
fn numbers_are_read_as_rust_reads_them() {
    let texts = [
        "", "0", "7", "007", "+", "-", "+5", "-5", "-0", "--1", "1_0", " 1", "1 ", "x", "1x",
        "4294967295", "4294967296", "18446744073709551615", "18446744073709551616",
        "2147483647", "2147483648", "-2147483648", "-2147483649", "٣",
    ];
    for s in texts {
        assert_eq!(parse_u64(s), s.parse::<u64>().ok(), "{s:?}");
        assert_eq!(parse_u32(s), s.parse::<u32>().ok(), "{s:?}");
        assert_eq!(parse_i32(s), s.parse::<i32>().ok(), "{s:?}");
    }
}

#[test]
fn reading_undoes_writing() {
    for n in [0u64, 5, 10, 4096, u64::MAX] {
        assert_eq!(parse_u64(&decimal_u64(n)), Some(n));
    }
}

#[test]
fn texts_are_ordered_as_strings_are() {
    let list = ["", "a", "A", "ab", "b", "é", "z", "\u{10000}", "\u{ffff}"];
    for a in list {
        for b in list {
            assert_eq!(text_at_most(a, b), a <= b, "{a:?} {b:?}");
        }
    }
}

#[test]
fn paths_are_taken_apart_as_std_does() {
    let list = [
        "", "/", "a", "a/", "/a", "a/b", "a//b/", "./a", "a/.", "a/./b", "..", "a/..", "/..",
        "a/../b", "//", "/a/b/c", ".", "./", "a/b/..",
    ];
    for p in list {
        let path = std::path::Path::new(p);
        assert_eq!(is_absolute(p), path.is_absolute(), "{p:?}");
        assert_eq!(file_name(p), path.file_name().map(|n| n.to_string_lossy().to_string()), "{p:?}");
        assert_eq!(parent(p), path.parent().map(|n| n.to_string_lossy().to_string()), "{p:?}");
    }
    for a in list {
        for b in list {
            let joined = std::path::Path::new(a).join(b);
            assert_eq!(join_path(a, b), joined.to_string_lossy(), "{a:?} {b:?}");
            let under = std::path::Path::new(b).starts_with(a);
            assert_eq!(lies_under(a, b), under, "{a:?} {b:?}");
        }
    }
}
