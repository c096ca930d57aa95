//! Text, numbers and paths, held against the standard library.

use archive_assistant::number::{format_number, parse_u32};
use archive_assistant::path::{extension, file_name, file_stem, join, with_file_name};
use archive_assistant::text::{
    append_texts, clone_texts, find_last, from_chars, has_suffix, is_whitespace, replace, same_text,
    strip_suffix, to_chars, to_lower, trim_end,
};
use std::path::Path;

/// All texts of up to `max` characters out of `letters`.
fn texts(letters: &[char], max: usize) -> Vec<String> {
    let mut all = vec![String::new()];
    let mut last = all.clone();
    for _ in 0..max {
        let mut next = Vec::new();
        for t in &last {
            for &c in letters {
                let mut longer = t.clone();
                longer.push(c);
                next.push(longer);
            }
        }
        all.extend(next.iter().cloned());
        last = next;
    }
    all
}

#[test]
fn characters_and_back() {
    for s in ["", "a", "zwölf/Ω", "\u{10ffff}\n"] {
        assert_eq!(to_chars(s), s.chars().collect::<Vec<char>>());
        assert_eq!(from_chars(&to_chars(s)), s);
    }
}

#[test]
fn lists_of_texts() {
    let v = vec!["a".to_owned(), String::new(), "ß".to_owned()];
    assert_eq!(clone_texts(&v), v);
    let mut out = vec!["x".to_owned()];
    append_texts(&mut out, &v);
    assert_eq!(out, vec!["x", "a", "", "ß"]);
}

#[test]
fn lower_case_is_ascii_only() {
    for s in ["ABCxyzZ[`{@", "ÄÖ.ZIP", "\u{130}K"] {
        assert_eq!(to_lower(s), s.to_ascii_lowercase());
    }
}

#[test]
fn suffixes() {
    for s in texts(&['a', 'b', 'ä'], 4) {
        for t in texts(&['a', 'b', 'ä'], 2) {
            assert_eq!(has_suffix(&s, &t), s.ends_with(t.as_str()));
            assert_eq!(strip_suffix(&s, &t).as_deref(), s.strip_suffix(t.as_str()));
            assert_eq!(same_text(&s, &t), s == t);
        }
    }
}

#[test]
fn replacement() {
    for s in texts(&['a', 'b'], 7) {
        for from in ["a", "ab", "aa", "aba", "bb"] {
            for to in ["", "a", "xabx"] {
                assert_eq!(replace(&s, from, to), s.replace(from, to));
            }
        }
    }
}

#[test]
fn last_occurrence() {
    assert_eq!(find_last(&to_chars("a.b.c"), '.'), Some(3));
    assert_eq!(find_last(&to_chars(".abc"), '.'), Some(0));
    assert_eq!(find_last(&to_chars("abc"), '.'), None);
    assert_eq!(find_last(&[], '.'), None);
}

#[test]
fn white_space_of_all_characters() {
    for n in 0u32..0x110000 {
        if let Some(c) = char::from_u32(n) {
            assert_eq!(is_whitespace(c), c.is_whitespace(), "{:x}", n);
        }
    }
}

#[test]
fn trimming_the_end() {
    for s in ["", " ", "a \n\t", " a b\u{a0}\u{3000}", "a\u{200b}", "x\u{85}\u{2028}"] {
        assert_eq!(trim_end(s), s.trim_end());
    }
}

#[test]
fn numbers_are_written_in_decimal() {
    for n in [0, 7, 10, 99, 100, 65536, 4294967295, 18446744073709551615] {
        assert_eq!(format_number(n), n.to_string());
    }
}

#[test]
fn numbers_are_read_as_the_standard_library_reads_them() {
    for s in texts(&['0', '1', '9', '+', '-', ' '], 4) {
        assert_eq!(parse_u32(&s), s.parse::<u32>().ok(), "{:?}", s);
    }
    for s in ["4294967295", "4294967296", "04294967295", "99999999999999999999", "+1", "１"] {
        assert_eq!(parse_u32(s), s.parse::<u32>().ok(), "{:?}", s);
    }
}

#[test]
fn file_names_of_paths() {
    for s in texts(&['a', '.', '/', 'ä'], 6) {
        let expected = Path::new(&s).file_name().map(|n| n.to_str().unwrap().to_owned());
        assert_eq!(file_name(&s), expected, "{:?}", s);
    }
}

#[test]
fn stems_and_extensions_of_names() {
    for s in texts(&['a', '.', 'ä'], 6) {
        if Path::new(&s).file_name().is_none() {
            continue;
        }
        let p = Path::new(&s);
        assert_eq!(extension(&s).as_deref(), p.extension().map(|e| e.to_str().unwrap()), "{:?}", s);
        assert_eq!(file_stem(&s), p.file_stem().unwrap().to_str().unwrap(), "{:?}", s);
    }
}

#[test]
fn siblings_and_joined_paths() {
    for s in texts(&['a', '.', '/'], 6) {
        assert_eq!(join(&s, "x.zip"), Path::new(&s).join("x.zip").to_str().unwrap(), "{:?}", s);
        assert_eq!(join(&s, "/x"), Path::new(&s).join("/x").to_str().unwrap(), "{:?}", s);
        assert_eq!(
            Path::new(&with_file_name(&s, "x.zip")),
            Path::new(&s).with_file_name("x.zip"),
            "{:?}",
            s
        );
    }
}
