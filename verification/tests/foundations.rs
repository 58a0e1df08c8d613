use std::path::{Path, PathBuf};

use lx_term::anonymous_id::get_or_create_anonymous_id;
use lx_term::file_path::FilePath;
use lx_term::hexadecimal::hex_of_text;
use lx_term::text::{chars_of, is_blank, is_white_space, parse_i32, split_words, trim};
use lx_term::unique_id::UniqueId;

const PATHS: [&str; 24] = [
    "", ".", "..", "/", "//", "/.", "./", "./.", "a", "./a", "a/", "a/.", "a//b", "a/./b", "a/b",
    "/a", "//a", "/a/", "/a/b/../c", "/a/c", "...", "a.", ".a", "/tmp/x.yaml",
];

fn std_path(path: &FilePath) -> PathBuf {
    PathBuf::from(String::from_utf8(path.bytes.clone()).expect("utf-8"))
}

#[test]
fn white_space_is_what_unicode_says() {
    for c in '\0'..=char::MAX {
        assert_eq!(is_white_space(c), c.is_whitespace(), "{c:?}");
    }
}

#[test]
fn text_is_trimmed_and_split_at_white_space() {
    for text in [
        "", " ", "a", " a", "a ", " a b ", "\u{2003}x\u{3000}\ty\n\nz\u{85}", "\u{200b}a\u{200b}",
        "caf\u{e9}  \u{1f980}", "\n\n", "one two  three",
    ] {
        assert_eq!(trim(text), text.trim(), "{text:?}");
        assert_eq!(is_blank(text), text.trim().is_empty(), "{text:?}");
        let expected: Vec<&str> = text.split_whitespace().collect();
        assert_eq!(split_words(text), expected, "{text:?}");
        let chars: Vec<char> = text.chars().collect();
        assert_eq!(chars_of(text), chars);
    }
}

#[test]
fn integers_are_parsed_as_std_does() {
    for text in [
        "0", "7", "-7", "+7", "2147483647", "2147483648", "-2147483648", "-2147483649", "", "+", "-",
        " 1", "1 ", "1a", "a", "0000000000000000000012", "-00", "++1", "\u{ff11}",
    ] {
        assert_eq!(parse_i32(text), text.parse::<i32>().ok(), "{text:?}");
    }
}

#[test]
fn paths_are_joined_as_std_does() {
    for base in PATHS {
        for tail in PATHS {
            let joined = FilePath::from_text(base).join(&FilePath::from_text(tail));
            let expected = Path::new(base).join(tail);
            assert_eq!(
                String::from_utf8(joined.bytes).expect("utf-8"),
                expected.to_str().expect("utf-8"),
                "{base:?} {tail:?}"
            );
        }
    }
}

#[test]
fn paths_are_compared_as_std_does() {
    for a in PATHS {
        for b in PATHS {
            let (left, right) = (FilePath::from_text(a), FilePath::from_text(b));
            assert_eq!(left.same_path(&right), Path::new(a) == Path::new(b), "{a:?} {b:?}");
            assert_eq!(left.same_bytes(&right), a == b);
        }
    }
}

#[test]
fn paths_are_absolute_when_they_start_at_the_root() {
    for text in PATHS {
        let path = FilePath::from_text(text);
        assert_eq!(path.is_absolute(), Path::new(text).is_absolute());
        assert_eq!(path.is_empty(), text.is_empty());
        assert_eq!(path.to_text(), text);
        assert_eq!(path.clone().bytes, path.bytes);
        assert_eq!(std_path(&path), Path::new(text));
    }
}

#[test]
fn paths_need_not_be_utf_8() {
    let path = FilePath::from_bytes(vec![b'a', 0xc3, b'/', 0xff]);
    assert_eq!(path.to_text(), "a\u{fffd}/\u{fffd}");
    assert!(path.same_path(&FilePath::from_bytes(vec![b'a', 0xc3, b'/', b'/', 0xff])));
}

#[test]
fn text_is_written_in_hexadecimal() {
    assert_eq!(hex_of_text(""), "");
    assert_eq!(hex_of_text("\0 ~\u{e9}"), "00207ec3a9");
}

#[test]
fn identifiers_are_written_with_hyphens() {
    let id = UniqueId { value: 0xfedc_ba98_7654_3210_0123_4567_89ab_cdef };
    assert_eq!(id.to_text(), "fedcba98-7654-3210-0123-456789abcdef");
    assert_eq!(UniqueId { value: 0 }.to_text(), "00000000-0000-0000-0000-000000000000");
    assert_ne!(UniqueId { value: 1 }.to_text(), UniqueId { value: 2 }.to_text());
}

#[test]
fn identifiers_are_random_uuids() {
    let (first, second) = (UniqueId::random(), UniqueId::random());
    assert_ne!(first, second);
    for id in [first, second] {
        let text = id.to_text();
        assert_eq!(text.len(), 36);
        assert_eq!(&text[14..15], "4");
        assert!(["8", "9", "a", "b"].contains(&&text[19..20]));
    }
}

#[test]
fn anonymous_ids_are_not_kept() {
    assert_ne!(get_or_create_anonymous_id(), get_or_create_anonymous_id());
}
