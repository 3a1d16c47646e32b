use whisper_lite::chars::{chars_of, same, same_str, string_of};
use whisper_lite::history::Entry;
use whisper_lite::numbers::{decimal_text, pad_left, pad_right, repeat};
use whisper_lite::order::sort_descending;
use whisper_lite::paths::{join, with_extension};
use whisper_lite::words::{join_strings, split_words, trim};

#[test]
fn paths_are_joined_as_the_system_does() {
    for (base, part) in [("a", "b"), ("a/", "b"), ("", "b"), ("a", "/b"), ("/", "b"), ("a", "")] {
        let want = std::path::Path::new(base).join(part);
        assert_eq!(join(base, part), want.to_str().unwrap());
    }
}

#[test]
fn extensions_are_replaced_as_the_system_does() {
    for name in ["a.bin", "a.en.bin", "a", ".hidden", "x.y.", "ggml-base-q5_1.bin"] {
        let want = std::path::Path::new(name).with_extension("partial");
        assert_eq!(with_extension(name, "partial"), want.to_str().unwrap());
    }
}

#[test]
fn numbers_in_decimal() {
    for n in [0u64, 7, 10, 999, 1_000_000, u64::MAX] {
        assert_eq!(decimal_text(n), n.to_string());
    }
}

#[test]
fn columns() {
    assert_eq!(pad_right("ab", 4), "ab  ");
    assert_eq!(pad_left("é", 3), "  é");
    assert_eq!(pad_left("abcd", 3), "abcd");
    assert_eq!(pad_right("abcd", 3), "abcd");
    assert_eq!(repeat('-', 3), "---");
    assert_eq!(repeat('-', 0), "");
}

fn lap(at: u64, text: &str) -> Entry<()> {
    Entry { at, text: text.to_string(), duration: () }
}

#[test]
fn sorting_keeps_equals_in_order() {
    let out = sort_descending(vec![lap(1, "a"), lap(3, "b"), lap(1, "c"), lap(3, "d")]);
    let tags: Vec<String> = out.into_iter().map(|e| e.text).collect();
    assert_eq!(tags, vec!["b", "d", "a", "c"]);
}

#[test]
fn words_and_white_space() {
    let s = chars_of(" a\tbc \u{2003}d ");
    let words: Vec<String> = split_words(&s).iter().map(|w| string_of(w)).collect();
    assert_eq!(words, vec!["a", "bc", "d"]);
    assert_eq!(string_of(&trim(&s)), "a\tbc \u{2003}d");
    assert_eq!(join_strings(&words, ", "), "a, bc, d");
    assert_eq!(join_strings(&Vec::new(), ", "), "");
    assert!(same_str("é", "é") && !same_str("é", "e"));
    assert!(same(&['a'], &['a']) && !same(&['a'], &['a', 'b']));
}
