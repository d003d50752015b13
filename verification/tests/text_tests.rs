use openapi_mcp_bridge::text::is_white_space;
use openapi_mcp_bridge::text::{
    chars_of, decimal_of, ends_with, split_chars, split_once, starts_with, string_of, trim,
    trim_end_matches, underscore_dashes,
};

fn st(v: &[char]) -> String {
    v.iter().collect()
}

#[test]
fn split_keeps_empty_pieces() {
    let pieces = split_chars(&chars_of("/terms/{id}/"), '/');
    let pieces: Vec<String> = pieces.iter().map(|p| st(p)).collect();
    assert_eq!(pieces, vec!["", "terms", "{id}", ""]);
    let one = split_chars(&chars_of(""), '/');
    assert_eq!(one.len(), 1);
    assert!(one[0].is_empty());
}

#[test]
fn trim_removes_unicode_white_space() {
    assert_eq!(st(&trim(&chars_of(" \t Accept \u{3000}\n"))), "Accept");
    assert_eq!(st(&trim(&chars_of("   "))), "");
    assert_eq!(st(&trim(&chars_of("a b"))), "a b");
}

#[test]
fn trailing_slashes_are_removed() {
    assert_eq!(st(&trim_end_matches(&chars_of("https://x.io///"), '/')), "https://x.io");
    assert_eq!(st(&trim_end_matches(&chars_of("///"), '/')), "");
}

#[test]
fn prefixes_and_suffixes() {
    assert!(starts_with(&chars_of("https://a"), &chars_of("https://")));
    assert!(!starts_with(&chars_of("http"), &chars_of("https://")));
    assert!(ends_with(&chars_of("spec.yml"), &chars_of(".yml")));
    assert!(!ends_with(&chars_of("spec.json"), &chars_of(".yml")));
}

#[test]
fn split_once_at_first_colon() {
    let (k, v) = split_once(&chars_of("Accept: a:b"), ':').unwrap();
    assert_eq!(st(&k), "Accept");
    assert_eq!(st(&v), " a:b");
    assert!(split_once(&chars_of("no colon"), ':').is_none());
}

#[test]
fn dashes_become_underscores() {
    assert_eq!(st(&underscore_dashes(&chars_of("list-all-items"))), "list_all_items");
}

#[test]
fn decimal_numerals() {
    assert_eq!(st(&decimal_of(0)), "0");
    assert_eq!(st(&decimal_of(7)), "7");
    assert_eq!(st(&decimal_of(10)), "10");
    assert_eq!(st(&decimal_of(4096)), "4096");
}

#[test]
fn string_of_keeps_characters() {
    assert_eq!(string_of(&chars_of("héllo→")), "héllo→");
}

#[test]
fn white_space_is_the_unicode_set() {
    for c in ['\t', '\n', '\u{B}', '\u{C}', '\r', ' ', '\u{85}', '\u{A0}', '\u{1680}', '\u{2000}',
              '\u{2005}', '\u{200A}', '\u{2028}', '\u{2029}', '\u{202F}', '\u{205F}', '\u{3000}'] {
        assert!(is_white_space(c), "{:?}", c);
        assert!(c.is_whitespace());
    }
    for c in ['a', '\u{0}', '\u{8}', '\u{E}', '\u{200B}', '\u{FEFF}', '_', '\u{1F}'] {
        assert!(!is_white_space(c), "{:?}", c);
        assert_eq!(c.is_whitespace(), false);
    }
    for cp in 0u32..0x3100 {
        if let Some(c) = char::from_u32(cp) {
            assert_eq!(is_white_space(c), c.is_whitespace(), "{:x}", cp);
        }
    }
}
