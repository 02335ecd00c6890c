use labworks::decimal::{decimal_padded, decimal_string};
use labworks::storage::parse_tags;
use labworks::text::{eq_ignore_ascii_case, is_whitespace, split_trimmed};

#[test]
fn tags_are_split_on_commas_trimmed_and_blank_ones_dropped() {
    assert_eq!(parse_tags(" rust, notes ,,  work  ,"), vec!["rust", "notes", "work"]);
    assert_eq!(parse_tags(""), Vec::<String>::new());
    assert_eq!(parse_tags(" , ,"), Vec::<String>::new());
    assert_eq!(parse_tags("single"), vec!["single"]);
}

#[test]
fn tags_keep_inner_spaces_and_unicode() {
    assert_eq!(parse_tags("вечір,  new year ,\u{3000}дім\u{a0}"), vec!["вечір", "new year", "дім"]);
}

#[test]
fn tokens_match_std_split_trim_filter() {
    let inputs = ["a,b", ",a,,b,", "\t x \n, y\r", "  ", "x y,z", "\u{2003}q\u{2003},\u{85}"];
    for s in inputs {
        let expected: Vec<String> = s
            .split(',')
            .map(|t| t.trim().to_string())
            .filter(|t| !t.is_empty())
            .collect();
        assert_eq!(split_trimmed(s, ','), expected, "input {s:?}");
    }
}

#[test]
fn whitespace_agrees_with_std_on_every_char_below_0x3100() {
    for code in 0u32..0x3100 {
        if let Some(c) = char::from_u32(code) {
            assert_eq!(is_whitespace(c), c.is_whitespace(), "char {code:#x}");
        }
    }
}

#[test]
fn decimal_rendering_matches_format() {
    for n in [0u128, 7, 10, 99, 100, 12345, u64::MAX as u128, u128::MAX] {
        assert_eq!(decimal_string(n), format!("{n}"));
        assert_eq!(decimal_padded(n, 3), format!("{n:03}"));
    }
    assert_eq!(decimal_padded(5, 3), "005");
    assert_eq!(decimal_padded(42, 0), "42");
    assert_eq!(decimal_padded(1234, 3), "1234");
}

#[test]
fn ascii_case_is_ignored_only_for_ascii_letters() {
    assert!(eq_ignore_ascii_case("DaTa", "data"));
    assert!(!eq_ignore_ascii_case("dat", "data"));
    assert!(!eq_ignore_ascii_case("ДАТА", "дата"));
    assert!(eq_ignore_ascii_case("", ""));
}

#[test]
fn tags_joined_by_commas_parse_back() {
    for s in [" a , b,,c ", "", " , ", "x", "Σ σ, \u{2009}t\u{2009}"] {
        let tags = parse_tags(s);
        assert_eq!(parse_tags(&tags.join(",")), tags, "input {s:?}");
    }
}
