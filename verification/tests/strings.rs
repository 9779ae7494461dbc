use dmenu::config::Config;
use dmenu::line::is_word_delim;
use dmenu::menu::tokenize;
use dmenu::strings::{cistrstr, cistrstr_checked, cistrstr_lowered, find_bytes, strncasecmp, strncmp, strstr};

#[test]
fn strncmp_compares_prefixes() {
    assert!(strncmp(b"abc", b"abd", 2));
    assert!(!strncmp(b"abc", b"abd", 3));
    assert!(strncmp(b"hello", b"help", 3));
}

#[test]
fn strncmp_short_strings_compare_whole() {
    assert!(!strncmp(b"ab", b"abc", 5));
    assert!(strncmp(b"ab", b"ab", 5));
    assert!(!strncmp(b"", b"a", 1));
    assert!(strncmp(b"", b"", 0));
}

#[test]
fn strncmp_is_symmetric() {
    assert_eq!(strncmp(b"abc", b"abx", 3), strncmp(b"abx", b"abc", 3));
    assert_eq!(strncmp(b"ab", b"abc", 2), strncmp(b"abc", b"ab", 2));
}

#[test]
fn strncasecmp_ignores_ascii_case() {
    assert!(strncasecmp(b"HeLLo", b"hello", 5));
    assert!(!strncasecmp(b"Hi", b"ho", 2));
    assert!(strncasecmp(b"ABC", b"abd", 2));
    assert!(!strncasecmp(b"ab", b"ABC", 4));
}

#[test]
fn strstr_returns_rest_from_first_occurrence() {
    assert_eq!(strstr(b"hello world", b"o w"), Some(&b"o world"[..]));
    assert_eq!(strstr(b"banana", b"an"), Some(&b"anana"[..]));
    assert_eq!(strstr(b"abc", b""), Some(&b"abc"[..]));
    assert_eq!(strstr(b"abc", b"x"), None);
    assert_eq!(strstr(b"ab", b"abc"), None);
}

#[test]
fn find_bytes_finds_first_position() {
    assert_eq!(find_bytes(b"abcabc", b"ca"), Some(2));
    assert_eq!(find_bytes(b"abc", b"abcd"), None);
}

#[test]
fn cistrstr_lowercases_both_sides() {
    assert_eq!(cistrstr(b"Hello World", b"WORLD"), Some(&b"World"[..]));
    assert_eq!(cistrstr(b"Hello", b"xyz"), None);
    assert_eq!(cistrstr("ÄBC".as_bytes(), "äb".as_bytes()), Some("ÄBC".as_bytes()));
}

#[test]
fn cistrstr_checked_reports_positions_off_a_character() {
    // U+0130 lowercases to two characters, three bytes: positions found in
    // the lowercase no longer line up with the string itself.
    let hay = "\u{130}\u{130}x";
    assert!(cistrstr_checked(hay.as_bytes(), b"x").is_none());
    let hay2 = "\u{130}x";
    assert_eq!(cistrstr_checked(hay2.as_bytes(), b"x"), Some(Some(&b""[..])));
    assert_eq!(cistrstr_checked(b"ABC", b"b"), Some(Some(&b"BC"[..])));
    assert_eq!(cistrstr_checked(b"ABC", b"z"), Some(None));
}

#[test]
fn word_delimiter_of_default_config_is_space() {
    let config = Config::default();
    assert!(is_word_delim(b' ', &config));
    assert!(!is_word_delim(b'a', &config));
    assert!(!is_word_delim(b'/', &config));
}

#[test]
fn tokenize_splits_on_spaces_and_drops_empty_words() {
    let t = tokenize(b"  foo bar  baz ");
    assert_eq!(t, vec![b"foo".to_vec(), b"bar".to_vec(), b"baz".to_vec()]);
    assert!(tokenize(b"   ").is_empty());
    assert!(tokenize(b"").is_empty());
}

#[test]
fn cistrstr_lowered_cuts_the_string_where_the_lowercase_matches() {
    assert_eq!(cistrstr_lowered(b"Hello World", b"hello world", b"world"), Some(&b"World"[..]));
    assert_eq!(cistrstr_lowered(b"ABC", b"abc", b"x"), None);
    // U+0130 is two bytes and lowercases to three: the match at 3 in the
    // lowercase is the end of the string
    let hay = "\u{130}x";
    let lower = "i\u{307}x";
    assert_eq!(cistrstr_lowered(hay.as_bytes(), lower.as_bytes(), b"x"), Some(&b""[..]));
}
