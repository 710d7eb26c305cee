use youstat::substring::Substring;
use youstat::text::{chars_of, has_prefix, join_range, matches_at, same_text, text_of};

#[test]
fn substring_drops_leading_characters() {
    assert_eq!("Watched Song".substring(8), "Song");
    assert_eq!("Watched Song".to_string().substring(8), "Song");
    assert_eq!("abc".substring(0), "abc");
    assert_eq!("abc".substring(3), "");
}

#[test]
fn substring_past_the_end_is_empty() {
    assert_eq!("abc".substring(4), "");
    assert_eq!("".substring(8), "");
    assert_eq!(String::new().substring(usize::MAX), "");
}

#[test]
fn substring_counts_characters_not_bytes() {
    assert_eq!("héllo wörld".substring(7), "örld");
    assert_eq!("日本語のタイトル".to_string().substring(3), "のタイトル");
}

#[test]
fn text_and_characters_go_back_and_forth() {
    for text in ["", "a", "héllo", "a b\tc", "日本語"] {
        let chars = chars_of(text);
        assert_eq!(chars, text.chars().collect::<Vec<char>>());
        assert_eq!(text_of(&chars), text);
    }
}

#[test]
fn same_text_compares_characters() {
    assert!(same_text("", ""));
    assert!(same_text("YouTube Music", "YouTube Music"));
    assert!(!same_text("YouTube Music", "YouTube Music "));
    assert!(!same_text("YouTube Music", "YouTube music"));
    assert!(!same_text("a", ""));
}

#[test]
fn patterns_are_found_where_they_stand() {
    let text = chars_of("https://host");
    assert!(has_prefix(&text, &chars_of("https://")));
    assert!(has_prefix(&text, &chars_of("")));
    assert!(!has_prefix(&text, &chars_of("http://")));
    assert!(!has_prefix(&chars_of("http"), &chars_of("https://")));
    assert!(matches_at(&text, 8, &chars_of("host")));
    assert!(!matches_at(&text, 9, &chars_of("host")));
    assert!(matches_at(&text, 12, &chars_of("")));
    assert!(!matches_at(&text, 13, &chars_of("")));
    assert!(!matches_at(&text, usize::MAX, &chars_of("h")));
}

#[test]
fn join_range_puts_separators_between_neighbours() {
    let parts: Vec<String> = ["a", "b", "", "d"].iter().map(|p| p.to_string()).collect();
    assert_eq!(join_range(&parts, 0, 4, ','), "a,b,,d");
    assert_eq!(join_range(&parts, 1, 2, ','), "b");
    assert_eq!(join_range(&parts, 2, 2, ','), "");
    assert_eq!(join_range(&parts, 2, 4, ';'), ";d");
}
