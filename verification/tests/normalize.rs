use youstat::normalize::{
    all_ascii, collapse, fix_artist_name, keep_before_dash, recase, remove_marker, to_lower,
    to_upper, upper_chars, whitespace,
};
use youstat::text::{chars_of, text_of};

fn name(raw: &str) -> String {
    fix_artist_name(raw.to_string())
}

#[test]
fn upper_case_name_gets_title_case() {
    assert_eq!(name("OFFICIAL ARTIST"), "Official Artist");
}

#[test]
fn marker_after_a_space_leaves_that_space() {
    let once = name("OFFICIAL ARTIST VEVO");
    assert_eq!(once, "Official Artist ");
    assert_eq!(name(&once), "Official Artist");
}

#[test]
fn marker_glued_to_a_name_is_taken_out() {
    assert_eq!(name("officialartistVEVO"), "Officialartist");
    assert_eq!(name("TaylorSwiftVEVO"), "Taylorswift");
}

#[test]
fn topic_after_a_dash_is_cut() {
    let raw = chars_of("Some Channel - Topic");
    let head = keep_before_dash(&raw);
    assert_eq!(text_of(&head), "Some Channel ");
    assert_eq!(text_of(&collapse(&head)), "Some Channel");
    assert_eq!(name("Some Channel - Topic"), "Some Channel");
}

#[test]
fn only_the_first_dash_counts() {
    assert_eq!(text_of(&keep_before_dash(&chars_of("a-b-c"))), "a");
    assert_eq!(text_of(&keep_before_dash(&chars_of("-abc"))), "");
    assert_eq!(text_of(&keep_before_dash(&chars_of("abc"))), "abc");
    assert_eq!(name("AC-DC"), "Ac");
}

#[test]
fn irregular_whitespace_is_collapsed() {
    assert_eq!(name("  taylor   swift  "), "Taylor Swift");
    assert_eq!(name("taylor\tswift"), "Taylor Swift");
    assert_eq!(name("taylor\u{a0}\n swift"), "Taylor Swift");
    assert_eq!(text_of(&collapse(&chars_of("   "))), "");
    assert_eq!(text_of(&collapse(&chars_of(" a  b c "))), "a b c");
}

#[test]
fn collapse_agrees_with_split_whitespace() {
    for raw in ["", " ", "a", " a", "a ", "a  b", "\ta\u{2003}b\r\n", "x y z", "  one two  "] {
        let expected = raw.split_whitespace().collect::<Vec<&str>>().join(" ");
        assert_eq!(text_of(&collapse(&chars_of(raw))), expected);
    }
}

#[test]
fn whitespace_is_the_unicode_property() {
    let mut code: u32 = 0;
    while code <= 0x10ffff {
        if let Some(c) = char::from_u32(code) {
            assert_eq!(whitespace(c), c.is_whitespace(), "U+{:04X}", code);
        }
        code += 1;
    }
}

#[test]
fn marker_is_removed_from_the_left_without_overlap() {
    assert_eq!(text_of(&remove_marker(&chars_of("VEVO"))), "");
    assert_eq!(text_of(&remove_marker(&chars_of("VEVEVOO"))), "VEO");
    assert_eq!(text_of(&remove_marker(&chars_of("VVEVOEVO"))), "VEVO");
    assert_eq!(text_of(&remove_marker(&chars_of("aVEVObVEVO"))), "ab");
    assert_eq!(text_of(&remove_marker(&chars_of("vevo VEV"))), "vevo VEV");
    for raw in ["VEVOVEVO", "VEVEVO", "xVEVOy", "VEV", "OVEVOVEV"] {
        assert_eq!(text_of(&remove_marker(&chars_of(raw))), raw.replace("VEVO", ""));
    }
}

#[test]
fn lower_case_marker_stays() {
    assert_eq!(name("a vevo b"), "A Vevo B");
}

#[test]
fn ascii_case_maps_agree_with_std() {
    let mut code: u32 = 0;
    while code <= 0x10ffff {
        if let Some(c) = char::from_u32(code) {
            assert_eq!(to_upper(c), c.to_ascii_uppercase());
            assert_eq!(to_lower(c), c.to_ascii_lowercase());
        }
        code += 1;
    }
}

#[test]
fn ascii_names_are_upper_cased_as_std_does() {
    let mut all = String::new();
    let mut code: u8 = 0;
    while code < 128 {
        all.push(code as char);
        code += 1;
    }
    let chars = chars_of(&all);
    assert!(all_ascii(&chars));
    assert_eq!(text_of(&upper_chars(&chars)), all.to_uppercase());
}

#[test]
fn other_names_go_through_the_unicode_mappings() {
    let chars = chars_of("beyoncé");
    assert!(!all_ascii(&chars));
    assert_eq!(text_of(&upper_chars(&chars)), "BEYONCÉ");
    assert_eq!(text_of(&upper_chars(&chars_of("tschüß"))), "TSCHÜSS");
    assert_eq!(name("beyoncé"), "BeyoncÉ");
}

#[test]
fn recasing_keeps_word_heads_in_upper_case() {
    assert_eq!(text_of(&recase(&chars_of("OFFICIAL ARTIST"))), "Official Artist");
    assert_eq!(text_of(&recase(&chars_of("A  B"))), "A  B");
    assert_eq!(text_of(&recase(&chars_of("ab cd"))), "Ab Cd");
    assert_eq!(text_of(&recase(&chars_of(""))), "");
}

#[test]
fn empty_and_bare_names() {
    assert_eq!(name(""), "");
    assert_eq!(name("-"), "");
    assert_eq!(name("VEVO"), "");
    assert_eq!(name(" - Topic"), "");
}

#[test]
fn normalizing_twice_changes_nothing_more() {
    for raw in [
        "OFFICIAL ARTIST",
        "the  BEATLES - Topic",
        "officialartistVEVO",
        "Some Channel - Topic",
        "a vevo b",
        "VVEVOEVO",
        "",
        "x",
        "Daft   Punk",
    ] {
        let once = name(raw);
        assert_eq!(name(&once), once, "{:?}", raw);
    }
}

#[test]
fn marker_between_words_breaks_the_spacing() {
    let once = name("A VEVO B");
    assert_eq!(once, "A  B");
    assert_eq!(name(&once), "A B");
}
