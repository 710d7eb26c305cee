use youstat::parser::{Artist, Track};
use youstat::pipeline::Report;
use youstat::rank::{occurence_sort, RankedEntry};
use youstat::render::{push_decimal, render, render_line, render_ranking};

fn decimal(n: u64) -> String {
    let mut out: Vec<char> = Vec::new();
    push_decimal(n, &mut out);
    out.into_iter().collect()
}

fn sample() -> Report {
    let artists = ["a", "b", "a", "c", "a", "b"].iter().map(|n| Artist(n.to_string())).collect();
    let tracks = ["s", "t", "s", "u", "v", "t"].iter().map(|n| Track(n.to_string())).collect();
    Report { artists: occurence_sort(artists), tracks: occurence_sort(tracks) }
}

#[test]
fn numbers_are_written_in_decimal() {
    for n in [0u64, 1, 9, 10, 11, 99, 100, 2023, 1234567890, u64::MAX - 1, u64::MAX] {
        assert_eq!(decimal(n), n.to_string());
    }
}

#[test]
fn decimal_is_appended_to_what_is_there() {
    let mut out = vec!['x'];
    push_decimal(40, &mut out);
    assert_eq!(out, vec!['x', '4', '0']);
}

#[test]
fn line_holds_place_name_and_count() {
    assert_eq!(render_line(1, "Artist1", 2), "1. Artist1 - 2 times");
    assert_eq!(render_line(12, "", 0), "12.  - 0 times");
    assert_eq!(render_line(3, "A - B", 100), "3. A - B - 100 times");
}

#[test]
fn places_count_from_one() {
    let ranked = vec![
        RankedEntry { identity: Artist("x".to_string()), count: 5 },
        RankedEntry { identity: Artist("y".to_string()), count: 4 },
    ];
    let mut lines = vec!["head".to_string()];
    render_ranking(&ranked, 10, &mut lines);
    assert_eq!(
        lines,
        vec!["head".to_string(), "1. x - 5 times".to_string(), "2. y - 4 times".to_string()]
    );
}

#[test]
fn report_shows_max_lines_per_ranking() {
    let lines = render(&sample(), 2023, 2);
    assert_eq!(
        lines,
        vec![
            "YouTube Music Statistics for 2023".to_string(),
            ">------- Top Artists -------<".to_string(),
            "1. a - 3 times".to_string(),
            "2. b - 2 times".to_string(),
            "".to_string(),
            ">------- Top Songs -------<".to_string(),
            "1. s - 2 times".to_string(),
            "2. t - 2 times".to_string(),
        ]
    );
}

#[test]
fn report_with_max_zero_shows_headings_only() {
    let lines = render(&sample(), 1999, 0);
    assert_eq!(
        lines,
        vec![
            "YouTube Music Statistics for 1999".to_string(),
            ">------- Top Artists -------<".to_string(),
            "".to_string(),
            ">------- Top Songs -------<".to_string(),
        ]
    );
}

#[test]
fn report_with_large_max_shows_everything() {
    let lines = render(&sample(), 2023, 10);
    assert_eq!(lines.len(), 4 + 3 + 4);
    assert_eq!(lines[4], "3. c - 1 times");
    assert_eq!(lines[10], "4. v - 1 times");
    assert_eq!(render(&sample(), 2023, u64::MAX), lines);
}
