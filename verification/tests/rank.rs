use youstat::parser::{Artist, Track};
use youstat::rank::{
    arrange, compare_names, goes_first, occurence_sort, position, tally, top, NameOrder,
    RankedEntry,
};
use youstat::text::chars_of;

fn artists(names: &[&str]) -> Vec<Artist> {
    names.iter().map(|n| Artist(n.to_string())).collect()
}

fn lines(ranked: &Vec<RankedEntry<Artist>>) -> Vec<(String, usize)> {
    ranked.iter().map(|e| (e.identity.0.clone(), e.count)).collect()
}

#[test]
fn more_plays_rank_higher() {
    let pairs = [("A", "x"), ("B", "y"), ("A", "z")];
    let names: Vec<Artist> = pairs.iter().map(|p| Artist(p.0.to_string())).collect();
    let titles: Vec<Track> = pairs.iter().map(|p| Track(p.1.to_string())).collect();
    let ranked = occurence_sort(names);
    assert_eq!(lines(&ranked), vec![("A".to_string(), 2), ("B".to_string(), 1)]);
    let songs = occurence_sort(titles);
    let songs: Vec<(String, usize)> = songs.iter().map(|e| (e.identity.0.clone(), e.count)).collect();
    assert_eq!(
        songs,
        vec![("x".to_string(), 1), ("y".to_string(), 1), ("z".to_string(), 1)]
    );
}

#[test]
fn equal_counts_go_by_name() {
    let ranked = occurence_sort(artists(&["b", "a", "c", "b", "a", "c", "d"]));
    assert_eq!(
        lines(&ranked),
        vec![
            ("a".to_string(), 2),
            ("b".to_string(), 2),
            ("c".to_string(), 2),
            ("d".to_string(), 1)
        ]
    );
}

#[test]
fn ranking_does_not_depend_on_the_order_of_plays() {
    let one = occurence_sort(artists(&["x", "y", "z", "y", "x", "y"]));
    let other = occurence_sort(artists(&["y", "y", "z", "x", "y", "x"]));
    assert_eq!(one, other);
    assert_eq!(
        lines(&one),
        vec![("y".to_string(), 3), ("x".to_string(), 2), ("z".to_string(), 1)]
    );
}

#[test]
fn nothing_played_gives_an_empty_ranking() {
    assert!(occurence_sort(artists(&[])).is_empty());
}

#[test]
fn names_are_ordered_as_strings_are() {
    let words = ["", "a", "A", "ab", "abc", "b", "é", "z", "Zebra", "\u{10ffff}", "a b", "a\u{0}"];
    for x in words {
        for y in words {
            let expected = if x < y {
                NameOrder::Before
            } else if x == y {
                NameOrder::Same
            } else {
                NameOrder::After
            };
            assert_eq!(compare_names(x, &chars_of(y)), expected, "{:?} {:?}", x, y);
        }
    }
}

#[test]
fn tally_counts_each_identity_once() {
    let (identities, counts) = tally(artists(&["a", "b", "a", "a"]));
    let mut found: Vec<(String, usize)> =
        identities.iter().map(|a| a.0.clone()).zip(counts.iter().copied()).collect();
    found.sort();
    assert_eq!(found, vec![("a".to_string(), 3), ("b".to_string(), 1)]);
}

#[test]
fn position_finds_a_name() {
    let list = artists(&["x", "y"]);
    assert_eq!(position(&list, &chars_of("y")), Some(1));
    assert_eq!(position(&list, &chars_of("z")), None);
}

#[test]
fn arrange_orders_by_count_then_name() {
    let ranked = arrange(artists(&["m", "k", "z"]), vec![1, 1, 5]);
    assert_eq!(
        lines(&ranked),
        vec![("z".to_string(), 5), ("k".to_string(), 1), ("m".to_string(), 1)]
    );
}

#[test]
fn greater_count_goes_first() {
    let other = RankedEntry { identity: Artist("b".to_string()), count: 2 };
    assert!(goes_first(&chars_of("z"), 3, &other));
    assert!(!goes_first(&chars_of("a"), 1, &other));
    assert!(goes_first(&chars_of("a"), 2, &other));
    assert!(!goes_first(&chars_of("b"), 2, &other));
    assert!(!goes_first(&chars_of("c"), 2, &other));
}

#[test]
fn top_shows_max_entries_and_not_one_more() {
    let ranked = occurence_sort(artists(&["a", "a", "a", "b", "b", "c"]));
    assert_eq!(top(ranked.clone(), 0).len(), 0);
    assert_eq!(lines(&top(ranked.clone(), 1)), vec![("a".to_string(), 3)]);
    assert_eq!(
        lines(&top(ranked.clone(), 2)),
        vec![("a".to_string(), 3), ("b".to_string(), 2)]
    );
    assert_eq!(top(ranked.clone(), 3), ranked);
    assert_eq!(top(ranked.clone(), u64::MAX), ranked);
}
