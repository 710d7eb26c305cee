//! Counting plays and ranking what was played.
//!
//! A ranking lists every identity that was played with the number of its
//! plays, the most played first. Identities with equal counts stand in the
//! order of their names, character by character.

use vstd::prelude::*;
use crate::parser::{Artist, Track};
use crate::text::chars_of;

verus! {

/// Something that is counted by its name: two values with the same name are
/// the same identity.
pub trait Identity {
    /// The name that identifies the value.
    spec fn name(&self) -> Seq<char>;

    /// The name as text.
    fn text(&self) -> (text: &str)
        ensures
            text@ == self.name(),
    ;
}

impl Identity for Artist {
    open spec fn name(&self) -> Seq<char> {
        self@
    }

    fn text(&self) -> (text: &str) {
        self.0.as_str()
    }
}

impl Identity for Track {
    open spec fn name(&self) -> Seq<char> {
        self@
    }

    fn text(&self) -> (text: &str) {
        self.0.as_str()
    }
}

/// One line of a ranking.
#[derive(Clone, Debug, PartialEq, Eq)]
pub struct RankedEntry<T> {
    pub identity: T,
    pub count: usize,
}

/// The names of `items`, in order.
pub open spec fn names_of<T: Identity>(items: Seq<T>) -> Seq<Seq<char>> {
    items.map_values(|item: T| item.name())
}

/// Name and count of each line of `ranked`, in order.
pub open spec fn ranking_of<T: Identity>(ranked: Seq<RankedEntry<T>>) -> Seq<(Seq<char>, nat)> {
    ranked.map_values(|entry: RankedEntry<T>| (entry.identity.name(), entry.count as nat))
}

/// How often `name` stands in `plays`.
pub open spec fn occurrences(plays: Seq<Seq<char>>, name: Seq<char>) -> nat
    decreases plays.len(),
{
    if plays.len() == 0 {
        0
    } else {
        occurrences(plays.drop_first(), name) + if plays[0] == name {
            1nat
        } else {
            0nat
        }
    }
}

/// Whether `a` stands before `b` in the order of names: at the first place
/// where they differ `a` has the smaller character, or `a` ends there and
/// `b` goes on.
pub open spec fn precedes(a: Seq<char>, b: Seq<char>) -> bool
    decreases a.len(),
{
    if b.len() == 0 {
        false
    } else if a.len() == 0 {
        true
    } else if a[0] != b[0] {
        a[0] < b[0]
    } else {
        precedes(a.drop_first(), b.drop_first())
    }
}

/// Whether line `a` stands above line `b`: by the greater count, and between
/// equal counts by the name.
pub open spec fn ranks_before(a: (Seq<char>, nat), b: (Seq<char>, nat)) -> bool {
    a.1 > b.1 || (a.1 == b.1 && precedes(a.0, b.0))
}

/// Whether each line of `lines` stands above all that follow it.
pub open spec fn in_rank_order(lines: Seq<(Seq<char>, nat)>) -> bool {
    forall|i: int, j: int|
        0 <= i < j < lines.len() ==> ranks_before(#[trigger] lines[i], #[trigger] lines[j])
}

/// Whether `ranked` is the ranking of `plays`: each line carries the number
/// of plays of its name, which is not zero; every name played has a line;
/// and each line stands above all that follow, so that no name has two.
pub open spec fn is_ranking(ranked: Seq<(Seq<char>, nat)>, plays: Seq<Seq<char>>) -> bool {
    &&& forall|i: int|
        0 <= i < ranked.len() ==> (#[trigger] ranked[i]).1 == occurrences(plays, ranked[i].0)
            && ranked[i].1 > 0
    &&& forall|name: Seq<char>| #[trigger]
        occurrences(plays, name) > 0 ==> exists|i: int|
            0 <= i < ranked.len() && (#[trigger] ranked[i]).0 == name
    &&& in_rank_order(ranked)
}

/// How one name stands to another.
#[derive(Clone, Copy, Debug, PartialEq, Eq, Structural)]
pub enum NameOrder {
    Before,
    Same,
    After,
}

/// How `a` stands to `b` in the order of names.
pub open spec fn name_order(a: Seq<char>, b: Seq<char>) -> NameOrder {
    if a == b {
        NameOrder::Same
    } else if precedes(a, b) {
        NameOrder::Before
    } else {
        NameOrder::After
    }
}

proof fn lemma_precedes_irreflexive(a: Seq<char>)
    ensures
        !precedes(a, a),
    decreases a.len(),
{
    if a.len() > 0 {
        lemma_precedes_irreflexive(a.drop_first());
    }
}

proof fn lemma_precedes_total(a: Seq<char>, b: Seq<char>)
    ensures
        a == b || precedes(a, b) || precedes(b, a),
    decreases a.len(),
{
    if a.len() == 0 || b.len() == 0 {
        if a.len() == 0 && b.len() == 0 {
            assert(a =~= b);
        }
    } else if a[0] == b[0] {
        lemma_precedes_total(a.drop_first(), b.drop_first());
        if a.drop_first() == b.drop_first() {
            assert(a =~= seq![a[0]] + a.drop_first());
            assert(b =~= seq![b[0]] + b.drop_first());
        }
    }
}

proof fn lemma_precedes_transitive(a: Seq<char>, b: Seq<char>, c: Seq<char>)
    requires
        precedes(a, b),
        precedes(b, c),
    ensures
        precedes(a, c),
    decreases a.len(),
{
    if a.len() > 0 && a[0] == b[0] && b[0] == c[0] {
        lemma_precedes_transitive(a.drop_first(), b.drop_first(), c.drop_first());
    }
}

proof fn lemma_ranks_total(a: (Seq<char>, nat), b: (Seq<char>, nat))
    requires
        a.0 != b.0,
    ensures
        ranks_before(a, b) || ranks_before(b, a),
{
    lemma_precedes_total(a.0, b.0);
}

proof fn lemma_ranks_transitive(a: (Seq<char>, nat), b: (Seq<char>, nat), c: (Seq<char>, nat))
    requires
        ranks_before(a, b),
        ranks_before(b, c),
    ensures
        ranks_before(a, c),
{
    if a.1 == b.1 && b.1 == c.1 {
        lemma_precedes_transitive(a.0, b.0, c.0);
    }
}

/// Compares the name `text` with the name whose characters are `key`.
pub fn compare_names(text: &str, key: &Vec<char>) -> (order: NameOrder)
    ensures
        order == name_order(text@, key@),
{
    let chars = chars_of(text);
    let mut i: usize = 0;
    assert(chars@.skip(0) =~= chars@ && key@.skip(0) =~= key@);
    while i < chars.len() && i < key.len()
        invariant
            i <= chars.len(),
            i <= key.len(),
            chars@ == text@,
            chars@.take(i as int) == key@.take(i as int),
            precedes(chars@, key@) == precedes(chars@.skip(i as int), key@.skip(i as int)),
        decreases chars.len() - i,
    {
        let c = chars[i];
        let k = key[i];
        assert(chars@.skip(i as int)[0] == c && key@.skip(i as int)[0] == k);
        if c != k {
            return if c < k {
                NameOrder::Before
            } else {
                NameOrder::After
            };
        }
        assert(chars@.skip(i as int).drop_first() =~= chars@.skip(i + 1));
        assert(key@.skip(i as int).drop_first() =~= key@.skip(i + 1));
        assert(chars@.take(i + 1) =~= chars@.take(i as int).push(c));
        assert(key@.take(i + 1) =~= key@.take(i as int).push(k));
        i += 1;
    }
    if chars.len() == key.len() {
        assert(chars@.take(i as int) =~= chars@ && key@.take(i as int) =~= key@);
        NameOrder::Same
    } else if i == chars.len() {
        assert(chars@.skip(i as int).len() == 0 && key@.skip(i as int).len() > 0);
        NameOrder::Before
    } else {
        assert(key@.skip(i as int).len() == 0);
        NameOrder::After
    }
}

/// Whether `keys` and `counts` are the tally of `plays`: no name twice, each
/// with the number of its plays, and no name played left out.
pub open spec fn is_tally(keys: Seq<Seq<char>>, counts: Seq<usize>, plays: Seq<Seq<char>>) -> bool {
    &&& keys.len() == counts.len()
    &&& keys.no_duplicates()
    &&& forall|j: int|
        0 <= j < keys.len() ==> (#[trigger] counts[j]) == occurrences(plays, keys[j]) && counts[j]
            > 0
    &&& forall|name: Seq<char>| #[trigger] occurrences(plays, name) > 0 ==> keys.contains(name)
}

proof fn lemma_occurrences_bound(plays: Seq<Seq<char>>, name: Seq<char>)
    ensures
        occurrences(plays, name) <= plays.len(),
    decreases plays.len(),
{
    if plays.len() > 0 {
        lemma_occurrences_bound(plays.drop_first(), name);
    }
}

proof fn lemma_occurrences_step(plays: Seq<Seq<char>>, from: int, name: Seq<char>)
    requires
        0 <= from < plays.len(),
    ensures
        occurrences(plays.skip(from), name) == occurrences(plays.skip(from + 1), name) + if plays[from]
            == name {
            1nat
        } else {
            0nat
        },
{
    assert(plays.skip(from).drop_first() =~= plays.skip(from + 1));
}

/// Looks for an identity named `key` among `identities`.
pub fn position<T: Identity>(identities: &Vec<T>, key: &Vec<char>) -> (found: Option<usize>)
    ensures
        match found {
            Some(j) => j < identities.len() && names_of(identities@)[j as int] == key@,
            None => !names_of(identities@).contains(key@),
        },
{
    let mut j: usize = 0;
    while j < identities.len()
        invariant
            j <= identities.len(),
            forall|i: int| 0 <= i < j ==> names_of(identities@)[i] != key@,
        decreases identities.len() - j,
    {
        if compare_names(identities[j].text(), key) == NameOrder::Same {
            return Some(j);
        }
        j += 1;
    }
    None
}

/// Counts the plays of each identity. The identities come out in no
/// particular order, each once, with their counts beside them.
pub fn tally<T: Identity>(items: Vec<T>) -> (counted: (Vec<T>, Vec<usize>))
    ensures
        is_tally(names_of(counted.0@), counted.1@, names_of(items@)),
{
    let ghost plays = names_of(items@);
    let mut items = items;
    let total = items.len();
    assert(plays.len() == total);
    let mut identities: Vec<T> = Vec::new();
    let mut counts: Vec<usize> = Vec::new();
    assert(plays.take(plays.len() as int) =~= plays);
    while items.len() > 0
        invariant
            items.len() <= plays.len() <= usize::MAX,
            names_of(items@) == plays.take(items.len() as int),
            is_tally(names_of(identities@), counts@, plays.skip(items.len() as int)),
        decreases items.len(),
    {
        let ghost keys = names_of(identities@);
        let ghost old_counts = counts@;
        let ghost done = plays.skip(items.len() as int);
        let ghost from = items.len() - 1;
        assert(names_of(items@)[from] == plays[from]);
        let item = items.pop().unwrap();
        let key = chars_of(item.text());
        assert(key@ == plays[from]);
        assert(names_of(items@) =~= plays.take(from));
        proof {
            assert forall|name: Seq<char>|
                occurrences(plays.skip(from), name) == occurrences(done, name) + if plays[from]
                    == name {
                    1nat
                } else {
                    0nat
                } by {
                lemma_occurrences_step(plays, from, name);
            }
        }
        match position(&identities, &key) {
            Some(j) => {
                proof {
                    lemma_occurrences_bound(done, key@);
                }
                let count = counts[j];
                counts.set(j, count + 1);
                proof {
                    let now = plays.skip(from);
                    assert forall|name: Seq<char>| #[trigger]
                        occurrences(now, name) > 0 implies keys.contains(name) by {
                        if name != key@ {
                            assert(occurrences(done, name) > 0);
                        }
                    }
                }
            },
            None => {
                identities.push(item);
                counts.push(1);
                proof {
                    let now = plays.skip(from);
                    let grown = names_of(identities@);
                    assert(grown =~= keys.push(key@));
                    assert(occurrences(done, key@) == 0) by {
                        if occurrences(done, key@) > 0 {
                            assert(keys.contains(key@));
                        }
                    }
                    assert forall|name: Seq<char>| #[trigger]
                        occurrences(now, name) > 0 implies grown.contains(name) by {
                        if name != key@ {
                            assert(occurrences(done, name) > 0);
                            let i = choose|i: int| 0 <= i < keys.len() && keys[i] == name;
                            assert(grown[i] == name);
                        } else {
                            assert(grown[keys.len() as int] == name);
                        }
                    }
                    assert forall|j: int| 0 <= j < grown.len() implies (#[trigger] counts@[j])
                        == occurrences(now, grown[j]) && counts@[j] > 0 by {
                        if j < keys.len() {
                            assert(grown[j] == keys[j]);
                            assert(counts@[j] == old_counts[j]);
                            assert(keys[j] != key@) by {
                                if keys[j] == key@ {
                                    assert(keys.contains(key@));
                                }
                            }
                        }
                    }
                }
            },
        }
    }
    assert(plays.skip(0) =~= plays);
    (identities, counts)
}

/// Whether an entry named `key` that was played `count` times stands above
/// `other`.
pub fn goes_first<T: Identity>(key: &Vec<char>, count: usize, other: &RankedEntry<T>) -> (first:
    bool)
    ensures
        first == ranks_before((key@, count as nat), (other.identity.name(), other.count as nat)),
{
    proof {
        lemma_precedes_total(key@, other.identity.name());
        lemma_precedes_irreflexive(key@);
        if precedes(key@, other.identity.name()) && precedes(other.identity.name(), key@) {
            lemma_precedes_transitive(key@, other.identity.name(), key@);
        }
    }
    if count != other.count {
        count > other.count
    } else {
        compare_names(other.identity.text(), key) == NameOrder::After
    }
}

/// Name and count side by side, as lines.
pub open spec fn tallied(keys: Seq<Seq<char>>, counts: Seq<usize>) -> Seq<(Seq<char>, nat)> {
    Seq::new(keys.len(), |j: int| (keys[j], counts[j] as nat))
}

/// Whether `a` and `b` are as long as each other and every line of one
/// stands in the other.
pub open spec fn same_lines(a: Seq<(Seq<char>, nat)>, b: Seq<(Seq<char>, nat)>) -> bool {
    &&& a.len() == b.len()
    &&& forall|i: int| 0 <= i < a.len() ==> b.contains(#[trigger] a[i])
    &&& forall|j: int| 0 <= j < b.len() ==> a.contains(#[trigger] b[j])
}

proof fn lemma_insert_keeps_order(
    before: Seq<(Seq<char>, nat)>,
    at: int,
    entry: (Seq<char>, nat),
)
    requires
        0 <= at <= before.len(),
        in_rank_order(before),
        forall|a: int| 0 <= a < at ==> !ranks_before(entry, #[trigger] before[a]),
        at < before.len() ==> ranks_before(entry, before[at]),
        forall|a: int| 0 <= a < before.len() ==> (#[trigger] before[a]).0 != entry.0,
    ensures
        in_rank_order(before.insert(at, entry)),
{
    let after = before.insert(at, entry);
    assert forall|a: int, b: int| 0 <= a < b < after.len() implies ranks_before(
        #[trigger] after[a],
        #[trigger] after[b],
    ) by {
        if b < at {
            assert(after[a] == before[a] && after[b] == before[b]);
        } else if b == at {
            assert(after[a] == before[a]);
            lemma_ranks_total(entry, before[a]);
        } else if a < at {
            assert(after[a] == before[a] && after[b] == before[b - 1]);
        } else if a == at {
            assert(after[b] == before[b - 1]);
            if b - 1 > at {
                lemma_ranks_transitive(entry, before[at], before[b - 1]);
            }
        } else {
            assert(after[a] == before[a - 1] && after[b] == before[b - 1]);
        }
    }
}

proof fn lemma_insert_keeps_lines(
    before: Seq<(Seq<char>, nat)>,
    placed: Seq<(Seq<char>, nat)>,
    at: int,
    entry: (Seq<char>, nat),
)
    requires
        0 <= at <= before.len(),
        same_lines(before, placed),
    ensures
        same_lines(before.insert(at, entry), seq![entry] + placed),
{
    let after = before.insert(at, entry);
    let grown = seq![entry] + placed;
    assert forall|i: int| 0 <= i < after.len() implies grown.contains(#[trigger] after[i]) by {
        if i == at {
            assert(grown[0] == after[i]);
        } else {
            let p = if i < at {
                i
            } else {
                i - 1
            };
            assert(after[i] == before[p]);
            assert(placed.contains(before[p]));
            let j = choose|j: int| 0 <= j < placed.len() && placed[j] == before[p];
            assert(grown[j + 1] == after[i]);
        }
    }
    assert forall|j: int| 0 <= j < grown.len() implies after.contains(#[trigger] grown[j]) by {
        if j == 0 {
            assert(after[at] == grown[j]);
        } else {
            assert(grown[j] == placed[j - 1]);
            assert(before.contains(placed[j - 1]));
            let p = choose|p: int| 0 <= p < before.len() && before[p] == placed[j - 1];
            let i = if p < at {
                p
            } else {
                p + 1
            };
            assert(after[i] == grown[j]);
        }
    }
}

/// Puts tallied identities in ranking order.
pub fn arrange<T: Identity>(identities: Vec<T>, counts: Vec<usize>) -> (ranked: Vec<RankedEntry<T>>)
    requires
        identities.len() == counts.len(),
        names_of(identities@).no_duplicates(),
    ensures
        in_rank_order(ranking_of(ranked@)),
        same_lines(ranking_of(ranked@), tallied(names_of(identities@), counts@)),
{
    let ghost keys = names_of(identities@);
    let ghost source = tallied(names_of(identities@), counts@);
    let mut identities = identities;
    let mut counts = counts;
    let mut ranked: Vec<RankedEntry<T>> = Vec::new();
    assert(source.skip(source.len() as int) =~= Seq::<(Seq<char>, nat)>::empty());
    while identities.len() > 0
        invariant
            identities.len() == counts.len(),
            identities.len() <= source.len(),
            keys.len() == source.len(),
            keys.no_duplicates(),
            forall|j: int| 0 <= j < source.len() ==> (#[trigger] source[j]).0 == keys[j],
            tallied(names_of(identities@), counts@) == source.take(identities.len() as int),
            in_rank_order(ranking_of(ranked@)),
            same_lines(ranking_of(ranked@), source.skip(identities.len() as int)),
        decreases identities.len(),
    {
        let ghost m = identities.len() - 1;
        let ghost placed = source.skip(m + 1);
        assert(tallied(names_of(identities@), counts@)[m] == source[m]);
        let identity = identities.pop().unwrap();
        let count = counts.pop().unwrap();
        assert(tallied(names_of(identities@), counts@) =~= source.take(m));
        let key = chars_of(identity.text());
        let ghost entry = source[m];
        let ghost before = ranking_of(ranked@);
        let mut at: usize = 0;
        while at < ranked.len() && !goes_first(&key, count, &ranked[at])
            invariant
                at <= ranked.len(),
                entry == (key@, count as nat),
                before == ranking_of(ranked@),
                forall|a: int| 0 <= a < at ==> !ranks_before(entry, #[trigger] before[a]),
            decreases ranked.len() - at,
        {
            at += 1;
        }
        ranked.insert(at, RankedEntry { identity, count });
        proof {
            assert(ranking_of(ranked@) =~= before.insert(at as int, entry));
            assert forall|a: int| 0 <= a < before.len() implies (#[trigger] before[a]).0
                != entry.0 by {
                assert(placed.contains(before[a]));
                let j = choose|j: int| 0 <= j < placed.len() && placed[j] == before[a];
                assert(placed[j] == source[m + 1 + j]);
                assert(keys[m] != keys[m + 1 + j]);
            }
            lemma_insert_keeps_order(before, at as int, entry);
            lemma_insert_keeps_lines(before, placed, at as int, entry);
            assert(source.skip(m) =~= seq![entry] + placed);
        }
    }
    assert(source.skip(0) =~= source);
    ranked
}

/// Ranks what was played: counts the plays of each identity and lists the
/// identities by count, the greatest first, and by name where counts are
/// equal.
pub fn occurence_sort<T: Identity>(items: Vec<T>) -> (ranked: Vec<RankedEntry<T>>)
    ensures
        is_ranking(ranking_of(ranked@), names_of(items@)),
{
    let ghost plays = names_of(items@);
    let (identities, counts) = tally(items);
    let ghost keys = names_of(identities@);
    let ghost source = tallied(keys, counts@);
    let ranked = arrange(identities, counts);
    proof {
        let lines = ranking_of(ranked@);
        assert forall|i: int| 0 <= i < lines.len() implies (#[trigger] lines[i]).1 == occurrences(
            plays,
            lines[i].0,
        ) && lines[i].1 > 0 by {
            assert(source.contains(lines[i]));
            let j = choose|j: int| 0 <= j < source.len() && source[j] == lines[i];
            assert(counts@[j] == occurrences(plays, keys[j]));
        }
        assert forall|name: Seq<char>| #[trigger] occurrences(plays, name) > 0 implies exists|
            i: int,
        |
            0 <= i < lines.len() && (#[trigger] lines[i]).0 == name by {
            assert(keys.contains(name));
            let j = choose|j: int| 0 <= j < keys.len() && keys[j] == name;
            assert(lines.contains(source[j]));
            let i = choose|i: int| 0 <= i < lines.len() && lines[i] == source[j];
            assert(lines[i].0 == name);
        }
    }
    ranked
}

/// The lines of a ranking that are shown when at most `max` are wanted: the
/// first `max`, or all where there are fewer.
pub fn top<T>(ranked: Vec<RankedEntry<T>>, max: u64) -> (shown: Vec<RankedEntry<T>>)
    ensures
        shown@ == ranked@.take(
            if max < ranked.len() {
                max as int
            } else {
                ranked.len() as int
            },
        ),
{
    let mut shown = ranked;
    if max < shown.len() as u64 {
        shown.truncate(max as usize);
    }
    assert(ranked@.take(ranked.len() as int) =~= ranked@);
    shown
}

proof fn lemma_ranks_irreflexive(a: (Seq<char>, nat))
    ensures
        !ranks_before(a, a),
{
    lemma_precedes_irreflexive(a.0);
}

proof fn lemma_ordered_lines_equal(a: Seq<(Seq<char>, nat)>, b: Seq<(Seq<char>, nat)>)
    requires
        in_rank_order(a),
        in_rank_order(b),
        forall|i: int| 0 <= i < a.len() ==> b.contains(#[trigger] a[i]),
        forall|j: int| 0 <= j < b.len() ==> a.contains(#[trigger] b[j]),
    ensures
        a == b,
    decreases a.len(),
{
    if a.len() == 0 {
        if b.len() > 0 {
            assert(a.contains(b[0]));
        }
        assert(a =~= b);
    } else {
        assert(b.contains(a[0]));
        let k = choose|k: int| 0 <= k < b.len() && b[k] == a[0];
        assert(a.contains(b[0]));
        let m = choose|m: int| 0 <= m < a.len() && a[m] == b[0];
        assert(k == 0) by {
            if k > 0 {
                assert(ranks_before(b[0], b[k]));
                if m > 0 {
                    assert(ranks_before(a[0], a[m]));
                    lemma_ranks_transitive(a[0], a[m], a[0]);
                }
                lemma_ranks_irreflexive(a[0]);
            }
        }
        let rest_a = a.drop_first();
        let rest_b = b.drop_first();
        assert forall|i: int| 0 <= i < rest_a.len() implies rest_b.contains(
            #[trigger] rest_a[i],
        ) by {
            assert(rest_a[i] == a[i + 1]);
            assert(b.contains(a[i + 1]));
            let j = choose|j: int| 0 <= j < b.len() && b[j] == a[i + 1];
            assert(ranks_before(a[0], a[i + 1]));
            lemma_ranks_irreflexive(a[0]);
            assert(j != 0);
            assert(rest_b[j - 1] == rest_a[i]);
        }
        assert forall|j: int| 0 <= j < rest_b.len() implies rest_a.contains(
            #[trigger] rest_b[j],
        ) by {
            assert(rest_b[j] == b[j + 1]);
            assert(a.contains(b[j + 1]));
            let i = choose|i: int| 0 <= i < a.len() && a[i] == b[j + 1];
            assert(ranks_before(b[0], b[j + 1]));
            lemma_ranks_irreflexive(b[0]);
            assert(i != 0);
            assert(rest_a[i - 1] == rest_b[j]);
        }
        assert(in_rank_order(rest_a)) by {
            assert forall|i: int, j: int| 0 <= i < j < rest_a.len() implies ranks_before(
                #[trigger] rest_a[i],
                #[trigger] rest_a[j],
            ) by {
                assert(ranks_before(a[i + 1], a[j + 1]));
            }
        }
        assert(in_rank_order(rest_b)) by {
            assert forall|i: int, j: int| 0 <= i < j < rest_b.len() implies ranks_before(
                #[trigger] rest_b[i],
                #[trigger] rest_b[j],
            ) by {
                assert(ranks_before(b[i + 1], b[j + 1]));
            }
        }
        lemma_ordered_lines_equal(rest_a, rest_b);
        assert(a =~= seq![a[0]] + rest_a);
        assert(b =~= seq![b[0]] + rest_b);
    }
}

/// Plays have one ranking only: two rankings of the same plays are equal,
/// line by line.
pub proof fn lemma_ranking_unique(
    a: Seq<(Seq<char>, nat)>,
    b: Seq<(Seq<char>, nat)>,
    plays: Seq<Seq<char>>,
)
    requires
        is_ranking(a, plays),
        is_ranking(b, plays),
    ensures
        a == b,
{
    assert forall|i: int| 0 <= i < a.len() implies b.contains(#[trigger] a[i]) by {
        assert(occurrences(plays, a[i].0) > 0);
        let j = choose|j: int| 0 <= j < b.len() && (#[trigger] b[j]).0 == a[i].0;
        assert(b[j] == a[i]);
    }
    assert forall|j: int| 0 <= j < b.len() implies a.contains(#[trigger] b[j]) by {
        assert(occurrences(plays, b[j].0) > 0);
        let i = choose|i: int| 0 <= i < a.len() && (#[trigger] a[i]).0 == b[j].0;
        assert(a[i] == b[j]);
    }
    lemma_ordered_lines_equal(a, b);
}

} // verus!
