//! Canonical artist names.
//!
//! A raw display name is cut at its first dash, its whitespace is collapsed,
//! the promotional marker is taken out and the casing is redone. The result
//! is a heuristic: it cannot keep the irregular casing that some proper names
//! have.

use vstd::prelude::*;
use crate::text::{chars_of, joined, matches_at, occurs_at, text_of};

verus! {

/// Whether `c` has the Unicode property White_Space.
pub open spec fn is_whitespace(c: char) -> bool {
    let n = c as u32;
    ||| 0x09 <= n <= 0x0D
    ||| n == 0x20
    ||| n == 0x85
    ||| n == 0xA0
    ||| n == 0x1680
    ||| 0x2000 <= n <= 0x200A
    ||| n == 0x2028
    ||| n == 0x2029
    ||| n == 0x202F
    ||| n == 0x205F
    ||| n == 0x3000
}

/// Tests whether `c` is whitespace.
pub fn whitespace(c: char) -> (r: bool)
    ensures
        r == is_whitespace(c),
{
    let n = c as u32;
    (0x09 <= n && n <= 0x0D) || n == 0x20 || n == 0x85 || n == 0xA0 || n == 0x1680 || (0x2000 <= n
        && n <= 0x200A) || n == 0x2028 || n == 0x2029 || n == 0x202F || n == 0x205F || n == 0x3000
}

/// The number of characters before the first dash of `name`; its length
/// where it has no dash.
pub open spec fn dash_index(name: Seq<char>) -> nat
    decreases name.len(),
{
    if name.len() == 0 || name[0] == '-' {
        0
    } else {
        1 + dash_index(name.drop_first())
    }
}

/// The part of `name` before its first dash.
pub open spec fn before_dash(name: Seq<char>) -> Seq<char> {
    name.take(dash_index(name) as int)
}

proof fn lemma_dash_index(name: Seq<char>, k: int)
    requires
        0 <= k <= name.len(),
        forall|j: int| 0 <= j < k ==> name[j] != '-',
        k == name.len() || name[k] == '-',
    ensures
        dash_index(name) == k,
    decreases name.len(),
{
    if k > 0 {
        lemma_dash_index(name.drop_first(), k - 1);
    }
}

/// Keeps the part of `name` before its first dash.
pub fn keep_before_dash(name: &Vec<char>) -> (head: Vec<char>)
    ensures
        head@ == before_dash(name@),
{
    let mut head: Vec<char> = Vec::new();
    let mut i: usize = 0;
    while i < name.len() && name[i] != '-'
        invariant
            i <= name.len(),
            head@ == name@.take(i as int),
            forall|j: int| 0 <= j < i ==> name@[j] != '-',
        decreases name.len() - i,
    {
        head.push(name[i]);
        i += 1;
    }
    proof {
        lemma_dash_index(name@, i as int);
    }
    head
}

/// The length of the longest prefix of `text` that holds no whitespace.
pub open spec fn word_len(text: Seq<char>) -> nat
    decreases text.len(),
{
    if text.len() == 0 || is_whitespace(text[0]) {
        0
    } else {
        1 + word_len(text.drop_first())
    }
}

proof fn lemma_word_len(text: Seq<char>, k: int)
    requires
        0 <= k <= text.len(),
        forall|j: int| 0 <= j < k ==> !is_whitespace(text[j]),
        k == text.len() || is_whitespace(text[k]),
    ensures
        word_len(text) == k,
    decreases text.len(),
{
    if k > 0 {
        lemma_word_len(text.drop_first(), k - 1);
    }
}

/// The words of `text`: its maximal runs of characters that are not
/// whitespace, in order.
pub open spec fn words(text: Seq<char>) -> Seq<Seq<char>>
    decreases text.len(),
    via words_decreases
{
    if text.len() == 0 {
        Seq::empty()
    } else if is_whitespace(text[0]) {
        words(text.drop_first())
    } else {
        seq![text.take(word_len(text) as int)] + words(text.skip(word_len(text) as int))
    }
}

#[via_fn]
proof fn words_decreases(text: Seq<char>) {
    if text.len() > 0 && !is_whitespace(text[0]) {
        lemma_word_len_first(text);
    }
}

/// The words of `text` with one space between neighbours.
pub open spec fn collapse_spaces(text: Seq<char>) -> Seq<char> {
    joined(words(text), ' ')
}

/// Splits `name` on whitespace, drops the empty pieces and joins the rest
/// with single spaces.
pub fn collapse(name: &Vec<char>) -> (out: Vec<char>)
    ensures
        out@ == collapse_spaces(name@),
{
    let mut out: Vec<char> = Vec::new();
    let ghost mut done: Seq<Seq<char>> = Seq::empty();
    let mut i: usize = 0;
    assert(name@.skip(0) =~= name@);
    while i < name.len()
        invariant
            i <= name.len(),
            words(name@) == done + words(name@.skip(i as int)),
            out@ == joined(done, ' '),
            (out.len() == 0) == (done.len() == 0),
        decreases name.len() - i,
    {
        let ghost rest = name@.skip(i as int);
        if whitespace(name[i]) {
            assert(rest.drop_first() =~= name@.skip(i + 1));
            i += 1;
        } else {
            let start = i;
            if out.len() > 0 {
                out.push(' ');
            }
            let ghost lead = out@;
            while i < name.len() && !whitespace(name[i])
                invariant
                    start <= i <= name.len(),
                    forall|j: int| start <= j < i ==> !is_whitespace(name@[j]),
                    out@ == lead + name@.subrange(start as int, i as int),
                decreases name.len() - i,
            {
                out.push(name[i]);
                i += 1;
            }
            proof {
                let word = name@.subrange(start as int, i as int);
                lemma_word_len(rest, i - start);
                assert(rest.take(i - start) =~= word);
                assert(rest.skip(i - start) =~= name@.skip(i as int));
                let grown = done.push(word);
                assert(grown.drop_last() =~= done);
                assert(grown + words(name@.skip(i as int)) =~= done + (seq![word] + words(
                    name@.skip(i as int),
                )));
                done = grown;
            }
        }
    }
    assert(done + Seq::<Seq<char>>::empty() =~= done);
    out
}

/// The promotional marker that is taken out of names.
pub open spec fn marker() -> Seq<char> {
    seq!['V', 'E', 'V', 'O']
}

/// `text` without the occurrences of the marker, found from the left and
/// never overlapping.
pub open spec fn strip_marker(text: Seq<char>) -> Seq<char>
    decreases text.len(),
{
    if marker().is_prefix_of(text) {
        strip_marker(text.skip(4))
    } else if text.len() == 0 {
        text
    } else {
        seq![text[0]] + strip_marker(text.drop_first())
    }
}

/// Removes the marker wherever it occurs in `name`.
pub fn remove_marker(name: &Vec<char>) -> (out: Vec<char>)
    ensures
        out@ == strip_marker(name@),
{
    let mut pattern: Vec<char> = Vec::new();
    pattern.push('V');
    pattern.push('E');
    pattern.push('V');
    pattern.push('O');
    assert(pattern@ =~= marker());
    let mut out: Vec<char> = Vec::new();
    let mut i: usize = 0;
    assert(name@.skip(0) =~= name@);
    while i < name.len()
        invariant
            i <= name.len(),
            pattern@ == marker(),
            strip_marker(name@) == out@ + strip_marker(name@.skip(i as int)),
        decreases name.len() - i,
    {
        let ghost rest = name@.skip(i as int);
        if matches_at(name, i, &pattern) {
            assert(rest.subrange(0, 4) =~= name@.subrange(i as int, i + 4));
            assert(rest.skip(4) =~= name@.skip(i + 4));
            i += 4;
        } else {
            assert(marker().is_prefix_of(rest) ==> occurs_at(name@, i as int, marker())) by {
                if marker().is_prefix_of(rest) {
                    assert(rest.subrange(0, 4) =~= name@.subrange(i as int, i + 4));
                }
            }
            assert(rest.drop_first() =~= name@.skip(i + 1));
            out.push(name[i]);
            assert(out@ + strip_marker(name@.skip(i + 1)) =~= out@.drop_last() + (seq![name@[i as int]]
                + strip_marker(name@.skip(i + 1))));
            i += 1;
        }
    }
    assert(out@ + Seq::<char>::empty() =~= out@);
    out
}

/// The upper-case form of an ASCII letter; any other character unchanged.
pub open spec fn ascii_upper(c: char) -> char {
    if 'a' <= c <= 'z' {
        ((c as u8) - 32) as char
    } else {
        c
    }
}

/// The lower-case form of an ASCII letter; any other character unchanged.
pub open spec fn ascii_lower(c: char) -> char {
    if 'A' <= c <= 'Z' {
        ((c as u8) + 32) as char
    } else {
        c
    }
}

/// Maps an ASCII lower-case letter to its upper-case form.
pub fn to_upper(c: char) -> (r: char)
    ensures
        r == ascii_upper(c),
{
    if 'a' <= c && c <= 'z' {
        ((c as u8) - 32) as char
    } else {
        c
    }
}

/// Maps an ASCII upper-case letter to its lower-case form.
pub fn to_lower(c: char) -> (r: char)
    ensures
        r == ascii_lower(c),
{
    if 'A' <= c && c <= 'Z' {
        ((c as u8) + 32) as char
    } else {
        c
    }
}

/// The upper-case form that std gives a text by the Unicode case mappings.
pub uninterp spec fn unicode_uppercase(text: Seq<char>) -> Seq<char>;

/// Upper-cases `text` by the Unicode case mappings.
///
/// Trusted: the result of `str::to_uppercase` of std is taken to depend on
/// the characters of `text` alone. Nothing else is claimed of it.
#[verifier::external_body]
fn std_uppercase(text: &str) -> (upper: String)
    ensures
        upper@ == unicode_uppercase(text@),
{
    text.to_uppercase()
}

/// Whether every character of `text` is ASCII.
pub open spec fn is_ascii(text: Seq<char>) -> bool {
    forall|i: int| 0 <= i < text.len() ==> (#[trigger] text[i]) as u32 <= 0x7f
}

/// The upper-case form of `text`: letter by letter where all of it is ASCII,
/// by the Unicode case mappings otherwise.
pub open spec fn uppercase(text: Seq<char>) -> Seq<char> {
    if is_ascii(text) {
        text.map_values(|c: char| ascii_upper(c))
    } else {
        unicode_uppercase(text)
    }
}

/// Tests whether every character of `name` is ASCII.
pub fn all_ascii(name: &Vec<char>) -> (r: bool)
    ensures
        r == is_ascii(name@),
{
    let mut i: usize = 0;
    while i < name.len()
        invariant
            i <= name.len(),
            forall|j: int| 0 <= j < i ==> (#[trigger] name@[j]) as u32 <= 0x7f,
        decreases name.len() - i,
    {
        if name[i] as u32 > 0x7f {
            return false;
        }
        i += 1;
    }
    true
}

/// Upper-cases `name`. ASCII names are mapped here, letter by letter; any
/// other name goes through std.
pub fn upper_chars(name: &Vec<char>) -> (upper: Vec<char>)
    ensures
        upper@ == uppercase(name@),
{
    if all_ascii(name) {
        let mut upper: Vec<char> = Vec::new();
        let mut i: usize = 0;
        while i < name.len()
            invariant
                i <= name.len(),
                upper.len() == i,
                forall|j: int| 0 <= j < i ==> upper@[j] == ascii_upper(name@[j]),
            decreases name.len() - i,
        {
            upper.push(to_upper(name[i]));
            i += 1;
        }
        assert(upper@ =~= name@.map_values(|c: char| ascii_upper(c)));
        upper
    } else {
        let text = text_of(name);
        let upper = std_uppercase(text.as_str());
        chars_of(upper.as_str())
    }
}

/// `upper` with every ASCII letter in lower case, but for the first character
/// and each character that follows a space, which are in upper case.
pub open spec fn title_case(upper: Seq<char>) -> Seq<char> {
    Seq::new(
        upper.len(),
        |i: int|
            if i == 0 || upper[i - 1] == ' ' {
                ascii_upper(upper[i])
            } else {
                ascii_lower(upper[i])
            },
    )
}

/// Redoes the casing of an upper-cased name: word heads stay in upper case,
/// the other ASCII letters go to lower case.
pub fn recase(upper: &Vec<char>) -> (cased: Vec<char>)
    ensures
        cased@ == title_case(upper@),
{
    let mut cased: Vec<char> = Vec::new();
    let mut i: usize = 0;
    while i < upper.len()
        invariant
            i <= upper.len(),
            cased.len() == i,
            forall|j: int| 0 <= j < i ==> cased@[j] == title_case(upper@)[j],
        decreases upper.len() - i,
    {
        if i == 0 || upper[i - 1] == ' ' {
            cased.push(to_upper(upper[i]));
        } else {
            cased.push(to_lower(upper[i]));
        }
        i += 1;
    }
    assert(cased@ =~= title_case(upper@));
    cased
}

/// A raw artist name before its casing is redone: what stands before the
/// first dash, with its whitespace collapsed and then the marker taken out.
pub open spec fn bare_name(raw: Seq<char>) -> Seq<char> {
    strip_marker(collapse_spaces(before_dash(raw)))
}

/// The canonical form of a raw artist name: its bare name in upper case,
/// recased.
pub open spec fn normalized(raw: Seq<char>) -> Seq<char> {
    title_case(uppercase(bare_name(raw)))
}

/// Normalizes a raw artist name: keeps what stands before the first dash,
/// collapses whitespace, removes the marker and redoes the casing.
pub fn fix_artist_name(i: String) -> (artist: String)
    ensures
        artist@ == normalized(i@),
{
    let raw = chars_of(i.as_str());
    let head = keep_before_dash(&raw);
    let spaced = collapse(&head);
    let bare = remove_marker(&spaced);
    let upper = upper_chars(&bare);
    let cased = recase(&upper);
    text_of(&cased)
}

/// Whether the whitespace of `text` is nothing but single spaces between
/// words: none at either end, and no two in a row.
pub open spec fn evenly_spaced(text: Seq<char>) -> bool {
    forall|i: int|
        0 <= i < text.len() && is_whitespace(#[trigger] text[i]) ==> {
            &&& text[i] == ' '
            &&& 0 < i < text.len() - 1
            &&& !is_whitespace(text[i + 1])
        }
}

spec fn all_chars(text: Seq<char>, p: spec_fn(char) -> bool) -> bool {
    forall|i: int| 0 <= i < text.len() ==> p(#[trigger] text[i])
}

spec fn marker_free(text: Seq<char>) -> bool {
    forall|i: int| !occurs_at(text, i, marker())
}

proof fn lemma_case_facts(c: char)
    ensures
        ascii_upper(ascii_upper(c)) == ascii_upper(c),
        ascii_lower(ascii_upper(ascii_lower(c))) == ascii_lower(c),
        is_whitespace(ascii_upper(c)) == is_whitespace(c),
        is_whitespace(ascii_lower(c)) == is_whitespace(c),
        (ascii_upper(c) == ' ') == (c == ' '),
        (ascii_lower(c) == ' ') == (c == ' '),
        (ascii_upper(c) == '-') == (c == '-'),
        (ascii_lower(c) == '-') == (c == '-'),
        c as u32 <= 0x7f ==> ascii_upper(c) as u32 <= 0x7f && ascii_lower(c) as u32 <= 0x7f,
        ascii_lower(c) != 'E',
{
}

proof fn lemma_dash_index_first(text: Seq<char>)
    ensures
        dash_index(text) <= text.len(),
        forall|j: int| 0 <= j < dash_index(text) ==> text[j] != '-',
    decreases text.len(),
{
    if text.len() > 0 && text[0] != '-' {
        let rest = text.drop_first();
        lemma_dash_index_first(rest);
        assert forall|j: int| 0 <= j < dash_index(text) implies text[j] != '-' by {
            if j > 0 {
                assert(text[j] == rest[j - 1]);
            }
        }
    }
}

proof fn lemma_word_len_first(text: Seq<char>)
    ensures
        word_len(text) <= text.len(),
        forall|j: int| 0 <= j < word_len(text) ==> !is_whitespace(text[j]),
        word_len(text) == text.len() || is_whitespace(text[word_len(text) as int]),
    decreases text.len(),
{
    if text.len() > 0 && !is_whitespace(text[0]) {
        let rest = text.drop_first();
        lemma_word_len_first(rest);
        assert forall|j: int| 0 <= j < word_len(text) implies !is_whitespace(text[j]) by {
            if j > 0 {
                assert(text[j] == rest[j - 1]);
            }
        }
        if word_len(text) < text.len() {
            assert(text[word_len(text) as int] == rest[word_len(rest) as int]);
        }
    }
}

proof fn lemma_words_keep(text: Seq<char>, p: spec_fn(char) -> bool)
    requires
        all_chars(text, p),
    ensures
        forall|k: int| 0 <= k < words(text).len() ==> all_chars(#[trigger] words(text)[k], p),
    decreases text.len(),
{
    if text.len() == 0 {
        assert(words(text).len() == 0);
    } else if is_whitespace(text[0]) {
        lemma_words_keep(text.drop_first(), p);
        assert(words(text) == words(text.drop_first()));
    } else {
        lemma_word_len_first(text);
        let n = word_len(text) as int;
        assert(all_chars(text.skip(n), p));
        lemma_words_keep(text.skip(n), p);
        assert(all_chars(text.take(n), p));
        assert forall|k: int| 0 <= k < words(text).len() implies all_chars(
            #[trigger] words(text)[k],
            p,
        ) by {
            if k == 0 {
                assert(words(text)[0] == text.take(n));
            } else {
                assert(words(text)[k] == words(text.skip(n))[k - 1]);
            }
        }
    }
}

proof fn lemma_joined_keep(parts: Seq<Seq<char>>, separator: char, p: spec_fn(char) -> bool)
    requires
        p(separator),
        forall|k: int| 0 <= k < parts.len() ==> all_chars(#[trigger] parts[k], p),
    ensures
        all_chars(joined(parts, separator), p),
    decreases parts.len(),
{
    if parts.len() >= 2 {
        let front = parts.drop_last();
        assert forall|k: int| 0 <= k < front.len() implies all_chars(#[trigger] front[k], p) by {
            assert(front[k] == parts[k]);
        }
        lemma_joined_keep(front, separator, p);
        assert(all_chars(parts.last(), p));
    } else if parts.len() == 1 {
        assert(all_chars(parts[0], p));
    }
}

proof fn lemma_strip_keep(text: Seq<char>, p: spec_fn(char) -> bool)
    requires
        all_chars(text, p),
    ensures
        all_chars(strip_marker(text), p),
    decreases text.len(),
{
    if marker().is_prefix_of(text) {
        lemma_strip_keep(text.skip(4), p);
    } else if text.len() > 0 {
        lemma_strip_keep(text.drop_first(), p);
    }
}

proof fn lemma_joined_front(first: Seq<char>, rest: Seq<Seq<char>>, separator: char)
    ensures
        joined(seq![first] + rest, separator) == if rest.len() == 0 {
            first
        } else {
            first + seq![separator] + joined(rest, separator)
        },
    decreases rest.len(),
{
    let all = seq![first] + rest;
    if rest.len() == 0 {
        assert(all =~= seq![first]);
    } else {
        assert(all.drop_last() =~= seq![first] + rest.drop_last());
        lemma_joined_front(first, rest.drop_last(), separator);
        if rest.len() == 1 {
            assert(joined(all, separator) =~= first + seq![separator] + rest[0]);
        } else {
            assert(joined(all, separator) =~= first + seq![separator] + (joined(
                rest.drop_last(),
                separator,
            ) + seq![separator] + rest.last()));
        }
    }
}

proof fn lemma_collapse_fixed(text: Seq<char>)
    requires
        evenly_spaced(text),
    ensures
        collapse_spaces(text) == text,
    decreases text.len(),
{
    if text.len() > 0 {
        lemma_word_len_first(text);
        let n = word_len(text) as int;
        let word = text.take(n);
        if n == text.len() {
            assert(word =~= text);
            assert(words(text.skip(n)) =~= Seq::<Seq<char>>::empty());
            lemma_joined_front(word, Seq::empty(), ' ');
            assert(words(text) == seq![word] + Seq::<Seq<char>>::empty());
        } else {
            let tail = text.skip(n + 1);
            assert(is_whitespace(text[n]));
            assert(text.skip(n)[0] == text[n]);
            assert(text.skip(n).drop_first() =~= tail);
            assert forall|i: int|
                0 <= i < tail.len() && is_whitespace(#[trigger] tail[i]) implies {
                &&& tail[i] == ' '
                &&& 0 < i < tail.len() - 1
                &&& !is_whitespace(tail[i + 1])
            } by {
                assert(tail[i] == text[i + n + 1]);
                assert(tail[0] == text[n + 1]);
                assert(tail[i + 1] == text[i + n + 2]);
            }
            lemma_collapse_fixed(tail);
            assert(tail[0] == text[n + 1]);
            assert(words(tail).len() > 0);
            lemma_joined_front(word, words(tail), ' ');
            assert(text =~= word + seq![' '] + tail);
            assert(words(text.skip(n)) == words(tail));
            assert(words(text) == seq![word] + words(tail));
        }
    }
}

proof fn lemma_strip_fixed(text: Seq<char>)
    requires
        marker_free(text),
    ensures
        strip_marker(text) == text,
    decreases text.len(),
{
    assert(!occurs_at(text, 0, marker()));
    if text.len() > 0 {
        let rest = text.drop_first();
        assert forall|i: int| !occurs_at(rest, i, marker()) by {
            if occurs_at(rest, i, marker()) {
                assert(rest.subrange(i, i + 4) =~= text.subrange(i + 1, i + 5));
                assert(occurs_at(text, i + 1, marker()));
            }
        }
        lemma_strip_fixed(rest);
        assert(seq![text[0]] + rest =~= text);
    }
}

proof fn lemma_title_case_marker_free(upper: Seq<char>)
    ensures
        marker_free(title_case(upper)),
{
    let cased = title_case(upper);
    assert forall|i: int| !occurs_at(cased, i, marker()) by {
        if occurs_at(cased, i, marker()) {
            let found = cased.subrange(i, i + 4);
            assert(found[0] == 'V' && found[1] == 'E');
            assert(cased[i] == 'V' && cased[i + 1] == 'E');
            lemma_case_facts(upper[i + 1]);
            lemma_case_facts(upper[i]);
        }
    }
}

/// Normalizing twice gives what normalizing once gives, for a raw name whose
/// bare name is ASCII and evenly spaced, that is, where taking out the marker
/// has left no space at either end and no two spaces in a row.
pub proof fn lemma_normalized_twice(raw: Seq<char>)
    requires
        is_ascii(bare_name(raw)),
        evenly_spaced(bare_name(raw)),
    ensures
        normalized(normalized(raw)) == normalized(raw),
{
    let ascii = |c: char| c as u32 <= 0x7f;
    let dashless = |c: char| c != '-';
    let head = before_dash(raw);
    let spaced = collapse_spaces(head);
    let bare = bare_name(raw);
    lemma_dash_index_first(raw);
    assert(all_chars(head, dashless));
    lemma_words_keep(head, dashless);
    lemma_joined_keep(words(head), ' ', dashless);
    lemma_strip_keep(spaced, dashless);
    assert(all_chars(bare, ascii));
    let upper = uppercase(bare);
    let once = title_case(upper);
    assert(once == normalized(raw));
    assert forall|i: int| 0 <= i < once.len() implies {
        &&& (#[trigger] once[i]) as u32 <= 0x7f
        &&& once[i] != '-'
        &&& is_whitespace(once[i]) == is_whitespace(bare[i])
        &&& (once[i] == ' ') == (bare[i] == ' ')
    } by {
        lemma_case_facts(bare[i]);
        lemma_case_facts(upper[i]);
        assert(ascii(bare[i]));
        assert(dashless(bare[i]));
    }
    lemma_dash_index(once, once.len() as int);
    assert(before_dash(once) =~= once);
    assert(evenly_spaced(once)) by {
        assert forall|i: int|
            0 <= i < once.len() && is_whitespace(#[trigger] once[i]) implies {
            &&& once[i] == ' '
            &&& 0 < i < once.len() - 1
            &&& !is_whitespace(once[i + 1])
        } by {
            assert(is_whitespace(bare[i]));
            assert(is_whitespace(once[i + 1]) == is_whitespace(bare[i + 1]));
        }
    }
    lemma_collapse_fixed(once);
    lemma_title_case_marker_free(upper);
    lemma_strip_fixed(once);
    assert(is_ascii(once));
    let again = title_case(uppercase(once));
    assert(again =~= once) by {
        assert forall|i: int| 0 <= i < once.len() implies again[i] == once[i] by {
            lemma_case_facts(upper[i]);
            lemma_case_facts(once[i]);
            if i > 0 {
                lemma_case_facts(upper[i - 1]);
                lemma_case_facts(once[i - 1]);
            }
        }
    }
}

} // verus!
