//! The report as lines of text.
//!
//! A ranking is shown from its first line down, at most as many lines as
//! were asked for, each with its place, counted from one.

use vstd::prelude::*;
use crate::pipeline::Report;
use crate::rank::{ranking_of, Identity, RankedEntry};
use crate::text::text_of;

verus! {

/// The character of the digit `d`.
pub open spec fn digit_char(d: nat) -> char {
    ((d + 48) as u8) as char
}

/// `n` written in decimal, without leading zeros.
pub open spec fn decimal_text(n: nat) -> Seq<char>
    decreases n,
{
    if n < 10 {
        seq![digit_char(n)]
    } else {
        decimal_text(n / 10).push(digit_char(n % 10))
    }
}

/// Appends `n`, written in decimal, to `out`.
pub fn push_decimal(n: u64, out: &mut Vec<char>)
    ensures
        final(out)@ == old(out)@ + decimal_text(n as nat),
    decreases n,
{
    if n >= 10 {
        push_decimal(n / 10, out);
    }
    out.push(((n % 10) as u8 + 48) as char);
}

/// One line of a shown ranking: the place, the name, and the count.
pub open spec fn line_text(place: nat, name: Seq<char>, count: nat) -> Seq<char> {
    decimal_text(place) + ". "@ + name + " - "@ + decimal_text(count) + " times"@
}

/// Writes one line of a shown ranking.
pub fn render_line(place: usize, name: &str, count: usize) -> (line: String)
    ensures
        line@ == line_text(place as nat, name@, count as nat),
{
    let mut head: Vec<char> = Vec::new();
    push_decimal(place as u64, &mut head);
    let mut line = text_of(&head);
    line.append(". ");
    line.append(name);
    line.append(" - ");
    let mut tail: Vec<char> = Vec::new();
    push_decimal(count as u64, &mut tail);
    let number = text_of(&tail);
    line.append(number.as_str());
    line.append(" times");
    line
}

/// How many lines of a ranking of `len` lines are shown when `max` are asked
/// for: `max`, not one more, and all of them where there are fewer.
pub open spec fn shown(len: nat, max: u64) -> nat {
    if max < len {
        max as nat
    } else {
        len
    }
}

/// The lines of a shown ranking.
pub open spec fn ranking_lines(ranking: Seq<(Seq<char>, nat)>, max: u64) -> Seq<Seq<char>> {
    Seq::new(
        shown(ranking.len(), max),
        |i: int| line_text((i + 1) as nat, ranking[i].0, ranking[i].1),
    )
}

/// The heading of the report.
pub open spec fn title_text(year: u64) -> Seq<char> {
    "YouTube Music Statistics for "@ + decimal_text(year as nat)
}

/// The whole report: the heading, the artists under their heading, an empty
/// line, and the songs under theirs.
pub open spec fn report_lines(
    year: u64,
    artists: Seq<(Seq<char>, nat)>,
    tracks: Seq<(Seq<char>, nat)>,
    max: u64,
) -> Seq<Seq<char>> {
    seq![title_text(year), ">------- Top Artists -------<"@] + ranking_lines(artists, max) + seq![
        ""@,
        ">------- Top Songs -------<"@,
    ] + ranking_lines(tracks, max)
}

/// The characters of each line of `lines`.
pub open spec fn lines_of(lines: Seq<String>) -> Seq<Seq<char>> {
    lines.map_values(|line: String| line@)
}

/// Appends the shown lines of `ranked` to `lines`.
pub fn render_ranking<T: Identity>(ranked: &Vec<RankedEntry<T>>, max: u64, lines: &mut Vec<String>)
    ensures
        lines_of(final(lines)@) == lines_of(old(lines)@) + ranking_lines(ranking_of(ranked@), max),
{
    let ghost before = lines_of(lines@);
    let ghost wanted = ranking_lines(ranking_of(ranked@), max);
    let mut i: usize = 0;
    while i < ranked.len() && (i as u64) < max
        invariant
            i <= ranked.len(),
            i <= max,
            wanted == ranking_lines(ranking_of(ranked@), max),
            lines_of(lines@) == before + wanted.take(i as int),
        decreases ranked.len() - i,
    {
        let ghost so_far = lines_of(lines@);
        let entry = &ranked[i];
        let line = render_line(i + 1, entry.identity.text(), entry.count);
        lines.push(line);
        assert(lines_of(lines@) =~= so_far.push(wanted[i as int]));
        assert(wanted.take(i + 1) =~= wanted.take(i as int).push(wanted[i as int]));
        i += 1;
    }
    assert(wanted.take(i as int) =~= wanted);
}

/// Writes the report for `year`, with at most `max` lines to each ranking.
pub fn render(report: &Report, year: u64, max: u64) -> (lines: Vec<String>)
    ensures
        lines_of(lines@) == report_lines(
            year,
            ranking_of(report.artists@),
            ranking_of(report.tracks@),
            max,
        ),
{
    let mut digits: Vec<char> = Vec::new();
    push_decimal(year, &mut digits);
    let number = text_of(&digits);
    let mut title = String::from_str("YouTube Music Statistics for ");
    title.append(number.as_str());
    let mut lines: Vec<String> = Vec::new();
    lines.push(title);
    lines.push(String::from_str(">------- Top Artists -------<"));
    assert(lines_of(lines@) =~= seq![title_text(year), ">------- Top Artists -------<"@]);
    render_ranking(&report.artists, max, &mut lines);
    let ghost upper = lines_of(lines@);
    lines.push(String::from_str(""));
    lines.push(String::from_str(">------- Top Songs -------<"));
    assert(lines_of(lines@) =~= upper + seq![""@, ">------- Top Songs -------<"@]);
    render_ranking(&report.tracks, max, &mut lines);
    lines
}

} // verus!
