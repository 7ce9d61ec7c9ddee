//! The tab-separated backend. Lines are split on `'\n'` (a trailing `'\r'`
//! is dropped), fields on `'\t'`. A record has the fields title, artists,
//! year, added and, optionally, playlist: four or five fields, the year
//! written in decimal digits. A blank line is ignored; any other line that is
//! not a record is skipped and reported by its line number.

use crate::album::{views, Album, AlbumView};
use crate::order::{select, select_matching};
use crate::text::{chars_of, string_of};
use vstd::prelude::*;

verus! {

/// The pieces of `s` between occurrences of `sep`: one more piece than
/// there are separators.
pub open spec fn split_on(s: Seq<char>, sep: char) -> Seq<Seq<char>>
    decreases s.len(),
{
    if s.len() == 0 {
        seq![Seq::<char>::empty()]
    } else {
        let prev = split_on(s.drop_last(), sep);
        if s.last() == sep {
            prev.push(Seq::<char>::empty())
        } else {
            prev.update(prev.len() - 1, prev.last().push(s.last()))
        }
    }
}

pub open spec fn seqs_of(v: Seq<Vec<char>>) -> Seq<Seq<char>> {
    v.map_values(|x: Vec<char>| x@)
}

/// A line without its trailing carriage return, if it has one.
pub open spec fn line_body(line: Seq<char>) -> Seq<char> {
    if line.len() > 0 && line.last() == '\r' {
        line.drop_last()
    } else {
        line
    }
}

pub open spec fn is_digit(c: char) -> bool {
    '0' <= c && c <= '9'
}

/// The number that the decimal digits `s` denote.
pub open spec fn digits_value(s: Seq<char>) -> int
    decreases s.len(),
{
    if s.len() == 0 {
        0
    } else {
        digits_value(s.drop_last()) * 10 + ((s.last() as u32) - ('0' as u32))
    }
}

/// A year field: one or more decimal digits whose value fits in a `u32`.
pub open spec fn parse_year(s: Seq<char>) -> Option<u32> {
    if s.len() > 0 && (forall|i: int| 0 <= i < s.len() ==> is_digit(#[trigger] s[i]))
        && digits_value(s) <= u32::MAX {
        Some(digits_value(s) as u32)
    } else {
        None
    }
}

/// The record that a line holds, if it holds one.
pub open spec fn row_album(line: Seq<char>) -> Option<AlbumView> {
    let f = split_on(line_body(line), '\t');
    if (f.len() == 4 || f.len() == 5) && parse_year(f[2]) is Some {
        Some(
            AlbumView {
                title: f[0],
                artists: f[1],
                year: parse_year(f[2])->Some_0,
                added: f[3],
                playlist: if f.len() == 5 { Some(f[4]) } else { None },
            },
        )
    } else {
        None
    }
}

/// The records of the lines from index `start` on, in order.
pub open spec fn records(lines: Seq<Seq<char>>, start: int) -> Seq<AlbumView>
    decreases lines.len(),
{
    if lines.len() <= start || lines.len() == 0 {
        seq![]
    } else {
        let prev = records(lines.drop_last(), start);
        match row_album(lines.last()) {
            Some(a) => prev.push(a),
            None => prev,
        }
    }
}

/// The numbers (counting from 1) of the lines from index `start` on that are
/// neither blank nor a record.
pub open spec fn malformed(lines: Seq<Seq<char>>, start: int) -> Seq<nat>
    decreases lines.len(),
{
    if lines.len() <= start || lines.len() == 0 {
        seq![]
    } else {
        let prev = malformed(lines.drop_last(), start);
        if line_body(lines.last()).len() > 0 && row_album(lines.last()) is None {
            prev.push(lines.len())
        } else {
            prev
        }
    }
}

/// The index of the first line that may hold a record.
pub open spec fn first_data_line(include_header: bool) -> int {
    if include_header { 1 } else { 0 }
}

/// Every record of a tab-separated text, the header line left out where there is one.
pub open spec fn tsv_records(content: Seq<char>, include_header: bool) -> Seq<AlbumView> {
    records(split_on(content, '\n'), first_data_line(include_header))
}

/// The line numbers that a search over a tab-separated text skips.
pub open spec fn tsv_malformed(content: Seq<char>, include_header: bool) -> Seq<nat> {
    malformed(split_on(content, '\n'), first_data_line(include_header))
}

/// Splits `s[0..end]` at each `sep`.
pub fn split_chars(s: &[char], end: usize, sep: char) -> (r: Vec<Vec<char>>)
    requires
        end <= s@.len(),
    ensures
        seqs_of(r@) == split_on(s@.take(end as int), sep),
{
    let mut pieces: Vec<Vec<char>> = Vec::new();
    let mut cur: Vec<char> = Vec::new();
    let mut i: usize = 0;
    assert(s@.take(0) =~= Seq::<char>::empty());
    assert(seqs_of(pieces@).push(cur@) =~= seq![Seq::<char>::empty()]);
    while i < end
        invariant
            i <= end <= s@.len(),
            seqs_of(pieces@).push(cur@) == split_on(s@.take(i as int), sep),
        decreases end - i,
    {
        let c = s[i];
        let ghost prev = split_on(s@.take(i as int), sep);
        assert(s@.take(i as int + 1).drop_last() =~= s@.take(i as int));
        if c == sep {
            let done = cur;
            pieces.push(done);
            cur = Vec::new();
            assert(seqs_of(pieces@).push(cur@) =~= prev.push(Seq::<char>::empty()));
        } else {
            let ghost before = cur@;
            cur.push(c);
            assert(seqs_of(pieces@).push(cur@) =~= prev.update(prev.len() - 1, before.push(c)));
        }
        i = i + 1;
    }
    pieces.push(cur);
    assert(seqs_of(pieces@) =~= split_on(s@.take(end as int), sep));
    pieces
}

proof fn lemma_digits_grow(s: Seq<char>, i: int, j: int)
    requires
        0 <= i <= j <= s.len(),
        forall|k: int| 0 <= k < s.len() ==> is_digit(#[trigger] s[k]),
    ensures
        digits_value(s.take(i)) <= digits_value(s.take(j)),
        0 <= digits_value(s.take(i)),
    decreases j,
{
    if j > 0 {
        assert(s.take(j).drop_last() =~= s.take(j - 1));
        if i < j {
            lemma_digits_grow(s, i, j - 1);
        } else {
            lemma_digits_grow(s, j - 1, j - 1);
        }
        assert(is_digit(s[j - 1]));
    } else {
        assert(s.take(0) =~= Seq::<char>::empty());
    }
}

/// Reads a year field.
pub fn year_of(s: &[char]) -> (r: Option<u32>)
    ensures
        r == parse_year(s@),
{
    if s.len() == 0 {
        return None;
    }
    let mut v: u64 = 0;
    let mut i: usize = 0;
    assert(s@.take(0) =~= Seq::<char>::empty());
    while i < s.len()
        invariant
            i <= s@.len(),
            v == digits_value(s@.take(i as int)),
            v <= u32::MAX,
            forall|k: int| 0 <= k < i ==> is_digit(#[trigger] s@[k]),
        decreases s.len() - i,
    {
        let c = s[i];
        if !('0' <= c && c <= '9') {
            return None;
        }
        let d: u64 = ((c as u32) - ('0' as u32)) as u64;
        let nv: u64 = v * 10 + d;
        assert(s@.take(i as int + 1).drop_last() =~= s@.take(i as int));
        assert(nv == digits_value(s@.take(i as int + 1)));
        if nv > 4294967295 {
            proof {
                if forall|k: int| 0 <= k < s@.len() ==> is_digit(#[trigger] s@[k]) {
                    lemma_digits_grow(s@, i as int + 1, s@.len() as int);
                    assert(s@.take(s@.len() as int) =~= s@);
                }
            }
            return None;
        }
        v = nv;
        i = i + 1;
    }
    assert(s@.take(s@.len() as int) =~= s@);
    Some(v as u32)
}

/// The record that a line holds, if it holds one.
pub fn parse_row(line: &[char]) -> (r: Option<Album>)
    ensures
        match r {
            Some(a) => row_album(line@) == Some(a@),
            None => row_album(line@) is None,
        },
{
    let mut end: usize = line.len();
    if end > 0 && line[end - 1] == '\r' {
        end = end - 1;
        assert(line_body(line@) =~= line@.take(end as int));
    } else {
        assert(line_body(line@) =~= line@.take(end as int));
    }
    let f = split_chars(line, end, '\t');
    let ghost fs = seqs_of(f@);
    if f.len() != 4 && f.len() != 5 {
        return None;
    }
    assert(fs[2] == f@[2]@);
    match year_of(f[2].as_slice()) {
        None => None,
        Some(year) => {
            let playlist = if f.len() == 5 {
                assert(fs[4] == f@[4]@);
                Some(string_of(f[4].as_slice()))
            } else {
                None
            };
            assert(fs[0] == f@[0]@);
            assert(fs[1] == f@[1]@);
            assert(fs[3] == f@[3]@);
            let a = Album {
                title: string_of(f[0].as_slice()),
                artists: string_of(f[1].as_slice()),
                year,
                added: string_of(f[3].as_slice()),
                playlist,
            };
            Some(a)
        },
    }
}

pub open spec fn nats(v: Seq<usize>) -> Seq<nat> {
    v.map_values(|x: usize| x as nat)
}

/// What a pass over a tab-separated text yields: albums in source order, and
/// the numbers of the lines skipped as malformed.
pub struct TsvScan {
    pub albums: Vec<Album>,
    pub skipped: Vec<usize>,
}

/// Reads every record of a tab-separated text. Malformed lines are skipped
/// and reported; the pass itself never fails.
pub fn scan_tsv(content: &str, include_header: bool) -> (r: TsvScan)
    ensures
        views(r.albums@) == tsv_records(content@, include_header),
        nats(r.skipped@) == tsv_malformed(content@, include_header),
{
    let chars = chars_of(content);
    let lines = split_chars(chars.as_slice(), chars.len(), '\n');
    assert(chars@.take(chars@.len() as int) =~= chars@);
    let ghost all = seqs_of(lines@);
    let start: usize = if include_header { 1 } else { 0 };
    let mut albums: Vec<Album> = Vec::new();
    let mut skipped: Vec<usize> = Vec::new();
    let mut i: usize = if start < lines.len() { start } else { lines.len() };
    assert(views(albums@) =~= records(all.take(i as int), start as int));
    assert(nats(skipped@) =~= malformed(all.take(i as int), start as int));
    while i < lines.len()
        invariant
            i <= lines@.len(),
            all == seqs_of(lines@),
            all == split_on(content@, '\n'),
            start as int == first_data_line(include_header),
            i < lines@.len() ==> start <= i,
            views(albums@) == records(all.take(i as int), start as int),
            nats(skipped@) == malformed(all.take(i as int), start as int),
        decreases lines.len() - i,
    {
        let line = lines[i].as_slice();
        assert(all.take(i as int + 1).drop_last() =~= all.take(i as int));
        assert(all.take(i as int + 1).last() == line@);
        let blank = line.len() == 0 || (line.len() == 1 && line[0] == '\r');
        assert(blank == (line_body(line@).len() == 0));
        match parse_row(line) {
            Some(a) => {
                albums.push(a);
                assert(views(albums@) =~= records(all.take(i as int), start as int).push(albums@.last()@));
            },
            None => {
                if !blank {
                    skipped.push(i + 1);
                    assert(nats(skipped@) =~= malformed(all.take(i as int), start as int).push((i + 1) as nat));
                }
            },
        }
        i = i + 1;
    }
    assert(all.take(all.len() as int) =~= all);
    TsvScan { albums, skipped }
}

/// The tab-separated backend: the records of `content` that match `term`,
/// in source order, with the lines skipped as malformed.
pub fn tsv_search(content: &str, term: &str, include_header: bool) -> (r: TsvScan)
    ensures
        views(r.albums@) == select(tsv_records(content@, include_header), term@),
        nats(r.skipped@) == tsv_malformed(content@, include_header),
{
    let scan = scan_tsv(content, include_header);
    let t = chars_of(term);
    let albums = select_matching(&scan.albums, t.as_slice());
    TsvScan { albums, skipped: scan.skipped }
}

} // verus!
