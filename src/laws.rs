//! What holds of every search: the laws that relate the backends, the match
//! rule and the sort.

use crate::album::{album_matches, key_eq, key_gt, text_lt_from, AlbumView, SortFields};
use crate::db::db_rows_valid;
use crate::order::{insert_stable, select, stable_sort};
use crate::search::{source_fits, source_matches, source_records, SearchQuery, SourceData};
use crate::tsv::{records, row_album, split_on, tsv_records};
use vstd::prelude::*;

verus! {

/// The number of albums of `s` that match `term`.
pub open spec fn count_matching(s: Seq<AlbumView>, term: Seq<char>) -> nat
    decreases s.len(),
{
    if s.len() == 0 {
        0
    } else {
        count_matching(s.drop_last(), term) + if album_matches(s.last(), term) { 1nat } else { 0nat }
    }
}

/// The albums of `s`, in order, whose key under `field` equals that of `x`.
pub open spec fn with_key(s: Seq<AlbumView>, x: AlbumView, field: SortFields) -> Seq<AlbumView>
    decreases s.len(),
{
    if s.len() == 0 {
        seq![]
    } else {
        let prev = with_key(s.drop_last(), x, field);
        if key_eq(s.last(), x, field) {
            prev.push(s.last())
        } else {
            prev
        }
    }
}

proof fn lemma_select_facts(s: Seq<AlbumView>, term: Seq<char>)
    ensures
        select(s, term).len() == count_matching(s, term),
        forall|i: int| 0 <= i < select(s, term).len() ==> album_matches(#[trigger] select(s, term)[i], term),
    decreases s.len(),
{
    if s.len() > 0 {
        lemma_select_facts(s.drop_last(), term);
    }
}

proof fn lemma_insert_keeps(s: Seq<AlbumView>, a: AlbumView, field: SortFields)
    ensures
        insert_stable(s, a, field).len() == s.len() + 1,
        forall|i: int| 0 <= i < insert_stable(s, a, field).len() ==>
            #[trigger] insert_stable(s, a, field)[i] == a || s.contains(insert_stable(s, a, field)[i]),
    decreases s.len(),
{
    let r = insert_stable(s, a, field);
    if s.len() > 0 {
        if key_gt(s.last(), a, field) {
            lemma_insert_keeps(s.drop_last(), a, field);
            assert forall|i: int| 0 <= i < r.len() implies #[trigger] r[i] == a || s.contains(r[i]) by {
                if i == r.len() - 1 {
                    assert(s[s.len() - 1] == r[i]);
                } else {
                    let x = insert_stable(s.drop_last(), a, field)[i];
                    if x != a {
                        let j = choose|j: int| 0 <= j < s.drop_last().len() && s.drop_last()[j] == x;
                        assert(s[j] == r[i]);
                    }
                }
            }
        } else {
            assert forall|i: int| 0 <= i < r.len() implies #[trigger] r[i] == a || s.contains(r[i]) by {
                if i < s.len() {
                    assert(s[i] == r[i]);
                }
            }
        }
    }
}

proof fn lemma_sort_keeps(s: Seq<AlbumView>, field: SortFields)
    ensures
        stable_sort(s, field).len() == s.len(),
        forall|i: int| 0 <= i < stable_sort(s, field).len() ==> s.contains(#[trigger] stable_sort(s, field)[i]),
    decreases s.len(),
{
    if s.len() > 0 {
        let p = stable_sort(s.drop_last(), field);
        lemma_sort_keeps(s.drop_last(), field);
        lemma_insert_keeps(p, s.last(), field);
        let r = stable_sort(s, field);
        assert forall|i: int| 0 <= i < r.len() implies s.contains(#[trigger] r[i]) by {
            if r[i] == s.last() {
                assert(s[s.len() - 1] == r[i]);
            } else {
                let k = choose|k: int| 0 <= k < p.len() && p[k] == r[i];
                assert(p.contains(p[k]));
                let j = choose|j: int| 0 <= j < s.drop_last().len() && s.drop_last()[j] == p[k];
                assert(s[j] == r[i]);
            }
        }
    }
}

/// Every album of a result set matches the term, and there are exactly as
/// many as the source has matching records.
pub proof fn results_are_the_matches(query: SearchQuery, source: SourceData)
    ensures
        stable_sort(source_matches(query, source), query.sort).len()
            == count_matching(source_records(query, source), query.search_term@),
        forall|i: int| 0 <= i < stable_sort(source_matches(query, source), query.sort).len()
            ==> album_matches(#[trigger] stable_sort(source_matches(query, source), query.sort)[i], query.search_term@),
{
    let s = source_records(query, source);
    let m = select(s, query.search_term@);
    lemma_select_facts(s, query.search_term@);
    lemma_sort_keeps(m, query.sort);
    let r = stable_sort(m, query.sort);
    assert forall|i: int| 0 <= i < r.len() implies album_matches(#[trigger] r[i], query.search_term@) by {
        let j = choose|j: int| 0 <= j < m.len() && m[j] == r[i];
        assert(album_matches(m[j], query.search_term@));
    }
}

proof fn lemma_select_none(s: Seq<AlbumView>, term: Seq<char>)
    requires
        forall|i: int| 0 <= i < s.len() ==> !album_matches(#[trigger] s[i], term),
    ensures
        select(s, term) == Seq::<AlbumView>::empty(),
    decreases s.len(),
{
    if s.len() > 0 {
        assert(!album_matches(s[s.len() - 1], term));
        lemma_select_none(s.drop_last(), term);
    }
}

/// A term that matches no record of a readable source gives a successful,
/// empty result set.
pub proof fn unmatched_term_gives_empty(query: SearchQuery, source: SourceData)
    requires
        source_fits(query, source),
        source is Rows ==> db_rows_valid(source->Rows_0@),
        forall|i: int| 0 <= i < source_records(query, source).len()
            ==> !album_matches(#[trigger] source_records(query, source)[i], query.search_term@),
    ensures
        stable_sort(source_matches(query, source), query.sort) == Seq::<AlbumView>::empty(),
{
    lemma_select_none(source_records(query, source), query.search_term@);
}

proof fn lemma_text_lt_irreflexive(a: Seq<char>, i: int)
    requires
        0 <= i,
    ensures
        !text_lt_from(a, a, i),
    decreases a.len() - i,
{
    if i < a.len() {
        lemma_text_lt_irreflexive(a, i + 1);
    }
}

proof fn lemma_greater_not_equal(y: AlbumView, a: AlbumView, x: AlbumView, field: SortFields)
    requires
        key_gt(y, a, field),
    ensures
        !(key_eq(y, x, field) && key_eq(a, x, field)),
{
    match field {
        SortFields::Added => lemma_text_lt_irreflexive(a.added, 0),
        SortFields::Album => lemma_text_lt_irreflexive(a.title, 0),
        SortFields::Artists => lemma_text_lt_irreflexive(a.artists, 0),
        SortFields::Year => {},
    }
}

proof fn lemma_with_key_push(s: Seq<AlbumView>, y: AlbumView, x: AlbumView, field: SortFields)
    ensures
        with_key(s.push(y), x, field) == if key_eq(y, x, field) {
            with_key(s, x, field).push(y)
        } else {
            with_key(s, x, field)
        },
{
    assert(s.push(y).drop_last() =~= s);
}

proof fn lemma_insert_with_key(s: Seq<AlbumView>, a: AlbumView, x: AlbumView, field: SortFields)
    ensures
        with_key(insert_stable(s, a, field), x, field) == if key_eq(a, x, field) {
            with_key(s, x, field).push(a)
        } else {
            with_key(s, x, field)
        },
    decreases s.len(),
{
    if s.len() == 0 {
        lemma_with_key_push(s, a, x, field);
        assert(seq![a] =~= s.push(a));
    } else if key_gt(s.last(), a, field) {
        let d = s.drop_last();
        lemma_insert_with_key(d, a, x, field);
        lemma_with_key_push(insert_stable(d, a, field), s.last(), x, field);
        lemma_with_key_push(d, s.last(), x, field);
        assert(d.push(s.last()) =~= s);
        lemma_greater_not_equal(s.last(), a, x, field);
    } else {
        lemma_with_key_push(s, a, x, field);
    }
}

/// The sort is stable: for every key, the albums with that key come out in
/// the order in which they came in.
pub proof fn sort_is_stable(s: Seq<AlbumView>, x: AlbumView, field: SortFields)
    ensures
        with_key(stable_sort(s, field), x, field) == with_key(s, x, field),
    decreases s.len(),
{
    if s.len() > 0 {
        let d = s.drop_last();
        sort_is_stable(d, x, field);
        lemma_insert_with_key(stable_sort(d, field), s.last(), x, field);
        lemma_with_key_push(d, s.last(), x, field);
        assert(d.push(s.last()) =~= s);
    }
}

/// The records of a line sequence, as a sequence of zero or one element.
pub open spec fn line_record(line: Seq<char>) -> Seq<AlbumView> {
    match row_album(line) {
        Some(a) => seq![a],
        None => seq![],
    }
}

proof fn lemma_records_shift(lines: Seq<Seq<char>>, start: int)
    requires
        0 <= start,
        lines.len() >= 1,
    ensures
        records(lines, start + 1) == records(lines.drop_first(), start),
    decreases lines.len(),
{
    if lines.len() > start + 1 {
        lemma_records_shift(lines.drop_last(), start);
        assert(lines.drop_last().drop_first() =~= lines.drop_first().drop_last());
        assert(lines.drop_first().last() == lines.last());
    }
}

proof fn lemma_records_front(lines: Seq<Seq<char>>)
    requires
        lines.len() > 0,
    ensures
        records(lines, 0) == line_record(lines[0]) + records(lines, 1),
    decreases lines.len(),
{
    if lines.len() == 1 {
        assert(records(lines.drop_last(), 0) =~= Seq::<AlbumView>::empty());
        assert(line_record(lines[0]) + records(lines, 1) =~= records(lines, 0));
    } else {
        lemma_records_front(lines.drop_last());
        assert(lines.drop_last()[0] == lines[0]);
        match row_album(lines.last()) {
            Some(a) => {
                assert(line_record(lines[0]) + records(lines.drop_last(), 1).push(a)
                    =~= (line_record(lines[0]) + records(lines.drop_last(), 1)).push(a));
            },
            None => {},
        }
    }
}

/// With a header, the first line of a tab-separated text never yields a
/// record; without one, the first line is read as data like any other.
pub proof fn header_line_handling(content: Seq<char>)
    ensures
        tsv_records(content, true) == records(split_on(content, '\n').drop_first(), 0),
        tsv_records(content, false) == line_record(split_on(content, '\n')[0]) + records(
            split_on(content, '\n').drop_first(),
            0,
        ),
{
    let lines = split_on(content, '\n');
    lemma_split_nonempty(content, '\n');
    lemma_records_shift(lines, 0);
    lemma_records_front(lines);
}

proof fn lemma_split_nonempty(s: Seq<char>, sep: char)
    ensures
        split_on(s, sep).len() >= 1,
    decreases s.len(),
{
    if s.len() > 0 {
        lemma_split_nonempty(s.drop_last(), sep);
    }
}

/// A line that is not a record is skipped: the records of the other lines
/// are exactly those of the text without it.
pub proof fn malformed_line_is_skipped(lines: Seq<Seq<char>>, start: int, i: int)
    requires
        0 <= start <= i < lines.len(),
        row_album(lines[i]) is None,
    ensures
        records(lines, start) == records(lines.remove(i), start),
    decreases lines.len(),
{
    if i == lines.len() - 1 {
        assert(lines.remove(i) =~= lines.drop_last());
    } else {
        malformed_line_is_skipped(lines.drop_last(), start, i);
        assert(lines.remove(i).drop_last() =~= lines.drop_last().remove(i));
        assert(lines.remove(i).last() == lines.last());
    }
}

/// No album of `s` has a greater key than one that comes after it.
pub open spec fn ordered_by(s: Seq<AlbumView>, field: SortFields) -> bool {
    forall|i: int, j: int| 0 <= i < j < s.len() ==> !key_gt(#[trigger] s[i], #[trigger] s[j], field)
}

proof fn lemma_text_lt_asymmetric(a: Seq<char>, b: Seq<char>, i: int)
    requires
        0 <= i,
    ensures
        text_lt_from(a, b, i) ==> !text_lt_from(b, a, i),
    decreases a.len() - i,
{
    if i < a.len() && i < b.len() && a[i] == b[i] {
        lemma_text_lt_asymmetric(a, b, i + 1);
    }
}

proof fn lemma_text_lt_split(a: Seq<char>, l: Seq<char>, x: Seq<char>, i: int)
    requires
        0 <= i,
    ensures
        text_lt_from(a, x, i) ==> text_lt_from(a, l, i) || text_lt_from(l, x, i),
    decreases a.len() - i,
{
    if i < a.len() && i < l.len() && i < x.len() && a[i] == l[i] && l[i] == x[i] {
        lemma_text_lt_split(a, l, x, i + 1);
    }
}

proof fn lemma_key_order(x: AlbumView, l: AlbumView, a: AlbumView, field: SortFields)
    ensures
        key_gt(x, a, field) ==> !key_gt(a, x, field),
        key_gt(x, a, field) ==> key_gt(x, l, field) || key_gt(l, a, field),
{
    match field {
        SortFields::Added => {
            lemma_text_lt_asymmetric(a.added, x.added, 0);
            lemma_text_lt_split(a.added, l.added, x.added, 0);
        },
        SortFields::Album => {
            lemma_text_lt_asymmetric(a.title, x.title, 0);
            lemma_text_lt_split(a.title, l.title, x.title, 0);
        },
        SortFields::Artists => {
            lemma_text_lt_asymmetric(a.artists, x.artists, 0);
            lemma_text_lt_split(a.artists, l.artists, x.artists, 0);
        },
        SortFields::Year => {},
    }
}

proof fn lemma_insert_ordered(s: Seq<AlbumView>, a: AlbumView, field: SortFields)
    requires
        ordered_by(s, field),
    ensures
        ordered_by(insert_stable(s, a, field), field),
    decreases s.len(),
{
    let r = insert_stable(s, a, field);
    if s.len() == 0 {
    } else if key_gt(s.last(), a, field) {
        let d = s.drop_last();
        lemma_insert_ordered(d, a, field);
        lemma_insert_keeps(d, a, field);
        let p = insert_stable(d, a, field);
        assert forall|i: int, j: int| 0 <= i < j < r.len() implies !key_gt(#[trigger] r[i], #[trigger] r[j], field) by {
            if j == r.len() - 1 {
                if p[i] == a {
                    lemma_key_order(s.last(), a, a, field);
                } else {
                    let k = choose|k: int| 0 <= k < d.len() && d[k] == p[i];
                    assert(s[k] == r[i]);
                    assert(s[s.len() - 1] == r[j]);
                }
            } else {
                assert(r[i] == p[i] && r[j] == p[j]);
            }
        }
    } else {
        assert forall|i: int, j: int| 0 <= i < j < r.len() implies !key_gt(#[trigger] r[i], #[trigger] r[j], field) by {
            if j == r.len() - 1 && i < s.len() - 1 {
                assert(s[s.len() - 1] == s.last());
                assert(!key_gt(s[i], s[s.len() - 1], field));
                lemma_key_order(s[i], s.last(), a, field);
            } else if j < r.len() - 1 {
                assert(r[i] == s[i] && r[j] == s[j]);
            }
        }
    }
}

/// The sort orders by key: no album of a sorted sequence has a greater key
/// than one after it.
pub proof fn sort_orders_by_key(s: Seq<AlbumView>, field: SortFields)
    ensures
        ordered_by(stable_sort(s, field), field),
    decreases s.len(),
{
    if s.len() > 0 {
        sort_orders_by_key(s.drop_last(), field);
        lemma_insert_ordered(stable_sort(s.drop_last(), field), s.last(), field);
    }
}

} // verus!
