//! Selecting the albums that match a term, and the stable sort that orders
//! a result set by one field.

use crate::album::{album_matches, key_gt, views, Album, AlbumView, SortFields};
use vstd::prelude::*;

verus! {

/// The albums of `s` that match `term`, in their order in `s`.
pub open spec fn select(s: Seq<AlbumView>, term: Seq<char>) -> Seq<AlbumView>
    decreases s.len(),
{
    if s.len() == 0 {
        seq![]
    } else {
        let prev = select(s.drop_last(), term);
        if album_matches(s.last(), term) {
            prev.push(s.last())
        } else {
            prev
        }
    }
}

/// `s` with `a` inserted after every element whose key is not greater than
/// `a`'s: `a` passes from the end over the elements with a greater key only.
pub open spec fn insert_stable(s: Seq<AlbumView>, a: AlbumView, field: SortFields) -> Seq<AlbumView>
    decreases s.len(),
{
    if s.len() == 0 {
        seq![a]
    } else if key_gt(s.last(), a, field) {
        insert_stable(s.drop_last(), a, field).push(s.last())
    } else {
        s.push(a)
    }
}

/// The stable sort of `s` by `field`: each element in turn is inserted into
/// the sorted prefix, after the elements with an equal key.
pub open spec fn stable_sort(s: Seq<AlbumView>, field: SortFields) -> Seq<AlbumView>
    decreases s.len(),
{
    if s.len() == 0 {
        seq![]
    } else {
        insert_stable(stable_sort(s.drop_last(), field), s.last(), field)
    }
}

/// The albums of `albums` that match `term`, in their order.
pub fn select_matching(albums: &Vec<Album>, term: &[char]) -> (r: Vec<Album>)
    ensures
        views(r@) == select(views(albums@), term@),
{
    let mut out: Vec<Album> = Vec::new();
    let mut i: usize = 0;
    while i < albums.len()
        invariant
            i <= albums@.len(),
            views(out@) == select(views(albums@).take(i as int), term@),
        decreases albums.len() - i,
    {
        let ghost s = views(albums@).take(i as int + 1);
        assert(s.drop_last() =~= views(albums@).take(i as int));
        if albums[i].matches(term) {
            out.push(albums[i].copy());
            assert(views(out@) =~= select(views(albums@).take(i as int), term@).push(albums@[i as int]@));
        }
        i = i + 1;
    }
    assert(views(albums@).take(albums@.len() as int) =~= views(albums@));
    out
}

/// Sorts `albums` by `field`, keeping the source order among equal keys.
pub fn sort_albums(albums: &Vec<Album>, field: SortFields) -> (r: Vec<Album>)
    ensures
        views(r@) == stable_sort(views(albums@), field),
{
    let mut out: Vec<Album> = Vec::new();
    let mut i: usize = 0;
    while i < albums.len()
        invariant
            i <= albums@.len(),
            views(out@) == stable_sort(views(albums@).take(i as int), field),
        decreases albums.len() - i,
    {
        let a = albums[i].copy();
        let ghost s = views(out@);
        let mut j: usize = out.len();
        assert(s.take(j as int) =~= s);
        assert(s.skip(j as int) =~= Seq::<AlbumView>::empty());
        assert(insert_stable(s, a@, field) + s.skip(j as int) =~= insert_stable(s, a@, field));
        while j > 0 && out[j - 1].sorts_after(&a, field)
            invariant
                j <= out@.len(),
                s == views(out@),
                insert_stable(s, a@, field) == insert_stable(s.take(j as int), a@, field) + s.skip(j as int),
            decreases j,
        {
            assert(s.take(j as int).drop_last() =~= s.take(j as int - 1));
            assert(s.skip(j as int - 1) =~= seq![s[j as int - 1]] + s.skip(j as int));
            assert(insert_stable(s.take(j as int), a@, field) == insert_stable(s.take(j as int - 1), a@, field).push(s[j as int - 1]));
            assert(insert_stable(s.take(j as int - 1), a@, field).push(s[j as int - 1]) + s.skip(j as int)
                =~= insert_stable(s.take(j as int - 1), a@, field) + s.skip(j as int - 1));
            j = j - 1;
        }
        let ghost av = a@;
        out.insert(j, a);
        assert(views(out@) =~= s.insert(j as int, av));
        if j == 0 {
            assert(s.take(0) =~= Seq::<AlbumView>::empty());
            assert(insert_stable(s.take(0), av, field) + s.skip(0) =~= s.insert(0, av));
        } else {
            assert(insert_stable(s.take(j as int), av, field) == s.take(j as int).push(av));
            assert(s.take(j as int).push(av) + s.skip(j as int) =~= s.insert(j as int, av));
        }
        assert(views(albums@).take(i as int + 1).drop_last() =~= views(albums@).take(i as int));
        i = i + 1;
    }
    assert(views(albums@).take(albums@.len() as int) =~= views(albums@));
    out
}

} // verus!
