//! The album record that both backends produce, its mathematical view, the
//! match rule for search terms and the ordering keys used for sorting.

use crate::text::{chars_of, contains_folded, contains_ignoring_case};
use vstd::prelude::*;

verus! {

/// One album of the library, whichever source it came from.
pub struct Album {
    pub title: String,
    pub artists: String,
    pub year: u32,
    /// When the album was added, as written in the source (ISO dates sort as text).
    pub added: String,
    /// The playlist the album belongs to, where the source names one.
    pub playlist: Option<String>,
}

/// What an [`Album`] holds, as sequences of characters.
pub struct AlbumView {
    pub title: Seq<char>,
    pub artists: Seq<char>,
    pub year: u32,
    pub added: Seq<char>,
    pub playlist: Option<Seq<char>>,
}

pub open spec fn opt_view(o: Option<String>) -> Option<Seq<char>> {
    match o {
        Some(s) => Some(s@),
        None => None,
    }
}

impl View for Album {
    type V = AlbumView;

    open spec fn view(&self) -> AlbumView {
        AlbumView {
            title: self.title@,
            artists: self.artists@,
            year: self.year,
            added: self.added@,
            playlist: opt_view(self.playlist),
        }
    }
}

/// The views of a sequence of albums.
pub open spec fn views(s: Seq<Album>) -> Seq<AlbumView> {
    s.map_values(|a: Album| a@)
}

/// The field that orders a result set.
#[derive(Clone, Copy, Debug, PartialEq, Eq, Structural)]
pub enum SortFields {
    Added,
    Album,
    Artists,
    Year,
}

/// The match rule: the term occurs, ignoring ASCII case, in the title or in
/// the artists. The empty term matches every album.
pub open spec fn album_matches(a: AlbumView, term: Seq<char>) -> bool {
    contains_folded(a.title, term) || contains_folded(a.artists, term)
}

/// Lexicographic order on characters, from position `i` on.
pub open spec fn text_lt_from(a: Seq<char>, b: Seq<char>, i: int) -> bool
    decreases a.len() - i,
{
    if i >= a.len() {
        i < b.len()
    } else if i >= b.len() {
        false
    } else if a[i] != b[i] {
        a[i] < b[i]
    } else {
        text_lt_from(a, b, i + 1)
    }
}

/// `a` comes strictly before `b` in lexicographic order of code points.
pub open spec fn text_lt(a: Seq<char>, b: Seq<char>) -> bool {
    text_lt_from(a, b, 0)
}

/// `x` has a strictly greater sort key than `y` under `field`.
pub open spec fn key_gt(x: AlbumView, y: AlbumView, field: SortFields) -> bool {
    match field {
        SortFields::Added => text_lt(y.added, x.added),
        SortFields::Album => text_lt(y.title, x.title),
        SortFields::Artists => text_lt(y.artists, x.artists),
        SortFields::Year => x.year > y.year,
    }
}

/// `x` and `y` have equal sort keys under `field`.
pub open spec fn key_eq(x: AlbumView, y: AlbumView, field: SortFields) -> bool {
    match field {
        SortFields::Added => x.added == y.added,
        SortFields::Album => x.title == y.title,
        SortFields::Artists => x.artists == y.artists,
        SortFields::Year => x.year == y.year,
    }
}

/// Lexicographic comparison of two character sequences.
pub fn text_less(a: &[char], b: &[char]) -> (r: bool)
    ensures
        r == text_lt(a@, b@),
{
    let mut i: usize = 0;
    while i < a.len() && i < b.len() && a[i] == b[i]
        invariant
            i <= a@.len(),
            i <= b@.len(),
            text_lt_from(a@, b@, i as int) == text_lt(a@, b@),
        decreases a.len() - i,
    {
        i = i + 1;
    }
    if i == a.len() {
        i < b.len()
    } else if i == b.len() {
        false
    } else {
        a[i] < b[i]
    }
}

fn str_less(a: &String, b: &String) -> (r: bool)
    ensures
        r == text_lt(a@, b@),
{
    let ca = chars_of(a.as_str());
    let cb = chars_of(b.as_str());
    text_less(ca.as_slice(), cb.as_slice())
}

impl Album {
    pub fn new(title: String, artists: String, year: u32, added: String, playlist: Option<String>) -> (r: Album)
        ensures
            r.title == title,
            r.artists == artists,
            r.year == year,
            r.added == added,
            r.playlist == playlist,
    {
        Album { title, artists, year, added, playlist }
    }

    /// A field-by-field copy.
    pub fn copy(&self) -> (r: Album)
        ensures
            r@ == self@,
    {
        let playlist = match &self.playlist {
            Some(p) => Some(p.clone()),
            None => None,
        };
        Album {
            title: self.title.clone(),
            artists: self.artists.clone(),
            year: self.year,
            added: self.added.clone(),
            playlist,
        }
    }

    /// Whether the album matches `term` under [`album_matches`].
    pub fn matches(&self, term: &[char]) -> (r: bool)
        ensures
            r == album_matches(self@, term@),
    {
        let title = chars_of(self.title.as_str());
        if contains_ignoring_case(title.as_slice(), term) {
            return true;
        }
        let artists = chars_of(self.artists.as_str());
        contains_ignoring_case(artists.as_slice(), term)
    }

    /// Whether this album's key under `field` is strictly greater than `other`'s.
    pub fn sorts_after(&self, other: &Album, field: SortFields) -> (r: bool)
        ensures
            r == key_gt(self@, other@, field),
    {
        match field {
            SortFields::Added => str_less(&other.added, &self.added),
            SortFields::Album => str_less(&other.title, &self.title),
            SortFields::Artists => str_less(&other.artists, &self.artists),
            SortFields::Year => self.year > other.year,
        }
    }
}

} // verus!
