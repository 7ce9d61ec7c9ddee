//! The database backend. The database is read outside this library; what
//! it hands over is the album rows, and a row whose year is out of range
//! breaks the expected schema.

use crate::album::{views, Album, AlbumView};
use crate::order::{select, select_matching};
use crate::text::chars_of;
use vstd::prelude::*;

verus! {

/// One album row as the database holds it.
pub struct DbRow {
    pub title: String,
    pub artists: String,
    pub year: i64,
    pub added: String,
    pub playlist: Option<String>,
}

/// The album that a row stands for, if the row fits the schema.
pub open spec fn db_row_album(r: DbRow) -> Option<AlbumView> {
    if 0 <= r.year <= u32::MAX {
        Some(
            AlbumView {
                title: r.title@,
                artists: r.artists@,
                year: r.year as u32,
                added: r.added@,
                playlist: crate::album::opt_view(r.playlist),
            },
        )
    } else {
        None
    }
}

/// Every row fits the schema.
pub open spec fn db_rows_valid(rows: Seq<DbRow>) -> bool {
    forall|i: int| 0 <= i < rows.len() ==> (#[trigger] db_row_album(rows[i])) is Some
}

/// Row `i` is the first that does not fit the schema.
pub open spec fn first_bad_row(rows: Seq<DbRow>, i: int) -> bool {
    &&& 0 <= i < rows.len()
    &&& db_row_album(rows[i]) is None
    &&& forall|j: int| 0 <= j < i ==> (#[trigger] db_row_album(rows[j])) is Some
}

/// The albums of rows that all fit the schema, in row order.
pub open spec fn db_records(rows: Seq<DbRow>) -> Seq<AlbumView> {
    rows.map_values(|r: DbRow| db_row_album(r)->Some_0)
}

/// The album of one row.
pub fn album_of_row(row: &DbRow) -> (r: Option<Album>)
    ensures
        match r {
            Some(a) => db_row_album(*row) == Some(a@),
            None => db_row_album(*row) is None,
        },
{
    if row.year < 0 || row.year > 4294967295 {
        return None;
    }
    let playlist = match &row.playlist {
        Some(p) => Some(p.clone()),
        None => None,
    };
    Some(
        Album {
            title: row.title.clone(),
            artists: row.artists.clone(),
            year: row.year as u32,
            added: row.added.clone(),
            playlist,
        },
    )
}

/// The database backend: the albums of `rows` that match `term`, in row
/// order; or the index of the first row that does not fit the schema.
pub fn db_search(rows: &Vec<DbRow>, term: &str) -> (r: Result<Vec<Album>, usize>)
    ensures
        match r {
            Ok(albums) => db_rows_valid(rows@) && views(albums@) == select(db_records(rows@), term@),
            Err(i) => first_bad_row(rows@, i as int),
        },
{
    let mut all: Vec<Album> = Vec::new();
    let mut i: usize = 0;
    while i < rows.len()
        invariant
            i <= rows@.len(),
            forall|j: int| 0 <= j < i ==> (#[trigger] db_row_album(rows@[j])) is Some,
            views(all@) == db_records(rows@.take(i as int)),
        decreases rows.len() - i,
    {
        match album_of_row(&rows[i]) {
            Some(a) => {
                let ghost before = views(all@);
                all.push(a);
                assert(rows@.take(i as int + 1) =~= rows@.take(i as int).push(rows@[i as int]));
                assert(views(all@) =~= before.push(db_row_album(rows@[i as int])->Some_0));
                assert(views(all@) =~= db_records(rows@.take(i as int + 1)));
            },
            None => {
                return Err(i);
            },
        }
        i = i + 1;
    }
    assert(rows@.take(rows@.len() as int) =~= rows@);
    let t = chars_of(term);
    Ok(select_matching(&all, t.as_slice()))
}

} // verus!
