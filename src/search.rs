//! The query descriptor, the unified result set and the dispatcher that runs
//! one of the two backends and sorts what it found.

use crate::album::{views, Album, AlbumView, SortFields};
use crate::db::{db_records, db_rows_valid, db_search, first_bad_row, DbRow};
use crate::order::{select, sort_albums, stable_sort};
use crate::tsv::{nats, tsv_malformed, tsv_records, tsv_search};
use vstd::prelude::*;

verus! {

/// Which backend a query runs against.
#[derive(Clone, Copy, Debug, PartialEq, Eq, Structural)]
pub enum SearchType {
    Db,
    Tsv,
}

/// One search request.
pub struct SearchQuery {
    pub file: String,
    pub include_header: bool,
    pub include_playlist_name: bool,
    pub search_term: String,
    pub search_type: SearchType,
    pub sort: SortFields,
    pub verbose: bool,
}

impl SearchQuery {
    /// A field-by-field copy.
    pub fn copy(&self) -> (r: SearchQuery)
        ensures
            r == *self,
    {
        SearchQuery {
            file: self.file.clone(),
            include_header: self.include_header,
            include_playlist_name: self.include_playlist_name,
            search_term: self.search_term.clone(),
            search_type: self.search_type,
            sort: self.sort,
            verbose: self.verbose,
        }
    }
}

/// What the source of a query turned out to be once it was read.
pub enum SourceData {
    /// The file is missing or cannot be read.
    Unavailable,
    /// The whole text of a tab-separated file.
    Text(String),
    /// The album rows of a database.
    Rows(Vec<DbRow>),
    /// The database could not evaluate the query.
    QueryFailed,
}

/// The unified result set, with the request metadata that rendering needs.
pub struct SearchResults {
    pub include_header: bool,
    pub include_playlist_name: bool,
    pub results: Vec<Album>,
    pub search_term: String,
    pub sort: SortFields,
    /// Numbers (counting from 1) of the source lines skipped as malformed.
    pub skipped_lines: Vec<usize>,
}

/// Why a search failed.
#[derive(Clone, Copy, Debug, PartialEq, Eq, Structural)]
pub enum SearchErrorKind {
    /// The source file is missing or unreadable, or is not of the queried type.
    SourceUnavailable,
    /// A database row, at this index, does not fit the schema.
    MalformedRecord(usize),
    /// The database failed while evaluating the query.
    QueryExecutionError,
}

/// A failed search, with the query that failed.
pub struct SearchError {
    pub kind: SearchErrorKind,
    pub query: SearchQuery,
}

/// Every record that `source` holds for `query`, in source order.
pub open spec fn source_records(query: SearchQuery, source: SourceData) -> Seq<AlbumView> {
    match source {
        SourceData::Text(c) => tsv_records(c@, query.include_header),
        SourceData::Rows(rows) => db_records(rows@),
        _ => seq![],
    }
}

/// The albums that a successful search over `source` yields, before sorting.
pub open spec fn source_matches(query: SearchQuery, source: SourceData) -> Seq<AlbumView> {
    select(source_records(query, source), query.search_term@)
}

/// The source can be read by the backend that the query selects.
pub open spec fn source_fits(query: SearchQuery, source: SourceData) -> bool {
    match source {
        SourceData::Text(_) => query.search_type == SearchType::Tsv,
        SourceData::Rows(_) => query.search_type == SearchType::Db,
        _ => false,
    }
}

/// Runs `query` against the source that was read for it: the backend is the
/// one `search_type` names, the matches are sorted stably by `sort`, and a
/// failure carries the query.
pub fn search(query: &SearchQuery, source: SourceData) -> (r: Result<SearchResults, SearchError>)
    ensures
        r is Ok <==> source_fits(*query, source) && match source {
            SourceData::Rows(rows) => db_rows_valid(rows@),
            _ => true,
        },
        match r {
            Ok(res) => {
                &&& views(res.results@) == stable_sort(source_matches(*query, source), query.sort)
                &&& res.include_header == query.include_header
                &&& res.include_playlist_name == query.include_playlist_name
                &&& res.search_term == query.search_term
                &&& res.sort == query.sort
                &&& nats(res.skipped_lines@) == match source {
                    SourceData::Text(c) => tsv_malformed(c@, query.include_header),
                    _ => seq![],
                }
            },
            Err(e) => {
                &&& e.query == *query
                &&& match source {
                    SourceData::Rows(rows) => source_fits(*query, source) ==> match e.kind {
                        SearchErrorKind::MalformedRecord(i) => first_bad_row(rows@, i as int),
                        _ => false,
                    },
                    SourceData::QueryFailed => e.kind == SearchErrorKind::QueryExecutionError,
                    _ => e.kind == SearchErrorKind::SourceUnavailable,
                }
                &&& !source_fits(*query, source) && !(source is QueryFailed)
                    ==> e.kind == SearchErrorKind::SourceUnavailable
            },
        },
{
    let found: Result<(Vec<Album>, Vec<usize>), SearchErrorKind> = match source {
        SourceData::Text(content) => match query.search_type {
            SearchType::Tsv => {
                let scan = tsv_search(content.as_str(), query.search_term.as_str(), query.include_header);
                Ok((scan.albums, scan.skipped))
            },
            SearchType::Db => Err(SearchErrorKind::SourceUnavailable),
        },
        SourceData::Rows(rows) => match query.search_type {
            SearchType::Db => match db_search(&rows, query.search_term.as_str()) {
                Ok(albums) => Ok((albums, Vec::new())),
                Err(i) => Err(SearchErrorKind::MalformedRecord(i)),
            },
            SearchType::Tsv => Err(SearchErrorKind::SourceUnavailable),
        },
        SourceData::Unavailable => Err(SearchErrorKind::SourceUnavailable),
        SourceData::QueryFailed => Err(SearchErrorKind::QueryExecutionError),
    };
    match found {
        Ok((albums, skipped)) => {
            let results = sort_albums(&albums, query.sort);
            Ok(
                SearchResults {
                    include_header: query.include_header,
                    include_playlist_name: query.include_playlist_name,
                    results,
                    search_term: query.search_term.clone(),
                    sort: query.sort,
                    skipped_lines: skipped,
                },
            )
        },
        Err(kind) => Err(SearchError { kind, query: query.copy() }),
    }
}

} // verus!
