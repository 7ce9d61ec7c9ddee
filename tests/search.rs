use album_search::album::{Album, SortFields};
use album_search::db::{db_search, DbRow};
use album_search::search::{search, SearchErrorKind, SearchQuery, SearchType, SourceData};
use album_search::tsv::{parse_row, scan_tsv, split_chars, tsv_search, year_of};
use album_search::text::contains_ignoring_case;
use album_search::album::text_less;

fn query(term: &str, kind: SearchType, include_header: bool, sort: SortFields) -> SearchQuery {
    SearchQuery {
        file: String::from("library.tsv"),
        include_header,
        include_playlist_name: false,
        search_term: String::from(term),
        search_type: kind,
        sort,
        verbose: false,
    }
}

fn chars(s: &str) -> Vec<char> {
    s.chars().collect()
}

fn titles(albums: &[Album]) -> Vec<String> {
    albums.iter().map(|a| a.title.clone()).collect()
}

fn row(title: &str, artists: &str, year: i64, added: &str) -> DbRow {
    DbRow {
        title: String::from(title),
        artists: String::from(artists),
        year,
        added: String::from(added),
        playlist: None,
    }
}

const BEATLES: &str = "Title\tArtist\tYear\tAdded\nAbbey Road\tThe Beatles\t1969\t2020-01-01\nLet It Be\tThe Beatles\t1970\t2020-01-02\n";

#[test]
fn beatles_sorted_by_year() {
    let q = query("Beatles", SearchType::Tsv, true, SortFields::Year);
    let r = search(&q, SourceData::Text(String::from(BEATLES))).ok().unwrap();
    assert_eq!(titles(&r.results), vec!["Abbey Road", "Let It Be"]);
    assert_eq!(r.results[0].year, 1969);
    assert_eq!(r.results[1].year, 1970);
    assert_eq!(r.search_term, "Beatles");
    assert!(r.include_header);
    assert!(r.skipped_lines.is_empty());
}

#[test]
fn sorted_by_year_descending_source() {
    let text = "Let It Be\tThe Beatles\t1970\t2020-01-02\nAbbey Road\tThe Beatles\t1969\t2020-01-01\n";
    let q = query("beatles", SearchType::Tsv, false, SortFields::Year);
    let r = search(&q, SourceData::Text(String::from(text))).ok().unwrap();
    assert_eq!(titles(&r.results), vec!["Abbey Road", "Let It Be"]);
}

#[test]
fn unmatched_term_is_empty_for_both_backends() {
    let q = query("Zeppelin", SearchType::Tsv, true, SortFields::Added);
    let r = search(&q, SourceData::Text(String::from(BEATLES))).ok().unwrap();
    assert!(r.results.is_empty());
    let q = query("Zeppelin", SearchType::Db, false, SortFields::Added);
    let rows = vec![row("Abbey Road", "The Beatles", 1969, "2020-01-01")];
    let r = search(&q, SourceData::Rows(rows)).ok().unwrap();
    assert!(r.results.is_empty());
}

#[test]
fn empty_source_is_empty_result() {
    let q = query("x", SearchType::Tsv, true, SortFields::Album);
    let r = search(&q, SourceData::Text(String::new())).ok().unwrap();
    assert!(r.results.is_empty());
    let q = query("x", SearchType::Db, true, SortFields::Album);
    let r = search(&q, SourceData::Rows(Vec::new())).ok().unwrap();
    assert!(r.results.is_empty());
}

#[test]
fn match_count_ignores_case_and_checks_title_and_artists() {
    let text = "Help!\tThe Beatles\t1965\t2020-01-03\nRevolver\tTHE BEATLES\t1966\t2020-01-04\nBeatles for Sale\tX\t1964\t2020-01-05\nPet Sounds\tThe Beach Boys\t1966\t2020-01-06\n";
    let q = query("beatles", SearchType::Tsv, false, SortFields::Added);
    let r = search(&q, SourceData::Text(String::from(text))).ok().unwrap();
    assert_eq!(titles(&r.results), vec!["Help!", "Revolver", "Beatles for Sale"]);
}

#[test]
fn empty_term_matches_every_record() {
    let q = query("", SearchType::Tsv, true, SortFields::Album);
    let r = search(&q, SourceData::Text(String::from(BEATLES))).ok().unwrap();
    assert_eq!(r.results.len(), 2);
}

#[test]
fn header_skipped_only_when_asked() {
    let text = "Header 1999\tTitle Band\t1999\tAdded\nSong\tBand\t2001\t2021-05-05\n";
    let with = tsv_search(text, "Title", true);
    assert!(with.albums.is_empty());
    let without = tsv_search(text, "Title", false);
    assert_eq!(titles(&without.albums), vec!["Header 1999"]);
}

#[test]
fn text_header_is_reported_when_read_as_data() {
    let scan = scan_tsv(BEATLES, false);
    assert_eq!(scan.albums.len(), 2);
    assert_eq!(scan.skipped, vec![1]);
}

#[test]
fn equal_keys_keep_source_order() {
    let text = "B\tArt\t1970\t1\nA\tArt\t1969\t2\nC\tArt\t1970\t3\nD\tArt\t1969\t4\n";
    let q = query("art", SearchType::Tsv, false, SortFields::Year);
    let first = search(&q, SourceData::Text(String::from(text))).ok().unwrap();
    assert_eq!(titles(&first.results), vec!["A", "D", "B", "C"]);
    let again = search(&q, SourceData::Text(String::from(text))).ok().unwrap();
    assert_eq!(titles(&again.results), titles(&first.results));
    let q = query("art", SearchType::Tsv, false, SortFields::Artists);
    let r = search(&q, SourceData::Text(String::from(text))).ok().unwrap();
    assert_eq!(titles(&r.results), vec!["B", "A", "C", "D"]);
}

#[test]
fn sorts_by_title_and_added() {
    let text = "b\tX\t1\t2020-03\nB\tX\t2\t2020-01\na\tX\t3\t2020-02\n";
    let q = query("x", SearchType::Tsv, false, SortFields::Album);
    let r = search(&q, SourceData::Text(String::from(text))).ok().unwrap();
    assert_eq!(titles(&r.results), vec!["B", "a", "b"]);
    let q = query("x", SearchType::Tsv, false, SortFields::Added);
    let r = search(&q, SourceData::Text(String::from(text))).ok().unwrap();
    assert_eq!(titles(&r.results), vec!["B", "a", "b"]);
}

#[test]
fn malformed_row_is_skipped() {
    let text = "Title\tArtist\tYear\tAdded\nAbbey Road\tThe Beatles\t1969\t2020-01-01\nbroken row\tThe Beatles\n\nLet It Be\tThe Beatles\tnineteen\t2020-01-02\nHelp!\tThe Beatles\t1965\t2020-01-03\n";
    let q = query("Beatles", SearchType::Tsv, true, SortFields::Year);
    let r = search(&q, SourceData::Text(String::from(text))).ok().unwrap();
    assert_eq!(titles(&r.results), vec!["Help!", "Abbey Road"]);
    assert_eq!(r.skipped_lines, vec![3, 5]);
}

#[test]
fn unavailable_source_for_both_backends() {
    for kind in [SearchType::Tsv, SearchType::Db] {
        let q = query("Beatles", kind, true, SortFields::Year);
        let e = search(&q, SourceData::Unavailable).err().unwrap();
        assert_eq!(e.kind, SearchErrorKind::SourceUnavailable);
        assert_eq!(e.query.search_term, "Beatles");
        assert_eq!(e.query.file, "library.tsv");
        assert_eq!(e.query.search_type, kind);
    }
}

#[test]
fn source_of_the_other_type_is_unavailable() {
    let q = query("Beatles", SearchType::Db, true, SortFields::Year);
    let e = search(&q, SourceData::Text(String::from(BEATLES))).err().unwrap();
    assert_eq!(e.kind, SearchErrorKind::SourceUnavailable);
}

#[test]
fn query_failure_is_reported() {
    let q = query("Beatles", SearchType::Db, true, SortFields::Year);
    let e = search(&q, SourceData::QueryFailed).err().unwrap();
    assert_eq!(e.kind, SearchErrorKind::QueryExecutionError);
}

#[test]
fn db_rows_search_and_sort() {
    let rows = vec![
        row("Let It Be", "The Beatles", 1970, "2020-01-02"),
        row("Pet Sounds", "The Beach Boys", 1966, "2020-01-06"),
        row("Abbey Road", "The Beatles", 1969, "2020-01-01"),
    ];
    let q = query("BEATLES", SearchType::Db, false, SortFields::Added);
    let r = search(&q, SourceData::Rows(rows)).ok().unwrap();
    assert_eq!(titles(&r.results), vec!["Abbey Road", "Let It Be"]);
}

#[test]
fn db_row_with_bad_year_is_malformed() {
    let rows = vec![
        row("Abbey Road", "The Beatles", 1969, "2020-01-01"),
        row("Bad", "The Beatles", -1, "2020-01-01"),
        row("Worse", "The Beatles", 5_000_000_000, "2020-01-01"),
    ];
    assert_eq!(db_search(&rows, "x").err(), Some(1));
    let q = query("x", SearchType::Db, false, SortFields::Year);
    let e = search(&q, SourceData::Rows(rows)).err().unwrap();
    assert_eq!(e.kind, SearchErrorKind::MalformedRecord(1));
}

#[test]
fn year_fields() {
    assert_eq!(year_of(&chars("1969")), Some(1969));
    assert_eq!(year_of(&chars("0")), Some(0));
    assert_eq!(year_of(&chars("4294967295")), Some(4294967295));
    assert_eq!(year_of(&chars("4294967296")), None);
    assert_eq!(year_of(&chars("99999999999999999999")), None);
    assert_eq!(year_of(&chars("")), None);
    assert_eq!(year_of(&chars("19a9")), None);
    assert_eq!(year_of(&chars("-1")), None);
}

#[test]
fn rows_with_playlist_and_carriage_return() {
    let a = parse_row(&chars("Abbey Road\tThe Beatles\t1969\t2020-01-01\tFavourites\r")).unwrap();
    assert_eq!(a.title, "Abbey Road");
    assert_eq!(a.artists, "The Beatles");
    assert_eq!(a.added, "2020-01-01");
    assert_eq!(a.playlist, Some(String::from("Favourites")));
    let b = parse_row(&chars("Abbey Road\tThe Beatles\t1969\t2020-01-01\r")).unwrap();
    assert_eq!(b.added, "2020-01-01");
    assert_eq!(b.playlist, None);
    assert!(parse_row(&chars("a\tb\t1\tc\td\te")).is_none());
    assert!(parse_row(&chars("")).is_none());
}

#[test]
fn splitting() {
    let parts = split_chars(&chars("a\t\tbc\t"), 6, '\t');
    assert_eq!(parts, vec![chars("a"), chars(""), chars("bc"), chars("")]);
    let parts = split_chars(&chars("ab\tc"), 2, '\t');
    assert_eq!(parts, vec![chars("ab")]);
}

#[test]
fn substring_ignoring_case() {
    assert!(contains_ignoring_case(&chars("The Beatles"), &chars("BEAT")));
    assert!(contains_ignoring_case(&chars("abc"), &chars("")));
    assert!(!contains_ignoring_case(&chars("ab"), &chars("abc")));
    assert!(!contains_ignoring_case(&chars("Beach"), &chars("beat")));
    assert!(contains_ignoring_case(&chars("xxABC"), &chars("abc")));
}

#[test]
fn text_order() {
    assert!(text_less(&chars("Abbey"), &chars("Abbey Road")));
    assert!(!text_less(&chars("Abbey"), &chars("Abbey")));
    assert!(text_less(&chars("B"), &chars("a")));
    assert!(!text_less(&chars("b"), &chars("B")));
}

#[test]
fn album_methods() {
    let a = Album::new(String::from("T"), String::from("Who"), 1971, String::from("d"), None);
    let c = a.copy();
    assert_eq!(c.title, "T");
    assert_eq!(c.year, 1971);
    assert!(a.matches(&chars("who")));
    assert!(!a.matches(&chars("why")));
    let b = Album::new(String::from("S"), String::from("Who"), 1970, String::from("e"), None);
    assert!(a.sorts_after(&b, SortFields::Year));
    assert!(!a.sorts_after(&b, SortFields::Added));
    assert!(a.sorts_after(&b, SortFields::Album));
    assert!(!a.sorts_after(&b, SortFields::Artists));
}
