//! Search over a music-library export held either as tab-separated text or
//! as rows read from a database, with one verified result shape for both.

pub mod album;
pub mod db;
pub mod order;
pub mod text;
pub mod tsv;
pub mod search;
pub mod laws;
