//! Deep paging over an Elasticsearch-style search service.
//!
//! A search with a very large `from` is answered by a bounded series of
//! `_count` and `_search` requests, none of which asks the server to skip
//! more than `MAX_FROM` or to return more than `MAX_SIZE` documents.
//!
//! The library does no I/O. A [`pager::Session`] names each request; the
//! caller posts it and resumes the session with the outcome, until the
//! session is done.
//!
//! * [`plan`] decides, over plain integers, which request comes next.
//! * [`query`] writes the paths and bodies of the requests.
//! * [`analyzer`] and [`es_json`] read a response into a tree and write a
//!   tree back as text; [`grammar`] says what a text means.
//! * [`response`] finds counts, sort keys and documents in a tree.
//! * [`number`] writes and reads 64-bit integers in decimal.
//! * [`ideal`], [`laws`] and [`dialogue`] state and prove what a search
//!   delivers when the server answers as it should; [`roundtrip`] proves
//!   that reading undoes writing.

pub mod error;
pub mod text;
pub mod number;
pub mod plan;
pub mod es_json;
pub mod grammar;
pub mod analyzer;
pub mod response;
pub mod query;
pub mod pager;
pub mod ideal;
pub mod laws;
pub mod roundtrip;
pub mod dialogue;
