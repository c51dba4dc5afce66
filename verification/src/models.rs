//! Data model and the uniform response envelopes.
//!
//! A poem's lines and tags are lists of strings here; the database stores
//! them as JSON text.

use vstd::prelude::*;

verus! {

/// A poem as the API returns it.
#[derive(Debug, Clone)]
pub struct Poem {
    pub id: i64,
    pub title: String,
    pub author: String,
    pub dynasty: String,
    /// Category: 诗 / 词
    pub category: String,
    /// The lines of the poem.
    pub content: Vec<String>,
    pub tags: Vec<String>,
    /// Optional translation into modern Chinese.
    pub translation: Option<String>,
}

/// A page of poems with its paging information.
#[derive(Debug, Clone)]
pub struct PoemList {
    pub items: Vec<Poem>,
    pub total: i64,
    pub page: i64,
    pub page_size: i64,
}

/// A curated seed poem.
#[derive(Debug)]
pub struct SeedPoem {
    pub title: String,
    pub author: String,
    pub dynasty: String,
    pub content: Vec<String>,
    pub tags: Vec<String>,
    pub translation: Option<String>,
    /// Category: 诗 / 词 / 曲; 诗 when missing.
    pub category: Option<String>,
}

/// Success envelope around one poem.
#[derive(Debug)]
pub struct PoemResponse {
    pub code: i32,
    pub message: String,
    pub data: Poem,
}

impl PoemResponse {
    /// The success envelope: code 0, message `ok`.
    pub fn ok(data: Poem) -> (r: Self)
        ensures
            r.code == 0,
            r.message@ == "ok"@,
            r.data == data,
    {
        PoemResponse { code: 0, message: "ok".to_string(), data }
    }
}

/// Success envelope around a page of poems.
#[derive(Debug)]
pub struct PoemListResponse {
    pub code: i32,
    pub message: String,
    pub data: PoemList,
}

impl PoemListResponse {
    /// The success envelope: code 0, message `ok`.
    pub fn ok(data: PoemList) -> (r: Self)
        ensures
            r.code == 0,
            r.message@ == "ok"@,
            r.data == data,
    {
        PoemListResponse { code: 0, message: "ok".to_string(), data }
    }
}

/// Error envelope: the code equals the HTTP status, `data` is always empty.
#[derive(Debug)]
pub struct ErrorResponse {
    pub code: i32,
    pub message: String,
    pub data: Option<String>,
}

/// One entry of a distribution (of authors, dynasties or tags).
#[derive(Debug)]
pub struct StatItem {
    pub name: String,
    pub count: i64,
}

} // verus!
