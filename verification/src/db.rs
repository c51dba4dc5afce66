//! Database settings derived from the connection string, and seed defaults.

use vstd::prelude::*;
use crate::text::{contains_spec, contains_str, has_prefix, strip_prefix};
use crate::error::AppError;
use crate::json::{json_string_list, strings_view, to_json_list};
use crate::models::SeedPoem;

verus! {

/// Connections in the pool: an in-memory database lives in one connection
/// (each connection would see a database of its own), so 1; otherwise 5.
pub open spec fn max_connections_spec(url: Seq<char>) -> u32 {
    if contains_spec(url, ":memory:"@) {
        1
    } else {
        5
    }
}

/// Connections in the pool for the connection string `url`.
pub fn max_connections(url: &str) -> (n: u32)
    ensures
        n == max_connections_spec(url@),
{
    if contains_str(url, ":memory:") {
        1
    } else {
        5
    }
}

/// The file path of a connection string: without its `sqlite://` or
/// `sqlite:` scheme.
pub open spec fn db_path_spec(url: Seq<char>) -> Seq<char> {
    if has_prefix(url, "sqlite://"@) {
        url.skip("sqlite://"@.len() as int)
    } else if has_prefix(url, "sqlite:"@) {
        url.skip("sqlite:"@.len() as int)
    } else {
        url
    }
}

/// The path of the database file whose directory must exist, or `None` for
/// an in-memory database.
pub fn db_file_path(url: &str) -> (r: Option<&str>)
    ensures
        match r {
            Some(p) => p@ == db_path_spec(url@) && db_path_spec(url@) != ":memory:"@,
            None => db_path_spec(url@) == ":memory:"@,
        },
{
    let path = match strip_prefix(url, "sqlite://") {
        Some(p) => p,
        None => match strip_prefix(url, "sqlite:") {
            Some(p) => p,
            None => url,
        },
    };
    if crate::config::str_eq(path, ":memory:") {
        None
    } else {
        Some(path)
    }
}

/// The category of a seed poem: the one given, else 诗.
pub fn seed_category(category: Option<String>) -> (r: String)
    ensures
        r@ == (match category {
            Some(c) => c@,
            None => "诗"@,
        }),
{
    match category {
        Some(c) => c,
        None => "诗".to_string(),
    }
}

/// A seed poem as it is inserted: lines and tags as JSON text, and a
/// category (诗 when the seed gives none).
#[derive(Debug)]
pub struct SeedRow {
    pub title: String,
    pub author: String,
    pub dynasty: String,
    pub content_json: String,
    pub tags_json: String,
    pub translation: Option<String>,
    pub category: String,
}

/// The statement that counts all stored poems.
pub fn count_all_sql() -> (r: &'static str)
    ensures
        r@ == "SELECT COUNT(*) FROM poems"@,
{
    "SELECT COUNT(*) FROM poems"
}

/// The statement that inserts one seed poem; the values bind in the order
/// of `SeedRow`'s fields.
pub fn seed_insert_sql() -> (r: &'static str)
    ensures
        r@ == "INSERT INTO poems (title, author, dynasty, content, tags, translation, category) VALUES (?, ?, ?, ?, ?, ?, ?)"@,
{
    "INSERT INTO poems (title, author, dynasty, content, tags, translation, category) VALUES (?, ?, ?, ?, ?, ?, ?)"
}

/// The row to insert for a seed poem; it is always made.
pub fn seed_row(poem: SeedPoem) -> (r: Result<SeedRow, AppError>)
    ensures
        r is Ok,
        match r {
            Ok(row) => {
                &&& row.title@ == poem.title@
                &&& row.author@ == poem.author@
                &&& row.dynasty@ == poem.dynasty@
                &&& row.content_json@ == json_string_list(strings_view(poem.content@))
                &&& row.tags_json@ == json_string_list(strings_view(poem.tags@))
                &&& row.translation == poem.translation
                &&& row.category@ == (match poem.category {
                    Some(c) => c@,
                    None => "诗"@,
                })
            },
            Err(e) => e is Internal,
        },
{
    let content_json = match to_json_list(&poem.content) {
        Ok(s) => s,
        Err(e) => return Err(e),
    };
    let tags_json = match to_json_list(&poem.tags) {
        Ok(s) => s,
        Err(e) => return Err(e),
    };
    Ok(SeedRow {
        title: poem.title,
        author: poem.author,
        dynasty: poem.dynasty,
        content_json,
        tags_json,
        translation: poem.translation,
        category: seed_category(poem.category),
    })
}

} // verus!
