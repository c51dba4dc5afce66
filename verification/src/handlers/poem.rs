//! Poem endpoints: paging of the list and the daily choice.

use vstd::prelude::*;
use crate::repository::ListFilter;
use vstd::string::StringSliceAdditionalSpecFns;

verus! {

/// Query of the poem list.
#[derive(Debug, Default)]
pub struct ListQuery {
    /// Page number, from 1.
    pub page: Option<i64>,
    /// Poems per page (1 to 100).
    pub page_size: Option<i64>,
    /// Dynasty, matched exactly.
    pub dynasty: Option<String>,
    /// Category (诗 / 词), matched exactly.
    pub category: Option<String>,
    /// Author, matched as a substring.
    pub author: Option<String>,
    /// Keyword (title, author, dynasty, content, tags; 3 characters or more
    /// use the full-text index).
    pub keyword: Option<String>,
}

/// The page asked for: 1 by default, and never below 1.
pub open spec fn page_spec(page: Option<i64>) -> i64 {
    let p = match page {
        Some(p) => p,
        None => 1,
    };
    if p < 1 {
        1
    } else {
        p
    }
}

/// The page size asked for: 20 by default, clamped to 1..=100.
pub open spec fn page_size_spec(page_size: Option<i64>) -> i64 {
    let s = match page_size {
        Some(s) => s,
        None => 20,
    };
    if s < 1 {
        1
    } else if s > 100 {
        100
    } else {
        s
    }
}

impl ListQuery {
    /// The filter, page and page size of the query.
    pub fn resolve(self) -> (r: (ListFilter, i64, i64))
        ensures
            r.1 == page_spec(self.page),
            r.2 == page_size_spec(self.page_size),
            r.0.dynasty == self.dynasty,
            r.0.category == self.category,
            r.0.author == self.author,
            r.0.keyword == self.keyword,
    {
        let page = match self.page {
            Some(p) => p,
            None => 1,
        };
        let page = if page < 1 {
            1
        } else {
            page
        };
        let size = match self.page_size {
            Some(s) => s,
            None => 20,
        };
        let size = if size < 1 {
            1
        } else if size > 100 {
            100
        } else {
            size
        };
        let filter = ListFilter {
            dynasty: self.dynasty,
            category: self.category,
            author: self.author,
            keyword: self.keyword,
        };
        (filter, page, size)
    }
}

/// The offset of the daily poem among the `total` curated poems, for the
/// date `date` (`YYYY-MM-DD`).
pub fn daily_offset(date: &str, total: i64) -> (offset: i64)
    requires
        0 <= total <= usize::MAX,
    ensures
        offset == crate::daily::stable_index_spec(date.spec_bytes(), total as nat),
        total > 0 ==> offset == (crate::daily::fnv1a_spec(date.spec_bytes()) as nat) % (
        total as nat),
        total == 0 ==> offset == 0,
        total > 0 ==> 0 <= offset < total,
{
    crate::daily::stable_index(date, total as usize) as i64
}

/// Paging of the list: the page is the one asked for, or 1 when none or
/// one below 1 is asked for; the page size is the one asked for whenever it
/// lies in 1..=100, 20 when none is asked for, and otherwise the nearer of
/// 1 and 100.
pub proof fn lemma_paging(page: i64, page_size: i64)
    ensures
        page_spec(None) == 1,
        page >= 1 ==> page_spec(Some(page)) == page,
        page < 1 ==> page_spec(Some(page)) == 1,
        page_size_spec(None) == 20,
        1 <= page_size <= 100 ==> page_size_spec(Some(page_size)) == page_size,
        page_size < 1 ==> page_size_spec(Some(page_size)) == 1,
        page_size > 100 ==> page_size_spec(Some(page_size)) == 100,
{
}

} // verus!
