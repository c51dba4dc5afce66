//! Distributions by dynasty, author and tag.

use vstd::prelude::*;
use crate::models::StatItem;

verus! {

/// Query of the author distribution.
#[derive(Debug, Default)]
pub struct AuthorQuery {
    /// Dynasty, matched exactly (唐 / 宋 ...).
    pub dynasty: Option<String>,
}

/// Success envelope around a distribution.
#[derive(Debug)]
pub struct StatListResponse {
    pub code: i32,
    pub message: String,
    pub data: Vec<StatItem>,
}

impl StatListResponse {
    /// The success envelope: code 0, message `ok`.
    pub fn ok(data: Vec<StatItem>) -> (r: Self)
        ensures
            r.code == 0,
            r.message@ == "ok"@,
            r.data@ == data@,
    {
        StatListResponse { code: 0, message: "ok".to_string(), data }
    }
}

/// Whether a statistic entry holds the given name and count.
pub open spec fn stat_matches(item: StatItem, row: (String, i64)) -> bool {
    item.name@ == row.0@ && item.count == row.1
}

/// Turns `(name, count)` rows into statistic entries, in the same order.
pub fn to_stats(rows: Vec<(String, i64)>) -> (r: Vec<StatItem>)
    ensures
        r@.len() == rows@.len(),
        forall|i: int| 0 <= i < rows@.len() ==> stat_matches(#[trigger] r@[i], rows@[i]),
{
    let mut out: Vec<StatItem> = Vec::new();
    let n = rows.len();
    let mut i: usize = 0;
    while i < n
        invariant
            n == rows@.len(),
            i <= n,
            out@.len() == i,
            forall|j: int| 0 <= j < i ==> stat_matches(#[trigger] out@[j], rows@[j]),
        decreases n - i,
    {
        let name = rows[i].0.clone();
        out.push(StatItem { name, count: rows[i].1 });
        i = i + 1;
    }
    out
}

} // verus!
