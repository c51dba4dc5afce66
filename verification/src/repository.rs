//! The list query: how filters, paging and keyword search become SQL.
//!
//! Queries are described as a sequence of parts: SQL text, which never holds
//! a value taken from the request, and bound values, which the database
//! driver passes separately (one `?` placeholder per bound value).

use vstd::prelude::*;
use crate::text::{has_prefix, push_char};
use crate::error::AppError;
use vstd::string::StrSliceExecFns;

verus! {

broadcast use vstd::string::group_string_axioms;

/// Filters of the poem list.
#[derive(Debug, Default)]
pub struct ListFilter {
    /// Dynasty, matched exactly.
    pub dynasty: Option<String>,
    /// Author, matched as a substring.
    pub author: Option<String>,
    /// Category (诗 / 词), matched exactly.
    pub category: Option<String>,
    /// Keyword, searched in title, author, dynasty, content and tags.
    pub keyword: Option<String>,
}

/// One part of a query.
#[derive(Debug)]
pub enum SqlPart {
    /// SQL text.
    Sql(String),
    /// A bound text value.
    Text(String),
    /// A bound integer value.
    Int(i64),
}

/// A query part as the contracts see it.
pub enum SqlPartView {
    Sql(Seq<char>),
    Text(Seq<char>),
    Int(i64),
}

/// The view of one part.
pub open spec fn part_view(p: SqlPart) -> SqlPartView {
    match p {
        SqlPart::Sql(s) => SqlPartView::Sql(s@),
        SqlPart::Text(s) => SqlPartView::Text(s@),
        SqlPart::Int(n) => SqlPartView::Int(n),
    }
}

/// The views of a sequence of parts.
pub open spec fn parts_view(ps: Seq<SqlPart>) -> Seq<SqlPartView> {
    ps.map_values(|p: SqlPart| part_view(p))
}

/// The view of an optional string.
pub open spec fn opt_chars(s: Option<String>) -> Option<Seq<char>> {
    match s {
        Some(x) => Some(x@),
        None => None,
    }
}

/// A keyword with every double quote doubled.
pub open spec fn escape_quotes(k: Seq<char>) -> Seq<char>
    decreases k.len(),
{
    if k.len() == 0 {
        Seq::<char>::empty()
    } else {
        let rest = escape_quotes(k.drop_last());
        if k.last() == '"' {
            rest.push('"').push('"')
        } else {
            rest.push(k.last())
        }
    }
}

/// An FTS5 phrase literal for a keyword: the keyword, its double quotes
/// doubled, between double quotes. It matches the keyword as a substring.
pub open spec fn fts_phrase_spec(k: Seq<char>) -> Seq<char> {
    seq!['"'] + escape_quotes(k) + seq!['"']
}

/// A LIKE pattern that matches any text containing `k`.
pub open spec fn like_pattern(k: Seq<char>) -> Seq<char> {
    seq!['%'] + k + seq!['%']
}

/// The keyword length (in characters) from which the full-text index is
/// used; its trigram tokenizer cannot match shorter keywords.
pub open spec fn fts_min_chars() -> nat {
    3
}

/// The parts of the keyword condition.
pub open spec fn keyword_parts(k: Seq<char>) -> Seq<SqlPartView> {
    if k.len() >= fts_min_chars() {
        seq![
            SqlPartView::Sql("id IN (SELECT rowid FROM poems_fts WHERE poems_fts MATCH "@),
            SqlPartView::Text(fts_phrase_spec(k)),
            SqlPartView::Sql(")"@),
        ]
    } else {
        let p = like_pattern(k);
        seq![
            SqlPartView::Sql("(title LIKE "@),
            SqlPartView::Text(p),
            SqlPartView::Sql(" OR author LIKE "@),
            SqlPartView::Text(p),
            SqlPartView::Sql(" OR dynasty LIKE "@),
            SqlPartView::Text(p),
            SqlPartView::Sql(" OR content LIKE "@),
            SqlPartView::Text(p),
            SqlPartView::Sql(" OR tags LIKE "@),
            SqlPartView::Text(p),
            SqlPartView::Sql(")"@),
        ]
    }
}

/// The connective before a condition: `WHERE` for the first, `AND` after.
pub open spec fn connective(has_where: bool) -> Seq<char> {
    if has_where {
        " AND "@
    } else {
        " WHERE "@
    }
}

/// The parts that the filters append to a query: dynasty, category,
/// author and keyword conditions, in that order, each one present only
/// when its filter is set.
pub open spec fn filter_parts_spec(
    dynasty: Option<Seq<char>>,
    category: Option<Seq<char>>,
    author: Option<Seq<char>>,
    keyword: Option<Seq<char>>,
) -> Seq<SqlPartView> {
    let p1 = match dynasty {
        Some(d) => seq![SqlPartView::Sql(" WHERE dynasty = "@), SqlPartView::Text(d)],
        None => Seq::<SqlPartView>::empty(),
    };
    let w1 = dynasty is Some;
    let p2 = match category {
        Some(c) => seq![
            SqlPartView::Sql(connective(w1)),
            SqlPartView::Sql("category = "@),
            SqlPartView::Text(c),
        ],
        None => Seq::<SqlPartView>::empty(),
    };
    let w2 = w1 || category is Some;
    let p3 = match author {
        Some(a) => seq![
            SqlPartView::Sql(
                if w2 {
                    " AND author LIKE "@
                } else {
                    " WHERE author LIKE "@
                },
            ),
            SqlPartView::Text(like_pattern(a)),
        ],
        None => Seq::<SqlPartView>::empty(),
    };
    let w3 = w2 || author is Some;
    let p4 = match keyword {
        Some(k) => seq![SqlPartView::Sql(connective(w3))] + keyword_parts(k),
        None => Seq::<SqlPartView>::empty(),
    };
    p1 + p2 + p3 + p4
}

/// The filter parts of a `ListFilter`.
pub open spec fn filter_parts_of(f: ListFilter) -> Seq<SqlPartView> {
    filter_parts_spec(opt_chars(f.dynasty), opt_chars(f.category), opt_chars(f.author), opt_chars(f.keyword))
}

/// Copies a string.
fn copy_string(s: &String) -> (r: String)
    ensures
        r@ == s@,
{
    s.as_str().to_string()
}

/// Appends SQL text.
fn push_sql(parts: &mut Vec<SqlPart>, s: &str)
    ensures
        parts_view(final(parts)@) == parts_view(old(parts)@).push(SqlPartView::Sql(s@)),
{
    let ghost before = parts@;
    parts.push(SqlPart::Sql(s.to_string()));
    assert(parts_view(parts@) =~= parts_view(before).push(SqlPartView::Sql(s@)));
}

/// Appends a bound text value.
fn push_text(parts: &mut Vec<SqlPart>, s: String)
    ensures
        parts_view(final(parts)@) == parts_view(old(parts)@).push(SqlPartView::Text(s@)),
{
    let ghost before = parts@;
    let ghost v = s@;
    parts.push(SqlPart::Text(s));
    assert(parts_view(parts@) =~= parts_view(before).push(SqlPartView::Text(v)));
}

/// Appends a bound integer value.
fn push_int(parts: &mut Vec<SqlPart>, n: i64)
    ensures
        parts_view(final(parts)@) == parts_view(old(parts)@).push(SqlPartView::Int(n)),
{
    let ghost before = parts@;
    parts.push(SqlPart::Int(n));
    assert(parts_view(parts@) =~= parts_view(before).push(SqlPartView::Int(n)));
}

/// A LIKE pattern matching any text that contains `k` (`%k%`).
pub fn like_pattern_of(k: &str) -> (r: String)
    ensures
        r@ == like_pattern(k@),
{
    let mut r = String::new();
    push_char(&mut r, '%');
    r.append(k);
    push_char(&mut r, '%');
    assert(r@ =~= like_pattern(k@));
    r
}

/// The keyword as an FTS5 phrase literal: between double quotes, with its
/// own double quotes doubled, so that it is matched as it stands.
pub fn fts_phrase(keyword: &str) -> (r: String)
    ensures
        r@ == fts_phrase_spec(keyword@),
{
    let cs = crate::text::chars_of(keyword);
    let n = cs.len();
    let mut r = String::new();
    push_char(&mut r, '"');
    let mut i: usize = 0;
    while i < n
        invariant
            cs@ == keyword@,
            n == keyword@.len(),
            i <= n,
            r@ == seq!['"'] + escape_quotes(keyword@.take(i as int)),
        decreases n - i,
    {
        let c = cs[i];
        assert(keyword@.take(i + 1).drop_last() =~= keyword@.take(i as int));
        if c == '"' {
            push_char(&mut r, '"');
            push_char(&mut r, '"');
        } else {
            push_char(&mut r, c);
        }
        proof {
            let e = escape_quotes(keyword@.take(i + 1));
            assert(keyword@.take(i + 1).last() == c);
            if c == '"' {
                assert(r@ =~= seq!['"'] + e);
            } else {
                assert(r@ =~= seq!['"'] + e);
            }
        }
        i = i + 1;
    }
    push_char(&mut r, '"');
    assert(keyword@.take(n as int) =~= keyword@);
    assert(r@ =~= fts_phrase_spec(keyword@));
    r
}

/// Appends the filter conditions to a query.
pub fn apply_filters(parts: &mut Vec<SqlPart>, filter: &ListFilter)
    ensures
        parts_view(final(parts)@) == parts_view(old(parts)@) + filter_parts_of(*filter),
{
    let ghost start = parts_view(parts@);
    let mut has_where = false;
    if let Some(dynasty) = &filter.dynasty {
        push_sql(parts, " WHERE dynasty = ");
        push_text(parts, copy_string(dynasty));
        has_where = true;
    }
    let ghost g1 = parts_view(parts@);
    if let Some(category) = &filter.category {
        push_sql(parts, if has_where { " AND " } else { " WHERE " });
        push_sql(parts, "category = ");
        push_text(parts, copy_string(category));
        has_where = true;
    }
    let ghost g2 = parts_view(parts@);
    if let Some(author) = &filter.author {
        push_sql(parts, if has_where { " AND author LIKE " } else { " WHERE author LIKE " });
        push_text(parts, like_pattern_of(author.as_str()));
        has_where = true;
    }
    let ghost g3 = parts_view(parts@);
    if let Some(keyword) = &filter.keyword {
        push_sql(parts, if has_where { " AND " } else { " WHERE " });
        let kw = keyword.as_str();
        if kw.unicode_len() >= 3 {
            push_sql(parts, "id IN (SELECT rowid FROM poems_fts WHERE poems_fts MATCH ");
            push_text(parts, fts_phrase(kw));
            push_sql(parts, ")");
        } else {
            let p = like_pattern_of(kw);
            push_sql(parts, "(title LIKE ");
            push_text(parts, copy_string(&p));
            push_sql(parts, " OR author LIKE ");
            push_text(parts, copy_string(&p));
            push_sql(parts, " OR dynasty LIKE ");
            push_text(parts, copy_string(&p));
            push_sql(parts, " OR content LIKE ");
            push_text(parts, copy_string(&p));
            push_sql(parts, " OR tags LIKE ");
            push_text(parts, p);
            push_sql(parts, ")");
        }
    }
    assert(parts_view(parts@) =~= start + filter_parts_of(*filter));
}

/// The parts of the page query: all columns of the matching poems, by id,
/// `page_size` of them from `offset` on.
pub open spec fn list_parts_spec(f: ListFilter, page_size: i64, offset: i64) -> Seq<SqlPartView> {
    seq![SqlPartView::Sql("SELECT * FROM poems"@)] + filter_parts_of(f) + seq![
        SqlPartView::Sql(" ORDER BY id LIMIT "@),
        SqlPartView::Int(page_size),
        SqlPartView::Sql(" OFFSET "@),
        SqlPartView::Int(offset),
    ]
}

/// The parts of the query that counts the matching poems.
pub open spec fn count_parts_spec(f: ListFilter) -> Seq<SqlPartView> {
    seq![SqlPartView::Sql("SELECT COUNT(*) FROM poems"@)] + filter_parts_of(f)
}

/// Whether the offset of a page, `(page - 1) * page_size`, fits in an `i64`.
pub open spec fn offset_fits(page: i64, page_size: i64) -> bool {
    i64::MIN <= (page - 1) * page_size <= i64::MAX
}

/// The query for one page of the list: `page` counts from 1, the offset is
/// `(page - 1) * page_size`.
pub fn list_query(filter: &ListFilter, page: i64, page_size: i64) -> (parts: Vec<SqlPart>)
    requires
        offset_fits(page, page_size),
    ensures
        parts_view(parts@) == list_parts_spec(*filter, page_size, ((page - 1) * page_size) as i64),
{
    let mut parts: Vec<SqlPart> = Vec::new();
    assert(parts_view(parts@) =~= Seq::<SqlPartView>::empty());
    push_sql(&mut parts, "SELECT * FROM poems");
    apply_filters(&mut parts, filter);
    push_sql(&mut parts, " ORDER BY id LIMIT ");
    push_int(&mut parts, page_size);
    push_sql(&mut parts, " OFFSET ");
    let offset = ((page as i128 - 1) * (page_size as i128)) as i64;
    push_int(&mut parts, offset);
    assert(parts_view(parts@) =~= list_parts_spec(*filter, page_size, ((page - 1) * page_size) as i64));
    parts
}

/// The offset of a page, `(page - 1) * page_size`, or `None` where it does
/// not fit in an `i64`.
pub fn page_offset(page: i64, page_size: i64) -> (r: Option<i64>)
    ensures
        r is Some <==> offset_fits(page, page_size),
        r matches Some(o) ==> o == (page - 1) * page_size,
{
    let p: i128 = page as i128 - 1;
    let q: i128 = page_size as i128;
    assert(-0x4000_0000_0000_0001_0000_0000_0000_0000 <= p * q <= 0x4000_0000_0000_0001_0000_0000_0000_0000)
        by (nonlinear_arith)
        requires
            -0x8000_0000_0000_0001 <= p <= 0x7fff_ffff_ffff_fffe,
            -0x8000_0000_0000_0000 <= q <= 0x7fff_ffff_ffff_ffff,
    {
        let ap: int = if p < 0 { -p } else { p as int };
        let aq: int = if q < 0 { -q } else { q as int };
        assert(ap * aq <= 0x8000_0000_0000_0001 * 0x8000_0000_0000_0000);
    }
    let o: i128 = p * q;
    if o < i64::MIN as i128 || o > i64::MAX as i128 {
        None
    } else {
        Some(o as i64)
    }
}

/// The query for one page of the list, or a bad request where the page is
/// so far out that its offset does not fit in an `i64`.
pub fn list_query_checked(filter: &ListFilter, page: i64, page_size: i64) -> (r: Result<
    Vec<SqlPart>,
    AppError,
>)
    ensures
        r is Ok <==> offset_fits(page, page_size),
        r matches Ok(parts) ==> parts_view(parts@) == list_parts_spec(
            *filter,
            page_size,
            ((page - 1) * page_size) as i64,
        ),
        r matches Err(e) ==> e is BadRequest,
{
    match page_offset(page, page_size) {
        Some(_) => Ok(list_query(filter, page, page_size)),
        None => Err(AppError::BadRequest("page 超出范围".to_string())),
    }
}

/// The query that counts the poems matching the filter.
pub fn count_query(filter: &ListFilter) -> (parts: Vec<SqlPart>)
    ensures
        parts_view(parts@) == count_parts_spec(*filter),
{
    let mut parts: Vec<SqlPart> = Vec::new();
    assert(parts_view(parts@) =~= Seq::<SqlPartView>::empty());
    push_sql(&mut parts, "SELECT COUNT(*) FROM poems");
    apply_filters(&mut parts, filter);
    assert(parts_view(parts@) =~= count_parts_spec(*filter));
    parts
}

/// The SQL text of a part; a bound value shows only as its placeholder.
pub open spec fn sql_shape(p: SqlPartView) -> Option<Seq<char>> {
    match p {
        SqlPartView::Sql(s) => Some(s),
        _ => None,
    }
}

/// The SQL text of a query, with placeholders for its bound values.
pub open spec fn query_shape(ps: Seq<SqlPartView>) -> Seq<Option<Seq<char>>> {
    ps.map_values(|p: SqlPartView| sql_shape(p))
}

/// Whether a keyword goes to the full-text index.
pub open spec fn uses_fts(k: Option<Seq<char>>) -> bool {
    k matches Some(x) && x.len() >= fts_min_chars()
}

/// The SQL text never holds a value from the request: two filters that set
/// the same fields (and whose keywords both use, or both skip, the full-text
/// index) give the same SQL text; what differs goes only into bound values.
pub proof fn lemma_filter_text_independent_of_values(
    d1: Option<Seq<char>>,
    c1: Option<Seq<char>>,
    a1: Option<Seq<char>>,
    k1: Option<Seq<char>>,
    d2: Option<Seq<char>>,
    c2: Option<Seq<char>>,
    a2: Option<Seq<char>>,
    k2: Option<Seq<char>>,
)
    requires
        d1 is Some == d2 is Some,
        c1 is Some == c2 is Some,
        a1 is Some == a2 is Some,
        k1 is Some == k2 is Some,
        uses_fts(k1) == uses_fts(k2),
    ensures
        query_shape(filter_parts_spec(d1, c1, a1, k1)) == query_shape(
            filter_parts_spec(d2, c2, a2, k2),
        ),
{
    assert(query_shape(filter_parts_spec(d1, c1, a1, k1)) =~= query_shape(
        filter_parts_spec(d2, c2, a2, k2),
    ));
}

/// Reads an escaped keyword back: a doubled double quote stands for one.
pub open spec fn unescape_quotes(s: Seq<char>) -> Seq<char>
    decreases s.len(),
{
    if s.len() == 0 {
        Seq::<char>::empty()
    } else if s.len() >= 2 && s.last() == '"' && s[s.len() - 2] == '"' {
        unescape_quotes(s.subrange(0, s.len() - 2)).push('"')
    } else {
        unescape_quotes(s.drop_last()).push(s.last())
    }
}

/// Escaping loses nothing: reading the escaped keyword back gives the
/// keyword, so distinct keywords give distinct phrases.
pub proof fn lemma_escape_round_trip(k: Seq<char>)
    ensures
        unescape_quotes(escape_quotes(k)) == k,
    decreases k.len(),
{
    if k.len() > 0 {
        lemma_escape_round_trip(k.drop_last());
        let e = escape_quotes(k);
        let e0 = escape_quotes(k.drop_last());
        if k.last() == '"' {
            assert(e.subrange(0, e.len() - 2) =~= e0);
        } else {
            assert(e.drop_last() =~= e0);
        }
        assert(k.drop_last().push(k.last()) =~= k);
    }
}

/// Distinct keywords give distinct phrase literals.
pub proof fn lemma_fts_phrase_injective(k1: Seq<char>, k2: Seq<char>)
    requires
        fts_phrase_spec(k1) == fts_phrase_spec(k2),
    ensures
        k1 == k2,
{
    let p = fts_phrase_spec(k1);
    assert(escape_quotes(k1) =~= p.subrange(1, p.len() - 1));
    assert(escape_quotes(k2) =~= p.subrange(1, p.len() - 1));
    lemma_escape_round_trip(k1);
    lemma_escape_round_trip(k2);
}

/// The number of parts of `ps` for which `pred` holds.
pub open spec fn count_parts(ps: Seq<SqlPartView>, pred: spec_fn(SqlPartView) -> bool) -> nat
    decreases ps.len(),
{
    if ps.len() == 0 {
        0
    } else {
        count_parts(ps.drop_last(), pred) + if pred(ps.last()) {
            1nat
        } else {
            0nat
        }
    }
}

/// A bound value: each one stands for one `?` placeholder in the SQL text.
pub open spec fn is_bound() -> spec_fn(SqlPartView) -> bool {
    |p: SqlPartView| !(p is Sql)
}

/// SQL text that opens the condition list.
pub open spec fn opens_where() -> spec_fn(SqlPartView) -> bool {
    |p: SqlPartView| p matches SqlPartView::Sql(s) && has_prefix(s, " WHERE "@)
}

/// SQL text that joins a further condition.
pub open spec fn joins_and() -> spec_fn(SqlPartView) -> bool {
    |p: SqlPartView| p matches SqlPartView::Sql(s) && has_prefix(s, " AND "@)
}

/// Counting over a concatenation adds the counts.
pub proof fn lemma_count_parts_add(
    a: Seq<SqlPartView>,
    b: Seq<SqlPartView>,
    pred: spec_fn(SqlPartView) -> bool,
)
    ensures
        count_parts(a + b, pred) == count_parts(a, pred) + count_parts(b, pred),
    decreases b.len(),
{
    if b.len() == 0 {
        assert(a + b =~= a);
    } else {
        assert((a + b).drop_last() =~= a + b.drop_last());
        lemma_count_parts_add(a, b.drop_last(), pred);
    }
}

/// Counting over a sequence with one more part.
pub broadcast proof fn lemma_count_parts_push(
    ps: Seq<SqlPartView>,
    p: SqlPartView,
    pred: spec_fn(SqlPartView) -> bool,
)
    ensures
        #[trigger] count_parts(ps.push(p), pred) == count_parts(ps, pred) + if pred(p) {
            1nat
        } else {
            0nat
        },
{
    assert(ps.push(p).drop_last() =~= ps);
}

proof fn lemma_prefix_at(s: Seq<char>, p: Seq<char>, i: int)
    requires
        0 <= i < p.len(),
        i < s.len(),
        s[i] != p[i],
    ensures
        !has_prefix(s, p),
{
    if has_prefix(s, p) {
        assert(s.take(p.len() as int)[i] == s[i]);
    }
}

proof fn lemma_prefix_self(s: Seq<char>, t: Seq<char>)
    requires
        s.len() <= t.len(),
        forall|i: int| 0 <= i < s.len() ==> t[i] == s[i],
    ensures
        has_prefix(t, s),
{
    assert(t.take(s.len() as int) =~= s);
}

/// Which SQL texts of the filters open the condition list and which join a
/// further condition.
proof fn lemma_filter_texts()
    ensures
        has_prefix(" WHERE dynasty = "@, " WHERE "@),
        !has_prefix(" WHERE dynasty = "@, " AND "@),
        has_prefix(" WHERE "@, " WHERE "@),
        !has_prefix(" WHERE "@, " AND "@),
        !has_prefix(" AND "@, " WHERE "@),
        has_prefix(" AND "@, " AND "@),
        !has_prefix("category = "@, " WHERE "@),
        !has_prefix("category = "@, " AND "@),
        has_prefix(" WHERE author LIKE "@, " WHERE "@),
        !has_prefix(" WHERE author LIKE "@, " AND "@),
        !has_prefix(" AND author LIKE "@, " WHERE "@),
        has_prefix(" AND author LIKE "@, " AND "@),
        !has_prefix("id IN (SELECT rowid FROM poems_fts WHERE poems_fts MATCH "@, " WHERE "@),
        !has_prefix("id IN (SELECT rowid FROM poems_fts WHERE poems_fts MATCH "@, " AND "@),
        !has_prefix(")"@, " WHERE "@),
        !has_prefix(")"@, " AND "@),
        !has_prefix("(title LIKE "@, " WHERE "@),
        !has_prefix("(title LIKE "@, " AND "@),
        !has_prefix(" OR author LIKE "@, " WHERE "@),
        !has_prefix(" OR author LIKE "@, " AND "@),
        !has_prefix(" OR dynasty LIKE "@, " WHERE "@),
        !has_prefix(" OR dynasty LIKE "@, " AND "@),
        !has_prefix(" OR content LIKE "@, " WHERE "@),
        !has_prefix(" OR content LIKE "@, " AND "@),
        !has_prefix(" OR tags LIKE "@, " WHERE "@),
        !has_prefix(" OR tags LIKE "@, " AND "@),
{
    reveal_strlit(" WHERE ");
    reveal_strlit(" AND ");
    reveal_strlit(" WHERE dynasty = ");
    reveal_strlit("category = ");
    reveal_strlit(" WHERE author LIKE ");
    reveal_strlit(" AND author LIKE ");
    reveal_strlit("id IN (SELECT rowid FROM poems_fts WHERE poems_fts MATCH ");
    reveal_strlit(")");
    reveal_strlit("(title LIKE ");
    reveal_strlit(" OR author LIKE ");
    reveal_strlit(" OR dynasty LIKE ");
    reveal_strlit(" OR content LIKE ");
    reveal_strlit(" OR tags LIKE ");
    let w = " WHERE "@;
    let a = " AND "@;
    lemma_prefix_self(w, " WHERE dynasty = "@);
    lemma_prefix_at(" WHERE dynasty = "@, a, 1);
    lemma_prefix_self(w, w);
    lemma_prefix_at(w, a, 1);
    lemma_prefix_at(a, w, 1);
    lemma_prefix_self(a, a);
    lemma_prefix_at("category = "@, w, 0);
    lemma_prefix_at("category = "@, a, 0);
    lemma_prefix_self(w, " WHERE author LIKE "@);
    lemma_prefix_at(" WHERE author LIKE "@, a, 1);
    lemma_prefix_at(" AND author LIKE "@, w, 1);
    lemma_prefix_self(a, " AND author LIKE "@);
    lemma_prefix_at("id IN (SELECT rowid FROM poems_fts WHERE poems_fts MATCH "@, w, 0);
    lemma_prefix_at("id IN (SELECT rowid FROM poems_fts WHERE poems_fts MATCH "@, a, 0);
    lemma_prefix_at(")"@, w, 0);
    lemma_prefix_at(")"@, a, 0);
    lemma_prefix_at("(title LIKE "@, w, 0);
    lemma_prefix_at("(title LIKE "@, a, 0);
    lemma_prefix_at(" OR author LIKE "@, w, 1);
    lemma_prefix_at(" OR author LIKE "@, a, 1);
    lemma_prefix_at(" OR dynasty LIKE "@, w, 1);
    lemma_prefix_at(" OR dynasty LIKE "@, a, 1);
    lemma_prefix_at(" OR content LIKE "@, w, 1);
    lemma_prefix_at(" OR content LIKE "@, a, 1);
    lemma_prefix_at(" OR tags LIKE "@, w, 1);
    lemma_prefix_at(" OR tags LIKE "@, a, 1);
}

/// The keyword condition binds one value for the full-text index and five
/// for the LIKE search; none of its SQL text opens or joins a condition.
proof fn lemma_keyword_counts(k: Seq<char>)
    ensures
        count_parts(keyword_parts(k), is_bound()) == if k.len() >= fts_min_chars() {
            1nat
        } else {
            5nat
        },
        count_parts(keyword_parts(k), opens_where()) == 0,
        count_parts(keyword_parts(k), joins_and()) == 0,
{
    broadcast use lemma_count_parts_push;

    lemma_filter_texts();
    let kp = keyword_parts(k);
    let e = Seq::<SqlPartView>::empty();
    if k.len() >= fts_min_chars() {
        assert(kp =~= e.push(kp[0]).push(kp[1]).push(kp[2]));
    } else {
        assert(kp =~= e.push(kp[0]).push(kp[1]).push(kp[2]).push(kp[3]).push(kp[4]).push(kp[5]).push(
            kp[6],
        ).push(kp[7]).push(kp[8]).push(kp[9]).push(kp[10]));
    }
}

/// 1 for a set filter, 0 for an unset one.
pub open spec fn flag(f: Option<Seq<char>>) -> nat {
    if f is Some {
        1
    } else {
        0
    }
}

/// The number of filters set.
pub open spec fn filters_set(
    dynasty: Option<Seq<char>>,
    category: Option<Seq<char>>,
    author: Option<Seq<char>>,
    keyword: Option<Seq<char>>,
) -> nat {
    flag(dynasty) + flag(category) + flag(author) + flag(keyword)
}

/// The number of values the keyword condition binds: none without a
/// keyword, one for the full-text index, five for the LIKE search.
pub open spec fn keyword_binds(keyword: Option<Seq<char>>) -> nat {
    match keyword {
        None => 0,
        Some(k) => if k.len() >= fts_min_chars() {
            1
        } else {
            5
        },
    }
}

/// The shape of what the filters append to a query (what `apply_filters`
/// appends to `before`, by its contract). With no filter set
/// nothing is appended. Otherwise the first part appended opens the
/// condition list with ` WHERE `, no other part does, and each further
/// condition is joined with ` AND `, so that as many parts begin with
/// ` AND ` as there are set filters beyond the first. One value is bound
/// (one `?` placeholder) for each of dynasty, category and author that is
/// set, and one or five for the keyword (full-text index from 3
/// characters, LIKE search below).
pub proof fn lemma_filter_structure(
    before: Seq<SqlPartView>,
    dynasty: Option<Seq<char>>,
    category: Option<Seq<char>>,
    author: Option<Seq<char>>,
    keyword: Option<Seq<char>>,
)
    ensures
        ({
            let after = before + filter_parts_spec(dynasty, category, author, keyword);
            let n = filters_set(dynasty, category, author, keyword);
            &&& (after == before <==> n == 0)
            &&& count_parts(after, is_bound()) == count_parts(before, is_bound()) + flag(dynasty)
                + flag(category) + flag(author) + keyword_binds(keyword)
            &&& count_parts(after, opens_where()) == count_parts(before, opens_where()) + if n > 0 {
                1nat
            } else {
                0nat
            }
            &&& n > 0 ==> (opens_where())(after[before.len() as int])
            &&& count_parts(after, joins_and()) == count_parts(before, joins_and()) + if n > 0 {
                (n - 1) as nat
            } else {
                0nat
            }
        }),
{
    broadcast use lemma_count_parts_push;

    lemma_filter_texts();
    let e = Seq::<SqlPartView>::empty();
    let p1 = match dynasty {
        Some(d) => seq![SqlPartView::Sql(" WHERE dynasty = "@), SqlPartView::Text(d)],
        None => Seq::<SqlPartView>::empty(),
    };
    let w1 = dynasty is Some;
    let p2 = match category {
        Some(c) => seq![
            SqlPartView::Sql(connective(w1)),
            SqlPartView::Sql("category = "@),
            SqlPartView::Text(c),
        ],
        None => Seq::<SqlPartView>::empty(),
    };
    let w2 = w1 || category is Some;
    let p3 = match author {
        Some(a) => seq![
            SqlPartView::Sql(
                if w2 {
                    " AND author LIKE "@
                } else {
                    " WHERE author LIKE "@
                },
            ),
            SqlPartView::Text(like_pattern(a)),
        ],
        None => Seq::<SqlPartView>::empty(),
    };
    let w3 = w2 || author is Some;
    let p4 = match keyword {
        Some(k) => seq![SqlPartView::Sql(connective(w3))] + keyword_parts(k),
        None => Seq::<SqlPartView>::empty(),
    };
    let ps = filter_parts_spec(dynasty, category, author, keyword);
    assert(ps == p1 + p2 + p3 + p4);
    if dynasty is Some {
        assert(p1 =~= e.push(p1[0]).push(p1[1]));
    }
    if category is Some {
        assert(p2 =~= e.push(p2[0]).push(p2[1]).push(p2[2]));
    }
    if author is Some {
        assert(p3 =~= e.push(p3[0]).push(p3[1]));
    }
    if let Some(k) = keyword {
        lemma_keyword_counts(k);
        assert(seq![SqlPartView::Sql(connective(w3))] =~= e.push(SqlPartView::Sql(connective(w3))));
        lemma_count_parts_add(seq![SqlPartView::Sql(connective(w3))], keyword_parts(k), is_bound());
        lemma_count_parts_add(
            seq![SqlPartView::Sql(connective(w3))],
            keyword_parts(k),
            opens_where(),
        );
        lemma_count_parts_add(seq![SqlPartView::Sql(connective(w3))], keyword_parts(k), joins_and());
    }
    let preds = seq![is_bound(), opens_where(), joins_and()];
    assert forall|i: int| 0 <= i < 3 implies count_parts(before + ps, #[trigger] preds[i])
        == count_parts(before, preds[i]) + count_parts(p1, preds[i]) + count_parts(p2, preds[i])
        + count_parts(p3, preds[i]) + count_parts(p4, preds[i]) by {
        let pr = preds[i];
        lemma_count_parts_add(p1, p2, pr);
        lemma_count_parts_add(p1 + p2, p3, pr);
        lemma_count_parts_add(p1 + p2 + p3, p4, pr);
        lemma_count_parts_add(before, ps, pr);
    }
    assert(preds[0] == is_bound());
    assert(preds[1] == opens_where());
    assert(preds[2] == joins_and());
    let n = filters_set(dynasty, category, author, keyword);
    if n == 0 {
        assert(before + ps =~= before);
    } else {
        assert((before + ps).len() > before.len());
        assert((before + ps)[before.len() as int] == ps[0]);
    }
}

/// The statement that picks one poem at random.
pub fn random_sql() -> (r: &'static str)
    ensures
        r@ == "SELECT * FROM poems ORDER BY RANDOM() LIMIT 1"@,
{
    "SELECT * FROM poems ORDER BY RANDOM() LIMIT 1"
}

/// The statement that counts the curated poems (those without a key).
pub fn curated_count_sql() -> (r: &'static str)
    ensures
        r@ == "SELECT COUNT(*) FROM poems WHERE ext_key IS NULL"@,
{
    "SELECT COUNT(*) FROM poems WHERE ext_key IS NULL"
}

/// The query for the poem with the given id.
pub fn by_id_query(id: i64) -> (parts: Vec<SqlPart>)
    ensures
        parts_view(parts@) == seq![
            SqlPartView::Sql("SELECT * FROM poems WHERE id = "@),
            SqlPartView::Int(id),
        ],
{
    let mut parts: Vec<SqlPart> = Vec::new();
    assert(parts_view(parts@) =~= Seq::<SqlPartView>::empty());
    push_sql(&mut parts, "SELECT * FROM poems WHERE id = ");
    push_int(&mut parts, id);
    assert(parts_view(parts@) =~= seq![
        SqlPartView::Sql("SELECT * FROM poems WHERE id = "@),
        SqlPartView::Int(id),
    ]);
    parts
}

/// The query for the curated poem at `offset`, curated poems taken by id.
pub fn curated_by_offset_query(offset: i64) -> (parts: Vec<SqlPart>)
    ensures
        parts_view(parts@) == seq![
            SqlPartView::Sql("SELECT * FROM poems WHERE ext_key IS NULL ORDER BY id LIMIT 1 OFFSET "@),
            SqlPartView::Int(offset),
        ],
{
    let mut parts: Vec<SqlPart> = Vec::new();
    assert(parts_view(parts@) =~= Seq::<SqlPartView>::empty());
    push_sql(&mut parts, "SELECT * FROM poems WHERE ext_key IS NULL ORDER BY id LIMIT 1 OFFSET ");
    push_int(&mut parts, offset);
    assert(parts_view(parts@) =~= seq![
        SqlPartView::Sql("SELECT * FROM poems WHERE ext_key IS NULL ORDER BY id LIMIT 1 OFFSET "@),
        SqlPartView::Int(offset),
    ]);
    parts
}

/// The values a query binds, in order (its parts other than SQL text).
pub open spec fn bound_values(ps: Seq<SqlPartView>) -> Seq<SqlPartView>
    decreases ps.len(),
{
    if ps.len() == 0 {
        Seq::<SqlPartView>::empty()
    } else if ps.last() is Sql {
        bound_values(ps.drop_last())
    } else {
        bound_values(ps.drop_last()).push(ps.last())
    }
}

/// The bound values of a sequence with one more part.
pub broadcast proof fn lemma_bound_values_push(ps: Seq<SqlPartView>, p: SqlPartView)
    ensures
        #[trigger] bound_values(ps.push(p)) == if p is Sql {
            bound_values(ps)
        } else {
            bound_values(ps).push(p)
        },
{
    assert(ps.push(p).drop_last() =~= ps);
}

/// The bound values of a concatenation are those of its halves, in order.
pub proof fn lemma_bound_values_add(a: Seq<SqlPartView>, b: Seq<SqlPartView>)
    ensures
        bound_values(a + b) == bound_values(a) + bound_values(b),
    decreases b.len(),
{
    if b.len() == 0 {
        assert(a + b =~= a);
        assert(bound_values(a) + bound_values(b) =~= bound_values(a));
    } else {
        assert((a + b).drop_last() =~= a + b.drop_last());
        lemma_bound_values_add(a, b.drop_last());
        if !(b.last() is Sql) {
            assert(bound_values(a) + bound_values(b.drop_last()).push(b.last()) =~= (bound_values(a)
                + bound_values(b.drop_last())).push(b.last()));
        }
    }
}

/// The optional value bound for an exact-match filter.
pub open spec fn exact_value(f: Option<Seq<char>>) -> Seq<SqlPartView> {
    match f {
        Some(v) => seq![SqlPartView::Text(v)],
        None => Seq::<SqlPartView>::empty(),
    }
}

/// The values the filters bind, in order: the dynasty and the category as
/// given (exact match); the author between `%` wildcards (substring match),
/// whatever other filters are set; for a keyword of 3 or more characters its
/// phrase literal (double quotes around it, its own double quotes doubled),
/// for a shorter one the keyword between `%` wildcards five times (title,
/// author, dynasty, content, tags).
pub proof fn lemma_filter_values(
    dynasty: Option<Seq<char>>,
    category: Option<Seq<char>>,
    author: Option<Seq<char>>,
    keyword: Option<Seq<char>>,
)
    ensures
        bound_values(filter_parts_spec(dynasty, category, author, keyword)) == exact_value(dynasty)
            + exact_value(category) + match author {
            Some(a) => seq![SqlPartView::Text(seq!['%'] + a + seq!['%'])],
            None => Seq::<SqlPartView>::empty(),
        } + match keyword {
            None => Seq::<SqlPartView>::empty(),
            Some(k) => if k.len() >= 3 {
                seq![SqlPartView::Text(seq!['"'] + escape_quotes(k) + seq!['"'])]
            } else {
                let p = SqlPartView::Text(seq!['%'] + k + seq!['%']);
                seq![p, p, p, p, p]
            },
        },
{
    broadcast use lemma_bound_values_push;

    let e = Seq::<SqlPartView>::empty();
    let p1 = match dynasty {
        Some(d) => seq![SqlPartView::Sql(" WHERE dynasty = "@), SqlPartView::Text(d)],
        None => Seq::<SqlPartView>::empty(),
    };
    let w1 = dynasty is Some;
    let p2 = match category {
        Some(c) => seq![
            SqlPartView::Sql(connective(w1)),
            SqlPartView::Sql("category = "@),
            SqlPartView::Text(c),
        ],
        None => Seq::<SqlPartView>::empty(),
    };
    let w2 = w1 || category is Some;
    let p3 = match author {
        Some(a) => seq![
            SqlPartView::Sql(
                if w2 {
                    " AND author LIKE "@
                } else {
                    " WHERE author LIKE "@
                },
            ),
            SqlPartView::Text(like_pattern(a)),
        ],
        None => Seq::<SqlPartView>::empty(),
    };
    let w3 = w2 || author is Some;
    let p4 = match keyword {
        Some(k) => seq![SqlPartView::Sql(connective(w3))] + keyword_parts(k),
        None => Seq::<SqlPartView>::empty(),
    };
    let ps = filter_parts_spec(dynasty, category, author, keyword);
    assert(ps == p1 + p2 + p3 + p4);
    lemma_bound_values_add(p1, p2);
    lemma_bound_values_add(p1 + p2, p3);
    lemma_bound_values_add(p1 + p2 + p3, p4);
    if let Some(d) = dynasty {
        assert(p1 =~= e.push(p1[0]).push(p1[1]));
        assert(bound_values(p1) =~= exact_value(dynasty));
    } else {
        assert(bound_values(p1) =~= exact_value(dynasty));
    }
    if let Some(c) = category {
        assert(p2 =~= e.push(p2[0]).push(p2[1]).push(p2[2]));
        assert(bound_values(p2) =~= exact_value(category));
    }
    if let Some(a) = author {
        assert(p3 =~= e.push(p3[0]).push(p3[1]));
        assert(bound_values(p3) =~= seq![SqlPartView::Text(seq!['%'] + a + seq!['%'])]);
    }
    if let Some(k) = keyword {
        let c0 = seq![SqlPartView::Sql(connective(w3))];
        assert(c0 =~= e.push(c0[0]));
        lemma_bound_values_add(c0, keyword_parts(k));
        let kp = keyword_parts(k);
        if k.len() >= 3 {
            assert(kp =~= e.push(kp[0]).push(kp[1]).push(kp[2]));
            assert(bound_values(kp) =~= seq![
                SqlPartView::Text(seq!['"'] + escape_quotes(k) + seq!['"']),
            ]);
        } else {
            assert(kp =~= e.push(kp[0]).push(kp[1]).push(kp[2]).push(kp[3]).push(kp[4]).push(
                kp[5],
            ).push(kp[6]).push(kp[7]).push(kp[8]).push(kp[9]).push(kp[10]));
            let p = SqlPartView::Text(seq!['%'] + k + seq!['%']);
            assert(bound_values(kp) =~= seq![p, p, p, p, p]);
        }
        assert(bound_values(c0 + kp) =~= bound_values(kp));
    }
}

/// The parts of the author distribution query: authors by number of poems,
/// most first (ties by name), at most 200, within one dynasty when given.
pub open spec fn authors_parts_spec(dynasty: Option<Seq<char>>) -> Seq<SqlPartView> {
    match dynasty {
        Some(d) => seq![
            SqlPartView::Sql("SELECT author, COUNT(*) FROM poems WHERE dynasty = "@),
            SqlPartView::Text(d),
            SqlPartView::Sql(" GROUP BY author ORDER BY COUNT(*) DESC, author LIMIT 200"@),
        ],
        None => seq![
            SqlPartView::Sql(
                "SELECT author, COUNT(*) FROM poems GROUP BY author ORDER BY COUNT(*) DESC, author LIMIT 200"@,
            ),
        ],
    }
}

/// The author distribution query.
pub fn authors_query(dynasty: Option<&str>) -> (parts: Vec<SqlPart>)
    ensures
        parts_view(parts@) == authors_parts_spec(match dynasty {
            Some(d) => Some(d@),
            None => None,
        }),
{
    let mut parts: Vec<SqlPart> = Vec::new();
    assert(parts_view(parts@) =~= Seq::<SqlPartView>::empty());
    match dynasty {
        Some(d) => {
            push_sql(&mut parts, "SELECT author, COUNT(*) FROM poems WHERE dynasty = ");
            push_text(&mut parts, d.to_string());
            push_sql(&mut parts, " GROUP BY author ORDER BY COUNT(*) DESC, author LIMIT 200");
        },
        None => {
            push_sql(
                &mut parts,
                "SELECT author, COUNT(*) FROM poems GROUP BY author ORDER BY COUNT(*) DESC, author LIMIT 200",
            );
        },
    }
    assert(parts_view(parts@) =~= authors_parts_spec(match dynasty {
        Some(d) => Some(d@),
        None => None,
    }));
    parts
}

/// The dynasty distribution query: dynasties by number of poems, most first
/// (ties by name).
pub fn dynasties_query() -> (parts: Vec<SqlPart>)
    ensures
        parts_view(parts@) == seq![
            SqlPartView::Sql(
                "SELECT dynasty, COUNT(*) FROM poems GROUP BY dynasty ORDER BY COUNT(*) DESC, dynasty"@,
            ),
        ],
{
    let mut parts: Vec<SqlPart> = Vec::new();
    assert(parts_view(parts@) =~= Seq::<SqlPartView>::empty());
    push_sql(
        &mut parts,
        "SELECT dynasty, COUNT(*) FROM poems GROUP BY dynasty ORDER BY COUNT(*) DESC, dynasty",
    );
    parts
}

/// The tag distribution query: tags by number of poems, most first (ties by
/// name), at most 200.
pub fn tags_query() -> (parts: Vec<SqlPart>)
    ensures
        parts_view(parts@) == seq![
            SqlPartView::Sql(
                "SELECT je.value, COUNT(*) FROM poems p, json_each(p.tags) je GROUP BY je.value ORDER BY COUNT(*) DESC, je.value LIMIT 200"@,
            ),
        ],
{
    let mut parts: Vec<SqlPart> = Vec::new();
    assert(parts_view(parts@) =~= Seq::<SqlPartView>::empty());
    push_sql(
        &mut parts,
        "SELECT je.value, COUNT(*) FROM poems p, json_each(p.tags) je GROUP BY je.value ORDER BY COUNT(*) DESC, je.value LIMIT 200",
    );
    parts
}

} // verus!
