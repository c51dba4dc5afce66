use poem_api::repository::{
    authors_query, count_query, dynasties_query, fts_phrase, like_pattern_of, list_query,
    list_query_checked, page_offset, tags_query, ListFilter, SqlPart,
};
use poem_api::db::count_all_sql;
use poem_api::error::AppError;
use poem_api::import::{import_insert_sql, remove_seed_duplicates_sql};
use poem_api::repository::{by_id_query, curated_by_offset_query, curated_count_sql, random_sql};

/// Renders parts the way the query builder does: a `?` per bound value.
fn render(parts: &[SqlPart]) -> (String, Vec<String>) {
    let mut sql = String::new();
    let mut binds = Vec::new();
    for p in parts {
        match p {
            SqlPart::Sql(s) => sql.push_str(s),
            SqlPart::Text(t) => {
                sql.push('?');
                binds.push(t.clone());
            }
            SqlPart::Int(n) => {
                sql.push('?');
                binds.push(n.to_string());
            }
        }
    }
    (sql, binds)
}

fn filter(d: Option<&str>, c: Option<&str>, a: Option<&str>, k: Option<&str>) -> ListFilter {
    ListFilter {
        dynasty: d.map(String::from),
        category: c.map(String::from),
        author: a.map(String::from),
        keyword: k.map(String::from),
    }
}

#[test]
fn no_filter() {
    let (sql, binds) = render(&list_query(&ListFilter::default(), 1, 20));
    assert_eq!(sql, "SELECT * FROM poems ORDER BY id LIMIT ? OFFSET ?");
    assert_eq!(binds, vec!["20", "0"]);
    let (sql, binds) = render(&count_query(&ListFilter::default()));
    assert_eq!(sql, "SELECT COUNT(*) FROM poems");
    assert!(binds.is_empty());
}

#[test]
fn all_filters_with_short_keyword() {
    let f = filter(Some("唐"), Some("诗"), Some("李白"), Some("月"));
    let (sql, binds) = render(&list_query(&f, 3, 5));
    assert_eq!(
        sql,
        "SELECT * FROM poems WHERE dynasty = ? AND category = ? AND author LIKE ? AND \
         (title LIKE ? OR author LIKE ? OR dynasty LIKE ? OR content LIKE ? OR tags LIKE ?) \
         ORDER BY id LIMIT ? OFFSET ?"
    );
    assert_eq!(
        binds,
        vec!["唐", "诗", "%李白%", "%月%", "%月%", "%月%", "%月%", "%月%", "5", "10"]
    );
}

#[test]
fn long_keyword_uses_full_text_index() {
    let f = filter(None, None, None, Some("明月几时有"));
    let (sql, binds) = render(&count_query(&f));
    assert_eq!(
        sql,
        "SELECT COUNT(*) FROM poems WHERE id IN (SELECT rowid FROM poems_fts WHERE poems_fts MATCH ?)"
    );
    assert_eq!(binds, vec!["\"明月几时有\""]);
}

#[test]
fn first_condition_gets_where() {
    let (sql, _) = render(&count_query(&filter(None, Some("词"), None, None)));
    assert_eq!(sql, "SELECT COUNT(*) FROM poems WHERE category = ?");
    let (sql, _) = render(&count_query(&filter(None, None, Some("苏轼"), None)));
    assert_eq!(sql, "SELECT COUNT(*) FROM poems WHERE author LIKE ?");
    let (sql, _) = render(&count_query(&filter(None, None, Some("苏轼"), Some("明月"))));
    assert_eq!(
        sql,
        "SELECT COUNT(*) FROM poems WHERE author LIKE ? AND (title LIKE ? OR author LIKE ? OR \
         dynasty LIKE ? OR content LIKE ? OR tags LIKE ?)"
    );
}

#[test]
fn values_never_reach_sql_text() {
    let evil = "'; DROP TABLE poems; --";
    let (sql, binds) = render(&count_query(&filter(Some(evil), None, None, None)));
    assert_eq!(sql, "SELECT COUNT(*) FROM poems WHERE dynasty = ?");
    assert_eq!(binds, vec![evil]);
}

#[test]
fn fts_phrase_quotes_and_escapes() {
    assert_eq!(fts_phrase("abc"), "\"abc\"");
    assert_eq!(fts_phrase("a\"b"), "\"a\"\"b\"");
    assert_eq!(fts_phrase(""), "\"\"");
    assert_eq!(like_pattern_of("月"), "%月%");
}

#[test]
fn distribution_queries() {
    let (sql, binds) = render(&authors_query(Some("唐")));
    assert_eq!(
        sql,
        "SELECT author, COUNT(*) FROM poems WHERE dynasty = ? GROUP BY author ORDER BY COUNT(*) DESC, author LIMIT 200"
    );
    assert_eq!(binds, vec!["唐"]);
    let (sql, binds) = render(&authors_query(None));
    assert_eq!(
        sql,
        "SELECT author, COUNT(*) FROM poems GROUP BY author ORDER BY COUNT(*) DESC, author LIMIT 200"
    );
    assert!(binds.is_empty());
    let (sql, _) = render(&dynasties_query());
    assert_eq!(
        sql,
        "SELECT dynasty, COUNT(*) FROM poems GROUP BY dynasty ORDER BY COUNT(*) DESC, dynasty"
    );
    let (sql, _) = render(&tags_query());
    assert_eq!(
        sql,
        "SELECT je.value, COUNT(*) FROM poems p, json_each(p.tags) je GROUP BY je.value ORDER BY COUNT(*) DESC, je.value LIMIT 200"
    );
}

#[test]
fn distinct_keywords_give_distinct_phrases() {
    let words = ["a\"", "a\"\"", "\"a", "a", "\"\"", "\""];
    for x in words {
        for y in words {
            assert_eq!(fts_phrase(x) == fts_phrase(y), x == y, "{x} {y}");
        }
    }
}

#[test]
fn page_offset_fits_or_not() {
    assert_eq!(page_offset(1, 20), Some(0));
    assert_eq!(page_offset(3, 5), Some(10));
    assert_eq!(page_offset(i64::MAX, 1), Some(i64::MAX - 1));
    assert_eq!(page_offset(i64::MAX, 100), None);
    assert_eq!(page_offset(i64::MIN, 1), None);
    assert_eq!(page_offset(i64::MIN + 1, 1), Some(i64::MIN));
}

#[test]
fn far_page_is_a_bad_request() {
    match list_query_checked(&ListFilter::default(), i64::MAX, 100) {
        Err(AppError::BadRequest(_)) => {}
        _ => panic!("expected a bad request"),
    }
    let parts = match list_query_checked(&ListFilter::default(), 2, 10) {
        Ok(p) => p,
        Err(_) => panic!("expected a query"),
    };
    let (sql, binds) = render(&parts);
    assert_eq!(sql, "SELECT * FROM poems ORDER BY id LIMIT ? OFFSET ?");
    assert_eq!(binds, vec!["10", "10"]);
}

#[test]
fn filter_shape_one_where_then_and() {
    let cases = [
        (filter(None, None, None, None), 0, 0),
        (filter(Some("唐"), None, None, None), 1, 1),
        (filter(None, Some("词"), Some("苏轼"), None), 2, 2),
        (filter(None, None, Some("李"), Some("月")), 2, 6),
        (filter(Some("宋"), Some("词"), Some("苏"), Some("月")), 4, 8),
        (filter(Some("宋"), None, None, Some("明月几时有")), 2, 2),
    ];
    for (f, set, placeholders) in cases {
        let (sql, binds) = render(&count_query(&f));
        let tail = &sql["SELECT COUNT(*) FROM poems".len()..];
        assert_eq!(sql.matches('?').count(), placeholders);
        assert_eq!(binds.len(), placeholders);
        if set == 0 {
            assert!(tail.is_empty());
        } else {
            assert!(tail.starts_with(" WHERE "));
            // The full-text subquery holds a WHERE of its own, inside parentheses.
            let outer = tail.replace("(SELECT rowid FROM poems_fts WHERE ", "(SELECT rowid FROM poems_fts ");
            assert_eq!(outer.matches(" WHERE ").count(), 1);
            assert_eq!(tail.matches(" AND ").count(), set - 1);
        }
    }
}

#[test]
fn fixed_statements() {
    assert_eq!(random_sql(), "SELECT * FROM poems ORDER BY RANDOM() LIMIT 1");
    assert_eq!(curated_count_sql(), "SELECT COUNT(*) FROM poems WHERE ext_key IS NULL");
    assert_eq!(count_all_sql(), "SELECT COUNT(*) FROM poems");
    let (sql, binds) = render(&by_id_query(42));
    assert_eq!(sql, "SELECT * FROM poems WHERE id = ?");
    assert_eq!(binds, vec!["42"]);
    let (sql, binds) = render(&curated_by_offset_query(7));
    assert_eq!(sql, "SELECT * FROM poems WHERE ext_key IS NULL ORDER BY id LIMIT 1 OFFSET ?");
    assert_eq!(binds, vec!["7"]);
    assert_eq!(import_insert_sql().matches('?').count(), 6);
    assert!(import_insert_sql().starts_with("INSERT OR IGNORE INTO poems"));
    assert!(remove_seed_duplicates_sql().starts_with("DELETE FROM poems WHERE ext_key IS NOT NULL"));
}
