use poem_api::db::{db_file_path, max_connections, seed_category, seed_row};
use poem_api::error::AppError;
use poem_api::handlers::health::Health;
use poem_api::handlers::meta::{to_stats, AuthorQuery, StatListResponse};
use poem_api::handlers::poem::ListQuery;
use poem_api::json::to_json_list;
use poem_api::models::{Poem, PoemList, PoemListResponse, PoemResponse, SeedPoem};

fn poem(id: i64) -> Poem {
    Poem {
        id,
        title: "静夜思".to_string(),
        author: "李白".to_string(),
        dynasty: "唐".to_string(),
        category: "诗".to_string(),
        content: vec!["床前明月光".to_string(), "疑是地上霜".to_string()],
        tags: vec!["思乡".to_string()],
        translation: None,
    }
}

#[test]
fn success_envelopes() {
    let r = PoemResponse::ok(poem(1));
    assert_eq!((r.code, r.message.as_str(), r.data.id), (0, "ok", 1));
    let list = PoemList { items: vec![poem(1), poem(2)], total: 2, page: 1, page_size: 20 };
    let r = PoemListResponse::ok(list);
    assert_eq!((r.code, r.message.as_str(), r.data.items.len()), (0, "ok", 2));
    let r = StatListResponse::ok(vec![]);
    assert_eq!((r.code, r.message.as_str()), (0, "ok"));
    assert_eq!(Health::ok().status, "ok");
}

#[test]
fn error_codes_and_messages() {
    let cases = [
        (AppError::NotFound, 404, "资源不存在"),
        (AppError::BadRequest("page".to_string()), 400, "请求参数错误：page"),
        (AppError::Unauthorized, 401, "未授权：缺少或错误的 API Key"),
        (AppError::RateLimited, 429, "请求过于频繁，请稍后再试"),
        (AppError::Internal("db".to_string()), 500, "服务器内部错误：db"),
    ];
    for (e, code, msg) in cases {
        assert_eq!(e.code(), code);
        assert_eq!(e.status_code() as i32, code);
        assert_eq!(e.message(), msg);
        let body = e.to_error_response();
        assert_eq!((body.code, body.message.as_str(), body.data), (code, msg, None));
    }
}

#[test]
fn stats_keep_order() {
    let stats = to_stats(vec![("唐".to_string(), 7), ("宋".to_string(), 3)]);
    assert_eq!(stats.len(), 2);
    assert_eq!((stats[0].name.as_str(), stats[0].count), ("唐", 7));
    assert_eq!((stats[1].name.as_str(), stats[1].count), ("宋", 3));
    let q = AuthorQuery::default();
    assert!(q.dynasty.is_none());
}

#[test]
fn list_query_paging() {
    let (_, page, size) = ListQuery::default().resolve();
    assert_eq!((page, size), (1, 20));
    let q = ListQuery { page: Some(0), page_size: Some(500), ..Default::default() };
    let (_, page, size) = q.resolve();
    assert_eq!((page, size), (1, 100));
    let q = ListQuery {
        page: Some(3),
        page_size: Some(0),
        dynasty: Some("宋".to_string()),
        keyword: Some("月".to_string()),
        ..Default::default()
    };
    let (f, page, size) = q.resolve();
    assert_eq!((page, size), (3, 1));
    assert_eq!(f.dynasty.as_deref(), Some("宋"));
    assert_eq!(f.keyword.as_deref(), Some("月"));
    assert!(f.author.is_none() && f.category.is_none());
}

#[test]
fn database_url_handling() {
    assert_eq!(max_connections("sqlite::memory:"), 1);
    assert_eq!(max_connections("sqlite://data/poems.db"), 5);
    assert_eq!(db_file_path("sqlite://data/poems.db"), Some("data/poems.db"));
    assert_eq!(db_file_path("sqlite:poems.db"), Some("poems.db"));
    assert_eq!(db_file_path("poems.db"), Some("poems.db"));
    assert_eq!(db_file_path("sqlite::memory:"), None);
    assert_eq!(db_file_path(":memory:"), None);
}

#[test]
fn seed_rows() {
    assert_eq!(seed_category(None), "诗");
    assert_eq!(seed_category(Some("词".to_string())), "词");
    let seed = SeedPoem {
        title: "水调歌头".to_string(),
        author: "苏轼".to_string(),
        dynasty: "宋".to_string(),
        content: vec!["明月几时有".to_string(), "把酒问青天".to_string()],
        tags: vec!["中秋".to_string(), "月".to_string()],
        translation: Some("译文".to_string()),
        category: None,
    };
    let row = seed_row(seed).unwrap();
    assert_eq!(row.content_json, "[\"明月几时有\",\"把酒问青天\"]");
    assert_eq!(row.tags_json, "[\"中秋\",\"月\"]");
    assert_eq!(row.category, "诗");
    assert_eq!(row.translation.as_deref(), Some("译文"));
}

#[test]
fn json_lists() {
    assert_eq!(to_json_list(&vec![]).unwrap(), "[]");
    assert_eq!(to_json_list(&vec!["a\"b".to_string()]).unwrap(), "[\"a\\\"b\"]");
}

#[test]
fn json_escapes_controls_quotes_and_backslashes() {
    let items = vec!["a\u{1}\n\\".to_string(), "月\t\"".to_string(), "\u{1f}\u{7f}".to_string()];
    assert_eq!(
        to_json_list(&items).unwrap(),
        "[\"a\\u0001\\n\\\\\",\"月\\t\\\"\",\"\\u001f\u{7f}\"]"
    );
}
