use poem_api::daily::fnv1a;
use poem_api::import::{ext_key, hex16, is_source_file, key_text, sources, Converter, RawPoem};

fn raw(title: Option<&str>, rhythmic: Option<&str>, lines: &[&str], author: &str) -> RawPoem {
    RawPoem {
        title: title.map(String::from),
        rhythmic: rhythmic.map(String::from),
        paragraphs: lines.iter().map(|s| s.to_string()).collect(),
        author: author.to_string(),
    }
}

#[test]
fn effective_title_rules() {
    assert_eq!(raw(Some("静夜思"), Some("x"), &[], "").effective_title(), Some("静夜思"));
    assert_eq!(raw(Some("  "), Some("水调歌头"), &[], "").effective_title(), Some("水调歌头"));
    assert_eq!(raw(None, Some("浣溪沙"), &[], "").effective_title(), Some("浣溪沙"));
    assert_eq!(raw(Some(""), Some(" "), &[], "").effective_title(), None);
    assert_eq!(raw(None, None, &[], "").effective_title(), None);
}

#[test]
fn key_is_hash_of_title_author_and_lines() {
    let content = vec!["床前明月光".to_string(), "疑是地上霜".to_string()];
    let expected_text = format!("{}|{}|{}", "静夜思", "李白", content.join("\n"));
    assert_eq!(key_text("静夜思", "李白", &content), expected_text);
    let expected = format!("fnv1a:{:016x}", fnv1a(expected_text.as_bytes()));
    assert_eq!(ext_key("静夜思", "李白", &content), expected);
    assert_eq!(key_text("t", "a", &vec![]), "t|a|");
}

#[test]
fn hex_is_zero_padded_lowercase() {
    assert_eq!(hex16(0), "0000000000000000");
    assert_eq!(hex16(0xABCDEF), "0000000000abcdef");
    assert_eq!(hex16(u64::MAX), "ffffffffffffffff");
}

#[test]
fn sources_and_file_names() {
    let s = sources();
    assert_eq!(s.len(), 3);
    assert_eq!((s[0].prefix, s[0].dynasty, s[0].category), ("poet.tang.", "唐", "诗"));
    assert_eq!((s[1].prefix, s[1].dynasty, s[1].category), ("poet.song.", "宋", "诗"));
    assert_eq!((s[2].prefix, s[2].dynasty, s[2].category), ("ci.song.", "宋", "词"));
    assert!(is_source_file("poet.tang.1000.json", "poet.tang."));
    assert!(!is_source_file("poet.tang.1000.json", "poet.song."));
    assert!(!is_source_file("poet.tang.1000.txt", "poet.tang."));
    assert!(!is_source_file("authors.tang.json", "poet.tang."));
}

#[test]
fn converter_turns_traditional_into_simplified() {
    let conv = Converter::t2s().unwrap();
    assert_eq!(conv.convert("漢字"), "汉字");
    assert_eq!(conv.convert("床前明月光"), "床前明月光");
}

#[test]
fn rows_are_cleaned_and_keyed() {
    let conv = Converter::t2s().unwrap();
    let p = raw(Some("靜夜思"), None, &["  床前明月光， ", "", "   ", "疑是地上霜。"], "李白");
    let row = p.to_row(&conv).unwrap().unwrap();
    assert_eq!(row.title, "静夜思");
    assert_eq!(row.author, "李白");
    assert_eq!(row.content, vec!["床前明月光，", "疑是地上霜。"]);
    assert_eq!(row.content_json, "[\"床前明月光，\",\"疑是地上霜。\"]");
    assert_eq!(row.ext_key, ext_key("静夜思", "李白", &row.content));
    assert!(raw(None, None, &["a"], "x").to_row(&conv).unwrap().is_none());
    assert!(raw(Some("t"), None, &[" ", ""], "x").to_row(&conv).unwrap().is_none());
}

#[test]
fn same_poem_gets_same_key() {
    let c = vec!["明月几时有".to_string()];
    assert_eq!(ext_key("水调歌头", "苏轼", &c), ext_key("水调歌头", "苏轼", &c));
    assert_ne!(ext_key("水调歌头", "苏轼", &c), ext_key("水调歌头", "苏轼", &vec![]));
}
