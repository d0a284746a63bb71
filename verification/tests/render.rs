use doccrate_core::parse_markdown;
use doccrate_core::search_index::{search_index_json, SearchEntry};

#[test]
fn renders_a_page_around_the_markdown() {
    let page = parse_markdown("# T", "t", "./");
    assert_eq!(
        page,
        "<!DOCTYPE html>\n<html lang=\"en\">\n<head>\n<meta charset=\"UTF-8\">\n<title>t</title>\n</head>\n<body>\n<p><a href=\"./index.html\">Index</a></p>\n<h1>T</h1>\n</body>\n</html>\n"
    );
}

#[test]
fn a_page_links_back_to_the_index_above_it() {
    let page = parse_markdown("text", "guide/a.md", "../");
    assert!(page.contains("<title>guide/a.md</title>"));
    assert!(page.contains("<p><a href=\"../index.html\">Index</a></p>\n<p>text</p>\n</body>"));
}

fn entry(path: &str, title: &str, content: &str) -> SearchEntry {
    SearchEntry { path: path.to_string(), title: title.to_string(), content: content.to_string() }
}

#[test]
fn an_empty_search_index_is_an_empty_array() {
    assert_eq!(search_index_json(&Vec::new()), "[]");
}

#[test]
fn the_search_index_holds_one_object_per_page() {
    let entries = vec![entry("a.md.html", "a.md", "x \"y\"\n\tz\\"), entry("b/c.rs.html", "c.rs", "\u{1}é")];
    assert_eq!(
        search_index_json(&entries),
        "[{\"content\":\"x \\\"y\\\"\\n\\tz\\\\\",\"path\":\"a.md.html\",\"title\":\"a.md\"},{\"content\":\"\\u0001é\",\"path\":\"b/c.rs.html\",\"title\":\"c.rs\"}]"
    );
}

#[test]
fn the_search_index_is_what_serde_json_writes() {
    let pages = [("p.html", "P", "line\r\nbreak\u{8}\u{c}\u{1f}"), ("q.html", "Q", "")];
    let entries: Vec<SearchEntry> = pages.iter().map(|(p, t, c)| entry(p, t, c)).collect();
    let values: Vec<serde_json::Value> = pages
        .iter()
        .map(|(p, t, c)| {
            let mut m = serde_json::Map::new();
            m.insert("path".to_string(), serde_json::Value::String(p.to_string()));
            m.insert("title".to_string(), serde_json::Value::String(t.to_string()));
            m.insert("content".to_string(), serde_json::Value::String(c.to_string()));
            serde_json::Value::Object(m)
        })
        .collect();
    assert_eq!(search_index_json(&entries), serde_json::to_string(&values).unwrap());
}
