use doccrate_core::text::{
    after_last_of, chars_of, contains, decimal_string, ends_with, extension_of, file_name_of,
    replace_chars, sorted_strings, starts_with,
};

fn cs(s: &str) -> Vec<char> {
    s.chars().collect()
}

#[test]
fn numerals() {
    assert_eq!(decimal_string(0), "0");
    assert_eq!(decimal_string(7), "7");
    assert_eq!(decimal_string(1203), "1203");
    assert_eq!(decimal_string(usize::MAX), usize::MAX.to_string());
}

#[test]
fn searching() {
    assert!(starts_with(&cs("https://x"), &cs("http")));
    assert!(!starts_with(&cs("htt"), &cs("http")));
    assert!(ends_with(&cs("a.md"), &cs(".md")));
    assert!(!ends_with(&cs("a.mdx"), &cs(".md")));
    assert!(contains(&cs("hello world"), &cs("o w")));
    assert!(contains(&cs("abc"), &cs("")));
    assert!(!contains(&cs("abc"), &cs("abcd")));
    assert_eq!(after_last_of(&cs("a/b/c"), '/'), cs("c"));
    assert_eq!(chars_of("héllo"), cs("héllo"));
}

#[test]
fn replacing() {
    assert_eq!(replace_chars(&cs("book.git.git"), &cs(".git"), &cs("")), cs("book"));
    assert_eq!(replace_chars(&cs("aaa"), &cs("aa"), &cs("b")), cs("ba"));
    assert_eq!(replace_chars(&cs("a\\b\\c"), &cs("\\"), &cs("/")), cs("a/b/c"));
}

#[test]
fn paths_like_std() {
    for p in ["a/b.md", "a/b.md/", "a/./", ".", "..", "a/..", "/", "", "./x", "x/.", ".hidden", "a//b"] {
        let expected = std::path::Path::new(p).file_name().map(|s| cs(s.to_str().unwrap()));
        assert_eq!(file_name_of(&cs(p)), expected, "file name of {:?}", p);
    }
    for n in ["a.md", ".md", "a.", "a..b", "..", "noext", ".a.b", "a.b.c"] {
        let expected = std::path::Path::new(n).extension().map(|s| cs(s.to_str().unwrap()));
        assert_eq!(extension_of(&cs(n)), expected, "extension of {:?}", n);
    }
}

#[test]
fn sorting_like_std() {
    let v: Vec<String> = ["b", "a", "B", "ab", "", "é", "a"].iter().map(|s| s.to_string()).collect();
    let mut expected = v.clone();
    expected.sort();
    assert_eq!(sorted_strings(v), expected);
}
