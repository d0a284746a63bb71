use doccrate_core::staging::{
    check_queue, is_staged, stage_nonblank_source, stage_source, staged_sources_from,
    staging_file_text, status_lines,
};

fn strings(v: &[&str]) -> Vec<String> {
    v.iter().map(|s| s.to_string()).collect()
}

#[test]
fn reads_the_staging_file() {
    assert_eq!(staged_sources_from("[\"a\", \"b\"]"), strings(&["a", "b"]));
    assert_eq!(staged_sources_from("not json"), Vec::<String>::new());
    assert_eq!(staged_sources_from("{\"a\": 1}"), Vec::<String>::new());
    assert_eq!(staged_sources_from("[]"), Vec::<String>::new());
}

#[test]
fn writes_the_staging_file() {
    let text = staging_file_text(&strings(&["a", "b"])).unwrap();
    assert_eq!(text, "[\n  \"a\",\n  \"b\"\n]");
    assert_eq!(staged_sources_from(&text), strings(&["a", "b"]));
}

#[test]
fn staging_adds_each_source_once() {
    let mut list = strings(&["a"]);
    assert!(stage_source(&mut list, "b"));
    assert_eq!(list, strings(&["a", "b"]));
    assert!(!stage_source(&mut list, "a"));
    assert_eq!(list, strings(&["a", "b"]));
    assert!(stage_source(&mut list, "  "));
    assert!(is_staged(&list, "  "));
    assert!(!is_staged(&list, "c"));
}

#[test]
fn desktop_staging_ignores_blank_sources() {
    let mut list = strings(&["a"]);
    assert!(!stage_nonblank_source(&mut list, "  \t\n"));
    assert!(!stage_nonblank_source(&mut list, ""));
    assert!(!stage_nonblank_source(&mut list, "\u{3000}"));
    assert!(!stage_nonblank_source(&mut list, "a"));
    assert!(stage_nonblank_source(&mut list, " b "));
    assert_eq!(list, strings(&["a", " b "]));
}

#[test]
fn status_shows_the_queue() {
    assert_eq!(status_lines(&Vec::new()), strings(&["🗂️  Currently Staged Sources:", "   (None)"]));
    assert_eq!(
        status_lines(&strings(&["x", "y"])),
        strings(&["🗂️  Currently Staged Sources:", "   1. x", "   2. y"])
    );
}

#[test]
fn empty_queue_cannot_be_built() {
    assert_eq!(check_queue(&Vec::new()), Err("Queue is empty. Please add sources first!".to_string()));
    assert_eq!(check_queue(&strings(&["a"])), Ok(()));
}

#[test]
fn a_written_staging_file_reads_back_the_same() {
    for list in [strings(&[]), strings(&["a"]), strings(&["with \"quotes\"", "back\\slash", "line\nbreak", "ünï"])] {
        let text = staging_file_text(&list).unwrap();
        assert_eq!(staged_sources_from(&text), list);
    }
}

#[test]
fn staging_in_turn_keeps_every_source() {
    let mut text = String::new();
    let sources = ["https://github.com/a/b", "./docs", "c", "d", "e", "f", "g"];
    for (n, s) in sources.iter().enumerate() {
        let mut list = staged_sources_from(&text);
        assert!(stage_nonblank_source(&mut list, s));
        text = staging_file_text(&list).unwrap();
        assert_eq!(staged_sources_from(&text), strings(&sources[..n + 1]));
    }
}

#[test]
fn the_staging_file_is_pretty_json() {
    assert_eq!(staging_file_text(&Vec::new()).unwrap(), "[]");
    assert_eq!(
        staging_file_text(&strings(&["q\"", "\t\u{1}", "ß"])).unwrap(),
        "[\n  \"q\\\"\",\n  \"\\t\\u0001\",\n  \"ß\"\n]"
    );
}
