use std::io::{Cursor, Write};

use doccrate_core::archive::is_markdown_file;
use doccrate_core::{list_docpack_files, read_docpack_file, search_docpack};
use zip::write::FileOptions;
use zip::ZipWriter;
use zip::CompressionMethod;

fn pack(entries: &[(&str, &[u8])]) -> Vec<u8> {
    let mut zip = ZipWriter::new(Cursor::new(Vec::new()));
    for (name, data) in entries {
        if name.ends_with('/') {
            zip.add_directory(name.trim_end_matches('/'), FileOptions::default()).unwrap();
        } else {
            zip.start_file(*name, FileOptions::default()).unwrap();
            zip.write_all(data).unwrap();
        }
    }
    zip.finish().unwrap().into_inner()
}

fn sample() -> Vec<u8> {
    pack(&[
        ("repo_0/README.md", b"# Hello\n\nThe Rust Book explains OWNERSHIP."),
        ("repo_0/guide/", b""),
        ("repo_0/guide/start.md", b"Getting started with cargo."),
        ("repo_1/notes.txt", b"ownership in a text file"),
        ("repo_1/bad.md", &[0xff, 0xfe, 0x00]),
    ])
}

#[test]
fn lists_every_entry_in_order() {
    let names = list_docpack_files(sample()).unwrap();
    assert_eq!(
        names,
        vec!["repo_0/README.md", "repo_0/guide/", "repo_0/guide/start.md", "repo_1/notes.txt", "repo_1/bad.md"]
    );
}

#[test]
fn rejects_bytes_that_are_not_a_pack() {
    let err = list_docpack_files(b"not a zip at all".to_vec()).unwrap_err();
    assert!(err.starts_with("Not a valid DocCrate pack: "));
    let err = search_docpack(Vec::new(), "x").unwrap_err();
    assert!(err.starts_with("Not a valid DocCrate pack: "));
    let err = read_docpack_file(Vec::new(), "x").unwrap_err();
    assert!(err.starts_with("Not a valid DocCrate pack: "));
}

#[test]
fn reads_an_entry_as_html() {
    let html = read_docpack_file(sample(), "repo_0/README.md").unwrap();
    assert_eq!(html, "<h1>Hello</h1>\n<p>The Rust Book explains OWNERSHIP.</p>\n");
}

#[test]
fn reading_a_missing_entry_fails() {
    let err = read_docpack_file(sample(), "repo_9/none.md").unwrap_err();
    assert_eq!(err, "File not found in pack: specified file not found in archive");
}

#[test]
fn reading_an_entry_that_is_not_text_fails() {
    let err = read_docpack_file(sample(), "repo_1/bad.md").unwrap_err();
    assert!(err.starts_with("Failed to read file: "));
}

#[test]
fn search_ignores_case_and_skips_other_files() {
    let found = search_docpack(sample(), "ownership").unwrap();
    assert_eq!(found, vec!["repo_0/README.md"]);
    let found = search_docpack(sample(), "CARGO").unwrap();
    assert_eq!(found, vec!["repo_0/guide/start.md"]);
    let found = search_docpack(sample(), "").unwrap();
    assert_eq!(found, vec!["repo_0/README.md", "repo_0/guide/start.md"]);
    let found = search_docpack(sample(), "absent phrase").unwrap();
    assert!(found.is_empty());
}

#[test]
fn only_markdown_files_are_searched() {
    assert!(is_markdown_file("a/b.md"));
    assert!(!is_markdown_file("a/b.txt"));
    assert!(!is_markdown_file("a/b.MD"));
    assert!(!is_markdown_file("dir.md/"));
    assert!(!is_markdown_file("dir.md\\"));
    assert!(is_markdown_file(".md"));
}

/// A pack whose second entry carries an AES extra field without the
/// encryption flag: `zip` refuses to open it rather than handing it out.
fn pack_with_unflagged_aes_entry() -> Vec<u8> {
    let stored = FileOptions::default().compression_method(CompressionMethod::Stored);
    let mut zip = ZipWriter::new(Cursor::new(Vec::new()));
    zip.start_file("a.md", stored).unwrap();
    zip.write_all(b"alpha text").unwrap();
    zip.start_file_with_extra_data("b.md", stored).unwrap();
    zip.end_local_start_central_extra_data().unwrap();
    zip.write_all(&[0xef, 0xbe, 0x07, 0x00, 0x01, 0x00, 0x41, 0x45, 0x01, 0x00, 0x00]).unwrap();
    zip.end_extra_data().unwrap();
    zip.write_all(b"beta text").unwrap();
    let mut bytes = zip.finish().unwrap().into_inner();
    let marker = [0xef, 0xbe, 0x07, 0x00, 0x01, 0x00, 0x41, 0x45];
    let at = bytes.windows(marker.len()).position(|w| w == marker).unwrap();
    bytes[at] = 0x01;
    bytes[at + 1] = 0x99;
    bytes
}

#[test]
fn entries_that_cannot_be_opened_are_passed_over() {
    let bytes = pack_with_unflagged_aes_entry();
    assert_eq!(list_docpack_files(bytes.clone()).unwrap(), vec!["a.md"]);
    assert_eq!(search_docpack(bytes.clone(), "text").unwrap(), vec!["a.md"]);
    let err = read_docpack_file(bytes.clone(), "b.md").unwrap_err();
    assert_eq!(err, "File not found in pack: unsupported Zip archive: Password required to decrypt file");
    assert_eq!(read_docpack_file(bytes, "a.md").unwrap(), "<p>alpha text</p>\n");
}

fn is_subsequence_of(part: &[String], whole: &[String]) -> bool {
    let mut rest = whole.iter();
    part.iter().all(|p| rest.any(|w| w == p))
}

#[test]
fn search_keeps_the_listing_order() {
    let listed = list_docpack_files(sample()).unwrap();
    for query in ["", "o", "started", "OWNER", "nothing"] {
        let found = search_docpack(sample(), query).unwrap();
        assert!(is_subsequence_of(&found, &listed), "query {:?}", query);
    }
}

#[test]
fn a_longer_query_finds_less() {
    let short = search_docpack(sample(), "t").unwrap();
    let longer = search_docpack(sample(), "The").unwrap();
    let longest = search_docpack(sample(), "THE RUST").unwrap();
    assert_eq!(short, vec!["repo_0/README.md", "repo_0/guide/start.md"]);
    assert_eq!(longer, vec!["repo_0/README.md"]);
    assert_eq!(longest, vec!["repo_0/README.md"]);
    assert!(is_subsequence_of(&longer, &short));
    assert!(is_subsequence_of(&longest, &longer));
}

#[test]
fn the_empty_query_finds_every_readable_markdown_file() {
    let found = search_docpack(sample(), "").unwrap();
    assert_eq!(found, vec!["repo_0/README.md", "repo_0/guide/start.md"]);
    let found = search_docpack(pack(&[("x.md", b""), ("d.md/", b""), ("y.MD", b"a")]), "").unwrap();
    assert_eq!(found, vec!["x.md"]);
}

#[test]
fn queries_that_differ_in_case_find_the_same() {
    assert_eq!(search_docpack(sample(), "Ownership").unwrap(), search_docpack(sample(), "oWNERSHIP").unwrap());
}

#[test]
fn a_bad_pack_gives_the_same_reason_everywhere() {
    let bytes = b"PK\x05\x06 truncated".to_vec();
    let listed = list_docpack_files(bytes.clone()).unwrap_err();
    assert!(listed.starts_with("Not a valid DocCrate pack: "));
    assert_eq!(search_docpack(bytes.clone(), "q").unwrap_err(), listed);
    assert_eq!(read_docpack_file(bytes, "a.md").unwrap_err(), listed);
}

/// A pack whose entry `secret.md` is flagged as encrypted in the central
/// directory.
fn pack_with_encrypted_entry() -> Vec<u8> {
    let mut bytes = pack(&[("open.md", b"plain words"), ("secret.md", b"hidden words, long enough")]);
    let mut at = 0;
    while at + 46 < bytes.len() {
        if bytes[at..at + 4] == [0x50, 0x4b, 0x01, 0x02] && bytes[at + 46..].starts_with(b"secret.md") {
            bytes[at + 8] |= 1;
        }
        at += 1;
    }
    bytes
}

#[test]
fn an_encrypted_entry_needs_a_password() {
    let bytes = pack_with_encrypted_entry();
    assert_eq!(
        read_docpack_file(bytes.clone(), "secret.md").unwrap_err(),
        "File not found in pack: unsupported Zip archive: Password required to decrypt file"
    );
    assert_eq!(list_docpack_files(bytes.clone()).unwrap(), vec!["open.md"]);
    assert_eq!(search_docpack(bytes.clone(), "words").unwrap(), vec!["open.md"]);
    assert_eq!(read_docpack_file(bytes, "open.md").unwrap(), "<p>plain words</p>\n");
}

#[test]
fn text_that_is_not_utf8_gives_the_read_error() {
    let err = read_docpack_file(sample(), "repo_1/bad.md").unwrap_err();
    assert_eq!(err, "Failed to read file: stream did not contain valid UTF-8");
}
