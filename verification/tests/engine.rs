use doccrate_core::engine::{
    archive_entry_name, is_markdown_file, repo_dir_name, select_markdown_files, success_text,
};
use doccrate_core::{build_offline_pack, EngineAction, EngineEvent, PackEngine, ScanEntry};

#[test]
fn test_engine_rejects_empty_queue() {
    let empty_sources = Vec::new();
    let result = build_offline_pack(&empty_sources);
    assert!(result.is_err());
}

#[test]
fn empty_queue_error_text() {
    let err = build_offline_pack(&Vec::new()).unwrap_err();
    assert_eq!(err, "Engine Failure: No sources provided in the queue.");
}

fn ok() -> EngineEvent {
    EngineEvent::Succeeded
}

fn failed(reason: &str) -> EngineEvent {
    EngineEvent::Failed { reason: reason.to_string() }
}

fn entry(path: &str, is_file: bool) -> ScanEntry {
    ScanEntry { path: path.to_string(), is_file }
}

fn report(engine: &PackEngine) -> Result<String, String> {
    match engine.action() {
        EngineAction::Report { outcome } => outcome,
        other => panic!("no report yet: {:?}", other),
    }
}

fn two_sources() -> PackEngine {
    build_offline_pack(&vec![
        "https://github.com/rust-lang/book.git".to_string(),
        "https://example.com/notes.git".to_string(),
    ])
    .unwrap()
}

#[test]
fn successful_build_walks_every_step() {
    let mut e = two_sources();
    assert_eq!(e.action(), EngineAction::ClearStaging { dir: "doccrate_staging".to_string() });
    e.advance(ok());
    assert_eq!(e.action(), EngineAction::CreateStaging { dir: "doccrate_staging".to_string() });
    e.advance(ok());
    assert_eq!(
        e.action(),
        EngineAction::CloneSource {
            url: "https://github.com/rust-lang/book.git".to_string(),
            dest: "doccrate_staging/repo_0".to_string(),
        }
    );
    e.advance(EngineEvent::CloneFinished { success: true });
    assert_eq!(
        e.action(),
        EngineAction::CloneSource {
            url: "https://example.com/notes.git".to_string(),
            dest: "doccrate_staging/repo_1".to_string(),
        }
    );
    e.advance(EngineEvent::CloneFinished { success: true });
    assert_eq!(e.action(), EngineAction::CreateArchive { file: "Master_Library_v1.docpack".to_string() });
    e.advance(ok());
    assert_eq!(e.action(), EngineAction::ScanStaging { dir: "doccrate_staging".to_string() });
    e.advance(EngineEvent::Scanned {
        entries: vec![
            entry("doccrate_staging", false),
            entry("doccrate_staging/repo_0/README.md", true),
            entry("doccrate_staging/repo_0/src/main.rs", true),
            entry("doccrate_staging/repo_0/docs.md", false),
            entry("doccrate_staging/repo_1/guide/intro.md", true),
            entry("doccrate_staging/repo_1/.md", true),
            entry("doccrate_staging/repo_1/notes.MD", true),
        ],
    });
    for (name, path) in [
        ("repo_0/README.md", "doccrate_staging/repo_0/README.md"),
        ("repo_1/guide/intro.md", "doccrate_staging/repo_1/guide/intro.md"),
    ] {
        assert_eq!(e.action(), EngineAction::StartEntry { name: name.to_string() });
        e.advance(ok());
        assert_eq!(e.action(), EngineAction::OpenSource { path: path.to_string() });
        e.advance(ok());
        assert_eq!(e.action(), EngineAction::ReadSource);
        e.advance(ok());
        assert_eq!(e.action(), EngineAction::WriteEntry);
        e.advance(ok());
    }
    assert_eq!(e.action(), EngineAction::FinishArchive);
    e.advance(ok());
    assert_eq!(e.action(), EngineAction::RemoveStaging { dir: "doccrate_staging".to_string() });
    e.advance(failed("cannot remove"));
    assert_eq!(
        report(&e),
        Ok("Built Master_Library_v1.docpack containing 2 Markdown files!".to_string())
    );
    // the outcome is final
    e.advance(ok());
    assert_eq!(
        report(&e),
        Ok("Built Master_Library_v1.docpack containing 2 Markdown files!".to_string())
    );
}

#[test]
fn build_without_markdown_packs_nothing() {
    let mut e = build_offline_pack(&vec!["./notes".to_string()]).unwrap();
    e.advance(ok());
    e.advance(ok());
    e.advance(EngineEvent::CloneFinished { success: true });
    e.advance(ok());
    e.advance(EngineEvent::Scanned { entries: vec![entry("doccrate_staging/repo_0/a.txt", true)] });
    assert_eq!(e.action(), EngineAction::FinishArchive);
    e.advance(ok());
    e.advance(ok());
    assert_eq!(
        report(&e),
        Ok("Built Master_Library_v1.docpack containing 0 Markdown files!".to_string())
    );
}

#[test]
fn failed_clone_is_reported() {
    let mut e = two_sources();
    e.advance(ok());
    e.advance(ok());
    e.advance(EngineEvent::CloneFinished { success: false });
    assert_eq!(
        report(&e),
        Err("Engine Failure: Git clone failed for URL: https://github.com/rust-lang/book.git".to_string())
    );
}

#[test]
fn git_that_cannot_run_is_reported() {
    let mut e = two_sources();
    e.advance(ok());
    e.advance(ok());
    e.advance(failed("No such file or directory (os error 2)"));
    assert_eq!(
        report(&e),
        Err("Engine Failure: Failed to execute native git clone for: https://github.com/rust-lang/book.git: No such file or directory (os error 2)".to_string())
    );
}

#[test]
fn each_failure_names_its_step() {
    let cases: Vec<(usize, &str)> = vec![
        (0, "Engine Failure: Failed to clear previous staging directory: boom"),
        (1, "Engine Failure: Failed to create staging directory: boom"),
        (3, "Engine Failure: Failed to create output archive file: boom"),
    ];
    for (steps, expected) in cases {
        let mut e = build_offline_pack(&vec!["x".to_string()]).unwrap();
        for k in 0..steps {
            if k == 2 {
                e.advance(EngineEvent::CloneFinished { success: true });
            } else {
                e.advance(ok());
            }
        }
        e.advance(failed("boom"));
        assert_eq!(report(&e), Err(expected.to_string()));
    }
}

#[test]
fn packing_failures_name_their_step() {
    let expected = [
        "Engine Failure: Failed to start zip entry: boom",
        "Engine Failure: Failed to open markdown file: boom",
        "Engine Failure: boom",
        "Engine Failure: Failed to write markdown data to zip: boom",
    ];
    for (k, text) in expected.iter().enumerate() {
        let mut e = build_offline_pack(&vec!["x".to_string()]).unwrap();
        e.advance(ok());
        e.advance(ok());
        e.advance(EngineEvent::CloneFinished { success: true });
        e.advance(ok());
        e.advance(EngineEvent::Scanned { entries: vec![entry("doccrate_staging/repo_0/a.md", true)] });
        for _ in 0..k {
            e.advance(ok());
        }
        e.advance(failed("boom"));
        assert_eq!(report(&e), Err(text.to_string()));
    }
}

#[test]
fn finishing_failure_is_reported() {
    let mut e = build_offline_pack(&vec!["x".to_string()]).unwrap();
    e.advance(ok());
    e.advance(ok());
    e.advance(EngineEvent::CloneFinished { success: true });
    e.advance(ok());
    e.advance(EngineEvent::Scanned { entries: vec![] });
    e.advance(failed("disk full"));
    assert_eq!(report(&e), Err("Engine Failure: Failed to finalize the docpack archive: disk full".to_string()));
}

#[test]
fn unanswered_events_change_nothing() {
    let mut e = two_sources();
    e.advance(EngineEvent::CloneFinished { success: true });
    assert_eq!(e.action(), EngineAction::ClearStaging { dir: "doccrate_staging".to_string() });
    e.advance(ok());
    e.advance(ok());
    e.advance(ok());
    assert_eq!(
        e.action(),
        EngineAction::CloneSource {
            url: "https://github.com/rust-lang/book.git".to_string(),
            dest: "doccrate_staging/repo_0".to_string(),
        }
    );
}

#[test]
fn helpers_compute_names_and_messages() {
    assert_eq!(repo_dir_name(0), "doccrate_staging/repo_0");
    assert_eq!(repo_dir_name(12), "doccrate_staging/repo_12");
    assert_eq!(success_text(105), "Built Master_Library_v1.docpack containing 105 Markdown files!");
    assert_eq!(archive_entry_name("doccrate_staging/repo_3/a/b.md"), "repo_3/a/b.md");
    assert_eq!(archive_entry_name("elsewhere/b.md"), "elsewhere/b.md");
    assert!(is_markdown_file("doccrate_staging/repo_0/README.md"));
    assert!(is_markdown_file("a/b.c.md"));
    assert!(!is_markdown_file("a/.md"));
    assert!(!is_markdown_file("a/README.markdown"));
    assert!(!is_markdown_file("a/md"));
    assert!(is_markdown_file("a/b.md/"));
    let picked = select_markdown_files(&vec![
        entry("s/x.md", true),
        entry("s/y.md", false),
        entry("s/z.txt", true),
        entry("s/w.md", true),
    ]);
    assert_eq!(picked, vec!["s/x.md".to_string(), "s/w.md".to_string()]);
}
