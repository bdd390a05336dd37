use codesearch::batch::EventBuffer;
use codesearch::events::{classify_events, FileEvent, GitHeadWatcher, HeadChange, RawKind, RawPath};
use codesearch::watch::{is_in_ignored_dir, is_watchable, skipped_by_name};

fn raw(kind: RawKind, path: &str, exists: bool) -> RawPath {
    RawPath { kind, path: path.to_string(), exists, zero_length: false, indexable: true }
}

#[test]
fn test_is_watchable() {
    // The language flag is what the chunker's language table says of each
    // path: log and binary files have no indexable language.
    // Should NOT watch (ignored dirs)
    assert!(!is_watchable("/tmp/.git/config", false, true));
    assert!(!is_watchable("/tmp/node_modules/foo/index.js", false, true));
    assert!(!is_watchable("/tmp/target/debug/main", false, true));
    assert!(!is_watchable("/tmp/.codesearch.db/data", false, true));

    // Should NOT watch (non-indexable extensions)
    assert!(!is_watchable("/tmp/Cargo.lock", false, true));
    assert!(!is_watchable("/tmp/debug.log", false, false));
    assert!(!is_watchable("/tmp/image.png", false, true));
    assert!(!is_watchable("/tmp/data.bin", false, false));

    // SHOULD watch (code files)
    assert!(is_watchable("/tmp/src/main.rs", false, true));
    assert!(is_watchable("/tmp/src/lib.ts", false, true));
    assert!(is_watchable("/tmp/Program.cs", false, true));
    assert!(is_watchable("/tmp/app.py", false, true));

    // SHOULD watch (config files)
    assert!(is_watchable("/tmp/config.json", false, true));
    assert!(is_watchable("/tmp/settings.yaml", false, true));
    assert!(is_watchable("/tmp/Cargo.toml", false, true));
    assert!(is_watchable("/tmp/appsettings.xml", false, true));

    // SHOULD watch (special files)
    assert!(is_watchable("/tmp/Dockerfile", false, true));
    assert!(is_watchable("/tmp/Makefile", false, true));
}

#[test]
fn watchable_paths() {
    // Excluded directories.
    assert!(!is_watchable("/tmp/.git/config", false, true));
    assert!(!is_watchable("/tmp/node_modules/foo/index.js", false, true));
    assert!(!is_watchable("/tmp/target/debug/main", false, true));
    assert!(!is_watchable("/tmp/.codesearch.db/data", false, true));
    // Skipped extensions and suffixes.
    assert!(!is_watchable("/tmp/Cargo.lock", false, true));
    assert!(!is_watchable("/tmp/image.png", false, true));
    assert!(!is_watchable("/tmp/app.min.js", false, true));
    assert!(!is_watchable("/tmp/types.d.ts", false, true));
    // Compared in lower case.
    assert!(!is_watchable("/tmp/IMAGE.PNG", false, true));
    assert!(!is_watchable("/tmp/Bundle.MIN.JS", false, true));
    // Empty files and languages the chunker does not handle.
    assert!(!is_watchable("/tmp/src/main.rs", true, true));
    assert!(!is_watchable("/tmp/debug.log", false, false));
    // Watched.
    assert!(is_watchable("/tmp/src/main.rs", false, true));
    assert!(is_watchable("/tmp/src/lib.ts", false, true));
    assert!(is_watchable("/tmp/Program.cs", false, true));
    assert!(is_watchable("/tmp/Dockerfile", false, true));
    // A leading dot alone is no extension.
    assert!(is_watchable("/tmp/.lock", false, true));
}

#[test]
fn ignored_directory_segments() {
    assert!(is_in_ignored_dir("/a/.venv/lib/x.py"));
    assert!(is_in_ignored_dir("coverage"));
    assert!(!is_in_ignored_dir("/a/targets/x.rs"));
    assert!(!is_in_ignored_dir("/a/my.git/x.rs"));
}

#[test]
fn name_rules_on_lowered_text() {
    assert!(skipped_by_name(&Some("png".to_string()), &Some("a.png".to_string())));
    assert!(skipped_by_name(&None, &Some("x.pb.go".to_string())));
    assert!(!skipped_by_name(&Some("rs".to_string()), &Some("main.rs".to_string())));
    assert!(!skipped_by_name(&None, &None));
}

#[test]
fn classify_dedupes_and_filters() {
    let events = classify_events(&vec![
        raw(RawKind::CreateOrModify, r"C:\repo\src\a.rs", true),
        raw(RawKind::CreateOrModify, "C:/repo/src/a.rs", true),
        raw(RawKind::CreateOrModify, "/repo/.git/index", true),
        raw(RawKind::CreateOrModify, "/repo/gone.rs", false),
        raw(RawKind::Remove, "/repo/olddir", false),
        raw(RawKind::Other, "/repo/b.rs", true),
        raw(RawKind::CreateOrModify, "/repo/b.rs", true),
    ]);
    assert_eq!(
        events,
        vec![
            FileEvent::Modified("C:/repo/src/a.rs".to_string()),
            FileEvent::Deleted("/repo/olddir".to_string()),
        ]
    );
}

#[test]
fn head_watcher_reports_changes_after_first_check() {
    let mut w = GitHeadWatcher::new("/repo/.git/HEAD".to_string());
    assert_eq!(w.check("ref: refs/heads/main\n".to_string()), None);
    assert_eq!(w.check("ref: refs/heads/main\n".to_string()), None);
    assert_eq!(
        w.check("ref: refs/heads/feature\n".to_string()),
        Some(HeadChange {
            old_head: "ref: refs/heads/main\n".to_string(),
            new_head: "ref: refs/heads/feature\n".to_string(),
        })
    );
    assert_eq!(w.check("ref: refs/heads/feature\n".to_string()), None);
}

#[test]
fn buffer_fold_and_flush() {
    let mut b = EventBuffer::new(0);
    b.fold_events(
        &vec![
            FileEvent::Modified("/r/a.rs".to_string()),
            FileEvent::Modified("/r/a.rs".to_string()),
            FileEvent::Deleted("/r/b.rs".to_string()),
            FileEvent::Renamed("/r/c.rs".to_string(), "/r/d.rs".to_string()),
            FileEvent::Modified("/r/b.rs".to_string()),
        ],
        1000,
    );
    let mut idx = b.to_index.clone();
    idx.sort();
    let mut rem = b.to_remove.clone();
    rem.sort();
    assert_eq!(idx, vec!["/r/a.rs", "/r/b.rs", "/r/d.rs"]);
    assert_eq!(rem, vec!["/r/c.rs"]);
    assert_eq!(b.last_event_ms, 1000);
    assert!(!b.should_flush(2999));
    assert!(b.should_flush(3000));
    assert!(!b.should_flush(500));
    let (to_index, to_remove) = b.take_batch(3000);
    assert_eq!(to_index.len(), 3);
    assert_eq!(to_remove.len(), 1);
    assert!(b.to_index.is_empty() && b.to_remove.is_empty());
    assert!(!b.should_flush(100_000));

    b.fold_events(&vec![FileEvent::Deleted("/r/x.rs".to_string())], 4000);
    b.fold_events(&vec![], 9000);
    assert_eq!(b.last_event_ms, 4000);
    b.clear();
    assert!(!b.should_flush(100_000));
}
