use codesearch::discovery::{DatabaseInfo, DbProbe};
use codesearch::doctor::{
    check_chunk_integrity, check_database_structure, check_embedding_cache, check_file_integrity,
    check_find_database, check_fts_health, check_git_root_placement, check_model_consistency,
    count_status, format_bytes, CheckResult, CheckStatus,
};
use codesearch::file_meta::{FileMetaStore, FileStat};
use codesearch::store::StoreStats;

fn probe(exists: bool, metadata: bool, data: bool, fts: bool) -> DbProbe {
    DbProbe { exists, is_dir: exists, has_metadata: metadata, has_data: data, has_fts_dir: fts }
}

fn stat(hash: &str) -> FileStat {
    FileStat { mtime: 10, size: 20, hash: hash.to_string() }
}

#[test]
fn test_format_bytes() {
    assert_eq!(format_bytes(512), "512B");
    assert_eq!(format_bytes(2048), "2.0KB");
    assert_eq!(format_bytes(2_097_152), "2.0MB");
    assert_eq!(format_bytes(2_147_483_648), "2.00GB");
}

#[test]
fn format_bytes_boundaries_and_ties() {
    assert_eq!(format_bytes(0), "0B");
    assert_eq!(format_bytes(1023), "1023B");
    assert_eq!(format_bytes(1024), "1.0KB");
    // 1280 bytes is exactly 1.25 KiB: the tie goes to the even digit.
    assert_eq!(format_bytes(1280), "1.2KB");
    // 1331 bytes is 1.2998 KiB.
    assert_eq!(format_bytes(1331), "1.3KB");
    assert_eq!(format_bytes(1_572_864), "1.5MB");
    assert_eq!(format_bytes(1_610_612_736), "1.50GB");
}

#[test]
fn test_check_result_with_details_and_hint() {
    let result = CheckResult::pass("test", "message")
        .with_details("details")
        .with_hint("hint");

    assert_eq!(result.name, "test");
    assert_eq!(result.message, "message");
    assert_eq!(result.status, CheckStatus::Pass);
    assert_eq!(result.details, Some("details".to_string()));
    assert_eq!(result.hint, Some("hint".to_string()));
}

#[test]
fn test_doctor_no_database() {
    let result = check_find_database(&Ok(None));

    assert_eq!(result.status, CheckStatus::Fail);
    assert_eq!(result.name, "No database found");
    assert!(result.message.contains("No .codesearch.db found"));
}

#[test]
fn check_find_database_found_and_error() {
    let info = DatabaseInfo {
        project_path: "/w/app".to_string(),
        db_path: "/w/app/.codesearch.db".to_string(),
        is_current: false,
        depth: 2,
        is_global: false,
    };
    let found = check_find_database(&Ok(Some(info)));
    assert_eq!(found.status, CheckStatus::Pass);
    assert_eq!(found.name, "Database found");
    assert_eq!(found.message, "Database at /w/app/.codesearch.db");
    assert_eq!(found.details, Some("Project: /w/app (depth 2)".to_string()));

    let failed = check_find_database(&Err("denied".to_string()));
    assert_eq!(failed.status, CheckStatus::Fail);
    assert_eq!(failed.name, "Database discovery failed");
    assert_eq!(failed.message, "Error finding database: denied");
}

#[test]
fn test_doctor_incomplete_database() {
    // Only metadata.json present.
    let result = check_database_structure(&probe(true, true, false, false));

    assert_eq!(result.status, CheckStatus::Fail);
    assert_eq!(result.name, "Database structure");
    assert!(result.message.contains("Missing components"));
    assert_eq!(result.message, "Missing components: data.mdb, fts/");
}

#[test]
fn database_structure_missing_and_corrupt() {
    let absent = check_database_structure(&probe(false, false, false, false));
    assert_eq!(absent.status, CheckStatus::Fail);
    assert_eq!(absent.message, "Database path does not exist");

    let not_dir = DbProbe { exists: true, is_dir: false, has_metadata: true, has_data: true, has_fts_dir: true };
    let corrupt = check_database_structure(&not_dir);
    assert_eq!(corrupt.status, CheckStatus::Warn);
    assert_eq!(corrupt.details, Some("Required files exist but validation failed".to_string()));
}

#[test]
fn test_doctor_model_name_mismatch() {
    let result = check_model_consistency(
        &Some("minilm-l6-q".to_string()),
        &Some("wrong-model".to_string()),
    );

    assert_eq!(result.status, CheckStatus::Warn);
    assert_eq!(result.name, "Model consistency");
    assert!(result.message.contains("mismatch"));
    assert!(result.message.contains("minilm-l6-q"));
}

#[test]
fn test_doctor_model_name_consistent() {
    let result = check_model_consistency(
        &Some("minilm-l6-q".to_string()),
        &Some("minilm-l6-q".to_string()),
    );

    assert_eq!(result.status, CheckStatus::Pass);
    assert_eq!(result.name, "Model consistency");
    assert!(result.message.contains("minilm-l6-q"));
}

#[test]
fn model_consistency_partial_information() {
    let only_meta = check_model_consistency(&Some("bge-small".to_string()), &None);
    assert_eq!(only_meta.status, CheckStatus::Pass);
    assert_eq!(only_meta.message, "Model: bge-small (no file_meta.json yet)");
    let only_file = check_model_consistency(&None, &Some("bge-small".to_string()));
    assert_eq!(only_file.status, CheckStatus::Warn);
    assert_eq!(only_file.message, "Model in file_meta only: bge-small");
    let none = check_model_consistency(&None, &None);
    assert_eq!(none.status, CheckStatus::Warn);
    assert_eq!(none.message, "No model information found");
}

#[test]
fn test_doctor_misplaced_index() {
    let result = check_git_root_placement(
        &Ok(Some("/tmp/x/subdir".to_string())),
        "/tmp/x/.codesearch.db",
        "/tmp/x/subdir/.codesearch.db",
    );

    assert_eq!(result.status, CheckStatus::Warn);
    assert_eq!(result.name, "Git root placement");
    assert!(result.message.contains("not at git root"));
}

#[test]
fn test_doctor_index_at_git_root() {
    let result = check_git_root_placement(
        &Ok(Some("/tmp/x".to_string())),
        "/tmp/x/.codesearch.db",
        "/tmp/x/.codesearch.db",
    );

    assert_eq!(result.status, CheckStatus::Pass);
    assert_eq!(result.name, "Git root placement");
    assert!(result.message.contains("at git root"));
}

#[test]
fn git_root_missing_or_unknown() {
    let none = check_git_root_placement(&Ok(None), "/a/.codesearch.db", "/a/.codesearch.db");
    assert_eq!(none.status, CheckStatus::Warn);
    assert_eq!(none.message, "No .git directory found");
    let err = check_git_root_placement(&Err("io".to_string()), "/a", "/a");
    assert_eq!(err.message, "Could not find .git: io");
}

#[test]
fn test_doctor_stale_files() {
    let mut store = FileMetaStore::new("minilm-l6-q".to_string(), 384);
    store.update_file("/p/will_be_deleted.rs", &stat("h"), vec![1, 2, 3]);
    // The tracked file no longer exists; nothing is on disk.
    let result = check_file_integrity(&Ok(store), &vec![false], &Ok(vec![]));

    assert_eq!(result.status, CheckStatus::Warn, "Expected Warn, got {:?}: {}", result.status, result.message);
    assert_eq!(result.name, "File integrity");
    assert!(result.details.as_ref().unwrap().contains("stale"),
        "Expected 'stale' in details, got: {:?}", result.details);
    assert_eq!(result.message, "1 stale, 0 unindexed, 0 up to date");
}

#[test]
fn file_integrity_counts() {
    let mut store = FileMetaStore::new("m".to_string(), 4);
    store.update_file("/p/a.rs", &stat("a"), vec![1]);
    store.update_file("/p/empty.min.js", &stat("e"), vec![]);
    let walk = vec![
        ("/p/a.rs".to_string(), Some(stat("a"))),
        ("/p/empty.min.js".to_string(), Some(stat("e"))),
        ("/p/new.rs".to_string(), Some(stat("n"))),
        ("/p/unreadable.rs".to_string(), None),
    ];
    let result = check_file_integrity(&Ok(store), &vec![true, true], &Ok(walk));
    assert_eq!(result.status, CheckStatus::Warn);
    assert_eq!(result.message, "0 stale, 2 unindexed, 2 up to date");
    assert_eq!(result.details, Some("2 files on disk but not in index".to_string()));

    let mut clean = FileMetaStore::new("m".to_string(), 4);
    clean.update_file("/p/a.rs", &stat("a"), vec![1]);
    let ok = check_file_integrity(&Ok(clean), &vec![true], &Ok(vec![("/p/a.rs".to_string(), Some(stat("a")))]));
    assert_eq!(ok.status, CheckStatus::Pass);
    assert_eq!(ok.message, "1 files indexed and up to date");

    let load_err = check_file_integrity(&Err("bad json".to_string()), &vec![], &Ok(vec![]));
    assert_eq!(load_err.status, CheckStatus::Fail);
    assert_eq!(load_err.message, "Could not load file metadata: bad json");
}

#[test]
fn test_doctor_valid_database_all_green() {
    assert_eq!(check_database_structure(&probe(true, true, true, true)).status, CheckStatus::Pass);
    assert_eq!(
        check_model_consistency(&Some("minilm-l6-q".to_string()), &Some("minilm-l6-q".to_string())).status,
        CheckStatus::Pass
    );
}

#[test]
fn chunk_fts_and_cache_checks() {
    let stats = StoreStats { total_chunks: 7, total_files: 2, indexed: true, dimensions: 384, max_chunk_id: 9 };
    let c = check_chunk_integrity(&stats);
    assert_eq!(c.status, CheckStatus::Pass);
    assert_eq!(c.message, "Vector index searchable (7 chunks)");
    assert_eq!(c.details, Some("Max chunk ID: 9, Files: 2, Dimensions: 384".to_string()));
    let empty = StoreStats { total_chunks: 0, total_files: 0, indexed: false, dimensions: 0, max_chunk_id: 0 };
    assert_eq!(check_chunk_integrity(&empty).status, CheckStatus::Warn);

    assert_eq!(check_fts_health(&Ok(())).status, CheckStatus::Pass);
    let f = check_fts_health(&Err("locked".to_string()));
    assert_eq!(f.status, CheckStatus::Fail);
    assert_eq!(f.message, "Failed to open FTS index: locked");

    let full = check_embedding_cache(&Ok(Some((12, 2048))));
    assert_eq!(full.message, "12 entries (2.0KB)");
    let empty_cache = check_embedding_cache(&Ok(Some((0, 0))));
    assert_eq!(empty_cache.message, "Cache empty but functional (0 entries)");
    assert_eq!(check_embedding_cache(&Ok(None)).status, CheckStatus::Warn);
    assert_eq!(check_embedding_cache(&Err("x".to_string())).message, "Could not open cache: x");

    let all = vec![c, f, full, check_embedding_cache(&Ok(None))];
    assert_eq!(count_status(&all, CheckStatus::Pass), 2);
    assert_eq!(count_status(&all, CheckStatus::Warn), 1);
    assert_eq!(count_status(&all, CheckStatus::Fail), 1);
}
