use codesearch::batch::remove_paths;
use codesearch::file_meta::{FileMetaStore, FileStat};
use codesearch::sync::{apply_refresh, plan_refresh};

fn stat(mtime: u64, hash: &str) -> FileStat {
    FileStat { mtime, size: 10, hash: hash.to_string() }
}

fn exists_for(store: &FileMetaStore, disk: &[(String, FileStat)]) -> Vec<bool> {
    store.tracked_files().iter().map(|p| disk.iter().any(|(d, _)| d == p)).collect()
}

#[test]
fn check_file_states() {
    let mut store = FileMetaStore::new("m".to_string(), 4);
    assert_eq!(store.check_file("/p/a.rs", &stat(1, "h")), (true, vec![]));
    store.update_file("/p/a.rs", &stat(1, "h"), vec![3, 4]);
    assert!(store.is_tracked("/p/a.rs"));
    assert_eq!(store.check_file("/p/a.rs", &stat(1, "h")), (false, vec![3, 4]));
    assert_eq!(store.check_file("/p/a.rs", &stat(2, "h")), (true, vec![3, 4]));
    assert_eq!(store.check_file("/p/a.rs", &stat(1, "other")), (true, vec![3, 4]));
    let removed = store.remove_file("/p/a.rs").unwrap();
    assert_eq!(removed.chunk_ids, vec![3, 4]);
    assert!(store.remove_file("/p/a.rs").is_none());
    assert!(!store.is_tracked("/p/a.rs"));
}

#[test]
fn load_or_create_rejects_other_model() {
    let mut s = FileMetaStore::new("m1".to_string(), 4);
    s.update_file("/p/a.rs", &stat(1, "h"), vec![1]);
    let kept = FileMetaStore::load_or_create(Some(s), "m1", 4);
    assert!(kept.is_tracked("/p/a.rs"));
    let mut s2 = FileMetaStore::new("m1".to_string(), 4);
    s2.update_file("/p/a.rs", &stat(1, "h"), vec![1]);
    let fresh = FileMetaStore::load_or_create(Some(s2), "m2", 4);
    assert!(!fresh.is_tracked("/p/a.rs"));
    assert_eq!(fresh.model_name, "m2");
}

#[test]
fn test_refresh_removes_ghost_file_entries() {
    let mut store = FileMetaStore::new("test-model".to_string(), 4);
    store.update_file("/c/ghost.rs", &stat(1, "g"), vec![100, 101]);
    let deleted = store.find_deleted_files(&vec![false]);
    assert_eq!(deleted, vec![("/c/ghost.rs".to_string(), vec![100, 101])]);

    let disk: Vec<(String, FileStat)> = vec![];
    let plan = plan_refresh(&store, &disk, &vec![false]);
    assert_eq!(plan.deleted, vec!["/c/ghost.rs".to_string()]);
    assert_eq!(plan.ids_to_delete, vec![100, 101]);
    assert!(plan.changed.is_empty());
    apply_refresh(&mut store, &plan, &vec![]);
    assert!(store.find_deleted_files(&vec![]).is_empty());
    assert!(!store.is_tracked("/c/ghost.rs"));
}

#[test]
fn test_refresh_mixed_ghost_and_real_files() {
    let mut store = FileMetaStore::new("test-model".to_string(), 4);
    store.update_file("/c/real.rs", &stat(1, "r"), vec![1, 2]);
    store.update_file("/c/ghost.rs", &stat(1, "g"), vec![3, 4, 5]);
    let disk = vec![("/c/real.rs".to_string(), stat(1, "r"))];
    let exists = exists_for(&store, &disk);
    let plan = plan_refresh(&store, &disk, &exists);
    assert!(plan.changed.is_empty());
    assert_eq!(plan.ids_to_delete, vec![3, 4, 5]);
    apply_refresh(&mut store, &plan, &vec![]);
    assert_eq!(store.check_file("/c/real.rs", &stat(1, "r")), (false, vec![1, 2]));
    assert!(!store.is_tracked("/c/ghost.rs"));
}

#[test]
fn refresh_order_of_ids_and_changed_files() {
    let mut store = FileMetaStore::new("m".to_string(), 4);
    store.update_file("/c/a.rs", &stat(1, "a"), vec![1, 2]);
    store.update_file("/c/gone.rs", &stat(1, "x"), vec![7]);
    let disk = vec![
        ("/c/a.rs".to_string(), stat(2, "a2")),
        ("/c/new.rs".to_string(), stat(1, "n")),
    ];
    let exists = exists_for(&store, &disk);
    let plan = plan_refresh(&store, &disk, &exists);
    let changed: Vec<&str> = plan.changed.iter().map(|(p, _)| p.as_str()).collect();
    assert_eq!(changed, vec!["/c/a.rs", "/c/new.rs"]);
    // Old ids of changed files first, then those of deleted files.
    assert_eq!(plan.ids_to_delete, vec![1, 2, 7]);
    assert_eq!(plan.deleted, vec!["/c/gone.rs".to_string()]);
}

#[test]
fn branch_switch_converges_and_second_refresh_is_idle() {
    // main: a.rs holds alpha.
    let mut store = FileMetaStore::new("m".to_string(), 4);
    store.update_file("/r/a.rs", &stat(1, "alpha"), vec![0]);
    // feature: a.rs replaced, b.rs added.
    let disk = vec![
        ("/r/a.rs".to_string(), stat(2, "replaced")),
        ("/r/b.rs".to_string(), stat(2, "beta")),
    ];
    let exists = exists_for(&store, &disk);
    let plan = plan_refresh(&store, &disk, &exists);
    assert_eq!(plan.ids_to_delete, vec![0]);
    apply_refresh(&mut store, &plan, &vec![vec![1], vec![2]]);
    let mut paths = store.tracked_files();
    paths.sort();
    assert_eq!(paths, vec!["/r/a.rs", "/r/b.rs"]);
    assert!(store.find_deleted_files(&vec![true, true]).is_empty());
    assert_eq!(store.check_file("/r/b.rs", &stat(2, "beta")), (false, vec![2]));

    let again = plan_refresh(&store, &disk, &vec![true, true]);
    assert!(again.is_empty());
    assert!(again.ids_to_delete.is_empty());
}

#[test]
fn zero_chunk_file_stays_tracked() {
    let mut store = FileMetaStore::new("m".to_string(), 4);
    let disk = vec![("/r/app.min.js".to_string(), stat(5, "min"))];
    let plan = plan_refresh(&store, &disk, &vec![]);
    assert_eq!(plan.changed.len(), 1);
    apply_refresh(&mut store, &plan, &vec![vec![]]);
    assert!(store.is_tracked("/r/app.min.js"));
    assert_eq!(store.get("/r/app.min.js").unwrap().chunk_ids, Vec::<u32>::new());
    let again = plan_refresh(&store, &disk, &vec![true]);
    assert!(again.is_empty());
}

#[test]
fn removal_batch_expands_directories() {
    let mut store = FileMetaStore::new("m".to_string(), 4);
    store.update_file("/r/src/a.rs", &stat(1, "a"), vec![1]);
    store.update_file("/r/src/sub/b.rs", &stat(1, "b"), vec![2, 3]);
    store.update_file("/r/srcx/c.rs", &stat(1, "c"), vec![4]);
    store.update_file("/r/d.rs", &stat(1, "d"), vec![5]);
    let mut ids = remove_paths(&mut store, &vec!["/r/src".to_string(), "/r/d.rs".to_string()]);
    ids.sort();
    assert_eq!(ids, vec![1, 2, 3, 5]);
    assert_eq!(store.tracked_files(), vec!["/r/srcx/c.rs".to_string()]);
    let none = remove_paths(&mut store, &vec!["/r/missing".to_string()]);
    assert!(none.is_empty());
}

#[test]
fn new_ids_are_grouped_by_normalised_file() {
    let changed = vec![
        ("/r/a.rs".to_string(), stat(1, "a")),
        ("/r/min.js".to_string(), stat(1, "m")),
        (r"\\?\C:\r\b.rs".to_string(), stat(1, "b")),
    ];
    let chunk_paths: Vec<String> = ["/r/a.rs", "C:/r/b.rs", "/r/a.rs/"].iter().map(|s| s.to_string()).collect();
    let groups = codesearch::sync::group_ids_by_file(&chunk_paths, &vec![10, 11, 12], &changed);
    assert_eq!(groups, vec![vec![10, 12], vec![], vec![11]]);
}

#[test]
fn test_refresh_removes_multiple_ghost_files() {
    let mut store = FileMetaStore::new("test-model".to_string(), 4);
    store.update_file("/c/ghost1.rs", &stat(1, "g1"), vec![10, 11]);
    store.update_file("/c/ghost2.rs", &stat(1, "g2"), vec![20, 21, 22]);
    store.update_file("/c/ghost3.rs", &stat(1, "g3"), vec![30]);
    let deleted_before = store.find_deleted_files(&vec![false, false, false]);
    assert_eq!(deleted_before.len(), 3, "Should find 3 ghost files before refresh");
    let disk: Vec<(String, FileStat)> = vec![];
    let plan = plan_refresh(&store, &disk, &vec![false, false, false]);
    assert_eq!(plan.ids_to_delete, vec![10, 11, 20, 21, 22, 30]);
    apply_refresh(&mut store, &plan, &vec![]);
    let deleted_after = store.find_deleted_files(&vec![]);
    assert!(deleted_after.is_empty(), "All 3 ghost files should be removed, found: {:?}", deleted_after);
}

#[test]
fn test_refresh_preserves_valid_entries() {
    let mut store = FileMetaStore::new("test-model".to_string(), 4);
    store.update_file("/c/main.rs", &stat(1, "m"), vec![1, 2]);
    let disk = vec![("/c/main.rs".to_string(), stat(1, "m"))];
    let plan = plan_refresh(&store, &disk, &vec![true]);
    assert!(plan.is_empty());
    apply_refresh(&mut store, &plan, &vec![]);
    let deleted = store.find_deleted_files(&vec![true]);
    assert!(deleted.is_empty(), "Real file should NOT be removed from FileMetaStore");
    assert_eq!(store.check_file("/c/main.rs", &stat(1, "m")), (false, vec![1, 2]));
}

#[test]
fn test_refresh_empty_codebase_cleans_all_stale() {
    let mut store = FileMetaStore::new("test-model".to_string(), 4);
    store.update_file("/c/lib.rs", &stat(1, "l"), vec![1, 2, 3]);
    store.update_file("/c/util.rs", &stat(1, "u"), vec![4, 5]);
    let disk: Vec<(String, FileStat)> = vec![];
    let plan = plan_refresh(&store, &disk, &vec![false, false]);
    apply_refresh(&mut store, &plan, &vec![]);
    assert!(store.find_deleted_files(&vec![]).is_empty(), "All stale entries should be removed");
    assert!(store.tracked_files().is_empty());
}
