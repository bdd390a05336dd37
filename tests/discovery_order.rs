use codesearch::discovery::{
    check_database_integrity, find_best_database, is_valid_database, require_database, Candidate, DbProbe,
};
use codesearch::store::ErrorKind;

fn valid() -> DbProbe {
    DbProbe { exists: true, is_dir: true, has_metadata: true, has_data: true, has_fts_dir: true }
}

fn absent() -> DbProbe {
    DbProbe { exists: false, is_dir: false, has_metadata: false, has_data: false, has_fts_dir: false }
}

fn cand(name: &str, dir: &str, probe: DbProbe) -> Candidate {
    Candidate {
        name: name.to_string(),
        project_path: dir.to_string(),
        db_path: format!("{}/.codesearch.db", dir),
        probe,
    }
}

#[test]
fn test_is_valid_database() {
    let empty_dir = DbProbe { exists: true, is_dir: true, has_metadata: false, has_data: false, has_fts_dir: false };
    assert!(!is_valid_database(&empty_dir));
    assert!(is_valid_database(&valid()));
}

#[test]
fn integrity_reasons() {
    assert_eq!(check_database_integrity(&absent()), None);
    assert_eq!(check_database_integrity(&valid()), None);
    let file = DbProbe { exists: true, is_dir: false, ..absent() };
    assert_eq!(check_database_integrity(&file), Some("exists but is not a directory".to_string()));
    let only_meta = DbProbe { has_metadata: true, ..DbProbe { exists: true, is_dir: true, ..absent() } };
    assert_eq!(check_database_integrity(&only_meta), Some("missing: data.mdb, fts/".to_string()));
}

#[test]
fn test_find_best_database_current_dir() {
    let r = find_best_database(&cand("w", "/w", valid()), &vec![], &vec![], &vec![]).unwrap();
    assert!(r.is_current);
    assert_eq!(r.depth, 0);
}

#[test]
fn test_find_best_database_child_dir() {
    let r = find_best_database(&cand("w", "/w", absent()), &vec![cand("frontend", "/w/frontend", valid())], &vec![], &vec![]);
    assert!(r.is_some(), "Should find DB in child directory");
    let info = r.unwrap();
    assert!(!info.is_current);
    assert_eq!(info.depth, 1);
    assert!(info.project_path.ends_with("frontend"));
}

#[test]
fn test_find_best_database_child_skips_hidden_dirs() {
    let r = find_best_database(&cand("w", "/w", absent()), &vec![cand(".hidden_repo", "/w/.hidden_repo", valid())], &vec![], &vec![]);
    assert!(r.is_none(), "Should not find DB in hidden child directory");
}

#[test]
fn test_find_best_database_child_skips_target_dir() {
    let r = find_best_database(&cand("w", "/w", absent()), &vec![cand("target", "/w/target", valid())], &vec![], &vec![]);
    assert!(r.is_none(), "Should not find DB in target/ directory");
}

#[test]
fn test_find_best_database_prefers_current_over_child() {
    let r = find_best_database(&cand("w", "/w", valid()), &vec![cand("frontend", "/w/frontend", valid())], &vec![], &vec![]);
    assert!(r.is_some());
    assert!(r.unwrap().is_current, "Should prefer current dir over child");
}

#[test]
fn test_find_best_database_none_when_empty() {
    assert!(find_best_database(&cand("w", "/w", absent()), &vec![], &vec![], &vec![]).is_none());
}

#[test]
fn test_find_best_database_invalid_child_db_skipped() {
    let incomplete = DbProbe { exists: true, is_dir: true, has_metadata: true, has_data: false, has_fts_dir: false };
    let r = find_best_database(&cand("w", "/w", absent()), &vec![cand("myrepo", "/w/myrepo", incomplete)], &vec![], &vec![]);
    assert!(r.is_none(), "Should not find incomplete DB");
}

#[test]
fn ancestors_then_globals() {
    let ancestors = vec![cand("a", "/a/b", absent()), cand("a", "/a", valid())];
    let r = find_best_database(&cand("c", "/a/b/c", absent()), &vec![], &ancestors, &vec![]).unwrap();
    assert_eq!(r.depth, 2);
    assert_eq!(r.project_path, "/a");
    // Only five ancestors are searched.
    let far: Vec<Candidate> = (0..6).map(|i| cand("x", &format!("/x{}", i), if i == 5 { valid() } else { absent() })).collect();
    assert!(find_best_database(&cand("c", "/c", absent()), &vec![], &far, &vec![]).is_none());
    let g = find_best_database(&cand("c", "/c", absent()), &vec![], &far, &vec![cand("g", "/g", absent()), cand("h", "/h", valid())]).unwrap();
    assert!(g.is_global);
    assert_eq!(g.depth, usize::MAX);
    assert_eq!(g.project_path, "/h");
}

#[test]
fn refresh_requires_a_complete_database() {
    let incomplete = DbProbe { exists: true, is_dir: true, has_metadata: true, has_data: false, has_fts_dir: false };
    assert_eq!(require_database(&absent()), Err(ErrorKind::NotFound));
    assert_eq!(require_database(&incomplete), Err(ErrorKind::Invalid));
    assert_eq!(require_database(&valid()), Ok(()));
}
