use codesearch::store::{
    count_unique_paths, dimensions_for_model, grow_or_give_up, is_map_full_message, writer_access,
    access_mode, ensure_writable, evict_count, grow_after_failure, keys_to_evict, AccessMode, ChunkIds,
    ErrorKind, IndexState,
};

#[test]
fn ids_continue_after_the_largest_key() {
    let empty = ChunkIds::open(None, false, 4);
    assert_eq!(empty.next_id, 0);
    assert_eq!(empty.state, IndexState::Empty);
    // Keys 0..=9 with gaps: next id is max + 1, not the count.
    let reopened = ChunkIds::open(Some(9), true, 4);
    assert_eq!(reopened.next_id, 10);
    assert_eq!(reopened.state, IndexState::Indexed);
    assert_eq!(ChunkIds::open(Some(3), false, 4).state, IndexState::Dirty);
    assert_eq!(ChunkIds::open(Some(u32::MAX), true, 4).next_id, 1u64 << 32);
}

#[test]
fn insert_assigns_consecutive_ids() {
    let mut ids = ChunkIds::open(Some(4), true, 4);
    let got = ids.insert_chunks_with_ids(&vec![4, 4, 4]).unwrap();
    assert_eq!(got, vec![5, 6, 7]);
    assert_eq!(ids.next_id, 8);
    assert_eq!(ids.state, IndexState::Dirty);
    assert_eq!(ids.insert_chunks_with_ids(&vec![]).unwrap(), Vec::<u32>::new());
    assert_eq!(ids.next_id, 8);
}

#[test]
fn dimension_mismatch_changes_nothing() {
    let mut ids = ChunkIds::open(None, false, 384);
    assert_eq!(ids.insert_chunks_with_ids(&vec![384, 383]), Err(ErrorKind::DimensionMismatch));
    assert_eq!(ids.next_id, 0);
    assert_eq!(ids.state, IndexState::Empty);
}

#[test]
fn index_state_machine() {
    let mut ids = ChunkIds::open(None, false, 4);
    assert_eq!(ids.check_search(4), Err(ErrorKind::NotIndexed));
    ids.insert_chunks_with_ids(&vec![4]).unwrap();
    assert_eq!(ids.check_search(4), Err(ErrorKind::NotIndexed));
    ids.record_build();
    assert!(ids.is_indexed());
    assert_eq!(ids.check_search(4), Ok(()));
    assert_eq!(ids.check_search(3), Err(ErrorKind::DimensionMismatch));
    ids.record_deletion(0);
    assert!(ids.is_indexed());
    ids.record_deletion(2);
    assert_eq!(ids.state, IndexState::Dirty);
    ids.record_clear();
    assert_eq!(ids.next_id, 0);
    assert_eq!(ids.state, IndexState::Empty);
    assert!(ids.has_room(5));
}

#[test]
fn map_growth_policy() {
    assert_eq!(grow_after_failure(1, true, 1024, 8192), Some(2048));
    assert_eq!(grow_after_failure(2, true, 4096, 8192), Some(8192));
    assert_eq!(grow_after_failure(2, true, 8192, 8192), None);
    assert_eq!(grow_after_failure(3, true, 1024, 8192), None);
    assert_eq!(grow_after_failure(1, false, 1024, 8192), None);
}

#[test]
fn cache_eviction_takes_first_keys() {
    assert_eq!(evict_count(10, 8), 2);
    assert_eq!(evict_count(8, 8), 0);
    let keys: Vec<String> = ["a", "b", "c", "d"].iter().map(|s| s.to_string()).collect();
    assert_eq!(keys_to_evict(&keys, 1), vec!["a", "b", "c"]);
    assert!(keys_to_evict(&keys, 9).is_empty());
}

#[test]
fn reader_mode_refuses_writes() {
    assert_eq!(access_mode(true), AccessMode::Writer);
    assert_eq!(access_mode(false), AccessMode::Reader);
    assert_eq!(ensure_writable(AccessMode::Writer), Ok(()));
    assert_eq!(ensure_writable(access_mode(false)), Err(ErrorKind::Readonly));
}

#[test]
fn error_kinds_are_distinct() {
    let all = [
        ErrorKind::NotFound,
        ErrorKind::Invalid,
        ErrorKind::Readonly,
        ErrorKind::DimensionMismatch,
        ErrorKind::NotIndexed,
        ErrorKind::MapFull,
        ErrorKind::Locked,
        ErrorKind::Cancelled,
        ErrorKind::IoError,
        ErrorKind::EmbeddingError,
    ];
    for (i, a) in all.iter().enumerate() {
        for (j, b) in all.iter().enumerate() {
            assert_eq!(i == j, a == b);
        }
    }
}

#[test]
fn map_full_messages_and_model_dimensions() {
    assert!(is_map_full_message("Mdb(MapFull): MDB_MAP_FULL: Environment mapsize limit reached"));
    assert!(is_map_full_message("the map full condition"));
    assert!(!is_map_full_message("MDB_NOTFOUND"));
    assert!(!is_map_full_message(""));
    assert_eq!(dimensions_for_model("minilm-l6-q"), 384);
    assert_eq!(dimensions_for_model("jina-code"), 768);
    assert_eq!(dimensions_for_model("mxbai-large"), 1024);
    assert_eq!(dimensions_for_model("unknown"), 384);
    let paths: Vec<String> = ["file1.rs", "file2.rs", "file1.rs"].iter().map(|s| s.to_string()).collect();
    assert_eq!(count_unique_paths(&paths), 2);
    assert_eq!(count_unique_paths(&vec![]), 0);
}

#[test]
fn map_full_and_lock_errors() {
    assert_eq!(grow_or_give_up(1, 1024, 8192), Ok(2048));
    assert_eq!(grow_or_give_up(3, 1024, 8192), Err(ErrorKind::MapFull));
    assert_eq!(grow_or_give_up(1, 8192, 8192), Err(ErrorKind::MapFull));
    assert_eq!(writer_access(true), Ok(AccessMode::Writer));
    assert_eq!(writer_access(false), Err(ErrorKind::Locked));
}
