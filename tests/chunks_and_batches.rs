use codesearch::batching::{merge_in_order, miss_positions, take_present};
use codesearch::chunk::{kind_name, Chunk, ChunkMetadata};
use codesearch::query::ChunkKind;
use codesearch::store::{index_status, search_k, status_name, IndexStatus};

fn chunk(signature: Option<&str>, docstring: Option<&str>, context: Vec<&str>) -> Chunk {
    Chunk {
        content: "fn test() {}".to_string(),
        path: "/r/test.rs".to_string(),
        start_line: 1,
        end_line: 2,
        kind: ChunkKind::Function,
        signature: signature.map(|s| s.to_string()),
        docstring: docstring.map(|s| s.to_string()),
        context: context.into_iter().map(|s| s.to_string()).collect(),
        hash: "abc".to_string(),
        context_prev: None,
        context_next: Some("// next".to_string()),
    }
}

#[test]
fn test_chunk_kind() {
    assert_eq!(format!("{:?}", ChunkKind::Function), "Function");
    assert_eq!(format!("{:?}", ChunkKind::Struct), "Struct");
    assert_eq!(format!("{:?}", ChunkKind::Class), "Class");
    assert_eq!(format!("{:?}", ChunkKind::Interface), "Interface");
    assert_eq!(format!("{:?}", ChunkKind::Enum), "Enum");
    assert_eq!(format!("{:?}", ChunkKind::Method), "Method");
    assert_eq!(format!("{:?}", ChunkKind::Other), "Other");
}

#[test]
fn kind_names_match_debug_names() {
    assert_eq!(kind_name(ChunkKind::Function), "Function");
    assert_eq!(kind_name(ChunkKind::Struct), "Struct");
    assert_eq!(kind_name(ChunkKind::Class), "Class");
    assert_eq!(kind_name(ChunkKind::Interface), "Interface");
    assert_eq!(kind_name(ChunkKind::Enum), "Enum");
    assert_eq!(kind_name(ChunkKind::Method), "Method");
    assert_eq!(kind_name(ChunkKind::Other), "Other");
}

#[test]
fn metadata_searchable_text_and_context() {
    let full = ChunkMetadata::from_chunk(&chunk(Some("fn test()"), Some("Tests."), vec!["mod a", "impl B"]));
    assert_eq!(full.searchable_text, "fn test()\nTests.\nFunction\nfn test() {}");
    assert_eq!(full.context, Some("mod a > impl B".to_string()));
    assert_eq!(full.kind, "Function");
    assert_eq!(full.path, "/r/test.rs");
    assert_eq!(full.context_next, Some("// next".to_string()));

    let bare = ChunkMetadata::from_chunk(&chunk(None, None, vec![]));
    assert_eq!(bare.searchable_text, "Function\nfn test() {}");
    assert_eq!(bare.context, None);
    assert_eq!(bare.signature, None);
}

#[test]
fn cache_first_batches_keep_order() {
    let cached = vec![Some(vec![1.0f32]), None, Some(vec![3.0]), None];
    assert_eq!(miss_positions(&cached), vec![1, 3]);
    let merged = merge_in_order(cached.clone(), vec![vec![2.0f32], vec![4.0]]).unwrap();
    assert_eq!(merged, vec![vec![1.0], vec![2.0], vec![3.0], vec![4.0]]);
    assert!(merge_in_order(cached, vec![vec![2.0f32]]).is_none());
    let all_hit: Vec<Option<u8>> = vec![Some(1), Some(2)];
    assert!(miss_positions(&all_hit).is_empty());
    assert_eq!(merge_in_order(all_hit, vec![]), Some(vec![1, 2]));
}

#[test]
fn search_breadth_and_status() {
    assert_eq!(search_k(10, 4), Some(600));
    assert_eq!(search_k(10, 0), None);
    assert_eq!(search_k(0, 3), None);
    assert_eq!(index_status(false, Some(3)), IndexStatus::NotIndexed);
    assert_eq!(index_status(true, None), IndexStatus::Error);
    assert_eq!(index_status(true, Some(0)), IndexStatus::Building);
    assert_eq!(index_status(true, Some(5)), IndexStatus::Ready);
    assert_eq!(status_name(IndexStatus::NotIndexed), "not_indexed");
    assert_eq!(status_name(IndexStatus::Ready), "ready");
}

#[test]
fn references_keep_resolved_hits_up_to_limit() {
    let hits = vec![Some("a"), None, Some("b"), Some("c"), None, Some("d")];
    assert_eq!(take_present(hits.clone(), 3), vec!["a", "b", "c"]);
    assert_eq!(take_present(hits.clone(), 10), vec!["a", "b", "c", "d"]);
    assert!(take_present(hits, 0).is_empty());
    assert!(take_present(Vec::<Option<u32>>::new(), 5).is_empty());
}
