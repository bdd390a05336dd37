use codesearch::analysis::{adapt_rrf_k, detect_identifiers, detect_structural_intent};
use codesearch::query::{select_results, ChunkKind, Resolved};
use codesearch::rrf::{rrf_fuse, Fused};

fn res(path: &str, kind: ChunkKind, same_language: bool) -> Option<Resolved> {
    Some(Resolved { path: path.to_string(), kind, same_language })
}

#[test]
fn identifiers_are_found_once_in_order() {
    assert_eq!(detect_identifiers("authenticate_user"), vec!["authenticate_user"]);
    assert_eq!(
        detect_identifiers("where is getUserName called from std::fs::read and getUserName?"),
        vec!["getUserName", "std::fs::read"]
    );
    assert!(detect_identifiers("how does authentication work").is_empty());
    assert!(detect_identifiers("Parser and __ and ::").is_empty());
    assert_eq!(detect_identifiers("HttpClient"), vec!["HttpClient"]);
}

#[test]
fn structural_intent_from_kind_words() {
    assert_eq!(detect_structural_intent("function that validates email"), Some(ChunkKind::Function));
    assert_eq!(detect_structural_intent("Classes which hold sessions"), Some(ChunkKind::Class));
    assert_eq!(detect_structural_intent("the STRUCT that stores config"), Some(ChunkKind::Struct));
    assert_eq!(detect_structural_intent("the function"), None);
    assert_eq!(detect_structural_intent("error handling"), None);
}

#[test]
fn fusion_constants_follow_query_shape() {
    assert_eq!(adapt_rrf_k("authenticate_user"), (60, 20));
    assert_eq!(adapt_rrf_k("where do we call authenticate_user from the login page"), (60, 40));
    assert_eq!(adapt_rrf_k("how is the error logging implemented across the whole service"), (40, 80));
    assert_eq!(adapt_rrf_k("function that parses dates"), (60, 50));
    assert_eq!(adapt_rrf_k("error handling"), (60, 60));
}

#[test]
fn selection_boosts_filters_and_truncates() {
    let fused = rrf_fuse(&vec![vec![1, 2, 3, 4]], &vec![60]);
    assert_eq!(fused.iter().map(|f| f.chunk_id).collect::<Vec<_>>(), vec![1, 2, 3, 4]);
    let resolved = vec![
        res("/r/src/a.py", ChunkKind::Other, false),
        None,
        res("/r/src/c.rs", ChunkKind::Function, true),
        res("/r/docs/d.rs", ChunkKind::Function, true),
    ];
    // Chunk 3 gets both boosts: 1/63 * 6/5 * 3/2 beats 1/61.
    let all = select_results(&fused, &resolved, Some(ChunkKind::Function), &None, 10);
    assert_eq!(all.iter().map(|r| r.score.chunk_id).collect::<Vec<_>>(), vec![3, 4, 1]);
    assert_eq!(all[0].index, 2);
    assert_eq!(all[0].score.num * 63 * 10, 18 * all[0].score.den);
    // Filter first, then truncate.
    let filtered = select_results(&fused, &resolved, Some(ChunkKind::Function), &Some("/r/src".to_string()), 1);
    assert_eq!(filtered.len(), 1);
    assert_eq!(filtered[0].score.chunk_id, 3);
    let none = select_results(&fused, &resolved, None, &Some("/elsewhere".to_string()), 5);
    assert!(none.is_empty());
    // Without an intent only the language boost applies: 1.2/63 and 1.2/64
    // still beat 1/61.
    let plain = select_results(&fused, &resolved, None, &None, 2);
    assert_eq!(plain.iter().map(|r| r.score.chunk_id).collect::<Vec<_>>(), vec![3, 4]);
    let other_language = vec![
        res("/r/a.py", ChunkKind::Other, false),
        None,
        res("/r/c.py", ChunkKind::Function, false),
        res("/r/d.py", ChunkKind::Function, false),
    ];
    let unboosted = select_results(&fused, &other_language, None, &None, 2);
    assert_eq!(unboosted.iter().map(|r| r.score.chunk_id).collect::<Vec<_>>(), vec![1, 3]);
}

#[test]
fn selection_of_nothing() {
    let empty: Vec<Fused> = vec![];
    assert!(select_results(&empty, &vec![], None, &None, 3).is_empty());
}
