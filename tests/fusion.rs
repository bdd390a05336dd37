use codesearch::rrf::{rrf_fuse, Fused, EXACT_MATCH_K};

fn ids(r: &[Fused]) -> Vec<u32> {
    r.iter().map(|f| f.chunk_id).collect()
}

#[test]
fn scores_are_exact_reciprocal_rank_sums() {
    // Chunk 7: rank 1 in both lists: 1/61 + 1/61 = 2/61.
    let r = rrf_fuse(&vec![vec![7, 3], vec![7]], &vec![60, 60]);
    assert_eq!(ids(&r), vec![7, 3]);
    assert_eq!(r[0].num * 61 * 61, 2 * 61 * r[0].den);
    // Chunk 3: rank 2 in the first list only: 1/62.
    assert_eq!(r[1].num * 62, r[1].den);
}

#[test]
fn ties_go_to_the_lower_id() {
    let r = rrf_fuse(&vec![vec![9], vec![4]], &vec![10, 10]);
    assert_eq!(ids(&r), vec![4, 9]);
    assert!(rrf_fuse(&vec![], &vec![]).is_empty());
}

#[test]
fn repeated_entries_do_not_change_fusion() {
    let a = rrf_fuse(&vec![vec![1, 2, 1, 3, 2]], &vec![60]);
    let b = rrf_fuse(&vec![vec![1, 2, 2, 3, 1]], &vec![60]);
    assert_eq!(a, b);
    assert_eq!(ids(&a), vec![1, 2, 3]);
}

#[test]
fn exact_identifier_match_ranks_first() {
    // Query `authenticate_user`: chunk 11 is `fn authenticate_user(...)`,
    // chunk 12 a comment mentioning it. Vector search puts the comment
    // first; the exact-match list holds only the function.
    let vector = vec![12, 11];
    let lexical = vec![12, 11];
    let exact = vec![11];
    let r = rrf_fuse(&vec![vector, lexical, exact], &vec![60, 40, EXACT_MATCH_K]);
    assert_eq!(ids(&r), vec![11, 12]);
    assert!(r[0].num * r[1].den > r[1].num * r[0].den);
}
