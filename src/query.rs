//! The last steps of the query planner: boosting fused results whose file is
//! in the repository's primary language or whose kind matches the query's
//! structural intent, keeping those that pass the path filter, re-sorting,
//! and truncating to the requested number.
use vstd::prelude::*;
use crate::paths::{matches_path_filter, passes_filter};
use crate::rrf::{before, is_before, lemma_before_trans, small, Fused};

verus! {

/// The kind of a chunk.
#[derive(Debug, Clone, Copy, PartialEq, Eq, Structural)]
pub enum ChunkKind {
    Function,
    Method,
    Class,
    Struct,
    Enum,
    Interface,
    Other,
}

/// What the chunk store says of a fused chunk.
#[derive(Debug, Clone)]
pub struct Resolved {
    pub path: String,
    pub kind: ChunkKind,
    /// The file's language is the repository's primary language.
    pub same_language: bool,
}

/// A selected result: its boosted score and its position in the fused input.
#[derive(Debug, Clone, Copy, PartialEq, Eq, Structural)]
pub struct Ranked {
    pub score: Fused,
    pub index: usize,
}

/// The language boost, 6/5.
pub open spec fn language_factor(same_language: bool) -> (int, int) {
    if same_language {
        (6, 5)
    } else {
        (1, 1)
    }
}

/// The structural-intent boost, 3/2, for a chunk of the intended kind.
pub open spec fn kind_factor(kind: ChunkKind, intent: Option<ChunkKind>) -> (int, int) {
    if intent == Some(kind) {
        (3, 2)
    } else {
        (1, 1)
    }
}

/// The fused score multiplied by both boosts.
pub open spec fn boosted(f: Fused, same_language: bool, kind: ChunkKind, intent: Option<ChunkKind>) -> Fused {
    let (a1, b1) = language_factor(same_language);
    let (a2, b2) = kind_factor(kind, intent);
    Fused { chunk_id: f.chunk_id, num: (f.num * a1 * a2) as u128, den: (f.den * b1 * b2) as u128 }
}

/// Fused result `k` resolved to a chunk and passes the filter.
pub open spec fn eligible(resolved: Seq<Option<Resolved>>, filter: Option<String>, k: int) -> bool {
    resolved[k] is Some && match filter {
        Some(f) => passes_filter(resolved[k].unwrap().path@, f@),
        None => true,
    }
}

/// The selection entry for fused result `k`.
pub open spec fn entry(
    fused: Seq<Fused>,
    resolved: Seq<Option<Resolved>>,
    intent: Option<ChunkKind>,
    k: int,
) -> Ranked {
    Ranked {
        score: boosted(
            fused[k],
            resolved[k].unwrap().same_language,
            resolved[k].unwrap().kind,
            intent,
        ),
        index: k as usize,
    }
}

/// How many of the first `n` fused results are eligible.
pub open spec fn count_eligible(resolved: Seq<Option<Resolved>>, filter: Option<String>, n: int) -> nat
    decreases n,
{
    if n <= 0 {
        0
    } else {
        count_eligible(resolved, filter, n - 1) + if eligible(resolved, filter, n - 1) {
            1nat
        } else {
            0nat
        }
    }
}

fn factor(same_language: bool, kind: ChunkKind, intent: Option<ChunkKind>) -> (r: (u128, u128))
    ensures
        r.0 as int == language_factor(same_language).0 * kind_factor(kind, intent).0,
        r.1 as int == language_factor(same_language).1 * kind_factor(kind, intent).1,
        1 <= r.1 <= 10,
        1 <= r.0 <= 18,
        5 * r.0 <= 9 * r.1,
{
    let (a1, b1): (u128, u128) = if same_language {
        (6, 5)
    } else {
        (1, 1)
    };
    let same_kind = match intent {
        Some(k) => k == kind,
        None => false,
    };
    let (a2, b2): (u128, u128) = if same_kind {
        (3, 2)
    } else {
        (1, 1)
    };
    (a1 * a2, b1 * b2)
}

/// Boosts, filters, re-sorts and truncates the fused results. `resolved[k]`
/// is what the chunk store holds for `fused[k]` (`None` when it holds
/// nothing); `intent` is the query's structural intent; `filter` the
/// caller's path filter. The result holds the `limit` best eligible entries
/// (all of them if fewer), best first, ties to the lower chunk id.
pub fn select_results(
    fused: &Vec<Fused>,
    resolved: &Vec<Option<Resolved>>,
    intent: Option<ChunkKind>,
    filter: &Option<String>,
    limit: usize,
) -> (r: Vec<Ranked>)
    requires
        fused@.len() == resolved@.len(),
        forall|k: int| 0 <= k < fused@.len() ==> small(#[trigger] fused@[k]),
        forall|a: int, b: int|
            0 <= a < b < fused@.len() ==> fused@[a].chunk_id != fused@[b].chunk_id,
    ensures
        r@.len() == (if limit < count_eligible(resolved@, *filter, fused@.len() as int) {
            limit as nat
        } else {
            count_eligible(resolved@, *filter, fused@.len() as int)
        }),
        forall|i: int, j: int| 0 <= i < j < r@.len() ==> before(r@[i].score, r@[j].score),
        forall|i: int|
            0 <= i < r@.len() ==> 0 <= (#[trigger] r@[i]).index < fused@.len() && eligible(
                resolved@,
                *filter,
                r@[i].index as int,
            ) && r@[i] == entry(fused@, resolved@, intent, r@[i].index as int),
        forall|k: int|
            0 <= k < fused@.len() && eligible(resolved@, *filter, k) ==> (exists|i: int|
                0 <= i < r@.len() && (#[trigger] r@[i]).index == k) || (forall|i: int|
                0 <= i < r@.len() ==> before(
                    (#[trigger] r@[i]).score,
                    entry(fused@, resolved@, intent, k).score,
                )),
{
    let mut all: Vec<Ranked> = Vec::new();
    let mut k: usize = 0;
    while k < fused.len()
        invariant
            k <= fused@.len(),
            fused@.len() == resolved@.len(),
            forall|q: int| 0 <= q < fused@.len() ==> small(#[trigger] fused@[q]),
            forall|a: int, b: int|
                0 <= a < b < fused@.len() ==> fused@[a].chunk_id != fused@[b].chunk_id,
            all@.len() == count_eligible(resolved@, *filter, k as int),
            forall|i: int, j: int| 0 <= i < j < all@.len() ==> before(all@[i].score, all@[j].score),
            forall|i: int|
                0 <= i < all@.len() ==> (#[trigger] all@[i]).index < k && eligible(
                    resolved@,
                    *filter,
                    all@[i].index as int,
                ) && all@[i] == entry(fused@, resolved@, intent, all@[i].index as int)
                    && all@[i].score.den > 0 && all@[i].score.den <= 0x100_0000_0000_0000u128
                    && all@[i].score.num <= 6 * all@[i].score.den,
            forall|q: int|
                0 <= q < k && eligible(resolved@, *filter, q) ==> exists|i: int|
                    0 <= i < all@.len() && (#[trigger] all@[i]).index == q,
        decreases fused.len() - k,
    {
        let keep = match &resolved[k] {
            Some(res) => match filter {
                Some(f) => matches_path_filter(res.path.as_str(), f.as_str()),
                None => true,
            },
            None => false,
        };
        if keep {
            let res = resolved[k].as_ref().unwrap();
            let f = fused[k];
            let (a, b) = factor(res.same_language, res.kind, intent);
            proof {
                assert(small(fused@[k as int]));
                assert(f.num * a <= 3 * f.den * 18) by (nonlinear_arith)
                    requires
                        f.num <= 3 * f.den,
                        a <= 18,
                ;
                assert(f.den * b <= 0x8_0000_0000_0000 * 10) by (nonlinear_arith)
                    requires
                        f.den <= 0x8_0000_0000_0000,
                        b <= 10,
                ;
                assert(f.num * a <= 6 * (f.den * b)) by (nonlinear_arith)
                    requires
                        f.num <= 3 * f.den,
                        5 * a <= 9 * b,
                        f.den >= 0,
                ;
                assert(f.den * b > 0) by (nonlinear_arith)
                    requires
                        f.den > 0,
                        b >= 1,
                ;
            }
            let cand = Ranked { score: Fused { chunk_id: f.chunk_id, num: f.num * a, den: f.den * b }, index: k };
            proof {
                let lf = language_factor(res.same_language);
                let kf = kind_factor(res.kind, intent);
                assert((f.num * a) as int == f.num * lf.0 * kf.0) by (nonlinear_arith)
                    requires
                        a as int == lf.0 * kf.0,
                ;
                assert((f.den * b) as int == f.den * lf.1 * kf.1) by (nonlinear_arith)
                    requires
                        b as int == lf.1 * kf.1,
                ;
                assert(fused@[k as int] == f);
            }
            assert(cand == entry(fused@, resolved@, intent, k as int));
            let mut p: usize = 0;
            while p < all.len() && !is_before(&cand.score, &all[p].score)
                invariant
                    p <= all@.len(),
                    cand.score.den > 0 && cand.score.den <= 0x100_0000_0000_0000u128 && cand.score.num
                        <= 6 * cand.score.den,
                    forall|i: int|
                        0 <= i < all@.len() ==> (#[trigger] all@[i]).score.den > 0
                            && all@[i].score.den <= 0x100_0000_0000_0000u128 && all@[i].score.num <= 6
                            * all@[i].score.den,
                    forall|q: int| 0 <= q < p ==> !before(cand.score, (#[trigger] all@[q]).score),
                decreases all.len() - p,
            {
                p = p + 1;
            }
            let ghost old_all = all@;
            proof {
                assert forall|q: int| 0 <= q < p implies before((#[trigger] old_all[q]).score, cand.score) by {
                    assert(old_all[q].index < k);
                    assert(old_all[q].score.chunk_id == fused@[old_all[q].index as int].chunk_id);
                    assert(fused@[old_all[q].index as int].chunk_id != fused@[k as int].chunk_id);
                }
                assert forall|q: int| p <= q < old_all.len() implies before(
                    cand.score,
                    (#[trigger] old_all[q]).score,
                ) by {
                    if q > p {
                        lemma_before_trans(cand.score, old_all[p as int].score, old_all[q].score);
                    }
                }
            }
            all.insert(p, cand);
            proof {
                assert forall|i: int, j: int| 0 <= i < j < all@.len() implies before(
                    all@[i].score,
                    all@[j].score,
                ) by {
                    if j < p {
                        assert(all@[i] == old_all[i] && all@[j] == old_all[j]);
                    } else if j == p {
                        assert(all@[i] == old_all[i]);
                    } else if i < p {
                        assert(all@[i] == old_all[i] && all@[j] == old_all[j - 1]);
                        lemma_before_trans(old_all[i].score, cand.score, old_all[j - 1].score);
                    } else if i == p {
                        assert(all@[j] == old_all[j - 1]);
                    } else {
                        assert(all@[i] == old_all[i - 1] && all@[j] == old_all[j - 1]);
                    }
                }
                assert forall|i: int| 0 <= i < all@.len() implies (#[trigger] all@[i]).index < k + 1
                    && eligible(resolved@, *filter, all@[i].index as int) && all@[i] == entry(
                    fused@,
                    resolved@,
                    intent,
                    all@[i].index as int,
                ) && all@[i].score.den > 0 && all@[i].score.den <= 0x100_0000_0000_0000u128
                    && all@[i].score.num <= 6 * all@[i].score.den by {
                    if i < p {
                        assert(all@[i] == old_all[i]);
                    } else if i > p {
                        assert(all@[i] == old_all[i - 1]);
                    }
                }
                assert forall|q: int| 0 <= q < k + 1 && eligible(resolved@, *filter, q) implies exists|
                    i: int,
                | 0 <= i < all@.len() && (#[trigger] all@[i]).index == q by {
                    if q == k {
                        assert(all@[p as int].index == q);
                    } else {
                        let i = choose|i: int| 0 <= i < old_all.len() && (#[trigger] old_all[i]).index == q;
                        if i < p {
                            assert(all@[i] == old_all[i]);
                        } else {
                            assert(all@[i + 1] == old_all[i]);
                        }
                    }
                }
            }
        }
        k = k + 1;
    }
    let n = if limit < all.len() {
        limit
    } else {
        all.len()
    };
    let mut out: Vec<Ranked> = Vec::new();
    let mut i: usize = 0;
    while i < n
        invariant
            i <= n <= all@.len(),
            out@ == all@.subrange(0, i as int),
        decreases n - i,
    {
        out.push(all[i]);
        assert(out@ =~= all@.subrange(0, i + 1));
        i = i + 1;
    }
    proof {
        assert forall|q: int|
            0 <= q < fused@.len() && eligible(resolved@, *filter, q) implies (exists|i: int|
            0 <= i < out@.len() && (#[trigger] out@[i]).index == q) || (forall|i: int|
            0 <= i < out@.len() ==> before(
                (#[trigger] out@[i]).score,
                entry(fused@, resolved@, intent, q).score,
            )) by {
            let a = choose|a: int| 0 <= a < all@.len() && (#[trigger] all@[a]).index == q;
            if a < n {
                assert(out@[a] == all@[a]);
            } else {
                assert forall|i: int| 0 <= i < out@.len() implies before(
                    (#[trigger] out@[i]).score,
                    entry(fused@, resolved@, intent, q).score,
                ) by {
                    assert(out@[i] == all@[i]);
                    assert(all@[a] == entry(fused@, resolved@, intent, q));
                }
            }
        }
    }
    out
}

} // verus!
