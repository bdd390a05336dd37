//! Reciprocal-rank fusion. Each source list ranks chunk ids (rank 1 first);
//! a chunk's fused score is the sum, over the lists it appears in, of
//! `1 / (k + rank)`, with `k` the list's fusion constant. Scores are kept as
//! exact fractions; results are ordered by score, highest first, and ties go
//! to the lower chunk id.
use vstd::prelude::*;

verus! {

/// Bound on list lengths and fusion constants that keeps the fractions of up
/// to three lists exact in 128-bit arithmetic.
pub const FUSION_BOUND: u64 = 0x1_0000;

/// The fusion constant for the exact-match list: small, so exact matches
/// weigh heavily.
pub const EXACT_MATCH_K: u32 = 5;

/// 1-based rank of the first occurrence of `c` in `l`.
pub open spec fn rank_of(l: Seq<u32>, c: u32) -> Option<int>
    decreases l.len(),
{
    if l.len() == 0 {
        None
    } else {
        match rank_of(l.drop_last(), c) {
            Some(r) => Some(r),
            None => if l.last() == c {
                Some(l.len() as int)
            } else {
                None
            },
        }
    }
}

/// The fused score of `c` as a fraction (numerator, denominator).
pub open spec fn score_of(lists: Seq<Seq<u32>>, ks: Seq<u32>, c: u32) -> (int, int)
    decreases lists.len(),
{
    if lists.len() == 0 || ks.len() == 0 {
        (0, 1)
    } else {
        let (a, b) = score_of(lists.drop_last(), ks.drop_last(), c);
        match rank_of(lists.last(), c) {
            Some(r) => {
                let t = ks.last() + r;
                (a * t + b, b * t)
            },
            None => (a, b),
        }
    }
}

/// Chunk `c` appears in some list.
pub open spec fn appears(lists: Seq<Seq<u32>>, c: u32) -> bool {
    exists|i: int, j: int| 0 <= i < lists.len() && 0 <= j < lists[i].len() && lists[i][j] == c
}

/// A fused result: a chunk id and its exact score `num / den`.
#[derive(Debug, Clone, Copy, PartialEq, Eq, Structural)]
pub struct Fused {
    pub chunk_id: u32,
    pub num: u128,
    pub den: u128,
}

/// `x` ranks before `y`: a higher score, or an equal score and a lower id.
pub open spec fn before(x: Fused, y: Fused) -> bool {
    x.num * y.den > y.num * x.den || (x.num * y.den == y.num * x.den && x.chunk_id < y.chunk_id)
}

/// `r` is the fusion of the lists: strictly ordered, each entry an appearing
/// chunk with its exact score, and every appearing chunk present.
pub open spec fn fusion_of(lists: Seq<Seq<u32>>, ks: Seq<u32>, r: Seq<Fused>) -> bool {
    &&& forall|i: int, j: int| 0 <= i < j < r.len() ==> before(r[i], r[j])
    &&& forall|i: int|
        0 <= i < r.len() ==> appears(lists, (#[trigger] r[i]).chunk_id) && r[i].den > 0 && (
        r[i].num as int,
        r[i].den as int,
    ) == score_of(lists, ks, r[i].chunk_id)
    &&& forall|c: u32| appears(lists, c) ==> exists|i: int| 0 <= i < r.len() && #[trigger] r[i].chunk_id == c
}

proof fn lemma_rank_first(l: Seq<u32>, c: u32, j: int)
    requires
        0 <= j < l.len(),
        l[j] == c,
        forall|k: int| 0 <= k < j ==> l[k] != c,
    ensures
        rank_of(l, c) == Some(j + 1),
    decreases l.len(),
{
    if j < l.len() - 1 {
        lemma_rank_first(l.drop_last(), c, j);
    } else {
        lemma_rank_absent(l.drop_last(), c);
    }
}

proof fn lemma_rank_absent(l: Seq<u32>, c: u32)
    requires
        forall|k: int| 0 <= k < l.len() ==> l[k] != c,
    ensures
        rank_of(l, c) is None,
    decreases l.len(),
{
    if l.len() > 0 {
        lemma_rank_absent(l.drop_last(), c);
    }
}

/// Ranking before is transitive.
pub proof fn lemma_before_trans(x: Fused, y: Fused, z: Fused)
    requires
        x.den > 0,
        y.den > 0,
        z.den > 0,
        before(x, y),
        before(y, z),
    ensures
        before(x, z),
{
    let (xn, xd, yn, yd, zn, zd) = (
        x.num as int,
        x.den as int,
        y.num as int,
        y.den as int,
        z.num as int,
        z.den as int,
    );
    assert(xn * yd >= yn * xd);
    assert(yn * zd >= zn * yd);
    assert(xn * zd >= zn * xd) by (nonlinear_arith)
        requires
            xn * yd >= yn * xd,
            yn * zd >= zn * yd,
            xd > 0,
            yd > 0,
            zd > 0,
            xn >= 0,
            yn >= 0,
            zn >= 0,
    ;
    if xn * yd > yn * xd || yn * zd > zn * yd {
        assert(xn * zd > zn * xd) by (nonlinear_arith)
            requires
                xn * yd >= yn * xd,
                yn * zd >= zn * yd,
                xn * yd > yn * xd || yn * zd > zn * yd,
                xd > 0,
                yd > 0,
                zd > 0,
                xn >= 0,
                yn >= 0,
                zn >= 0,
        ;
    } else {
        assert(xn * yd == yn * xd);
        assert(yn * zd == zn * yd);
        assert(xn * zd == zn * xd) by (nonlinear_arith)
            requires
                xn * yd == yn * xd,
                yn * zd == zn * yd,
                yd > 0,
        ;
    }
}

fn rank_in(l: &Vec<u32>, c: u32) -> (r: Option<usize>)
    ensures
        r matches Some(k) ==> rank_of(l@, c) == Some(k as int) && 1 <= k <= l@.len(),
        r is None ==> rank_of(l@, c) is None,
{
    let mut j: usize = 0;
    while j < l.len()
        invariant
            j <= l@.len(),
            forall|k: int| 0 <= k < j ==> l@[k] != c,
        decreases l.len() - j,
    {
        if l[j] == c {
            proof {
                lemma_rank_first(l@, c, j as int);
            }
            return Some(j + 1);
        }
        j = j + 1;
    }
    proof {
        lemma_rank_absent(l@, c);
    }
    None
}

/// The inputs stay within the bounds that keep the arithmetic exact.
pub open spec fn bounded(lists: Seq<Vec<u32>>, ks: Seq<u32>) -> bool {
    &&& lists.len() == ks.len()
    &&& lists.len() <= 3
    &&& forall|i: int| 0 <= i < lists.len() ==> (#[trigger] lists[i])@.len() < FUSION_BOUND
    &&& forall|i: int| 0 <= i < ks.len() ==> (#[trigger] ks[i]) < FUSION_BOUND
}

/// The lists as sequences.
pub open spec fn views(lists: Seq<Vec<u32>>) -> Seq<Seq<u32>> {
    lists.map_values(|l: Vec<u32>| l@)
}

fn score(lists: &Vec<Vec<u32>>, ks: &Vec<u32>, c: u32) -> (r: (u128, u128))
    requires
        bounded(lists@, ks@),
    ensures
        (r.0 as int, r.1 as int) == score_of(views(lists@), ks@, c),
        r.1 > 0,
        r.1 <= 0x8_0000_0000_0000u128,
        r.0 <= 3 * r.1,
{
    let ghost lv = views(lists@);
    let mut a: u128 = 0;
    let mut b: u128 = 1;
    let mut i: usize = 0;
    while i < lists.len()
        invariant
            i <= lists@.len(),
            bounded(lists@, ks@),
            lv == views(lists@),
            (a as int, b as int) == score_of(lv.subrange(0, i as int), ks@.subrange(0, i as int), c),
            b > 0,
            b as int <= pow17(i as nat),
            a <= i * b,
        decreases lists.len() - i,
    {
        assert(lv.subrange(0, i + 1).drop_last() =~= lv.subrange(0, i as int));
        assert(ks@.subrange(0, i + 1).drop_last() =~= ks@.subrange(0, i as int));
        assert(lv.subrange(0, i + 1).last() == lists@[i as int]@);
        match rank_in(&lists[i], c) {
            Some(rk) => {
                let t = ks[i] as u128 + rk as u128;
                assert(t <= 0x2_0000) by {
                    assert(ks@[i as int] < FUSION_BOUND);
                    assert(lists@[i as int]@.len() < FUSION_BOUND);
                }
                assert(t >= 1);
                proof {
                    assert(b * t <= pow17(i as nat) * 0x2_0000) by (nonlinear_arith)
                        requires
                            b <= pow17(i as nat),
                            t <= 0x2_0000,
                            b >= 0,
                            t >= 0,
                    ;
                    lemma_pow17_bound(i as nat);
                    assert(a * t <= i * b * t) by (nonlinear_arith)
                        requires
                            a <= i * b,
                            t >= 0,
                    ;
                    assert(i * b * t + b <= (i + 1) * (b * t)) by (nonlinear_arith)
                        requires
                            t >= 1,
                            b >= 0,
                    ;
                    assert(b * t <= 0x8_0000_0000_0000);
                    assert((i + 1) * (b * t) <= 3 * 0x8_0000_0000_0000) by (nonlinear_arith)
                        requires
                            i + 1 <= 3,
                            b * t <= 0x8_0000_0000_0000,
                            b * t >= 0,
                    ;
                    assert(a * t + b <= (i + 1) * (b * t));
                    assert(b * t > 0) by (nonlinear_arith)
                        requires
                            b > 0,
                            t >= 1,
                    ;
                }
                a = a * t + b;
                b = b * t;
            },
            None => {
                proof {
                    lemma_pow17_bound(i as nat);
                    assert(a <= (i + 1) * b) by (nonlinear_arith)
                        requires
                            a <= i * b,
                            b >= 0,
                    ;
                }
            },
        }
        i = i + 1;
    }
    assert(lv.subrange(0, i as int) =~= lv);
    assert(ks@.subrange(0, i as int) =~= ks@);
    proof {
        lemma_pow17_bound(i as nat);
        assert(a <= 3 * b) by (nonlinear_arith)
            requires
                a <= i * b,
                i <= 3,
                b >= 0,
        ;
    }
    (a, b)
}

/// 2^(17 n).
pub open spec fn pow17(n: nat) -> int
    decreases n,
{
    if n == 0 {
        1
    } else {
        pow17((n - 1) as nat) * 0x2_0000
    }
}

proof fn lemma_pow17_bound(n: nat)
    requires
        n <= 3,
    ensures
        pow17(n) <= 0x8_0000_0000_0000,
        n < 3 ==> pow17(n) * 0x2_0000 <= 0x8_0000_0000_0000,
        pow17(n + 1) == pow17(n) * 0x2_0000,
{
    reveal_with_fuel(pow17, 4);
}

pub(crate) fn is_before(x: &Fused, y: &Fused) -> (r: bool)
    requires
        x.den <= 0x100_0000_0000_0000u128,
        y.den <= 0x100_0000_0000_0000u128,
        x.num <= 6 * x.den,
        y.num <= 6 * y.den,
    ensures
        r == before(*x, *y),
{
    assert(x.num * y.den <= 6 * 0x100_0000_0000_0000u128 * 0x100_0000_0000_0000u128) by (
    nonlinear_arith)
        requires
            x.num <= 6 * 0x100_0000_0000_0000u128,
            y.den <= 0x100_0000_0000_0000u128,
    ;
    assert(y.num * x.den <= 6 * 0x100_0000_0000_0000u128 * 0x100_0000_0000_0000u128) by (
    nonlinear_arith)
        requires
            y.num <= 6 * 0x100_0000_0000_0000u128,
            x.den <= 0x100_0000_0000_0000u128,
    ;
    let p = x.num * y.den;
    let q = y.num * x.den;
    p > q || (p == q && x.chunk_id < y.chunk_id)
}

/// Chunk `c` has an entry in `out`.
pub open spec fn covered(out: Seq<Fused>, c: u32) -> bool {
    exists|a: int| 0 <= a < out.len() && #[trigger] out[a].chunk_id == c
}

/// Entries are within the bounds of exact comparison.
pub open spec fn small(x: Fused) -> bool {
    x.den > 0 && x.den <= 0x8_0000_0000_0000u128 && x.num <= 3 * x.den
}

fn find_id(r: &Vec<Fused>, c: u32) -> (found: bool)
    ensures
        found == exists|i: int| 0 <= i < r@.len() && #[trigger] r@[i].chunk_id == c,
{
    let mut i: usize = 0;
    while i < r.len()
        invariant
            i <= r@.len(),
            forall|k: int| 0 <= k < i ==> r@[k].chunk_id != c,
        decreases r.len() - i,
    {
        if r[i].chunk_id == c {
            return true;
        }
        i = i + 1;
    }
    false
}

/// Fuses ranked lists of chunk ids, `ks[i]` being list i's fusion constant.
/// Every chunk that appears in some list is returned once with its exact
/// score, highest score first and, among equal scores, lowest id first.
pub fn rrf_fuse(lists: &Vec<Vec<u32>>, ks: &Vec<u32>) -> (r: Vec<Fused>)
    requires
        bounded(lists@, ks@),
    ensures
        fusion_of(views(lists@), ks@, r@),
{
    let ghost lv = views(lists@);
    let mut out: Vec<Fused> = Vec::new();
    let mut i: usize = 0;
    while i < lists.len()
        invariant
            i <= lists@.len(),
            bounded(lists@, ks@),
            lv == views(lists@),
            forall|a: int, b: int| 0 <= a < b < out@.len() ==> before(out@[a], out@[b]),
            forall|a: int|
                0 <= a < out@.len() ==> appears(lv, (#[trigger] out@[a]).chunk_id) && small(out@[a])
                    && (out@[a].num as int, out@[a].den as int) == score_of(lv, ks@, out@[a].chunk_id),
            forall|i2: int, j2: int|
                #![trigger lv[i2][j2]]
                0 <= i2 < i && 0 <= j2 < lv[i2].len() ==> covered(out@, lv[i2][j2]),
        decreases lists.len() - i,
    {
        let l = &lists[i];
        assert(l@ == lv[i as int]);
        let mut j: usize = 0;
        while j < l.len()
            invariant
                i < lists@.len(),
                j <= l@.len(),
                l@ == lv[i as int],
                bounded(lists@, ks@),
                lv == views(lists@),
                forall|a: int, b: int| 0 <= a < b < out@.len() ==> before(out@[a], out@[b]),
                forall|a: int|
                    0 <= a < out@.len() ==> appears(lv, (#[trigger] out@[a]).chunk_id) && small(
                        out@[a],
                    ) && (out@[a].num as int, out@[a].den as int) == score_of(
                        lv,
                        ks@,
                        out@[a].chunk_id,
                    ),
                forall|i2: int, j2: int|
                    #![trigger lv[i2][j2]]
                    0 <= i2 < i && 0 <= j2 < lv[i2].len() ==> covered(out@, lv[i2][j2]),
                forall|j2: int|
                    #![trigger lv[i as int][j2]]
                    0 <= j2 < j ==> covered(out@, lv[i as int][j2]),
            decreases l.len() - j,
        {
            let c = l[j];
            assert(appears(lv, c)) by {
                assert(lv[i as int][j as int] == c);
            }
            if !find_id(&out, c) {
                let (num, den) = score(lists, ks, c);
                let cand = Fused { chunk_id: c, num, den };
                let mut p: usize = 0;
                while p < out.len() && !is_before(&cand, &out[p])
                    invariant
                        p <= out@.len(),
                        small(cand),
                        forall|a: int| 0 <= a < out@.len() ==> small(#[trigger] out@[a]),
                        forall|q: int| 0 <= q < p ==> !before(cand, #[trigger] out@[q]),
                    decreases out.len() - p,
                {
                    p = p + 1;
                }
                let ghost old_out = out@;
                proof {
                    assert forall|q: int| 0 <= q < p implies before(#[trigger] old_out[q], cand) by {
                        assert(old_out[q].chunk_id != c);
                        assert(!before(cand, old_out[q]));
                    }
                    assert forall|q: int| p <= q < old_out.len() implies before(
                        cand,
                        #[trigger] old_out[q],
                    ) by {
                        if q > p {
                            lemma_before_trans(cand, old_out[p as int], old_out[q]);
                        }
                    }
                }
                out.insert(p, cand);
                proof {
                    assert(out@ == old_out.insert(p as int, cand));
                    assert forall|a: int, b: int| 0 <= a < b < out@.len() implies before(
                        out@[a],
                        out@[b],
                    ) by {
                        if b < p {
                            assert(out@[a] == old_out[a] && out@[b] == old_out[b]);
                        } else if b == p {
                            assert(out@[a] == old_out[a]);
                        } else if a < p {
                            assert(out@[a] == old_out[a] && out@[b] == old_out[b - 1]);
                            lemma_before_trans(old_out[a], cand, old_out[b - 1]);
                        } else if a == p {
                            assert(out@[b] == old_out[b - 1]);
                        } else {
                            assert(out@[a] == old_out[a - 1] && out@[b] == old_out[b - 1]);
                        }
                    }
                    assert forall|a: int|
                        0 <= a < out@.len() implies appears(lv, (#[trigger] out@[a]).chunk_id) && small(
                        out@[a],
                    ) && (out@[a].num as int, out@[a].den as int) == score_of(
                        lv,
                        ks@,
                        out@[a].chunk_id,
                    ) by {
                        if a < p {
                            assert(out@[a] == old_out[a]);
                        } else if a > p {
                            assert(out@[a] == old_out[a - 1]);
                        }
                    }
                    assert forall|i2: int, j2: int|
                        #![trigger lv[i2][j2]]
                        0 <= i2 < i && 0 <= j2 < lv[i2].len() implies covered(out@, lv[i2][j2]) by {
                        let a = choose|a: int|
                            0 <= a < old_out.len() && #[trigger] old_out[a].chunk_id == lv[i2][j2];
                        if a < p {
                            assert(out@[a] == old_out[a]);
                        } else {
                            assert(out@[a + 1] == old_out[a]);
                        }
                    }
                    assert forall|j2: int| #![trigger lv[i as int][j2]] 0 <= j2 < j + 1 implies covered(out@, lv[i as int][j2]) by {
                        if j2 == j {
                            assert(out@[p as int].chunk_id == c);
                        } else {
                            let a = choose|a: int|
                                0 <= a < old_out.len() && #[trigger] old_out[a].chunk_id == lv[i as int][j2];
                            if a < p {
                                assert(out@[a] == old_out[a]);
                            } else {
                                assert(out@[a + 1] == old_out[a]);
                            }
                        }
                    }
                }
            }
            j = j + 1;
        }
        assert forall|i2: int, j2: int|
            #![trigger lv[i2][j2]]
            0 <= i2 < i + 1 && 0 <= j2 < lv[i2].len() implies covered(out@, lv[i2][j2]) by {
            if i2 == i {
                assert(j2 < l@.len());
            }
        }
        i = i + 1;
    }
    proof {
        assert forall|c: u32| appears(lv, c) implies exists|a: int|
            0 <= a < out@.len() && #[trigger] out@[a].chunk_id == c by {
            let (i2, j2) = choose|i2: int, j2: int|
                0 <= i2 < lv.len() && 0 <= j2 < lv[i2].len() && lv[i2][j2] == c;
            assert(covered(out@, lv[i2][j2]));
        }
    }
    out
}

proof fn lemma_sorted_unique(r1: Seq<Fused>, r2: Seq<Fused>)
    requires
        forall|i: int, j: int| 0 <= i < j < r1.len() ==> before(r1[i], r1[j]),
        forall|i: int, j: int| 0 <= i < j < r2.len() ==> before(r2[i], r2[j]),
        forall|x: Fused| r1.contains(x) <==> r2.contains(x),
    ensures
        r1 == r2,
    decreases r1.len(),
{
    if r1.len() == 0 {
        if r2.len() > 0 {
            assert(r2.contains(r2[0]));
        }
        assert(r2 =~= r1);
    } else {
        assert(r1.contains(r1[0]));
        assert(r2.len() > 0);
        assert(r2.contains(r2[0]));
        let j = choose|j: int| 0 <= j < r2.len() && r2[j] == r1[0];
        let m = choose|m: int| 0 <= m < r1.len() && r1[m] == r2[0];
        if j > 0 {
            assert(before(r2[0], r2[j]));
            if m > 0 {
                assert(before(r1[0], r1[m]));
            } else {
                assert(r1[0] == r2[0]);
            }
        }
        assert(r1[0] == r2[0]);
        let t1 = r1.drop_first();
        let t2 = r2.drop_first();
        assert forall|x: Fused| t1.contains(x) <==> t2.contains(x) by {
            if t1.contains(x) {
                let a = choose|a: int| 0 <= a < t1.len() && t1[a] == x;
                assert(r1[a + 1] == x);
                assert(before(r1[0], r1[a + 1]));
                assert(r2.contains(x));
                let b = choose|b: int| 0 <= b < r2.len() && r2[b] == x;
                if b == 0 {
                    assert(r1[0] == x);
                }
                assert(t2[b - 1] == x);
            }
            if t2.contains(x) {
                let a = choose|a: int| 0 <= a < t2.len() && t2[a] == x;
                assert(r2[a + 1] == x);
                assert(before(r2[0], r2[a + 1]));
                assert(r1.contains(x));
                let b = choose|b: int| 0 <= b < r1.len() && r1[b] == x;
                if b == 0 {
                    assert(r2[0] == x);
                }
                assert(t1[b - 1] == x);
            }
        }
        lemma_sorted_unique(t1, t2);
        assert(r1 =~= seq![r1[0]] + t1);
        assert(r2 =~= seq![r2[0]] + t2);
    }
}

/// Two families of lists give every chunk the same rank in each list.
pub open spec fn same_ranks(l1: Seq<Seq<u32>>, l2: Seq<Seq<u32>>) -> bool {
    l1.len() == l2.len() && forall|i: int, c: u32| 0 <= i < l1.len() ==> #[trigger] rank_of(l1[i], c)
        == rank_of(l2[i], c)
}

proof fn lemma_same_ranks_score(l1: Seq<Seq<u32>>, l2: Seq<Seq<u32>>, ks: Seq<u32>, c: u32)
    requires
        same_ranks(l1, l2),
    ensures
        score_of(l1, ks, c) == score_of(l2, ks, c),
    decreases l1.len(),
{
    if l1.len() > 0 && ks.len() > 0 {
        assert(same_ranks(l1.drop_last(), l2.drop_last())) by {
            assert forall|i: int, c2: u32| 0 <= i < l1.drop_last().len() implies #[trigger] rank_of(
                l1.drop_last()[i],
                c2,
            ) == rank_of(l2.drop_last()[i], c2) by {
                assert(rank_of(l1[i], c2) == rank_of(l2[i], c2));
            }
        }
        lemma_same_ranks_score(l1.drop_last(), l2.drop_last(), ks.drop_last(), c);
        assert(rank_of(l1[l1.len() - 1], c) == rank_of(l2[l2.len() - 1], c));
    }
}

proof fn lemma_rank_some_appears(l: Seq<u32>, c: u32)
    ensures
        rank_of(l, c) is Some <==> l.contains(c),
    decreases l.len(),
{
    if l.len() > 0 {
        lemma_rank_some_appears(l.drop_last(), c);
        if l.drop_last().contains(c) {
            let k = choose|k: int| 0 <= k < l.drop_last().len() && l.drop_last()[k] == c;
            assert(l[k] == c);
        }
        if l.contains(c) && !l.drop_last().contains(c) {
            let k = choose|k: int| 0 <= k < l.len() && l[k] == c;
            if k < l.len() - 1 {
                assert(l.drop_last()[k] == c);
            }
        }
    }
}

/// Fusion depends on the source lists only through the ranks they give:
/// lists that rank every chunk the same (for instance, reorderings of
/// repeated entries after their first occurrence) fuse to the same result.
pub proof fn lemma_fusion_rank_stable(
    l1: Seq<Seq<u32>>,
    l2: Seq<Seq<u32>>,
    ks: Seq<u32>,
    r1: Seq<Fused>,
    r2: Seq<Fused>,
)
    requires
        same_ranks(l1, l2),
        fusion_of(l1, ks, r1),
        fusion_of(l2, ks, r2),
    ensures
        r1 == r2,
{
    assert forall|c: u32| appears(l1, c) <==> appears(l2, c) by {
        if appears(l1, c) {
            let (i, j) = choose|i: int, j: int|
                0 <= i < l1.len() && 0 <= j < l1[i].len() && l1[i][j] == c;
            assert(l1[i].contains(c));
            lemma_rank_some_appears(l1[i], c);
            lemma_rank_some_appears(l2[i], c);
            assert(rank_of(l1[i], c) == rank_of(l2[i], c));
            let k = choose|k: int| 0 <= k < l2[i].len() && l2[i][k] == c;
        }
        if appears(l2, c) {
            let (i, j) = choose|i: int, j: int|
                0 <= i < l2.len() && 0 <= j < l2[i].len() && l2[i][j] == c;
            assert(l2[i].contains(c));
            lemma_rank_some_appears(l1[i], c);
            lemma_rank_some_appears(l2[i], c);
            assert(rank_of(l1[i], c) == rank_of(l2[i], c));
            let k = choose|k: int| 0 <= k < l1[i].len() && l1[i][k] == c;
        }
    }
    assert forall|x: Fused| r1.contains(x) <==> r2.contains(x) by {
        if r1.contains(x) {
            let a = choose|a: int| 0 <= a < r1.len() && r1[a] == x;
            assert(appears(l1, r1[a].chunk_id));
            assert(appears(l2, x.chunk_id));
            let b = choose|b: int| 0 <= b < r2.len() && #[trigger] r2[b].chunk_id == x.chunk_id;
            lemma_same_ranks_score(l1, l2, ks, x.chunk_id);
            assert(r2[b] == x);
        }
        if r2.contains(x) {
            let a = choose|a: int| 0 <= a < r2.len() && r2[a] == x;
            assert(appears(l2, r2[a].chunk_id));
            assert(appears(l1, x.chunk_id));
            let b = choose|b: int| 0 <= b < r1.len() && #[trigger] r1[b].chunk_id == x.chunk_id;
            lemma_same_ranks_score(l1, l2, ks, x.chunk_id);
            assert(r1[b] == x);
        }
    }
    lemma_sorted_unique(r1, r2);
}

} // verus!
