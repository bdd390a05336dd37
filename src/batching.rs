//! Cache-first batching for embedding: split a batch into the items found
//! in a cache and those that must be computed, then put the computed ones
//! back in their places in the batch. The items are generic, so the same
//! logic serves chunk embeddings and query embeddings.
use vstd::prelude::*;

verus! {

/// The positions whose lookup missed, in order.
pub open spec fn misses(hits: Seq<bool>) -> Seq<int>
    decreases hits.len(),
{
    if hits.len() == 0 {
        seq![]
    } else {
        let prev = misses(hits.drop_last());
        if hits.last() {
            prev
        } else {
            prev.push(hits.len() - 1)
        }
    }
}

/// How many of the first `n` lookups missed.
pub open spec fn misses_before(hits: Seq<bool>, n: int) -> nat
    decreases n,
{
    if n <= 0 {
        0
    } else {
        misses_before(hits, n - 1) + if hits[n - 1] {
            0nat
        } else {
            1nat
        }
    }
}

/// The merged value at position `i`: the cached value, or the computed
/// value of the `misses_before(i)`-th miss.
pub open spec fn merged_at<T>(cached: Seq<Option<T>>, computed: Seq<T>, i: int) -> T {
    match cached[i] {
        Some(v) => v,
        None => computed[misses_before(cached.map_values(|o: Option<T>| o is Some), i) as int],
    }
}

/// Which lookups hit.
pub open spec fn hit_flags<T>(cached: Seq<Option<T>>) -> Seq<bool> {
    cached.map_values(|o: Option<T>| o is Some)
}

/// The positions of the cache misses, in order: these items go to the
/// embedder, in this order.
pub fn miss_positions<T>(cached: &Vec<Option<T>>) -> (r: Vec<usize>)
    ensures
        r@.len() == misses_before(hit_flags(cached@), cached@.len() as int),
        forall|k: int|
            0 <= k < r@.len() ==> (#[trigger] r@[k]) < cached@.len() && cached@[r@[k] as int] is None
                && misses_before(hit_flags(cached@), r@[k] as int) == k,
        forall|a: int, b: int| 0 <= a < b < r@.len() ==> r@[a] < r@[b],
{
    let ghost flags = hit_flags(cached@);
    let mut out: Vec<usize> = Vec::new();
    let mut i: usize = 0;
    while i < cached.len()
        invariant
            i <= cached@.len(),
            flags == hit_flags(cached@),
            out@.len() == misses_before(flags, i as int),
            forall|k: int|
                0 <= k < out@.len() ==> (#[trigger] out@[k]) < i && cached@[out@[k] as int] is None
                    && misses_before(flags, out@[k] as int) == k,
            forall|a: int, b: int| 0 <= a < b < out@.len() ==> out@[a] < out@[b],
        decreases cached.len() - i,
    {
        if cached[i].is_none() {
            out.push(i);
        }
        i = i + 1;
    }
    out
}

/// Puts the batch back together: cached values where the lookup hit, and
/// the computed values, in order, where it missed. `None` when the number of
/// computed values differs from the number of misses.
pub fn merge_in_order<T>(cached: Vec<Option<T>>, computed: Vec<T>) -> (r: Option<Vec<T>>)
    ensures
        computed@.len() != misses_before(hit_flags(cached@), cached@.len() as int) ==> r is None,
        computed@.len() == misses_before(hit_flags(cached@), cached@.len() as int) ==> (r matches Some(
            out,
        ) && out@.len() == cached@.len() && forall|i: int|
            0 <= i < cached@.len() ==> #[trigger] out@[i] == merged_at(cached@, computed@, i)),
{
    let ghost orig = cached@;
    let ghost origc = computed@;
    let ghost flags = hit_flags(cached@);
    let n = cached.len();
    let mut count: usize = 0;
    let mut i: usize = 0;
    while i < n
        invariant
            i <= n == cached@.len(),
            cached@ == orig,
            flags == hit_flags(orig),
            count == misses_before(flags, i as int),
            count <= i,
        decreases n - i,
    {
        if cached[i].is_none() {
            count = count + 1;
        }
        i = i + 1;
    }
    if count != computed.len() {
        return None;
    }
    let mut cached = cached;
    let mut computed = computed;
    let mut rev: Vec<T> = Vec::new();
    let mut j: usize = n;
    while j > 0
        invariant
            j <= n == orig.len(),
            flags == hit_flags(orig),
            origc.len() == misses_before(flags, n as int),
            cached@ == orig.subrange(0, j as int),
            computed@ == origc.subrange(0, misses_before(flags, j as int) as int),
            rev@.len() == n - j,
            forall|m: int| 0 <= m < n - j ==> #[trigger] rev@[m] == merged_at(orig, origc, n - 1 - m),
        decreases j,
    {
        proof {
            lemma_misses_before_mono(flags, j as int, n as int);
        }
        let o = cached.pop().unwrap();
        assert(o == orig[j - 1]);
        match o {
            Some(v) => {
                rev.push(v);
            },
            None => {
                assert(!flags[j - 1]);
                let v = computed.pop().unwrap();
                rev.push(v);
            },
        }
        proof {
            assert(cached@ =~= orig.subrange(0, j - 1));
            assert(computed@ =~= origc.subrange(0, misses_before(flags, j - 1) as int));
        }
        j = j - 1;
    }
    let mut out: Vec<T> = Vec::new();
    let mut k: usize = 0;
    while k < n
        invariant
            k <= n == orig.len(),
            rev@.len() == n - k,
            out@.len() == k,
            forall|m: int| 0 <= m < n - k ==> #[trigger] rev@[m] == merged_at(orig, origc, n - 1 - m),
            forall|m: int| 0 <= m < k ==> #[trigger] out@[m] == merged_at(orig, origc, m),
        decreases n - k,
    {
        let v = rev.pop().unwrap();
        out.push(v);
        k = k + 1;
    }
    Some(out)
}

proof fn lemma_misses_before_mono(flags: Seq<bool>, a: int, b: int)
    requires
        0 <= a <= b,
    ensures
        misses_before(flags, a) <= misses_before(flags, b),
    decreases b - a,
{
    if a < b {
        lemma_misses_before_mono(flags, a, b - 1);
    }
}

} // verus!

verus! {

/// The present values, in order.
pub open spec fn present_values<T>(items: Seq<Option<T>>) -> Seq<T>
    decreases items.len(),
{
    if items.len() == 0 {
        seq![]
    } else {
        let prev = present_values(items.drop_last());
        match items.last() {
            Some(v) => prev.push(v),
            None => prev,
        }
    }
}

/// The first `limit` present values, in order (for instance, the lexical
/// hits whose chunk the store still holds).
pub fn take_present<T>(items: Vec<Option<T>>, limit: usize) -> (r: Vec<T>)
    ensures
        r@ == present_values(items@).take(
            if limit < present_values(items@).len() {
                limit as int
            } else {
                present_values(items@).len() as int
            },
        ),
{
    let ghost orig = items@;
    let mut items = items;
    let mut rev: Vec<Option<T>> = Vec::new();
    let n = items.len();
    let mut j: usize = n;
    while j > 0
        invariant
            j <= n == orig.len(),
            items@ == orig.subrange(0, j as int),
            rev@.len() == n - j,
            forall|m: int| 0 <= m < n - j ==> #[trigger] rev@[m] == orig[n - 1 - m],
        decreases j,
    {
        let o = items.pop().unwrap();
        rev.push(o);
        assert(items@ =~= orig.subrange(0, j - 1));
        j = j - 1;
    }
    let mut out: Vec<T> = Vec::new();
    let mut k: usize = 0;
    while k < n && out.len() < limit
        invariant
            k <= n == orig.len(),
            rev@.len() == n - k,
            forall|m: int| 0 <= m < n - k ==> #[trigger] rev@[m] == orig[n - 1 - m],
            out@ == present_values(orig.subrange(0, k as int)),
            out@.len() <= limit,
        decreases n - k,
    {
        let o = rev.pop().unwrap();
        assert(o == orig[k as int]);
        assert(orig.subrange(0, k + 1).drop_last() =~= orig.subrange(0, k as int));
        match o {
            Some(v) => {
                out.push(v);
            },
            None => {},
        }
        k = k + 1;
    }
    proof {
        lemma_present_prefix(orig, k as int);
        let all = present_values(orig);
        if out@.len() < limit {
            assert(k == n);
            assert(orig.subrange(0, k as int) =~= orig);
            assert(all.take(all.len() as int) =~= all);
        } else {
            assert(out@.len() == limit);
            assert(all.take(limit as int) =~= out@);
        }
    }
    out
}

proof fn lemma_present_prefix<T>(items: Seq<Option<T>>, k: int)
    requires
        0 <= k <= items.len(),
    ensures
        present_values(items.subrange(0, k)).is_prefix_of(present_values(items)),
    decreases items.len() - k,
{
    if k < items.len() {
        lemma_present_prefix(items, k + 1);
        assert(items.subrange(0, k + 1).drop_last() =~= items.subrange(0, k));
    } else {
        assert(items.subrange(0, k) =~= items);
    }
}

} // verus!
