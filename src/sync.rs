//! Reconciliation of the file tree with the index. `plan_refresh` decides,
//! from the current disk listing and the file-meta store, which files must be
//! re-indexed, which tracked files are gone, and which chunk ids must be
//! deleted; `apply_refresh` records the outcome in the file-meta store once
//! the changed files have been re-chunked and inserted.
use vstd::prelude::*;
use crate::paths::{normalised, normalize_path};
use crate::text::str_eq;
use crate::file_meta::{
    deleted_entries, lemma_remove_at, needs_reindex, old_ids, recorded, same_stat, tracks, unique_paths, meta_of,
    Entries, FileMetaStore, FileStat, MetaView, StatView,
};

verus! {

/// A disk listing: each file's normalised path and current stat.
pub type Listing = Seq<(Seq<char>, StatView)>;

/// A disk listing as paths and stat views.
pub open spec fn listing_of(v: Seq<(String, FileStat)>) -> Listing {
    v.map_values(|d: (String, FileStat)| (d.0@, d.1@))
}

/// The files of the listing that need re-indexing, in listing order.
pub open spec fn changed_files(es: Entries, disk: Listing) -> Listing
    decreases disk.len(),
{
    if disk.len() == 0 {
        seq![]
    } else {
        let prev = changed_files(es, disk.drop_last());
        if needs_reindex(es, disk.last().0, disk.last().1) {
            prev.push(disk.last())
        } else {
            prev
        }
    }
}

/// The previously owned ids of the changed files, concatenated.
pub open spec fn changed_ids(es: Entries, ch: Listing) -> Seq<u32>
    decreases ch.len(),
{
    if ch.len() == 0 {
        seq![]
    } else {
        changed_ids(es, ch.drop_last()) + old_ids(es, ch.last().0)
    }
}

/// The ids owned by deleted files, concatenated.
pub open spec fn deleted_ids(del: Seq<(Seq<char>, Seq<u32>)>) -> Seq<u32>
    decreases del.len(),
{
    if del.len() == 0 {
        seq![]
    } else {
        deleted_ids(del.drop_last()) + del.last().1
    }
}

/// The paths of the deleted files.
pub open spec fn deleted_paths(es: Entries, exists: Seq<bool>) -> Seq<Seq<char>> {
    deleted_entries(es, exists).map_values(|e: (Seq<char>, Seq<u32>)| e.0)
}

/// All ids to delete: those of changed files, then those of deleted files.
pub open spec fn ids_to_delete(es: Entries, disk: Listing, exists: Seq<bool>) -> Seq<u32> {
    changed_ids(es, changed_files(es, disk)) + deleted_ids(deleted_entries(es, exists))
}

/// Path `p` appears in the listing.
pub open spec fn listed(ds: Listing, p: Seq<char>) -> bool {
    exists|k: int| 0 <= k < ds.len() && #[trigger] ds[k].0 == p
}

/// No path appears twice in the listing.
pub open spec fn unique_listing(ds: Listing) -> bool {
    forall|i: int, j: int| 0 <= i < ds.len() && 0 <= j < ds.len() && i != j ==> ds[i].0 != ds[j].0
}

/// What a refresh decided.
pub struct RefreshPlan {
    /// Files to re-index, with their current stat.
    pub changed: Vec<(String, FileStat)>,
    /// Chunk ids to delete from the vector and lexical indexes.
    pub ids_to_delete: Vec<u32>,
    /// Tracked files that no longer exist.
    pub deleted: Vec<String>,
}

impl RefreshPlan {
    /// The changed files as a listing.
    pub open spec fn changed_view(&self) -> Listing {
        listing_of(self.changed@)
    }

    /// The deleted paths.
    pub open spec fn deleted_view(&self) -> Seq<Seq<char>> {
        self.deleted@.map_values(|s: String| s@)
    }

    /// Nothing to do.
    pub fn is_empty(&self) -> (r: bool)
        ensures
            r == (self.changed@.len() == 0 && self.deleted@.len() == 0),
    {
        self.changed.len() == 0 && self.deleted.len() == 0
    }
}

fn clone_stat(s: &FileStat) -> (r: FileStat)
    ensures
        r@ == s@,
{
    FileStat { mtime: s.mtime, size: s.size, hash: s.hash.clone() }
}

/// Compares the disk listing against the store. `exists[i]` says whether the
/// i-th tracked path still exists on disk.
pub fn plan_refresh(store: &FileMetaStore, disk: &Vec<(String, FileStat)>, exists: &Vec<bool>) -> (r:
    RefreshPlan)
    requires
        unique_paths(store.entries()),
        exists@.len() == store.entries().len(),
    ensures
        r.changed_view() == changed_files(store.entries(), listing_of(disk@)),
        r.ids_to_delete@ == ids_to_delete(store.entries(), listing_of(disk@), exists@),
        r.deleted_view() == deleted_paths(store.entries(), exists@),
{
    let ghost es = store.entries();
    let ghost dv = listing_of(disk@);
    let mut changed: Vec<(String, FileStat)> = Vec::new();
    let mut ids: Vec<u32> = Vec::new();
    let mut i: usize = 0;
    while i < disk.len()
        invariant
            i <= disk@.len(),
            dv == listing_of(disk@),
            es == store.entries(),
            unique_paths(es),
            listing_of(changed@) == changed_files(es, dv.subrange(0, i as int)),
            ids@ == changed_ids(es, changed_files(es, dv.subrange(0, i as int))),
        decreases disk.len() - i,
    {
        let (needs, mut old) = store.check_file(disk[i].0.as_str(), &disk[i].1);
        let ghost prev_changed = changed@;
        let ghost prev_ids = ids@;
        assert(dv.subrange(0, i + 1).drop_last() =~= dv.subrange(0, i as int));
        assert(dv.subrange(0, i + 1).last() == dv[i as int]);
        if needs {
            changed.push((disk[i].0.clone(), clone_stat(&disk[i].1)));
            ids.append(&mut old);
            assert(listing_of(changed@) =~= listing_of(prev_changed).push(dv[i as int]));
            assert(changed_files(es, dv.subrange(0, i + 1)).drop_last() =~= changed_files(
                es,
                dv.subrange(0, i as int),
            ));
        }
        i = i + 1;
    }
    assert(dv.subrange(0, i as int) =~= dv);
    let del = store.find_deleted_files(exists);
    let ghost dv_del = deleted_entries(es, exists@);
    let ghost base = ids@;
    let mut deleted: Vec<String> = Vec::new();
    let mut j: usize = 0;
    while j < del.len()
        invariant
            j <= del@.len(),
            deleted@.len() == j,
            del@.map_values(|e: (String, Vec<u32>)| (e.0@, e.1@)) == dv_del,
            ids@ == base + deleted_ids(dv_del.subrange(0, j as int)),
            deleted@.map_values(|s: String| s@) == dv_del.subrange(0, j as int).map_values(
                |e: (Seq<char>, Seq<u32>)| e.0,
            ),
        decreases del.len() - j,
    {
        let ghost before = deleted@;
        let ghost before_ids = ids@;
        deleted.push(del[j].0.clone());
        let mut more = del[j].1.clone();
        ids.append(&mut more);
        assert(dv_del[j as int] == (del@[j as int].0@, del@[j as int].1@));
        assert(deleted@ == before.push(deleted@[j as int]));
        assert(deleted@[j as int]@ == dv_del[j as int].0);
        assert(before.map_values(|s: String| s@) =~= dv_del.subrange(0, j as int).map_values(
            |e: (Seq<char>, Seq<u32>)| e.0,
        ));
        assert(dv_del.subrange(0, j + 1).drop_last() =~= dv_del.subrange(0, j as int));
        assert(ids@ =~= base + deleted_ids(dv_del.subrange(0, j + 1)));
        let ghost lhs = deleted@.map_values(|s: String| s@);
        let ghost rhs = dv_del.subrange(0, j + 1).map_values(|e: (Seq<char>, Seq<u32>)| e.0);
        let ghost old_l = before.map_values(|s: String| s@);
        assert forall|k: int| 0 <= k < j + 1 implies lhs[k] == rhs[k] by {
            if k < j {
                assert(lhs[k] == old_l[k]);
            }
        }
        assert(lhs =~= rhs);
        j = j + 1;
    }
    assert(dv_del.subrange(0, j as int) =~= dv_del);
    RefreshPlan { changed, ids_to_delete: ids, deleted }
}

/// The file-meta entries `es2` are what recording a refresh into `es` gives:
/// deleted paths are no longer tracked, each changed file is recorded with
/// its current stat and new ids, and every other entry is kept as it was.
pub open spec fn refreshed(
    es: Entries,
    changed: Listing,
    deleted: Seq<Seq<char>>,
    new_ids: Seq<Seq<u32>>,
    es2: Entries,
) -> bool {
    &&& unique_paths(es2)
    &&& forall|p: Seq<char>|
        #[trigger] tracks(es2, p) <==> (tracks(es, p) && !deleted.contains(p)) || listed(changed, p)
    &&& unique_listing(changed) ==> forall|k: int|
        0 <= k < changed.len() ==> #[trigger] recorded(
            es2,
            changed[k].0,
            meta_of(changed[k].1, new_ids[k]),
        )
    &&& forall|p: Seq<char>, m: MetaView|
        #[trigger] recorded(es, p, m) && !deleted.contains(p) && !listed(changed, p) ==> recorded(
            es2,
            p,
            m,
        )
}

proof fn lemma_upsert(es: Entries, es2: Entries, p: Seq<char>, m: MetaView)
    requires
        unique_paths(es),
        (exists|i: int| 0 <= i < es.len() && es[i].0 == p && es2 == es.update(i, (p, m))) || (!tracks(
            es,
            p,
        ) && es2 == es.push((p, m))),
    ensures
        unique_paths(es2),
        forall|q: Seq<char>| tracks(es2, q) <==> tracks(es, q) || q == p,
        recorded(es2, p, m),
        forall|q: Seq<char>, m2: MetaView| recorded(es, q, m2) && q != p ==> recorded(es2, q, m2),
{
    if exists|i: int| 0 <= i < es.len() && es[i].0 == p && es2 == es.update(i, (p, m)) {
        let i = choose|i: int| 0 <= i < es.len() && es[i].0 == p && es2 == es.update(i, (p, m));
        assert(es2[i].0 == p);
        assert forall|q: Seq<char>| tracks(es2, q) <==> tracks(es, q) || q == p by {
            if tracks(es, q) {
                let k = choose|k: int| 0 <= k < es.len() && #[trigger] es[k].0 == q;
                assert(es2[k].0 == q);
            }
            if tracks(es2, q) {
                let k = choose|k: int| 0 <= k < es2.len() && #[trigger] es2[k].0 == q;
                if k != i {
                    assert(es[k].0 == q);
                }
            }
        }
        assert forall|q: Seq<char>, m2: MetaView| recorded(es, q, m2) && q != p implies recorded(
            es2,
            q,
            m2,
        ) by {
            let k = choose|k: int| 0 <= k < es.len() && #[trigger] es[k].0 == q && es[k].1 == m2;
            assert(es2[k].0 == q);
        }
    } else {
        let n = es.len() as int;
        assert(es2[n].0 == p);
        assert forall|q: Seq<char>| tracks(es2, q) <==> tracks(es, q) || q == p by {
            if tracks(es, q) {
                let k = choose|k: int| 0 <= k < es.len() && #[trigger] es[k].0 == q;
                assert(es2[k].0 == q);
            }
            if tracks(es2, q) {
                let k = choose|k: int| 0 <= k < es2.len() && #[trigger] es2[k].0 == q;
                if k != n {
                    assert(es[k].0 == q);
                }
            }
        }
        assert forall|q: Seq<char>, m2: MetaView| recorded(es, q, m2) && q != p implies recorded(
            es2,
            q,
            m2,
        ) by {
            let k = choose|k: int| 0 <= k < es.len() && #[trigger] es[k].0 == q && es[k].1 == m2;
            assert(es2[k].0 == q);
        }
    }
}

/// Records a finished refresh in the store: every deleted path is dropped,
/// then every changed file is recorded with its current stat and the ids its
/// new chunks received (`new_ids[k]` for the k-th changed file; an empty list
/// records a file that yielded no chunks).
pub fn apply_refresh(store: &mut FileMetaStore, plan: &RefreshPlan, new_ids: &Vec<Vec<u32>>)
    requires
        unique_paths(old(store).entries()),
        new_ids@.len() == plan.changed@.len(),
    ensures
        refreshed(
            old(store).entries(),
            plan.changed_view(),
            plan.deleted_view(),
            new_ids@.map_values(|v: Vec<u32>| v@),
            final(store).entries(),
        ),
        final(store).model_name == old(store).model_name,
        final(store).dimensions == old(store).dimensions,
{
    let ghost es = store.entries();
    let ghost del = plan.deleted_view();
    let ghost ch = plan.changed_view();
    let ghost ids = new_ids@.map_values(|v: Vec<u32>| v@);
    let mut j: usize = 0;
    while j < plan.deleted.len()
        invariant
            j <= plan.deleted@.len(),
            del == plan.deleted_view(),
            unique_paths(store.entries()),
            store.model_name == old(store).model_name,
            store.dimensions == old(store).dimensions,
            forall|p: Seq<char>|
                #[trigger] tracks(store.entries(), p) <==> tracks(es, p) && !del.subrange(
                    0,
                    j as int,
                ).contains(p),
            forall|p: Seq<char>, m: MetaView|
                #[trigger] recorded(es, p, m) && !del.subrange(0, j as int).contains(p) ==> recorded(
                    store.entries(),
                    p,
                    m,
                ),
        decreases plan.deleted.len() - j,
    {
        let ghost cur = store.entries();
        let ghost path = plan.deleted@[j as int]@;
        assert(del[j as int] == path);
        let removed = store.remove_file(plan.deleted[j].as_str());
        proof {
            if removed is Some {
                let i = choose|i: int|
                    0 <= i < cur.len() && cur[i] == (path, removed.unwrap()@)
                        && store.entries() == cur.remove(i);
                lemma_remove_at(cur, i);
            }
            assert forall|q: Seq<char>|
                del.subrange(0, j + 1).contains(q) <==> del.subrange(0, j as int).contains(q)
                    || q == path by {
                if del.subrange(0, j + 1).contains(q) {
                    let k = choose|k: int| 0 <= k < j + 1 && #[trigger] del.subrange(0, j + 1)[k] == q;
                    if k < j {
                        assert(del.subrange(0, j as int)[k] == q);
                    }
                }
                if del.subrange(0, j as int).contains(q) {
                    let k = choose|k: int| 0 <= k < j && #[trigger] del.subrange(0, j as int)[k] == q;
                    assert(del.subrange(0, j + 1)[k] == q);
                }
                if q == path {
                    assert(del.subrange(0, j + 1)[j as int] == q);
                }
            }
            assert forall|p: Seq<char>|
                #[trigger] tracks(store.entries(), p) <==> tracks(es, p) && !del.subrange(
                    0,
                    j + 1,
                ).contains(p) by {
                assert(tracks(cur, p) <==> tracks(es, p) && !del.subrange(0, j as int).contains(p));
                if removed is None {
                    assert(store.entries() == cur);
                }
            }
        }
        j = j + 1;
    }
    assert(del.subrange(0, j as int) =~= del);
    let ghost mid = store.entries();
    let mut k: usize = 0;
    while k < plan.changed.len()
        invariant
            k <= plan.changed@.len(),
            ch == plan.changed_view(),
            new_ids@.len() == plan.changed@.len(),
            ids == new_ids@.map_values(|v: Vec<u32>| v@),
            unique_paths(store.entries()),
            store.model_name == old(store).model_name,
            store.dimensions == old(store).dimensions,
            forall|p: Seq<char>| #[trigger] tracks(mid, p) <==> tracks(es, p) && !del.contains(p),
            forall|p: Seq<char>, m: MetaView|
                #[trigger] recorded(es, p, m) && !del.contains(p) ==> recorded(mid, p, m),
            forall|p: Seq<char>|
                #[trigger] tracks(store.entries(), p) <==> tracks(mid, p) || listed(
                    ch.subrange(0, k as int),
                    p,
                ),
            unique_listing(ch) ==> forall|l: int|
                0 <= l < k ==> #[trigger] recorded(store.entries(), ch[l].0, meta_of(ch[l].1, ids[l])),
            forall|p: Seq<char>, m: MetaView|
                #[trigger] recorded(mid, p, m) && !listed(ch.subrange(0, k as int), p) ==> recorded(
                    store.entries(),
                    p,
                    m,
                ),
        decreases plan.changed.len() - k,
    {
        let ghost cur = store.entries();
        let ghost path = plan.changed@[k as int].0@;
        let ghost meta = meta_of(plan.changed@[k as int].1@, new_ids@[k as int]@);
        assert(ch[k as int] == (path, plan.changed@[k as int].1@));
        assert(ids[k as int] == new_ids@[k as int]@);
        store.update_file(
            plan.changed[k].0.as_str(),
            &plan.changed[k].1,
            new_ids[k].clone(),
        );
        proof {
            lemma_upsert(cur, store.entries(), path, meta);
            assert forall|q: Seq<char>|
                listed(ch.subrange(0, k + 1), q) <==> listed(ch.subrange(0, k as int), q) || q
                    == path by {
                if listed(ch.subrange(0, k + 1), q) {
                    let l = choose|l: int| 0 <= l < k + 1 && #[trigger] ch.subrange(0, k + 1)[l].0 == q;
                    if l < k {
                        assert(ch.subrange(0, k as int)[l].0 == q);
                    }
                }
                if listed(ch.subrange(0, k as int), q) {
                    let l = choose|l: int| 0 <= l < k && #[trigger] ch.subrange(0, k as int)[l].0 == q;
                    assert(ch.subrange(0, k + 1)[l].0 == q);
                }
                if q == path {
                    assert(ch.subrange(0, k + 1)[k as int].0 == q);
                }
            }
            if unique_listing(ch) {
                assert forall|l: int| 0 <= l < k + 1 implies #[trigger] recorded(
                    store.entries(),
                    ch[l].0,
                    meta_of(ch[l].1, ids[l]),
                ) by {
                    if l < k {
                        assert(ch[l].0 != path);
                    }
                }
            }
        }
        k = k + 1;
    }
    proof {
        assert(ch.subrange(0, k as int) =~= ch);
        assert forall|p: Seq<char>, m: MetaView|
            #[trigger] recorded(es, p, m) && !del.contains(p) && !listed(ch, p) implies recorded(
            store.entries(),
            p,
            m,
        ) by {
            assert(recorded(mid, p, m));
        }
    }
}

proof fn lemma_changed_files(es: Entries, disk: Listing)
    ensures
        forall|x: (Seq<char>, StatView)|
            #[trigger] changed_files(es, disk).contains(x) ==> disk.contains(x) && needs_reindex(
                es,
                x.0,
                x.1,
            ),
        forall|j: int|
            0 <= j < disk.len() && needs_reindex(es, disk[j].0, disk[j].1) ==> changed_files(
                es,
                disk,
            ).contains(#[trigger] disk[j]),
        unique_listing(disk) ==> unique_listing(changed_files(es, disk)),
    decreases disk.len(),
{
    if disk.len() > 0 {
        let d = disk.drop_last();
        lemma_changed_files(es, d);
        let prev = changed_files(es, d);
        let cur = changed_files(es, disk);
        assert forall|x: (Seq<char>, StatView)| #[trigger] cur.contains(x) implies disk.contains(x)
            && needs_reindex(es, x.0, x.1) by {
            let k = choose|k: int| 0 <= k < cur.len() && cur[k] == x;
            if k < prev.len() {
                assert(prev[k] == x);
                assert(prev.contains(x));
                let m = choose|m: int| 0 <= m < d.len() && d[m] == x;
                assert(disk[m] == x);
            } else {
                assert(disk[disk.len() - 1] == x);
            }
        }
        assert forall|j: int|
            0 <= j < disk.len() && needs_reindex(es, disk[j].0, disk[j].1) implies cur.contains(
            #[trigger] disk[j],
        ) by {
            if j < d.len() {
                assert(d[j] == disk[j]);
                assert(prev.contains(d[j]));
                let k = choose|k: int| 0 <= k < prev.len() && prev[k] == d[j];
                assert(cur[k] == disk[j]);
            } else {
                assert(cur[cur.len() - 1] == disk[j]);
            }
        }
        if unique_listing(disk) {
            assert(unique_listing(d));
            assert forall|a: int, b: int|
                0 <= a < cur.len() && 0 <= b < cur.len() && a != b implies cur[a].0 != cur[b].0 by {
                if a < prev.len() && b < prev.len() {
                } else if a < prev.len() {
                    assert(prev.contains(prev[a]));
                    let m = choose|m: int| 0 <= m < d.len() && d[m] == prev[a];
                    assert(disk[m].0 != disk[disk.len() - 1].0);
                } else if b < prev.len() {
                    assert(prev.contains(prev[b]));
                    let m = choose|m: int| 0 <= m < d.len() && d[m] == prev[b];
                    assert(disk[m].0 != disk[disk.len() - 1].0);
                }
            }
        }
    }
}

proof fn lemma_deleted_entries(es: Entries, exists: Seq<bool>)
    requires
        exists.len() == es.len(),
    ensures
        forall|k: int|
            0 <= k < deleted_entries(es, exists).len() ==> exists|i: int|
                0 <= i < es.len() && es[i].0 == #[trigger] deleted_entries(es, exists)[k].0
                    && !exists[i],
        forall|i: int|
            0 <= i < es.len() && !exists[i] ==> exists|k: int|
                0 <= k < deleted_entries(es, exists).len() && #[trigger] deleted_entries(
                    es,
                    exists,
                )[k].0 == es[i].0,
    decreases es.len(),
{
    if es.len() > 0 {
        let e = es.drop_last();
        let x = exists.drop_last();
        lemma_deleted_entries(e, x);
        let prev = deleted_entries(e, x);
        let cur = deleted_entries(es, exists);
        assert forall|k: int| 0 <= k < cur.len() implies exists|i: int|
            0 <= i < es.len() && es[i].0 == #[trigger] cur[k].0 && !exists[i] by {
            if k < prev.len() {
                let i = choose|i: int| 0 <= i < e.len() && e[i].0 == #[trigger] prev[k].0 && !x[i];
                assert(es[i].0 == cur[k].0 && !exists[i]);
            } else {
                let i = es.len() - 1;
                assert(es[i].0 == cur[k].0 && !exists[i]);
            }
        }
        assert forall|i: int| 0 <= i < es.len() && !exists[i] implies exists|k: int|
            0 <= k < cur.len() && #[trigger] cur[k].0 == es[i].0 by {
            if i < e.len() {
                assert(e[i] == es[i] && !x[i]);
                let k = choose|k: int| 0 <= k < prev.len() && #[trigger] prev[k].0 == e[i].0;
                assert(cur[k].0 == es[i].0);
            } else {
                assert(cur[cur.len() - 1].0 == es[i].0);
            }
        }
    }
}

proof fn lemma_deleted_paths(es: Entries, exists: Seq<bool>, p: Seq<char>)
    requires
        exists.len() == es.len(),
    ensures
        deleted_paths(es, exists).contains(p) <==> exists|i: int|
            0 <= i < es.len() && #[trigger] es[i].0 == p && !exists[i],
{
    lemma_deleted_entries(es, exists);
    let del = deleted_entries(es, exists);
    let dp = deleted_paths(es, exists);
    if dp.contains(p) {
        let k = choose|k: int| 0 <= k < dp.len() && dp[k] == p;
        assert(del[k].0 == p);
    }
    if exists|i: int| 0 <= i < es.len() && #[trigger] es[i].0 == p && !exists[i] {
        let i = choose|i: int| 0 <= i < es.len() && #[trigger] es[i].0 == p && !exists[i];
        let k = choose|k: int| 0 <= k < del.len() && #[trigger] del[k].0 == es[i].0;
        assert(dp[k] == p);
    }
}

/// Branch-switch convergence: after one refresh in which a tracked file
/// counts as existing exactly when it is in the disk listing of indexable
/// files, the tracked paths are exactly the listed paths.
pub proof fn lemma_refresh_converges(
    es: Entries,
    disk: Listing,
    exists: Seq<bool>,
    new_ids: Seq<Seq<u32>>,
    es2: Entries,
)
    requires
        unique_paths(es),
        exists.len() == es.len(),
        forall|i: int| 0 <= i < es.len() ==> (exists[i] <==> listed(disk, #[trigger] es[i].0)),
        refreshed(es, changed_files(es, disk), deleted_paths(es, exists), new_ids, es2),
    ensures
        forall|p: Seq<char>| tracks(es2, p) <==> listed(disk, p),
{
    let ch = changed_files(es, disk);
    let dp = deleted_paths(es, exists);
    lemma_changed_files(es, disk);
    assert forall|p: Seq<char>| tracks(es2, p) <==> listed(disk, p) by {
        lemma_deleted_paths(es, exists, p);
        if listed(disk, p) {
            let k = choose|k: int| 0 <= k < disk.len() && #[trigger] disk[k].0 == p;
            if needs_reindex(es, p, disk[k].1) {
                assert(ch.contains(disk[k]));
                let l = choose|l: int| 0 <= l < ch.len() && ch[l] == disk[k];
                assert(ch[l].0 == p);
                assert(listed(ch, p));
            } else {
                assert(tracks(es, p));
                if dp.contains(p) {
                    let i = choose|i: int| 0 <= i < es.len() && #[trigger] es[i].0 == p && !exists[i];
                    assert(exists[i]);
                }
            }
            assert(tracks(es2, p));
        }
        if tracks(es2, p) {
            if listed(ch, p) {
                let l = choose|l: int| 0 <= l < ch.len() && #[trigger] ch[l].0 == p;
                assert(ch.contains(ch[l]));
                let k = choose|k: int| 0 <= k < disk.len() && disk[k] == ch[l];
                assert(disk[k].0 == p);
            } else {
                let i = choose|i: int| 0 <= i < es.len() && #[trigger] es[i].0 == p;
                if !exists[i] {
                    assert(dp.contains(p));
                }
            }
        }
    }
}

/// Every tracked path, marked as still existing.
pub open spec fn all_exist(es: Entries) -> Seq<bool> {
    Seq::new(es.len(), |i: int| true)
}

/// Idempotent refresh: once a refresh has been recorded, a second refresh
/// over the same disk listing, with every tracked file still present, finds
/// nothing to re-index, nothing deleted and no ids to delete.
pub proof fn lemma_refresh_idempotent(
    es: Entries,
    disk: Listing,
    exists: Seq<bool>,
    new_ids: Seq<Seq<u32>>,
    es2: Entries,
)
    requires
        unique_paths(es),
        unique_listing(disk),
        exists.len() == es.len(),
        forall|i: int| 0 <= i < es.len() && listed(disk, #[trigger] es[i].0) ==> exists[i],
        refreshed(es, changed_files(es, disk), deleted_paths(es, exists), new_ids, es2),
    ensures
        changed_files(es2, disk).len() == 0,
        deleted_entries(es2, all_exist(es2)).len() == 0,
        ids_to_delete(es2, disk, all_exist(es2)).len() == 0,
{
    let ch = changed_files(es, disk);
    let dp = deleted_paths(es, exists);
    lemma_changed_files(es, disk);
    assert forall|j: int| 0 <= j < disk.len() implies !needs_reindex(
        es2,
        #[trigger] disk[j].0,
        disk[j].1,
    ) by {
        let d = disk[j];
        if needs_reindex(es, d.0, d.1) {
            assert(ch.contains(d));
            let k = choose|k: int| 0 <= k < ch.len() && ch[k] == d;
            assert(recorded(es2, ch[k].0, meta_of(ch[k].1, new_ids[k])));
            let i = choose|i: int|
                0 <= i < es2.len() && #[trigger] es2[i].0 == d.0 && es2[i].1 == meta_of(
                    d.1,
                    new_ids[k],
                );
            assert(tracks(es2, d.0));
            assert forall|i2: int| 0 <= i2 < es2.len() && #[trigger] es2[i2].0 == d.0 implies same_stat(
                es2[i2].1,
                d.1,
            ) by {
                assert(i2 == i);
            }
        } else {
            let i = choose|i: int| 0 <= i < es.len() && #[trigger] es[i].0 == d.0;
            assert(same_stat(es[i].1, d.1));
            assert(listed(disk, es[i].0));
            assert(exists[i]);
            lemma_deleted_paths(es, exists, d.0);
            if dp.contains(d.0) {
                let i2 = choose|i2: int| 0 <= i2 < es.len() && #[trigger] es[i2].0 == d.0 && !exists[i2];
                assert(i2 == i);
            }
            if listed(ch, d.0) {
                let l = choose|l: int| 0 <= l < ch.len() && #[trigger] ch[l].0 == d.0;
                assert(ch.contains(ch[l]));
                let m = choose|m: int| 0 <= m < disk.len() && disk[m] == ch[l];
                assert(m == j);
            }
            assert(recorded(es, d.0, es[i].1));
            assert(recorded(es2, d.0, es[i].1));
            let i3 = choose|i3: int| 0 <= i3 < es2.len() && #[trigger] es2[i3].0 == d.0 && es2[i3].1
                == es[i].1;
            assert(tracks(es2, d.0));
            assert forall|i2: int| 0 <= i2 < es2.len() && #[trigger] es2[i2].0 == d.0 implies same_stat(
                es2[i2].1,
                d.1,
            ) by {
                assert(i2 == i3);
            }
        }
    }
    lemma_changed_files(es2, disk);
    let ch2 = changed_files(es2, disk);
    if ch2.len() > 0 {
        assert(ch2.contains(ch2[0]));
        let m = choose|m: int| 0 <= m < disk.len() && disk[m] == ch2[0];
        assert(!needs_reindex(es2, disk[m].0, disk[m].1));
    }
    lemma_deleted_entries(es2, all_exist(es2));
    let del2 = deleted_entries(es2, all_exist(es2));
    if del2.len() > 0 {
        let i = choose|i: int|
            0 <= i < es2.len() && es2[i].0 == #[trigger] del2[0].0 && !all_exist(es2)[i];
    }
    assert(ch2 =~= seq![]);
    assert(del2 =~= seq![]);
    assert(changed_ids(es2, ch2) =~= seq![]);
    assert(deleted_ids(del2) =~= seq![]);
}

/// The ids, in insertion order, of the inserted chunks whose normalised
/// path equals the normalised `p`.
pub open spec fn ids_for(paths: Seq<Seq<char>>, ids: Seq<u32>, p: Seq<char>) -> Seq<u32>
    decreases paths.len(),
{
    if paths.len() == 0 || ids.len() == 0 {
        seq![]
    } else {
        let prev = ids_for(paths.drop_last(), ids.drop_last(), p);
        if normalised(paths.last()) == normalised(p) {
            prev.push(ids.last())
        } else {
            prev
        }
    }
}

/// Groups the ids given to newly inserted chunks by file: for each changed
/// file, the ids of the chunks whose (normalised) path is that file's, in
/// insertion order. A file that yielded no chunks gets an empty list, which
/// still records it as processed.
pub fn group_ids_by_file(
    chunk_paths: &Vec<String>,
    ids: &Vec<u32>,
    changed: &Vec<(String, FileStat)>,
) -> (r: Vec<Vec<u32>>)
    requires
        chunk_paths@.len() == ids@.len(),
    ensures
        r@.len() == changed@.len(),
        forall|k: int|
            0 <= k < changed@.len() ==> (#[trigger] r@[k])@ == ids_for(
                chunk_paths@.map_values(|s: String| s@),
                ids@,
                changed@[k].0@,
            ),
{
    let ghost pv = chunk_paths@.map_values(|s: String| s@);
    let mut out: Vec<Vec<u32>> = Vec::new();
    let mut k: usize = 0;
    while k < changed.len()
        invariant
            k <= changed@.len(),
            chunk_paths@.len() == ids@.len(),
            pv == chunk_paths@.map_values(|s: String| s@),
            out@.len() == k,
            forall|q: int| 0 <= q < k ==> (#[trigger] out@[q])@ == ids_for(pv, ids@, changed@[q].0@),
        decreases changed.len() - k,
    {
        let target = normalize_path(changed[k].0.as_str());
        let mut mine: Vec<u32> = Vec::new();
        let mut j: usize = 0;
        while j < chunk_paths.len()
            invariant
                j <= chunk_paths@.len() == ids@.len(),
                k < changed@.len(),
                pv == chunk_paths@.map_values(|s: String| s@),
                target@ == normalised(changed@[k as int].0@),
                mine@ == ids_for(pv.subrange(0, j as int), ids@.subrange(0, j as int), changed@[k as int].0@),
            decreases chunk_paths.len() - j,
        {
            assert(pv.subrange(0, j + 1).drop_last() =~= pv.subrange(0, j as int));
            assert(ids@.subrange(0, j + 1).drop_last() =~= ids@.subrange(0, j as int));
            let here = normalize_path(chunk_paths[j].as_str());
            if str_eq(here.as_str(), target.as_str()) {
                mine.push(ids[j]);
            }
            j = j + 1;
        }
        assert(pv.subrange(0, j as int) =~= pv);
        assert(ids@.subrange(0, j as int) =~= ids@);
        out.push(mine);
        k = k + 1;
    }
    out
}

proof fn lemma_ids_for_sound(paths: Seq<Seq<char>>, ids: Seq<u32>, p: Seq<char>, x: u32)
    requires
        paths.len() == ids.len(),
        ids_for(paths, ids, p).contains(x),
    ensures
        exists|j: int| 0 <= j < ids.len() && ids[j] == x && normalised(#[trigger] paths[j]) == normalised(p),
    decreases paths.len(),
{
    let prev = ids_for(paths.drop_last(), ids.drop_last(), p);
    let cur = ids_for(paths, ids, p);
    let a = choose|a: int| 0 <= a < cur.len() && cur[a] == x;
    if a < prev.len() {
        assert(prev[a] == x);
        assert(prev.contains(x));
        lemma_ids_for_sound(paths.drop_last(), ids.drop_last(), p, x);
        let j = choose|j: int|
            0 <= j < ids.drop_last().len() && ids.drop_last()[j] == x && normalised(
                #[trigger] paths.drop_last()[j],
            ) == normalised(p);
        assert(paths[j] == paths.drop_last()[j]);
    } else {
        let j = ids.len() - 1;
        assert(ids[j] == x && normalised(paths[j]) == normalised(p));
    }
}

/// File-meta soundness for a refresh: when each changed file is recorded
/// with the ids that `group_ids_by_file` gave it, every id the store then
/// holds for that file belongs to an inserted chunk whose normalised path is
/// the file's normalised path.
pub proof fn lemma_recorded_ids_sound(
    es: Entries,
    changed: Listing,
    deleted: Seq<Seq<char>>,
    chunk_paths: Seq<Seq<char>>,
    ids: Seq<u32>,
    new_ids: Seq<Seq<u32>>,
    es2: Entries,
    k: int,
    m: MetaView,
    x: u32,
)
    requires
        chunk_paths.len() == ids.len(),
        new_ids.len() == changed.len(),
        forall|q: int|
            0 <= q < changed.len() ==> #[trigger] new_ids[q] == ids_for(chunk_paths, ids, changed[q].0),
        unique_listing(changed),
        refreshed(es, changed, deleted, new_ids, es2),
        0 <= k < changed.len(),
        recorded(es2, changed[k].0, m),
        m.chunk_ids.contains(x),
    ensures
        exists|j: int|
            0 <= j < ids.len() && ids[j] == x && normalised(#[trigger] chunk_paths[j]) == normalised(
                changed[k].0,
            ),
{
    assert(recorded(es2, changed[k].0, meta_of(changed[k].1, new_ids[k])));
    let a = choose|a: int| 0 <= a < es2.len() && #[trigger] es2[a].0 == changed[k].0 && es2[a].1 == m;
    let b = choose|b: int|
        0 <= b < es2.len() && #[trigger] es2[b].0 == changed[k].0 && es2[b].1 == meta_of(
            changed[k].1,
            new_ids[k],
        );
    assert(a == b);
    assert(m.chunk_ids == new_ids[k]);
    lemma_ids_for_sound(chunk_paths, ids, changed[k].0, x);
}

} // verus!
