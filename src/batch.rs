//! The synchroniser's event buffers. Events are folded into two
//! de-duplicated sets, files to index and files to remove; the buffers are
//! flushed once they are non-empty and no event has arrived for the flush
//! timeout. A flush removes first: each removed path loses its file-meta
//! entry, and so does every listed_now file under it (a removed directory may be
//! reported alone).
use vstd::prelude::*;
use crate::events::{EventView, FileEvent};
use crate::file_meta::{recorded, tracks, unique_paths, FileMetaStore, MetaView};
use crate::paths::{dir_prefix, is_under_dir};
use crate::text::str_eq;

verus! {

/// Quiet time after the last event before buffered events are processed.
pub const FLUSH_TIMEOUT_MS: u64 = 2000;

/// The paths held by a buffer.
pub open spec fn set_of(v: Seq<String>) -> Set<Seq<char>> {
    Set::new(|p: Seq<char>| exists|i: int| 0 <= i < v.len() && #[trigger] v[i]@ == p)
}

/// No path is held twice.
pub open spec fn distinct(v: Seq<String>) -> bool {
    forall|i: int, j: int| 0 <= i < v.len() && 0 <= j < v.len() && i != j ==> v[i]@ != v[j]@
}

/// The buffers after one event: a modification moves the path to the
/// to-index set, a deletion to the to-remove set, and a rename is a deletion
/// of the old path followed by a modification of the new one.
pub open spec fn fold_one(s: (Set<Seq<char>>, Set<Seq<char>>), e: EventView) -> (
    Set<Seq<char>>,
    Set<Seq<char>>,
) {
    match e {
        EventView::Modified(p) => (s.0.insert(p), s.1.remove(p)),
        EventView::Deleted(p) => (s.0.remove(p), s.1.insert(p)),
        EventView::Renamed(a, b) => (s.0.remove(a).insert(b), s.1.insert(a).remove(b)),
    }
}

/// The buffers after a sequence of events, folded in order.
pub open spec fn fold_all(s: (Set<Seq<char>>, Set<Seq<char>>), es: Seq<EventView>) -> (
    Set<Seq<char>>,
    Set<Seq<char>>,
)
    decreases es.len(),
{
    if es.len() == 0 {
        s
    } else {
        fold_one(fold_all(s, es.drop_last()), es.last())
    }
}

fn add_path(v: &mut Vec<String>, p: &String)
    requires
        distinct(old(v)@),
    ensures
        distinct(final(v)@),
        set_of(final(v)@) == set_of(old(v)@).insert(p@),
{
    let mut i: usize = 0;
    while i < v.len()
        invariant
            i <= v@.len(),
            v@ == old(v)@,
            distinct(v@),
            forall|k: int| 0 <= k < i ==> v@[k]@ != p@,
        decreases v.len() - i,
    {
        if str_eq(v[i].as_str(), p.as_str()) {
            assert(set_of(v@) =~= set_of(old(v)@).insert(p@)) by {
                assert(v@[i as int]@ == p@);
            }
            return;
        }
        i = i + 1;
    }
    let ghost before = v@;
    v.push(p.clone());
    assert(set_of(v@) =~= set_of(before).insert(p@)) by {
        assert forall|q: Seq<char>| set_of(before).insert(p@).contains(q) implies set_of(v@).contains(
            q,
        ) by {
            if q == p@ {
                assert(v@[before.len() as int]@ == q);
            } else {
                let k = choose|k: int| 0 <= k < before.len() && #[trigger] before[k]@ == q;
                assert(v@[k]@ == q);
            }
        }
        assert forall|q: Seq<char>| set_of(v@).contains(q) implies set_of(before).insert(
            p@,
        ).contains(q) by {
            let k = choose|k: int| 0 <= k < v@.len() && #[trigger] v@[k]@ == q;
            if k < before.len() {
                assert(before[k]@ == q);
            }
        }
    }
}

fn drop_path(v: &mut Vec<String>, p: &String)
    requires
        distinct(old(v)@),
    ensures
        distinct(final(v)@),
        set_of(final(v)@) == set_of(old(v)@).remove(p@),
{
    let mut i: usize = 0;
    while i < v.len()
        invariant
            i <= v@.len(),
            v@ == old(v)@,
            distinct(v@),
            forall|k: int| 0 <= k < i ==> v@[k]@ != p@,
        decreases v.len() - i,
    {
        if str_eq(v[i].as_str(), p.as_str()) {
            let ghost before = v@;
            v.remove(i);
            assert(set_of(v@) =~= set_of(before).remove(p@)) by {
                assert forall|q: Seq<char>| set_of(before).remove(p@).contains(q) implies set_of(
                    v@,
                ).contains(q) by {
                    let k = choose|k: int| 0 <= k < before.len() && #[trigger] before[k]@ == q;
                    if k < i {
                        assert(v@[k]@ == q);
                    } else {
                        assert(k != i);
                        assert(v@[k - 1]@ == q);
                    }
                }
                assert forall|q: Seq<char>| set_of(v@).contains(q) implies set_of(before).remove(
                    p@,
                ).contains(q) by {
                    let k = choose|k: int| 0 <= k < v@.len() && #[trigger] v@[k]@ == q;
                    if k < i {
                        assert(before[k]@ == q);
                        assert(k != i);
                    } else {
                        assert(before[k + 1]@ == q);
                        assert(k + 1 != i);
                    }
                }
            }
            return;
        }
        i = i + 1;
    }
    assert(set_of(v@) =~= set_of(old(v)@).remove(p@));
}

/// The to-index and to-remove buffers of the event loop.
#[derive(Debug, Clone)]
pub struct EventBuffer {
    pub to_index: Vec<String>,
    pub to_remove: Vec<String>,
    /// When the last event arrived, in milliseconds.
    pub last_event_ms: u64,
}

impl EventBuffer {
    /// Neither buffer holds a path twice.
    pub open spec fn wf(&self) -> bool {
        distinct(self.to_index@) && distinct(self.to_remove@)
    }

    /// The two buffers as sets of paths.
    pub open spec fn sets(&self) -> (Set<Seq<char>>, Set<Seq<char>>) {
        (set_of(self.to_index@), set_of(self.to_remove@))
    }

    /// Empty buffers, with the clock started at `now_ms`.
    pub fn new(now_ms: u64) -> (r: EventBuffer)
        ensures
            r.wf(),
            r.to_index@.len() == 0,
            r.to_remove@.len() == 0,
            r.last_event_ms == now_ms,
    {
        EventBuffer { to_index: Vec::new(), to_remove: Vec::new(), last_event_ms: now_ms }
    }

    /// Folds one event into the buffers.
    pub fn fold_event(&mut self, e: &FileEvent)
        requires
            old(self).wf(),
        ensures
            final(self).wf(),
            final(self).sets() == fold_one(old(self).sets(), e@),
            final(self).last_event_ms == old(self).last_event_ms,
    {
        match e {
            FileEvent::Modified(p) => {
                drop_path(&mut self.to_remove, p);
                add_path(&mut self.to_index, p);
            },
            FileEvent::Deleted(p) => {
                drop_path(&mut self.to_index, p);
                add_path(&mut self.to_remove, p);
            },
            FileEvent::Renamed(a, b) => {
                drop_path(&mut self.to_index, a);
                add_path(&mut self.to_remove, a);
                drop_path(&mut self.to_remove, b);
                add_path(&mut self.to_index, b);
            },
        }
    }

    /// Folds a drained batch of events, in order, and restarts the quiet
    /// period if the batch was not empty.
    pub fn fold_events(&mut self, events: &Vec<FileEvent>, now_ms: u64)
        requires
            old(self).wf(),
        ensures
            final(self).wf(),
            final(self).sets() == fold_all(
                old(self).sets(),
                events@.map_values(|e: FileEvent| e@),
            ),
            events@.len() > 0 ==> final(self).last_event_ms == now_ms,
            events@.len() == 0 ==> final(self).last_event_ms == old(self).last_event_ms,
    {
        let ghost start = self.sets();
        let ghost ev = events@.map_values(|e: FileEvent| e@);
        let mut i: usize = 0;
        while i < events.len()
            invariant
                i <= events@.len(),
                ev == events@.map_values(|e: FileEvent| e@),
                self.wf(),
                self.sets() == fold_all(start, ev.subrange(0, i as int)),
                self.last_event_ms == old(self).last_event_ms,
            decreases events.len() - i,
        {
            self.fold_event(&events[i]);
            assert(ev.subrange(0, i + 1).drop_last() =~= ev.subrange(0, i as int));
            i = i + 1;
        }
        assert(ev.subrange(0, i as int) =~= ev);
        if events.len() > 0 {
            self.last_event_ms = now_ms;
        }
    }

    /// The buffers hold something and no event has arrived for the flush
    /// timeout (a clock that went backwards counts as no time passing).
    pub fn should_flush(&self, now_ms: u64) -> (r: bool)
        ensures
            r == ((self.to_index@.len() > 0 || self.to_remove@.len() > 0) && now_ms
                >= self.last_event_ms + FLUSH_TIMEOUT_MS),
    {
        let pending = self.to_index.len() > 0 || self.to_remove.len() > 0;
        pending && now_ms >= self.last_event_ms && now_ms - self.last_event_ms >= FLUSH_TIMEOUT_MS
    }

    /// Empties both buffers, returning (to index, to remove), and restarts
    /// the clock.
    pub fn take_batch(&mut self, now_ms: u64) -> (r: (Vec<String>, Vec<String>))
        ensures
            r.0 == old(self).to_index,
            r.1 == old(self).to_remove,
            final(self).to_index@.len() == 0,
            final(self).to_remove@.len() == 0,
            final(self).wf(),
            final(self).last_event_ms == now_ms,
    {
        let mut to_index: Vec<String> = Vec::new();
        let mut to_remove: Vec<String> = Vec::new();
        core::mem::swap(&mut to_index, &mut self.to_index);
        core::mem::swap(&mut to_remove, &mut self.to_remove);
        self.last_event_ms = now_ms;
        (to_index, to_remove)
    }

    /// Drops everything buffered (a full refresh has covered it).
    pub fn clear(&mut self)
        ensures
            final(self).to_index@.len() == 0,
            final(self).to_remove@.len() == 0,
            final(self).wf(),
            final(self).last_event_ms == old(self).last_event_ms,
    {
        self.to_index = Vec::new();
        self.to_remove = Vec::new();
    }
}

/// The path is one of the removed paths or lies under one of them.
pub open spec fn removed_by(p: Seq<char>, removed: Seq<Seq<char>>) -> bool {
    exists|k: int|
        0 <= k < removed.len() && (#[trigger] removed[k] == p || dir_prefix(removed[k]).is_prefix_of(p))
}

/// Applies the removals of a flushed batch to the store: each removed path
/// stops being listed_now, and so does every listed_now file under it. Returns the
/// chunk ids those entries owned, which must then be deleted from the vector
/// and lexical indexes.
pub fn remove_paths(store: &mut FileMetaStore, to_remove: &Vec<String>) -> (r: Vec<u32>)
    requires
        unique_paths(old(store).entries()),
    ensures
        unique_paths(final(store).entries()),
        final(store).model_name == old(store).model_name,
        final(store).dimensions == old(store).dimensions,
        forall|p: Seq<char>|
            #[trigger] tracks(final(store).entries(), p) <==> tracks(old(store).entries(), p)
                && !removed_by(p, to_remove@.map_values(|s: String| s@)),
        forall|p: Seq<char>, m: MetaView|
            #[trigger] recorded(old(store).entries(), p, m) && !removed_by(
                p,
                to_remove@.map_values(|s: String| s@),
            ) ==> recorded(final(store).entries(), p, m),
        forall|p: Seq<char>, m: MetaView, j: int|
            #![trigger recorded(old(store).entries(), p, m), m.chunk_ids[j]]
            recorded(old(store).entries(), p, m) && removed_by(
                p,
                to_remove@.map_values(|s: String| s@),
            ) && 0 <= j < m.chunk_ids.len() ==> r@.contains(m.chunk_ids[j]),
        forall|x: u32|
            #[trigger] r@.contains(x) ==> exists|p: Seq<char>, m: MetaView|
                recorded(old(store).entries(), p, m) && removed_by(
                    p,
                    to_remove@.map_values(|s: String| s@),
                ) && m.chunk_ids.contains(x),
{
    let ghost es = store.entries();
    let ghost rv = to_remove@.map_values(|s: String| s@);
    let mut ids: Vec<u32> = Vec::new();
    let mut i: usize = 0;
    while i < to_remove.len()
        invariant
            i <= to_remove@.len(),
            rv == to_remove@.map_values(|s: String| s@),
            unique_paths(store.entries()),
            store.model_name == old(store).model_name,
            store.dimensions == old(store).dimensions,
            forall|p: Seq<char>|
                #[trigger] tracks(store.entries(), p) <==> tracks(es, p) && !removed_by(
                    p,
                    rv.subrange(0, i as int),
                ),
            forall|p: Seq<char>, m: MetaView|
                #[trigger] recorded(es, p, m) && !removed_by(p, rv.subrange(0, i as int))
                    ==> recorded(store.entries(), p, m),
            forall|p: Seq<char>, m: MetaView, j: int|
                #![trigger recorded(es, p, m), m.chunk_ids[j]]
                recorded(es, p, m) && removed_by(p, rv.subrange(0, i as int)) && 0 <= j
                    < m.chunk_ids.len() ==> ids@.contains(m.chunk_ids[j]),
            forall|p: Seq<char>, m: MetaView|
                #[trigger] recorded(store.entries(), p, m) ==> recorded(es, p, m),
            forall|x: u32|
                #[trigger] ids@.contains(x) ==> exists|p: Seq<char>, m: MetaView|
                    recorded(es, p, m) && removed_by(p, rv.subrange(0, i as int))
                        && m.chunk_ids.contains(x),
        decreases to_remove.len() - i,
    {
        let ghost cur = store.entries();
        let ghost ids0 = ids@;
        let ghost d = rv[i as int];
        assert(d == to_remove@[i as int]@);
        let mut victims: Vec<String> = Vec::new();
        victims.push(to_remove[i].clone());
        let listed_now = store.tracked_files();
        let mut t: usize = 0;
        while t < listed_now.len()
            invariant
                t <= listed_now@.len(),
                i < to_remove@.len(),
                d == to_remove@[i as int]@,
                listed_now@.len() == cur.len(),
                forall|k: int| 0 <= k < listed_now@.len() ==> #[trigger] listed_now@[k]@ == cur[k].0,
                victims@.len() >= 1,
                victims@[0]@ == d,
                forall|k: int|
                    0 <= k < t && dir_prefix(d).is_prefix_of(#[trigger] cur[k].0) ==> exists|v: int|
                        0 <= v < victims@.len() && victims@[v]@ == cur[k].0,
                forall|v: int|
                    0 <= v < victims@.len() ==> (#[trigger] victims@[v])@ == d || dir_prefix(
                        d,
                    ).is_prefix_of(victims@[v]@),
            decreases listed_now.len() - t,
        {
            let ghost vic0 = victims@;
            let under = is_under_dir(listed_now[t].as_str(), to_remove[i].as_str());
            if under {
                victims.push(listed_now[t].clone());
                assert(victims@[victims@.len() - 1]@ == cur[t as int].0);
            }
            proof {
                assert forall|k: int|
                    0 <= k < t + 1 && dir_prefix(d).is_prefix_of(#[trigger] cur[k].0) implies exists|w: int|
                        0 <= w < victims@.len() && victims@[w]@ == cur[k].0 by {
                    if k < t {
                        let w = choose|w: int| 0 <= w < vic0.len() && vic0[w]@ == cur[k].0;
                        assert(victims@[w] == vic0[w]);
                    } else {
                        assert(listed_now@[t as int]@ == cur[k].0);
                        assert(victims@[victims@.len() - 1]@ == cur[k].0);
                    }
                }
                assert forall|w: int| 0 <= w < victims@.len() implies (#[trigger] victims@[w])@ == d
                    || dir_prefix(d).is_prefix_of(victims@[w]@) by {
                    if w < vic0.len() {
                        assert(victims@[w] == vic0[w]);
                    }
                }
            }
            t = t + 1;
        }
        // remove every victim
        let mut v: usize = 0;
        while v < victims.len()
            invariant
                v <= victims@.len(),
                unique_paths(store.entries()),
                store.model_name == old(store).model_name,
                store.dimensions == old(store).dimensions,
                forall|p: Seq<char>|
                    #[trigger] tracks(store.entries(), p) ==> tracks(cur, p),
                forall|p: Seq<char>|
                    #[trigger] tracks(cur, p) && !(exists|w: int| 0 <= w < v && victims@[w]@ == p)
                        ==> tracks(store.entries(), p),
                forall|w: int| 0 <= w < v ==> !tracks(store.entries(), (#[trigger] victims@[w])@),
                forall|p: Seq<char>, m: MetaView|
                    #[trigger] recorded(cur, p, m) && !(exists|w: int| 0 <= w < v && victims@[w]@ == p)
                        ==> recorded(store.entries(), p, m),
                forall|p: Seq<char>, m: MetaView, j: int|
                    #![trigger recorded(cur, p, m), m.chunk_ids[j]]
                    recorded(cur, p, m) && (exists|w: int| 0 <= w < v && victims@[w]@ == p) && 0 <= j
                        < m.chunk_ids.len() ==> ids@.contains(m.chunk_ids[j]),
                forall|x: u32| ids0.contains(x) ==> ids@.contains(x),
                forall|p: Seq<char>, m: MetaView|
                    #[trigger] recorded(store.entries(), p, m) ==> recorded(cur, p, m),
                forall|x: u32|
                    #[trigger] ids@.contains(x) ==> ids0.contains(x) || exists|p: Seq<char>, m: MetaView|
                        recorded(cur, p, m) && (p == d || dir_prefix(d).is_prefix_of(p))
                            && m.chunk_ids.contains(x),
                forall|w: int|
                    0 <= w < victims@.len() ==> (#[trigger] victims@[w])@ == d || dir_prefix(
                        d,
                    ).is_prefix_of(victims@[w]@),
            decreases victims.len() - v,
        {
            let ghost before = store.entries();
            let ghost ids1 = ids@;
            let ghost vp = victims@[v as int]@;
            let removed = store.remove_file(victims[v].as_str());
            let ghost was_removed = removed is Some;
            match removed {
                Some(m) => {
                    let ghost mv = m@;
                    let mut owned = m.chunk_ids.clone();
                    let ghost owned_v = owned@;
                    ids.append(&mut owned);
                    proof {
                        assert(owned_v == mv.chunk_ids);
                        assert(ids@ == ids1 + mv.chunk_ids);
                        assert(recorded(before, vp, mv));
                        assert forall|p: Seq<char>, m2: MetaView, j: int|
                            #![trigger recorded(cur, p, m2), m2.chunk_ids[j]]
                            recorded(cur, p, m2) && (exists|w: int|
                                0 <= w < v + 1 && victims@[w]@ == p) && 0 <= j < m2.chunk_ids.len()
                                implies ids@.contains(m2.chunk_ids[j]) by {
                            if exists|w: int| 0 <= w < v && victims@[w]@ == p {
                                assert(ids1.contains(m2.chunk_ids[j]));
                                let q = choose|q: int| 0 <= q < ids1.len() && ids1[q] == m2.chunk_ids[j];
                                assert(ids@[q] == m2.chunk_ids[j]);
                            } else {
                                assert(p == vp);
                                assert(!(exists|w: int| 0 <= w < v && victims@[w]@ == p));
                                assert(recorded(before, p, m2));
                                let a = choose|a: int|
                                    0 <= a < before.len() && #[trigger] before[a].0 == p
                                        && before[a].1 == m2;
                                let b = choose|b: int|
                                    0 <= b < before.len() && #[trigger] before[b].0 == p
                                        && before[b].1 == mv;
                                assert(a == b);
                                assert(ids@[ids1.len() + j] == m2.chunk_ids[j]);
                            }
                        }
                        assert forall|x: u32| ids0.contains(x) implies ids@.contains(x) by {
                            assert(ids1.contains(x));
                            let q = choose|q: int| 0 <= q < ids1.len() && ids1[q] == x;
                            assert(ids@[q] == x);
                        }
                        assert(recorded(cur, vp, mv));
                        assert(vp == d || dir_prefix(d).is_prefix_of(vp));
                        assert forall|x: u32| #[trigger] ids@.contains(x) implies ids0.contains(x)
                            || exists|p: Seq<char>, m2: MetaView|
                            recorded(cur, p, m2) && (p == d || dir_prefix(d).is_prefix_of(p))
                                && m2.chunk_ids.contains(x) by {
                            let q = choose|q: int| 0 <= q < ids@.len() && ids@[q] == x;
                            if q < ids1.len() {
                                assert(ids1[q] == x);
                                assert(ids1.contains(x));
                            } else {
                                assert(mv.chunk_ids[q - ids1.len()] == x);
                                assert(mv.chunk_ids.contains(x));
                            }
                        }
                    }
                },
                None => {
                    proof {
                        assert forall|p: Seq<char>, m2: MetaView, j: int|
                            #![trigger recorded(cur, p, m2), m2.chunk_ids[j]]
                            recorded(cur, p, m2) && (exists|w: int|
                                0 <= w < v + 1 && victims@[w]@ == p) && 0 <= j < m2.chunk_ids.len()
                                implies ids@.contains(m2.chunk_ids[j]) by {
                            if !(exists|w: int| 0 <= w < v && victims@[w]@ == p) {
                                assert(p == vp);
                                assert(recorded(before, p, m2));
                                assert(tracks(before, p));
                            }
                        }
                    }
                },
            }
            proof {
                assert forall|p: Seq<char>, m2: MetaView| #[trigger]
                    recorded(cur, p, m2) && !(exists|w: int| 0 <= w < v + 1 && victims@[w]@ == p)
                    implies recorded(store.entries(), p, m2) by {
                    assert(recorded(before, p, m2));
                    assert(p != vp);
                }
                assert forall|p: Seq<char>| #[trigger]
                    tracks(cur, p) && !(exists|w: int| 0 <= w < v + 1 && victims@[w]@ == p)
                    implies tracks(store.entries(), p) by {
                    assert(tracks(before, p));
                    assert(p != vp);
                }
                assert forall|w: int| 0 <= w < v + 1 implies !tracks(
                    store.entries(),
                    (#[trigger] victims@[w])@,
                ) by {
                    if w < v {
                        assert(!tracks(before, victims@[w]@));
                    }
                }
            }
            v = v + 1;
        }
        proof {
            assert forall|p: Seq<char>| removed_by(p, rv.subrange(0, i + 1)) <==> removed_by(
                p,
                rv.subrange(0, i as int),
            ) || p == d || dir_prefix(d).is_prefix_of(p) by {
                let s1 = rv.subrange(0, i + 1);
                let s0 = rv.subrange(0, i as int);
                if removed_by(p, s1) {
                    let k = choose|k: int|
                        0 <= k < s1.len() && (#[trigger] s1[k] == p || dir_prefix(s1[k]).is_prefix_of(p));
                    if k < i {
                        assert(s0[k] == s1[k]);
                    }
                }
                if removed_by(p, s0) {
                    let k = choose|k: int|
                        0 <= k < s0.len() && (#[trigger] s0[k] == p || dir_prefix(s0[k]).is_prefix_of(p));
                    assert(s1[k] == s0[k]);
                }
                if p == d || dir_prefix(d).is_prefix_of(p) {
                    assert(s1[i as int] == d);
                }
            }
            // a listed_now path is a victim exactly when it is d or under d
            assert forall|p: Seq<char>| tracks(cur, p) implies ((exists|w: int|
                0 <= w < victims@.len() && victims@[w]@ == p) <==> (p == d || dir_prefix(
                d,
            ).is_prefix_of(p))) by {
                if p == d {
                    assert(victims@[0]@ == p);
                } else if dir_prefix(d).is_prefix_of(p) {
                    let k = choose|k: int| 0 <= k < cur.len() && #[trigger] cur[k].0 == p;
                }
                if exists|w: int| 0 <= w < victims@.len() && victims@[w]@ == p {
                    let w = choose|w: int| 0 <= w < victims@.len() && victims@[w]@ == p;
                    assert(victims@[w]@ == d || dir_prefix(d).is_prefix_of(victims@[w]@));
                }
            }
            assert forall|p: Seq<char>|
                #[trigger] tracks(store.entries(), p) <==> tracks(es, p) && !removed_by(
                    p,
                    rv.subrange(0, i + 1),
                ) by {
                if tracks(store.entries(), p) {
                    assert(tracks(cur, p));
                    if exists|w: int| 0 <= w < victims@.len() && victims@[w]@ == p {
                        let w = choose|w: int| 0 <= w < victims@.len() && victims@[w]@ == p;
                        assert(!tracks(store.entries(), victims@[w]@));
                    }
                }
                if tracks(es, p) && !removed_by(p, rv.subrange(0, i + 1)) {
                    assert(tracks(cur, p));
                }
            }
            assert forall|p: Seq<char>, m: MetaView|
                #[trigger] recorded(es, p, m) && !removed_by(p, rv.subrange(0, i + 1)) implies recorded(
                store.entries(),
                p,
                m,
            ) by {
                assert(recorded(cur, p, m));
                let k = choose|k: int| 0 <= k < es.len() && #[trigger] es[k].0 == p && es[k].1 == m;
                assert(tracks(es, p));
                assert(tracks(cur, p));
            }
            assert forall|x: u32| #[trigger] ids@.contains(x) implies exists|p: Seq<char>, m: MetaView|
                recorded(es, p, m) && removed_by(p, rv.subrange(0, i + 1)) && m.chunk_ids.contains(x) by {
                if ids0.contains(x) {
                    let (p, m) = choose|p: Seq<char>, m: MetaView|
                        recorded(es, p, m) && removed_by(p, rv.subrange(0, i as int))
                            && m.chunk_ids.contains(x);
                    assert(removed_by(p, rv.subrange(0, i + 1)));
                } else {
                    let (p, m) = choose|p: Seq<char>, m: MetaView|
                        recorded(cur, p, m) && (p == d || dir_prefix(d).is_prefix_of(p))
                            && m.chunk_ids.contains(x);
                    assert(recorded(es, p, m));
                    assert(removed_by(p, rv.subrange(0, i + 1)));
                }
            }
            assert forall|p: Seq<char>, m: MetaView, j: int|
                #![trigger recorded(es, p, m), m.chunk_ids[j]]
                recorded(es, p, m) && removed_by(p, rv.subrange(0, i + 1)) && 0 <= j < m.chunk_ids.len()
                    implies ids@.contains(m.chunk_ids[j]) by {
                if !removed_by(p, rv.subrange(0, i as int)) {
                    assert(recorded(cur, p, m));
                    assert(tracks(cur, p));
                }
            }
        }
        i = i + 1;
    }
    assert(rv.subrange(0, i as int) =~= rv);
    ids
}

} // verus!
