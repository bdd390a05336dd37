//! The file-meta store: for each tracked (normalised) path, the file's mtime,
//! size and content hash at indexing time and the chunk ids it owns. An empty
//! id list means the file was processed and yielded no chunks.
use vstd::prelude::*;

verus! {

/// What the file system currently shows of a file.
#[derive(Debug, Clone)]
pub struct FileStat {
    pub mtime: u64,
    pub size: u64,
    pub hash: String,
}

/// The recorded state of one tracked file.
#[derive(Debug, Clone)]
pub struct FileMeta {
    pub mtime: u64,
    pub size: u64,
    pub hash: String,
    pub chunk_ids: Vec<u32>,
}

/// A file stat over character sequences.
pub struct StatView {
    pub mtime: u64,
    pub size: u64,
    pub hash: Seq<char>,
}

/// A file-meta entry over character sequences.
pub struct MetaView {
    pub mtime: u64,
    pub size: u64,
    pub hash: Seq<char>,
    pub chunk_ids: Seq<u32>,
}

impl View for FileStat {
    type V = StatView;

    open spec fn view(&self) -> StatView {
        StatView { mtime: self.mtime, size: self.size, hash: self.hash@ }
    }
}

impl View for FileMeta {
    type V = MetaView;

    open spec fn view(&self) -> MetaView {
        MetaView { mtime: self.mtime, size: self.size, hash: self.hash@, chunk_ids: self.chunk_ids@ }
    }
}

/// The tracked entries, in storage order.
pub type Entries = Seq<(Seq<char>, MetaView)>;

/// The record for a file with stat `s` owning `ids`.
pub open spec fn meta_of(s: StatView, ids: Seq<u32>) -> MetaView {
    MetaView { mtime: s.mtime, size: s.size, hash: s.hash, chunk_ids: ids }
}

/// The recorded mtime, size and hash all equal the current ones.
pub open spec fn same_stat(m: MetaView, s: StatView) -> bool {
    m.mtime == s.mtime && m.size == s.size && m.hash == s.hash
}

/// Path `p` is tracked.
pub open spec fn tracks(es: Entries, p: Seq<char>) -> bool {
    exists|i: int| 0 <= i < es.len() && #[trigger] es[i].0 == p
}

/// No path is tracked twice.
pub open spec fn unique_paths(es: Entries) -> bool {
    forall|i: int, j: int| 0 <= i < es.len() && 0 <= j < es.len() && i != j ==> es[i].0 != es[j].0
}

/// The entry for `p` is `m`.
pub open spec fn recorded(es: Entries, p: Seq<char>, m: MetaView) -> bool {
    exists|i: int| 0 <= i < es.len() && #[trigger] es[i].0 == p && es[i].1 == m
}

/// A file needs re-indexing when it is not tracked or when its mtime, size or
/// hash differs from the recorded ones.
pub open spec fn needs_reindex(es: Entries, p: Seq<char>, s: StatView) -> bool {
    !tracks(es, p) || exists|i: int|
        0 <= i < es.len() && #[trigger] es[i].0 == p && !same_stat(es[i].1, s)
}

/// The chunk ids recorded for `p` (empty when untracked).
pub open spec fn old_ids(es: Entries, p: Seq<char>) -> Seq<u32> {
    if tracks(es, p) {
        es[choose|i: int| 0 <= i < es.len() && #[trigger] es[i].0 == p].1.chunk_ids
    } else {
        seq![]
    }
}

/// The entries whose file no longer exists (`exists` is aligned with `es`),
/// as path and owned ids, in storage order.
pub open spec fn deleted_entries(es: Entries, exists: Seq<bool>) -> Seq<(Seq<char>, Seq<u32>)>
    decreases es.len(),
{
    if es.len() == 0 || exists.len() == 0 {
        seq![]
    } else {
        let prev = deleted_entries(es.drop_last(), exists.drop_last());
        if !exists.last() {
            prev.push((es.last().0, es.last().1.chunk_ids))
        } else {
            prev
        }
    }
}

proof fn lemma_old_ids_at(es: Entries, i: int)
    requires
        unique_paths(es),
        0 <= i < es.len(),
    ensures
        old_ids(es, es[i].0) == es[i].1.chunk_ids,
{
    assert(tracks(es, es[i].0));
    let j = choose|j: int| 0 <= j < es.len() && #[trigger] es[j].0 == es[i].0;
    assert(j == i);
}

/// Removing the entry at `i` untracks exactly its path and keeps every
/// other entry.
pub proof fn lemma_remove_at(es: Entries, i: int)
    requires
        unique_paths(es),
        0 <= i < es.len(),
    ensures
        unique_paths(es.remove(i)),
        forall|p: Seq<char>| tracks(es.remove(i), p) <==> tracks(es, p) && p != es[i].0,
        forall|p: Seq<char>, m: MetaView|
            recorded(es, p, m) && p != es[i].0 ==> recorded(es.remove(i), p, m),
        forall|p: Seq<char>, m: MetaView| recorded(es.remove(i), p, m) ==> recorded(es, p, m),
{
    let r = es.remove(i);
    assert forall|p: Seq<char>, m: MetaView| recorded(r, p, m) implies recorded(es, p, m) by {
        let k = choose|k: int| 0 <= k < r.len() && #[trigger] r[k].0 == p && r[k].1 == m;
        if k < i {
            assert(es[k].0 == p);
        } else {
            assert(es[k + 1].0 == p);
        }
    }
    assert forall|p: Seq<char>| tracks(r, p) <==> tracks(es, p) && p != es[i].0 by {
        if tracks(r, p) {
            let k = choose|k: int| 0 <= k < r.len() && #[trigger] r[k].0 == p;
            if k < i {
                assert(es[k].0 == p);
            } else {
                assert(es[k + 1].0 == p);
            }
        }
        if tracks(es, p) && p != es[i].0 {
            let k = choose|k: int| 0 <= k < es.len() && #[trigger] es[k].0 == p;
            if k < i {
                assert(r[k].0 == p);
            } else {
                assert(r[k - 1].0 == p);
            }
        }
    }
    assert forall|p: Seq<char>, m: MetaView| recorded(es, p, m) && p != es[i].0 implies recorded(
        r,
        p,
        m,
    ) by {
        let k = choose|k: int| 0 <= k < es.len() && #[trigger] es[k].0 == p && es[k].1 == m;
        if k < i {
            assert(r[k].0 == p);
        } else {
            assert(r[k - 1].0 == p);
        }
    }
}

/// The persisted file-meta map, for one embedding model and dimension count.
pub struct FileMetaStore {
    pub model_name: String,
    pub dimensions: usize,
    pub files: Vec<(String, FileMeta)>,
}

impl FileMetaStore {
    /// The tracked entries, in storage order.
    pub open spec fn entries(&self) -> Entries {
        self.files@.map_values(|e: (String, FileMeta)| (e.0@, e.1@))
    }

    /// An empty store for this model and dimension count.
    pub fn new(model_name: String, dimensions: usize) -> (r: FileMetaStore)
        ensures
            r.entries().len() == 0,
            r.model_name == model_name,
            r.dimensions == dimensions,
    {
        let r = FileMetaStore { model_name, dimensions, files: Vec::new() };
        assert(r.entries() =~= Seq::empty());
        r
    }

    /// A loaded store is kept only if it was written for the same model and
    /// dimension count; otherwise an empty store is used, so that every file
    /// counts as untracked and gets re-indexed.
    pub fn load_or_create(loaded: Option<FileMetaStore>, model_name: &str, dimensions: usize) -> (r:
        FileMetaStore)
        requires
            loaded matches Some(s) ==> unique_paths(s.entries()),
        ensures
            unique_paths(r.entries()),
            r.model_name@ == model_name@,
            r.dimensions == dimensions,
            loaded is Some && loaded.unwrap().model_name@ == model_name@
                && loaded.unwrap().dimensions == dimensions ==> r.entries()
                == loaded.unwrap().entries(),
            !(loaded is Some && loaded.unwrap().model_name@ == model_name@
                && loaded.unwrap().dimensions == dimensions) ==> r.entries().len() == 0,
    {
        match loaded {
            Some(s) => {
                let same_model = s.model_name == model_name.to_owned();
                if same_model && s.dimensions == dimensions {
                    s
                } else {
                    FileMetaStore::new(model_name.to_owned(), dimensions)
                }
            },
            None => FileMetaStore::new(model_name.to_owned(), dimensions),
        }
    }

    fn find(&self, path: &str) -> (r: Option<usize>)
        ensures
            r matches Some(i) ==> i < self.entries().len() && self.entries()[i as int].0 == path@,
            r is None ==> !tracks(self.entries(), path@),
    {
        let mut i: usize = 0;
        while i < self.files.len()
            invariant
                i <= self.files@.len(),
                self.entries().len() == self.files@.len(),
                forall|k: int| 0 <= k < i ==> self.entries()[k].0 != path@,
            decreases self.files.len() - i,
        {
            if crate::text::str_eq(self.files[i].0.as_str(), path) {
                return Some(i);
            }
            i = i + 1;
        }
        None
    }

    /// Whether `path` is tracked (possibly with no chunks).
    pub fn is_tracked(&self, path: &str) -> (r: bool)
        ensures
            r == tracks(self.entries(), path@),
    {
        self.find(path).is_some()
    }

    /// The entry for `path`, if tracked.
    pub fn get(&self, path: &str) -> (r: Option<FileMeta>)
        ensures
            r matches Some(m) ==> recorded(self.entries(), path@, m@),
            r is None ==> !tracks(self.entries(), path@),
    {
        match self.find(path) {
            Some(i) => Some(self.files[i].1.clone_meta()),
            None => None,
        }
    }

    /// Whether `path` needs re-indexing given its current stat, and the chunk
    /// ids it owned: `(true, [])` when untracked, `(false, ids)` when mtime,
    /// size and hash all match, `(true, ids)` otherwise.
    pub fn check_file(&self, path: &str, current: &FileStat) -> (r: (bool, Vec<u32>))
        requires
            unique_paths(self.entries()),
        ensures
            r.0 == needs_reindex(self.entries(), path@, current@),
            r.1@ == old_ids(self.entries(), path@),
    {
        match self.find(path) {
            Some(i) => {
                let m = &self.files[i].1;
                proof {
                    lemma_old_ids_at(self.entries(), i as int);
                }
                let same = m.mtime == current.mtime && m.size == current.size && m.hash
                    == current.hash;
                (!same, m.chunk_ids.clone())
            },
            None => (true, Vec::new()),
        }
    }

    /// Records `path` with its current stat and the chunk ids it now owns,
    /// replacing any earlier entry in place or appending a new one.
    pub fn update_file(&mut self, path: &str, current: &FileStat, chunk_ids: Vec<u32>)
        requires
            unique_paths(old(self).entries()),
        ensures
            unique_paths(final(self).entries()),
            final(self).model_name == old(self).model_name,
            final(self).dimensions == old(self).dimensions,
            tracks(old(self).entries(), path@) ==> exists|i: int|
                0 <= i < old(self).entries().len() && old(self).entries()[i].0 == path@
                    && final(self).entries() == old(self).entries().update(
                    i,
                    (path@, meta_of(current@, chunk_ids@)),
                ),
            !tracks(old(self).entries(), path@) ==> final(self).entries() == old(self).entries().push(
                (path@, meta_of(current@, chunk_ids@)),
            ),
    {
        let meta = FileMeta {
            mtime: current.mtime,
            size: current.size,
            hash: current.hash.clone(),
            chunk_ids,
        };
        let ghost before = self.entries();
        match self.find(path) {
            Some(i) => {
                let key = self.files[i].0.clone();
                self.files.set(i, (key, meta));
                assert(self.entries() =~= before.update(i as int, (path@, meta@)));
            },
            None => {
                self.files.push((path.to_owned(), meta));
                assert(self.entries() =~= before.push((path@, meta@)));
            },
        }
    }

    /// Stops tracking `path`, returning its entry if it was tracked.
    pub fn remove_file(&mut self, path: &str) -> (r: Option<FileMeta>)
        requires
            unique_paths(old(self).entries()),
        ensures
            unique_paths(final(self).entries()),
            final(self).model_name == old(self).model_name,
            final(self).dimensions == old(self).dimensions,
            r is None <==> !tracks(old(self).entries(), path@),
            r is None ==> final(self).entries() == old(self).entries(),
            r matches Some(m) ==> exists|i: int|
                0 <= i < old(self).entries().len() && old(self).entries()[i] == (path@, m@)
                    && final(self).entries() == old(self).entries().remove(i),
            r matches Some(m) ==> recorded(old(self).entries(), path@, m@),
            forall|p: Seq<char>|
                #[trigger] tracks(final(self).entries(), p) <==> tracks(old(self).entries(), p) && p
                    != path@,
            forall|p: Seq<char>, m: MetaView|
                #[trigger] recorded(old(self).entries(), p, m) && p != path@ ==> recorded(
                    final(self).entries(),
                    p,
                    m,
                ),
            forall|p: Seq<char>, m: MetaView|
                #[trigger] recorded(final(self).entries(), p, m) ==> recorded(old(self).entries(), p, m),
    {
        let ghost before = self.entries();
        match self.find(path) {
            Some(i) => {
                let (_, m) = self.files.remove(i);
                assert(self.entries() =~= before.remove(i as int));
                proof {
                    lemma_remove_at(before, i as int);
                }
                Some(m)
            },
            None => None,
        }
    }

    /// The tracked paths, in storage order.
    pub fn tracked_files(&self) -> (r: Vec<String>)
        ensures
            r@.len() == self.entries().len(),
            forall|i: int| 0 <= i < r@.len() ==> #[trigger] r@[i]@ == self.entries()[i].0,
    {
        let mut out: Vec<String> = Vec::new();
        let mut i: usize = 0;
        while i < self.files.len()
            invariant
                i <= self.files@.len(),
                self.entries().len() == self.files@.len(),
                out@.len() == i,
                forall|k: int| 0 <= k < i ==> #[trigger] out@[k]@ == self.entries()[k].0,
            decreases self.files.len() - i,
        {
            out.push(self.files[i].0.clone());
            i = i + 1;
        }
        out
    }

    /// The tracked paths whose files no longer exist, with the chunk ids they
    /// owned. `exists[i]` says whether the i-th tracked path (in the order of
    /// `tracked_files`) still exists on disk.
    pub fn find_deleted_files(&self, exists: &Vec<bool>) -> (r: Vec<(String, Vec<u32>)>)
        requires
            exists@.len() == self.entries().len(),
        ensures
            r@.map_values(|e: (String, Vec<u32>)| (e.0@, e.1@)) == deleted_entries(
                self.entries(),
                exists@,
            ),
    {
        let mut out: Vec<(String, Vec<u32>)> = Vec::new();
        let mut i: usize = 0;
        while i < self.files.len()
            invariant
                i <= self.files@.len(),
                self.entries().len() == self.files@.len(),
                exists@.len() == self.files@.len(),
                out@.map_values(|e: (String, Vec<u32>)| (e.0@, e.1@)) == deleted_entries(
                    self.entries().subrange(0, i as int),
                    exists@.subrange(0, i as int),
                ),
            decreases self.files.len() - i,
        {
            let ghost before = out@;
            if !exists[i] {
                out.push((self.files[i].0.clone(), self.files[i].1.chunk_ids.clone()));
            }
            assert(self.entries().subrange(0, i + 1).drop_last() =~= self.entries().subrange(
                0,
                i as int,
            ));
            assert(exists@.subrange(0, i + 1).drop_last() =~= exists@.subrange(0, i as int));
            assert(out@.map_values(|e: (String, Vec<u32>)| (e.0@, e.1@)) =~= deleted_entries(
                self.entries().subrange(0, i + 1),
                exists@.subrange(0, i + 1),
            ));
            i = i + 1;
        }
        assert(self.entries().subrange(0, i as int) =~= self.entries());
        assert(exists@.subrange(0, i as int) =~= exists@);
        out
    }
}

impl FileMeta {
    /// A copy of this entry.
    pub fn clone_meta(&self) -> (r: FileMeta)
        ensures
            r@ == self@,
    {
        FileMeta {
            mtime: self.mtime,
            size: self.size,
            hash: self.hash.clone(),
            chunk_ids: self.chunk_ids.clone(),
        }
    }
}

} // verus!
