//! Rules of the chunk store and its companions: chunk-id assignment, the
//! vector index's state machine, the auto-grow policy for a full memory map,
//! eviction from the persistent embedding cache, and the reader / writer
//! discipline of the shared store facade.
use vstd::prelude::*;
use crate::text::{chars_of, str_eq};

verus! {

/// The kinds of failure the stores report.
#[derive(Debug, Clone, Copy, PartialEq, Eq, Structural)]
pub enum ErrorKind {
    /// Database directory missing, or file path not tracked.
    NotFound,
    /// Database directory present but incomplete.
    Invalid,
    /// Mutation attempted through a reader-mode facade.
    Readonly,
    /// A vector's length differs from the store's dimensions.
    DimensionMismatch,
    /// Vector search before the index was built.
    NotIndexed,
    /// The memory map is full (after the allowed growth).
    MapFull,
    /// The writer lock is held by another process.
    Locked,
    /// Cooperative shutdown.
    Cancelled,
    /// Underlying file-system failure.
    IoError,
    /// The embedding model failed.
    EmbeddingError,
}

/// The vector index's state: nothing stored, stored but not searchable, or
/// built and searchable.
#[derive(Debug, Clone, Copy, PartialEq, Eq, Structural)]
pub enum IndexState {
    Empty,
    Dirty,
    Indexed,
}

/// Ids are 32-bit.
pub open spec fn id_limit() -> int {
    0x1_0000_0000
}

/// The next id after the largest stored key: one more than it, or 0 for an
/// empty store. Counting keys would be wrong, since deletions leave gaps.
pub open spec fn next_after(last_key: Option<u32>) -> int {
    match last_key {
        Some(k) => k + 1,
        None => 0,
    }
}

/// The keys are in increasing order, as the ordered key-value store keeps
/// big-endian ids.
pub open spec fn strictly_increasing(keys: Seq<u32>) -> bool {
    forall|i: int, j: int| 0 <= i < j < keys.len() ==> keys[i] < keys[j]
}

/// The id assigned after reopening a store exceeds every stored id.
pub proof fn lemma_next_id_exceeds_keys(keys: Seq<u32>)
    requires
        strictly_increasing(keys),
    ensures
        forall|i: int|
            0 <= i < keys.len() ==> (#[trigger] keys[i]) < next_after(
                if keys.len() == 0 {
                    None
                } else {
                    Some(keys.last())
                },
            ),
{
    assert forall|i: int| 0 <= i < keys.len() implies (#[trigger] keys[i]) < next_after(
        if keys.len() == 0 {
            None
        } else {
            Some(keys.last())
        },
    ) by {
        if i < keys.len() - 1 {
            assert(keys[i] < keys[keys.len() - 1]);
        }
    }
}

/// Id assignment and index state of a chunk store.
#[derive(Debug, Clone, Copy)]
pub struct ChunkIds {
    /// The id the next inserted chunk receives.
    pub next_id: u64,
    pub state: IndexState,
    /// The configured embedding dimensions.
    pub dimensions: usize,
}

impl ChunkIds {
    /// Every assigned id fits in 32 bits.
    pub open spec fn wf(&self) -> bool {
        self.next_id <= id_limit()
    }

    /// The state of a store opened with `last_key` as its largest key;
    /// `has_index` says whether a built index was found.
    pub fn open(last_key: Option<u32>, has_index: bool, dimensions: usize) -> (r: ChunkIds)
        ensures
            r.wf(),
            r.next_id == next_after(last_key),
            r.dimensions == dimensions,
            r.state == (if r.next_id == 0 {
                IndexState::Empty
            } else if has_index {
                IndexState::Indexed
            } else {
                IndexState::Dirty
            }),
    {
        let next_id: u64 = match last_key {
            Some(k) => k as u64 + 1,
            None => 0,
        };
        let state = if next_id == 0 {
            IndexState::Empty
        } else if has_index {
            IndexState::Indexed
        } else {
            IndexState::Dirty
        };
        ChunkIds { next_id, state, dimensions }
    }

    /// Whether `count` more ids can still be assigned.
    pub fn has_room(&self, count: usize) -> (r: bool)
        requires
            self.wf(),
        ensures
            r == (self.next_id + count <= id_limit()),
    {
        count as u64 <= 0x1_0000_0000u64 - self.next_id
    }

    /// Assigns ids to a batch of chunks whose embeddings have the given
    /// lengths: consecutive ids from `next_id`, which then moves past them,
    /// and the index becomes dirty. An embedding of the wrong length fails
    /// the whole batch with `DimensionMismatch` and changes nothing; an empty
    /// batch changes nothing.
    pub fn insert_chunks_with_ids(&mut self, embedding_lens: &Vec<usize>) -> (r: Result<
        Vec<u32>,
        ErrorKind,
    >)
        requires
            old(self).wf(),
            old(self).next_id + embedding_lens@.len() <= id_limit(),
        ensures
            final(self).wf(),
            final(self).dimensions == old(self).dimensions,
            (exists|i: int|
                0 <= i < embedding_lens@.len() && embedding_lens@[i] != old(self).dimensions) ==> (r
                == Err::<Vec<u32>, ErrorKind>(ErrorKind::DimensionMismatch) && *final(self) == *old(
                self,
            )),
            (forall|i: int|
                0 <= i < embedding_lens@.len() ==> embedding_lens@[i] == old(self).dimensions) ==> (
            r matches Ok(ids) && ids@.len() == embedding_lens@.len() && (forall|k: int|
                0 <= k < ids@.len() ==> ids@[k] == old(self).next_id + k) && final(self).next_id
                == old(self).next_id + embedding_lens@.len() && (embedding_lens@.len() > 0
                ==> final(self).state == IndexState::Dirty) && (embedding_lens@.len() == 0
                ==> final(self).state == old(self).state)),
    {
        let mut i: usize = 0;
        while i < embedding_lens.len()
            invariant
                i <= embedding_lens@.len(),
                *self == *old(self),
                self.wf(),
                forall|k: int| 0 <= k < i ==> embedding_lens@[k] == self.dimensions,
            decreases embedding_lens.len() - i,
        {
            if embedding_lens[i] != self.dimensions {
                return Err(ErrorKind::DimensionMismatch);
            }
            i = i + 1;
        }
        let n = embedding_lens.len();
        let mut ids: Vec<u32> = Vec::new();
        let mut k: usize = 0;
        while k < n
            invariant
                k <= n == embedding_lens@.len(),
                self.next_id + n <= id_limit(),
                ids@.len() == k,
                forall|j: int| 0 <= j < k ==> ids@[j] == self.next_id + j,
            decreases n - k,
        {
            ids.push((self.next_id + k as u64) as u32);
            k = k + 1;
        }
        if n > 0 {
            self.next_id = self.next_id + n as u64;
            self.state = IndexState::Dirty;
        }
        Ok(ids)
    }

    /// Records a deletion of `deleted` vectors: any actual deletion makes the
    /// index dirty.
    pub fn record_deletion(&mut self, deleted: usize)
        ensures
            final(self).next_id == old(self).next_id,
            final(self).dimensions == old(self).dimensions,
            deleted > 0 ==> final(self).state == IndexState::Dirty,
            deleted == 0 ==> final(self).state == old(self).state,
    {
        if deleted > 0 {
            self.state = IndexState::Dirty;
        }
    }

    /// Records a completed index build.
    pub fn record_build(&mut self)
        ensures
            final(self).next_id == old(self).next_id,
            final(self).dimensions == old(self).dimensions,
            final(self).state == IndexState::Indexed,
    {
        self.state = IndexState::Indexed;
    }

    /// Records that the store was cleared: ids start again from 0.
    pub fn record_clear(&mut self)
        ensures
            final(self).next_id == 0,
            final(self).dimensions == old(self).dimensions,
            final(self).state == IndexState::Empty,
    {
        self.next_id = 0;
        self.state = IndexState::Empty;
    }

    /// Whether a search with a query vector of length `query_len` may run:
    /// the length must match, and the index must be built.
    pub fn check_search(&self, query_len: usize) -> (r: Result<(), ErrorKind>)
        ensures
            query_len != self.dimensions ==> r == Err::<(), ErrorKind>(ErrorKind::DimensionMismatch),
            query_len == self.dimensions && self.state != IndexState::Indexed ==> r == Err::<
                (),
                ErrorKind,
            >(ErrorKind::NotIndexed),
            query_len == self.dimensions && self.state == IndexState::Indexed ==> r is Ok,
    {
        if query_len != self.dimensions {
            Err(ErrorKind::DimensionMismatch)
        } else if self.state != IndexState::Indexed {
            Err(ErrorKind::NotIndexed)
        } else {
            Ok(())
        }
    }

    /// Whether the index is built.
    pub fn is_indexed(&self) -> (r: bool)
        ensures
            r == (self.state == IndexState::Indexed),
    {
        self.state == IndexState::Indexed
    }
}

/// Writes are tried at most this many times when the map is full.
pub const MAX_WRITE_ATTEMPTS: u32 = 3;

/// After a failed write attempt (`attempts` made so far): when the failure
/// was a full map, attempts remain, and the doubled map size stays within
/// `max_mb`, the size to reopen with and retry; otherwise `None` (the error
/// is returned to the caller).
pub fn grow_after_failure(attempts: u32, map_full: bool, current_mb: usize, max_mb: usize) -> (r:
    Option<usize>)
    ensures
        r matches Some(n) ==> n == 2 * current_mb,
        r is Some <==> (map_full && attempts < MAX_WRITE_ATTEMPTS && 2 * current_mb <= max_mb),
{
    if !map_full || attempts >= MAX_WRITE_ATTEMPTS {
        return None;
    }
    if current_mb > max_mb / 2 {
        return None;
    }
    Some(current_mb * 2)
}

/// How many cache entries to evict so that `count` comes back to `max_entries`.
pub fn evict_count(count: usize, max_entries: usize) -> (r: usize)
    ensures
        r == (if count > max_entries {
            count - max_entries
        } else {
            0
        }),
{
    if count > max_entries {
        count - max_entries
    } else {
        0
    }
}

/// The cache keys to evict: the first ones in the store's iteration order,
/// as many as `evict_count` says.
pub fn keys_to_evict(keys: &Vec<String>, max_entries: usize) -> (r: Vec<String>)
    ensures
        r@.len() == (if keys@.len() > max_entries {
            keys@.len() - max_entries
        } else {
            0
        }),
        forall|i: int| 0 <= i < r@.len() ==> #[trigger] r@[i] == keys@[i],
{
    let n = evict_count(keys.len(), max_entries);
    let mut out: Vec<String> = Vec::new();
    let mut i: usize = 0;
    while i < n
        invariant
            i <= n <= keys@.len(),
            out@.len() == i,
            forall|k: int| 0 <= k < i ==> #[trigger] out@[k] == keys@[k],
        decreases n - i,
    {
        out.push(keys[i].clone());
        i = i + 1;
    }
    out
}

/// How the shared stores were opened.
#[derive(Debug, Clone, Copy, PartialEq, Eq, Structural)]
pub enum AccessMode {
    /// This process holds the writer lock.
    Writer,
    /// Another process holds it: reads only.
    Reader,
}

/// Writer mode when the exclusive lock was acquired, reader mode otherwise.
pub fn access_mode(lock_acquired: bool) -> (r: AccessMode)
    ensures
        r == (if lock_acquired {
            AccessMode::Writer
        } else {
            AccessMode::Reader
        }),
{
    if lock_acquired {
        AccessMode::Writer
    } else {
        AccessMode::Reader
    }
}

/// Mutations are allowed in writer mode only.
pub fn ensure_writable(mode: AccessMode) -> (r: Result<(), ErrorKind>)
    ensures
        mode == AccessMode::Writer ==> r is Ok,
        mode == AccessMode::Reader ==> r == Err::<(), ErrorKind>(ErrorKind::Readonly),
{
    match mode {
        AccessMode::Writer => Ok(()),
        AccessMode::Reader => Err(ErrorKind::Readonly),
    }
}

/// Statistics of the chunk store.
#[derive(Debug, Clone, Copy)]
pub struct StoreStats {
    pub total_chunks: usize,
    pub total_files: usize,
    pub indexed: bool,
    pub dimensions: usize,
    /// The highest chunk id (0 when empty); may exceed the chunk count after
    /// deletions.
    pub max_chunk_id: u32,
}

/// The number of candidates the ANN search explores: `limit × trees × 15`,
/// trading latency for recall; `None` (the library default) when that is 0.
pub fn search_k(limit: usize, n_trees: usize) -> (r: Option<usize>)
    requires
        limit * n_trees * 15 <= usize::MAX,
    ensures
        r matches Some(k) ==> k == limit * n_trees * 15 && k > 0,
        r is None <==> limit * n_trees * 15 == 0,
{
    if limit == 0 || n_trees == 0 {
        assert(limit * n_trees * 15 == 0) by (nonlinear_arith)
            requires
                limit == 0 || n_trees == 0,
        ;
        None
    } else {
        assert(limit * n_trees >= 1) by (nonlinear_arith)
            requires
                limit >= 1,
                n_trees >= 1,
        ;
        assert(limit * n_trees <= limit * n_trees * 15) by (nonlinear_arith)
            requires
                limit * n_trees >= 1,
        ;
        Some(limit * n_trees * 15)
    }
}

/// What the index is ready for.
#[derive(Debug, Clone, Copy, PartialEq, Eq, Structural)]
pub enum IndexStatus {
    /// No database directory.
    NotIndexed,
    /// The statistics could not be read.
    Error,
    /// The store holds no chunk yet.
    Building,
    /// Searchable.
    Ready,
}

/// The status reported for the index: `total_chunks` is the chunk count, or
/// `None` when the statistics could not be read.
pub fn index_status(db_exists: bool, total_chunks: Option<usize>) -> (r: IndexStatus)
    ensures
        !db_exists ==> r == IndexStatus::NotIndexed,
        db_exists && total_chunks is None ==> r == IndexStatus::Error,
        db_exists && total_chunks == Some(0usize) ==> r == IndexStatus::Building,
        db_exists && (total_chunks matches Some(n) && n > 0) ==> r == IndexStatus::Ready,
{
    if !db_exists {
        IndexStatus::NotIndexed
    } else {
        match total_chunks {
            None => IndexStatus::Error,
            Some(n) => if n == 0 {
                IndexStatus::Building
            } else {
                IndexStatus::Ready
            },
        }
    }
}

/// The status's name in the status report.
pub fn status_name(s: IndexStatus) -> (r: &'static str)
    ensures
        s == IndexStatus::NotIndexed ==> r@ == "not_indexed"@,
        s == IndexStatus::Error ==> r@ == "error"@,
        s == IndexStatus::Building ==> r@ == "building"@,
        s == IndexStatus::Ready ==> r@ == "ready"@,
{
    match s {
        IndexStatus::NotIndexed => "not_indexed",
        IndexStatus::Error => "error",
        IndexStatus::Building => "building",
        IndexStatus::Ready => "ready",
    }
}

/// `t` occurs in `s`.
pub open spec fn occurs_in(t: Seq<char>, s: Seq<char>) -> bool {
    exists|i: int| 0 <= i <= s.len() - t.len() && #[trigger] s.subrange(i, i + t.len()) == t
}

fn occurs(t: &Vec<char>, s: &Vec<char>) -> (r: bool)
    ensures
        r == occurs_in(t@, s@),
{
    if t.len() > s.len() {
        return false;
    }
    let slen = s.len();
    let last = slen - t.len();
    let mut i: usize = 0;
    while i <= last
        invariant
            slen == s@.len(),
            last == s@.len() - t@.len(),
            t@.len() <= s@.len(),
            forall|k: int| 0 <= k < i && k <= last ==> #[trigger] s@.subrange(k, k + t@.len()) != t@,
        decreases last + 1 - i,
    {
        let mut j: usize = 0;
        let mut same = true;
        while j < t.len()
            invariant
                j <= t@.len(),
                i <= last,
                last == s@.len() - t@.len(),
                slen == s@.len(),
                t@.len() <= s@.len(),
                same == forall|q: int| 0 <= q < j ==> s@[i + q] == t@[q],
            decreases t.len() - j,
        {
            assert(i + j < s@.len());
            if s[i + j] != t[j] {
                same = false;
            }
            j = j + 1;
        }
        if same {
            assert(s@.subrange(i as int, i + t@.len()) =~= t@);
            return true;
        }
        assert(s@.subrange(i as int, i + t@.len()) != t@) by {
            let q = choose|q: int| 0 <= q < t@.len() && s@[i + q] != t@[q];
            assert(s@.subrange(i as int, i + t@.len())[q] != t@[q]);
        }
        if i == last {
            return false;
        }
        i = i + 1;
    }
    false
}

/// Whether a storage error's text reports a full memory map.
pub fn is_map_full_message(message: &str) -> (r: bool)
    ensures
        r == (occurs_in("MDB_MAP_FULL"@, message@) || occurs_in("map full"@, message@)),
{
    let m = chars_of(message);
    let a = chars_of("MDB_MAP_FULL");
    let b = chars_of("map full");
    occurs(&a, &m) || occurs(&b, &m)
}

/// The dimensions of the named embedding model's vectors (384 for names it
/// does not know).
pub open spec fn model_dimensions(name: Seq<char>) -> usize {
    if name == "bge-base"@ || name == "jina-code"@ || name == "nomic-v1.5"@ {
        768
    } else if name == "bge-large"@ || name == "mxbai-large"@ {
        1024
    } else {
        384
    }
}

/// The dimensions of the named embedding model's vectors.
pub fn dimensions_for_model(name: &str) -> (r: usize)
    ensures
        r == model_dimensions(name@),
{
    if str_eq(name, "bge-base") || str_eq(name, "jina-code") || str_eq(name, "nomic-v1.5") {
        768
    } else if str_eq(name, "bge-large") || str_eq(name, "mxbai-large") {
        1024
    } else {
        384
    }
}

/// The number of distinct paths among the chunks' paths.
pub fn count_unique_paths(paths: &Vec<String>) -> (r: usize)
    ensures
        r == paths@.map_values(|s: String| s@).to_set().len(),
{
    let ghost pv = paths@.map_values(|s: String| s@);
    let mut seen: Vec<String> = Vec::new();
    let mut i: usize = 0;
    while i < paths.len()
        invariant
            i <= paths@.len(),
            pv == paths@.map_values(|s: String| s@),
            seen@.map_values(|s: String| s@).no_duplicates(),
            seen@.map_values(|s: String| s@).to_set() == pv.subrange(0, i as int).to_set(),
            seen@.len() <= i,
        decreases paths.len() - i,
    {
        let ghost sv = seen@.map_values(|s: String| s@);
        let mut found = false;
        let mut k: usize = 0;
        while k < seen.len()
            invariant
                k <= seen@.len(),
                i < paths@.len(),
                sv == seen@.map_values(|s: String| s@),
                found == exists|q: int| 0 <= q < k && sv[q] == paths@[i as int]@,
            decreases seen.len() - k,
        {
            assert(sv[k as int] == seen@[k as int]@);
            if str_eq(seen[k].as_str(), paths[i].as_str()) {
                found = true;
            }
            k = k + 1;
        }
        assert(pv.subrange(0, i + 1) =~= pv.subrange(0, i as int).push(pv[i as int]));
        assert(pv[i as int] == paths@[i as int]@);
        if !found {
            seen.push(paths[i].clone());
            assert(seen@.map_values(|s: String| s@) =~= sv.push(pv[i as int]));
            assert(!sv.contains(pv[i as int]));
        } else {
            assert(sv.contains(pv[i as int]));
        }
        let ghost nv = seen@.map_values(|s: String| s@);
        assert forall|x: Seq<char>| nv.contains(x) <==> pv.subrange(0, i + 1).contains(x) by {
            let pre = pv.subrange(0, i as int);
            assert(sv.to_set().contains(x) <==> pre.to_set().contains(x));
            if nv.contains(x) {
                let a = choose|a: int| 0 <= a < nv.len() && nv[a] == x;
                if a < sv.len() {
                    assert(sv[a] == x);
                    assert(sv.contains(x));
                    let b = choose|b: int| 0 <= b < pre.len() && pre[b] == x;
                    assert(pv.subrange(0, i + 1)[b] == x);
                } else {
                    assert(pv.subrange(0, i + 1)[i as int] == x);
                }
            }
            if pv.subrange(0, i + 1).contains(x) {
                let b = choose|b: int| 0 <= b < i + 1 && #[trigger] pv.subrange(0, i + 1)[b] == x;
                if b < i {
                    assert(pre[b] == x);
                    assert(pre.contains(x));
                    assert(sv.contains(x));
                    let a = choose|a: int| 0 <= a < sv.len() && sv[a] == x;
                    assert(nv[a] == x);
                } else if found {
                    assert(sv.contains(x));
                    let a = choose|a: int| 0 <= a < sv.len() && sv[a] == x;
                    assert(nv[a] == x);
                } else {
                    assert(nv[sv.len() as int] == x);
                }
            }
        }
        assert(nv.to_set() =~= pv.subrange(0, i + 1).to_set());
        i = i + 1;
    }
    assert(pv.subrange(0, i as int) =~= pv);
    proof {
        seen@.map_values(|s: String| s@).unique_seq_to_set();
    }
    seen.len()
}

/// After a write failed on a full map (`attempts` made so far): the doubled
/// map size to retry with, or `MapFull` once attempts or growth room run out.
pub fn grow_or_give_up(attempts: u32, current_mb: usize, max_mb: usize) -> (r: Result<usize, ErrorKind>)
    ensures
        (attempts < MAX_WRITE_ATTEMPTS && 2 * current_mb <= max_mb) ==> r == Ok::<usize, ErrorKind>(
            (2 * current_mb) as usize,
        ),
        !(attempts < MAX_WRITE_ATTEMPTS && 2 * current_mb <= max_mb) ==> r == Err::<usize, ErrorKind>(
            ErrorKind::MapFull,
        ),
{
    match grow_after_failure(attempts, true, current_mb, max_mb) {
        Some(n) => Ok(n),
        None => Err(ErrorKind::MapFull),
    }
}

/// Writer access requires the lock; without it the caller gets `Locked`
/// (and falls back to reader mode).
pub fn writer_access(lock_acquired: bool) -> (r: Result<AccessMode, ErrorKind>)
    ensures
        lock_acquired ==> r == Ok::<AccessMode, ErrorKind>(AccessMode::Writer),
        !lock_acquired ==> r == Err::<AccessMode, ErrorKind>(ErrorKind::Locked),
{
    if lock_acquired {
        Ok(AccessMode::Writer)
    } else {
        Err(ErrorKind::Locked)
    }
}

} // verus!
