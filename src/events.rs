//! File events and the decisions of the event loop: turning raw watcher
//! notifications into de-duplicated `FileEvent`s, folding events into the
//! to-index / to-remove buffers, deciding when to flush them, and detecting
//! branch changes from the content of the HEAD file.
use vstd::prelude::*;
use crate::paths::{normalize_event_path, normalised};
use crate::text::str_eq;
use crate::watch::{in_excluded_dir, is_in_ignored_dir, is_watchable, watchable};

verus! {

/// A change to a file, as the synchroniser sees it.
#[derive(Debug, Clone, PartialEq, Eq)]
pub enum FileEvent {
    /// The file was created or modified.
    Modified(String),
    /// The file (or a directory) was deleted.
    Deleted(String),
    /// The file was renamed (from, to).
    Renamed(String, String),
}

/// A file event over character sequences.
pub enum EventView {
    Modified(Seq<char>),
    Deleted(Seq<char>),
    Renamed(Seq<char>, Seq<char>),
}

impl View for FileEvent {
    type V = EventView;

    open spec fn view(&self) -> EventView {
        match self {
            FileEvent::Modified(p) => EventView::Modified(p@),
            FileEvent::Deleted(p) => EventView::Deleted(p@),
            FileEvent::Renamed(a, b) => EventView::Renamed(a@, b@),
        }
    }
}

/// The kind of a raw watcher notification.
#[derive(Debug, Clone, Copy, PartialEq, Eq, Structural)]
pub enum RawKind {
    CreateOrModify,
    Remove,
    Other,
}

/// One path of a raw watcher notification, with what the file system shows
/// of it.
#[derive(Debug, Clone)]
pub struct RawPath {
    pub kind: RawKind,
    /// The path as the watcher reported it.
    pub path: String,
    /// The file still exists.
    pub exists: bool,
    /// The file is known to be empty.
    pub zero_length: bool,
    /// The file's language is one the chunker handles.
    pub indexable: bool,
}

/// A raw notification path over character sequences.
pub struct RawView {
    pub kind: RawKind,
    pub path: Seq<char>,
    pub exists: bool,
    pub zero_length: bool,
    pub indexable: bool,
}

impl View for RawPath {
    type V = RawView;

    open spec fn view(&self) -> RawView {
        RawView {
            kind: self.kind,
            path: self.path@,
            exists: self.exists,
            zero_length: self.zero_length,
            indexable: self.indexable,
        }
    }
}

/// The events produced from the raw notifications, and the paths seen so
/// far. A path is considered once: later notifications for a seen path, and
/// paths inside excluded directories, are dropped. Creations and
/// modifications are kept only for watchable files that still exist;
/// removals are always kept (a removed directory may be reported alone).
pub open spec fn classify(raw: Seq<RawView>) -> (Seq<EventView>, Seq<Seq<char>>)
    decreases raw.len(),
{
    if raw.len() == 0 {
        (seq![], seq![])
    } else {
        let (evs, seen) = classify(raw.drop_last());
        let x = raw.last();
        let p = normalised(x.path);
        if in_excluded_dir(p) || seen.contains(p) {
            (evs, seen)
        } else {
            let seen2 = seen.push(p);
            match x.kind {
                RawKind::CreateOrModify => if watchable(p, x.zero_length, x.indexable) && x.exists {
                    (evs.push(EventView::Modified(p)), seen2)
                } else {
                    (evs, seen2)
                },
                RawKind::Remove => (evs.push(EventView::Deleted(p)), seen2),
                RawKind::Other => (evs, seen2),
            }
        }
    }
}

fn seen_contains(seen: &Vec<String>, p: &String) -> (r: bool)
    ensures
        r == seen@.map_values(|s: String| s@).contains(p@),
{
    let ghost sv = seen@.map_values(|s: String| s@);
    let mut i: usize = 0;
    while i < seen.len()
        invariant
            i <= seen@.len(),
            sv == seen@.map_values(|s: String| s@),
            forall|k: int| 0 <= k < i ==> sv[k] != p@,
        decreases seen.len() - i,
    {
        if str_eq(seen[i].as_str(), p.as_str()) {
            assert(sv[i as int] == p@);
            return true;
        }
        i = i + 1;
    }
    false
}

/// Turns a drained batch of raw notifications (flattened, one entry per
/// path) into file events, normalising every path.
pub fn classify_events(raw: &Vec<RawPath>) -> (r: Vec<FileEvent>)
    ensures
        r@.map_values(|e: FileEvent| e@) == classify(raw@.map_values(|x: RawPath| x@)).0,
{
    let ghost rv = raw@.map_values(|x: RawPath| x@);
    let mut events: Vec<FileEvent> = Vec::new();
    let mut seen: Vec<String> = Vec::new();
    let mut i: usize = 0;
    while i < raw.len()
        invariant
            i <= raw@.len(),
            rv == raw@.map_values(|x: RawPath| x@),
            events@.map_values(|e: FileEvent| e@) == classify(rv.subrange(0, i as int)).0,
            seen@.map_values(|s: String| s@) == classify(rv.subrange(0, i as int)).1,
        decreases raw.len() - i,
    {
        let ghost pre = rv.subrange(0, i as int);
        let ghost next = rv.subrange(0, i + 1);
        assert(next.drop_last() =~= pre);
        assert(next.last() == raw@[i as int]@);
        let ghost ev0 = events@;
        let ghost seen0 = seen@;
        let x = &raw[i];
        let p = normalize_event_path(x.path.as_str());
        let skip = is_in_ignored_dir(p.as_str()) || seen_contains(&seen, &p);
        if !skip {
            seen.push(p.clone());
            assert(seen@.map_values(|s: String| s@) =~= seen0.map_values(|s: String| s@).push(p@));
            match x.kind {
                RawKind::CreateOrModify => {
                    if is_watchable(p.as_str(), x.zero_length, x.indexable) && x.exists {
                        events.push(FileEvent::Modified(p));
                        assert(events@.map_values(|e: FileEvent| e@) =~= ev0.map_values(
                            |e: FileEvent| e@,
                        ).push(EventView::Modified(normalised(x.path@))));
                    }
                },
                RawKind::Remove => {
                    events.push(FileEvent::Deleted(p));
                    assert(events@.map_values(|e: FileEvent| e@) =~= ev0.map_values(
                        |e: FileEvent| e@,
                    ).push(EventView::Deleted(normalised(x.path@))));
                },
                RawKind::Other => {},
            }
        }
        i = i + 1;
    }
    assert(rv.subrange(0, i as int) =~= rv);
    events
}

/// A branch change: the HEAD file's content before and after.
#[derive(Debug, Clone, PartialEq, Eq)]
pub struct HeadChange {
    /// Previous HEAD content (e.g. "ref: refs/heads/main\n").
    pub old_head: String,
    /// New HEAD content.
    pub new_head: String,
}

/// Branch-change detector over the content of one HEAD file.
#[derive(Debug, Clone)]
pub struct GitHeadWatcher {
    /// The resolved HEAD file this watcher reads.
    pub head_path: String,
    /// The content seen at the last check, if any.
    pub last_head_content: Option<String>,
}

impl GitHeadWatcher {
    /// A watcher over `head_path` that has seen nothing yet.
    pub fn new(head_path: String) -> (r: GitHeadWatcher)
        ensures
            r.head_path == head_path,
            r.last_head_content is None,
    {
        GitHeadWatcher { head_path, last_head_content: None }
    }

    /// Compares the HEAD file's current content with the last one seen. The
    /// first check only records the content and reports no change; later
    /// checks report a change, and record the new content, exactly when the
    /// content differs.
    pub fn check(&mut self, current: String) -> (r: Option<HeadChange>)
        ensures
            final(self).head_path == old(self).head_path,
            final(self).last_head_content matches Some(c) && c@ == current@,
            old(self).last_head_content is None ==> r is None,
            old(self).last_head_content is Some && old(self).last_head_content.unwrap()@ == current@
                ==> r is None,
            old(self).last_head_content is Some && old(self).last_head_content.unwrap()@ != current@
                ==> (r matches Some(h) && h.old_head@ == old(self).last_head_content.unwrap()@
                && h.new_head@ == current@),
    {
        match &self.last_head_content {
            None => {
                self.last_head_content = Some(current);
                None
            },
            Some(prev) => {
                if str_eq(prev.as_str(), current.as_str()) {
                    None
                } else {
                    let change = HeadChange { old_head: prev.clone(), new_head: current.clone() };
                    self.last_head_content = Some(current);
                    Some(change)
                }
            },
        }
    }
}

} // verus!
