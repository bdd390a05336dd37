//! File-watcher and HEAD-watcher decisions: which paths are watchable, how
//! raw watcher notifications become `FileEvent`s, and when the HEAD file's
//! content signals a branch change.
use vstd::prelude::*;
use crate::rules::{
    excluded_dir_names, excluded_dirs, skipped_extension_names, skipped_extensions,
    skipped_suffix_names, skipped_suffixes, views_of,
};
use crate::text::{chars_of, eq_chars, string_of};

verus! {

/// The lower-case form of a text, as `str::to_lowercase` computes it.
pub uninterp spec fn lower_of(s: Seq<char>) -> Seq<char>;

/// Relies on `str::to_lowercase`: the lower-case form depends on the
/// characters of the text alone.
#[verifier::external_body]
fn lowercase(s: &str) -> (r: String)
    ensures
        r@ == lower_of(s@),
{
    s.to_lowercase()
}

/// The `/`-separated segments of a path (the root gives an empty first one).
pub open spec fn segments(p: Seq<char>) -> Seq<Seq<char>>
    decreases p.len(),
{
    if p.len() == 0 {
        seq![seq![]]
    } else {
        let prev = segments(p.drop_last());
        if p.last() == '/' {
            prev.push(seq![])
        } else {
            prev.update(prev.len() - 1, prev.last().push(p.last()))
        }
    }
}

proof fn lemma_segments_nonempty(p: Seq<char>)
    ensures
        segments(p).len() >= 1,
    decreases p.len(),
{
    if p.len() > 0 {
        lemma_segments_nonempty(p.drop_last());
    }
}

/// Some segment of the path is an excluded directory name.
pub open spec fn in_excluded_dir(p: Seq<char>) -> bool {
    exists|i: int| 0 <= i < segments(p).len() && excluded_dirs().contains(#[trigger] segments(p)[i])
}

/// The file name: the last segment, when it is neither empty nor `..`.
pub open spec fn file_name(p: Seq<char>) -> Option<Seq<char>> {
    let s = segments(p).last();
    if s.len() == 0 || s == ".."@ {
        None
    } else {
        Some(s)
    }
}

/// Index of the last `.` among the first `n` characters, or -1.
pub open spec fn last_dot(name: Seq<char>, n: int) -> int
    decreases n,
{
    if n <= 0 {
        -1
    } else if name[n - 1] == '.' {
        n - 1
    } else {
        last_dot(name, n - 1)
    }
}

/// The extension: the text after the last `.`, unless the only `.` starts
/// the name.
pub open spec fn extension(name: Seq<char>) -> Option<Seq<char>> {
    let d = last_dot(name, name.len() as int);
    if d <= 0 {
        None
    } else {
        Some(name.subrange(d + 1, name.len() as int))
    }
}

/// The name rules, given the lower-case extension and lower-case file name:
/// the extension is a skipped one, or the name ends with a skipped suffix.
pub open spec fn skipped_lower(lower_ext: Option<Seq<char>>, lower_name: Option<Seq<char>>) -> bool {
    (lower_ext matches Some(e) && skipped_extensions().contains(e)) || (lower_name matches Some(n)
        && has_skipped_suffix(n))
}

/// The name ends with one of the skipped suffixes.
pub open spec fn has_skipped_suffix(n: Seq<char>) -> bool {
    exists|i: int| 0 <= i < skipped_suffixes().len() && #[trigger] skipped_suffixes()[i].is_suffix_of(n)
}

/// The character view of an optional string.
pub open spec fn opt_view(o: Option<String>) -> Option<Seq<char>> {
    match o {
        Some(s) => Some(s@),
        None => None,
    }
}

/// The lower-case form of an optional text.
pub open spec fn lower_opt(o: Option<Seq<char>>) -> Option<Seq<char>> {
    match o {
        Some(s) => Some(lower_of(s)),
        None => None,
    }
}

/// The path's name is skipped by extension or suffix, compared in lower case.
pub open spec fn skipped_by_name_spec(p: Seq<char>) -> bool {
    let name = file_name(p);
    let ext = match name {
        Some(n) => extension(n),
        None => None,
    };
    skipped_lower(lower_opt(ext), lower_opt(name))
}

/// A created or modified path is watched when it lies in no excluded
/// directory, its name is not skipped, the file is not empty, and its
/// language is indexable.
pub open spec fn watchable(p: Seq<char>, zero_length: bool, indexable: bool) -> bool {
    !in_excluded_dir(p) && !skipped_by_name_spec(p) && !zero_length && indexable
}

fn contains_name(list: &Vec<&'static str>, s: &Vec<char>) -> (r: bool)
    ensures
        r == views_of(list@).contains(s@),
{
    let mut i: usize = 0;
    while i < list.len()
        invariant
            i <= list@.len(),
            forall|k: int| 0 <= k < i ==> views_of(list@)[k] != s@,
        decreases list.len() - i,
    {
        let cs = chars_of(list[i]);
        if eq_chars(&cs, s) {
            assert(views_of(list@)[i as int] == s@);
            return true;
        }
        i = i + 1;
    }
    false
}

/// Whether some segment of the path is an excluded directory name.
pub fn is_in_ignored_dir(path: &str) -> (r: bool)
    ensures
        r == in_excluded_dir(path@),
{
    let cs = chars_of(path);
    let names = excluded_dir_names();
    let mut cur: Vec<char> = Vec::new();
    let mut found = false;
    let mut i: usize = 0;
    proof {
        assert(cs@.subrange(0, 0) =~= seq![]);
    }
    while i < cs.len()
        invariant
            i <= cs@.len(),
            views_of(names@) == excluded_dirs(),
            segments(cs@.subrange(0, i as int)).len() >= 1,
            cur@ == segments(cs@.subrange(0, i as int)).last(),
            found == exists|k: int|
                0 <= k < segments(cs@.subrange(0, i as int)).len() - 1 && excluded_dirs().contains(
                    #[trigger] segments(cs@.subrange(0, i as int))[k],
                ),
        decreases cs.len() - i,
    {
        let ghost pre = cs@.subrange(0, i as int);
        let ghost next = cs@.subrange(0, i + 1);
        assert(next.drop_last() =~= pre);
        proof {
            lemma_segments_nonempty(pre);
        }
        let ghost sp = segments(pre);
        let ghost sn = segments(next);
        let ghost old_found = found;
        if cs[i] == '/' {
            let hit = contains_name(&names, &cur);
            assert(sn == sp.push(seq![]));
            let ghost old_cur = cur@;
            found = found || hit;
            cur = Vec::new();
            proof {
                if found {
                    if hit {
                        assert(sn[sp.len() - 1] == old_cur);
                        assert(excluded_dirs().contains(sn[sp.len() - 1]));
                    } else {
                        let k = choose|k: int|
                            0 <= k < sp.len() - 1 && excluded_dirs().contains(#[trigger] sp[k]);
                        assert(sn[k] == sp[k]);
                    }
                }
                if exists|k: int| 0 <= k < sn.len() - 1 && excluded_dirs().contains(#[trigger] sn[k]) {
                    let k = choose|k: int| 0 <= k < sn.len() - 1 && excluded_dirs().contains(#[trigger] sn[k]);
                    if k < sp.len() - 1 {
                        assert(sp[k] == sn[k]);
                    } else {
                        assert(sn[k] == old_cur);
                    }
                }
                assert(cur@ =~= sn.last());
            }
        } else {
            let ghost before = cur@;
            cur.push(cs[i]);
            assert(sn == sp.update(sp.len() - 1, before.push(cs@[i as int])));
            proof {
                if old_found {
                    let k = choose|k: int|
                        0 <= k < sp.len() - 1 && excluded_dirs().contains(#[trigger] sp[k]);
                    assert(sn[k] == sp[k]);
                }
                if exists|k: int| 0 <= k < sn.len() - 1 && excluded_dirs().contains(#[trigger] sn[k]) {
                    let k = choose|k: int| 0 <= k < sn.len() - 1 && excluded_dirs().contains(#[trigger] sn[k]);
                    assert(sp[k] == sn[k]);
                }
            }
        }
        i = i + 1;
    }
    assert(cs@.subrange(0, i as int) =~= cs@);
    let last_hit = contains_name(&names, &cur);
    found || last_hit
}

fn file_name_of(cs: &Vec<char>) -> (r: Option<Vec<char>>)
    ensures
        r matches Some(v) ==> file_name(cs@) == Some(v@),
        r is None ==> file_name(cs@) is None,
{
    let mut cur: Vec<char> = Vec::new();
    let mut i: usize = 0;
    proof {
        assert(cs@.subrange(0, 0) =~= seq![]);
    }
    while i < cs.len()
        invariant
            i <= cs@.len(),
            segments(cs@.subrange(0, i as int)).len() >= 1,
            cur@ == segments(cs@.subrange(0, i as int)).last(),
        decreases cs.len() - i,
    {
        let ghost pre = cs@.subrange(0, i as int);
        let ghost next = cs@.subrange(0, i + 1);
        assert(next.drop_last() =~= pre);
        proof {
            lemma_segments_nonempty(pre);
        }
        if cs[i] == '/' {
            cur = Vec::new();
        } else {
            cur.push(cs[i]);
        }
        i = i + 1;
    }
    assert(cs@.subrange(0, i as int) =~= cs@);
    let dots = chars_of("..");
    if cur.len() == 0 || eq_chars(&cur, &dots) {
        None
    } else {
        Some(cur)
    }
}

fn extension_of(name: &Vec<char>) -> (r: Option<Vec<char>>)
    ensures
        r matches Some(v) ==> extension(name@) == Some(v@),
        r is None ==> extension(name@) is None,
{
    let n = name.len();
    let mut k: usize = n;
    while k > 0 && name[k - 1] != '.'
        invariant
            k <= n == name@.len(),
            last_dot(name@, k as int) == last_dot(name@, n as int),
        decreases k,
    {
        k = k - 1;
    }
    if k <= 1 {
        return None;
    }
    let mut out: Vec<char> = Vec::new();
    let mut j = k;
    while j < n
        invariant
            k <= j <= n == name@.len(),
            out@ == name@.subrange(k as int, j as int),
        decreases n - j,
    {
        out.push(name[j]);
        assert(name@.subrange(k as int, j + 1) =~= name@.subrange(k as int, j as int).push(
            name@[j as int],
        ));
        j = j + 1;
    }
    Some(out)
}

fn ends_with_chars(s: &Vec<char>, suffix: &Vec<char>) -> (r: bool)
    ensures
        r == suffix@.is_suffix_of(s@),
{
    if suffix.len() > s.len() {
        return false;
    }
    let slen = s.len();
    let off = slen - suffix.len();
    let mut i: usize = 0;
    while i < suffix.len()
        invariant
            i <= suffix@.len(),
            slen == s@.len(),
            off + suffix@.len() == slen,
            forall|k: int| 0 <= k < i ==> suffix@[k] == s@[off + k],
        decreases suffix.len() - i,
    {
        assert(off + i < s@.len());
        if suffix[i] != s[off + i] {
            return false;
        }
        i = i + 1;
    }
    assert(suffix@ =~= s@.subrange(off as int, s@.len() as int));
    true
}

/// The name rules applied to an already lower-cased extension and file name.
pub fn skipped_by_name(lower_ext: &Option<String>, lower_name: &Option<String>) -> (r: bool)
    ensures
        r == skipped_lower(opt_view(*lower_ext), opt_view(*lower_name)),
{
    let exts = skipped_extension_names();
    let by_ext = match lower_ext {
        Some(e) => {
            let ecs = chars_of(e.as_str());
            contains_name(&exts, &ecs)
        },
        None => false,
    };
    if by_ext {
        return true;
    }
    match lower_name {
        Some(nm) => {
            let ncs = chars_of(nm.as_str());
            let sufs = skipped_suffix_names();
            let mut i: usize = 0;
            while i < sufs.len()
                invariant
                    i <= sufs@.len(),
                    ncs@ == nm@,
                    opt_view(*lower_name) == Some(nm@),
                    views_of(sufs@) == skipped_suffixes(),
                    forall|k: int| 0 <= k < i ==> !(#[trigger] skipped_suffixes()[k]).is_suffix_of(
                        ncs@,
                    ),
                decreases sufs.len() - i,
            {
                let scs = chars_of(sufs[i]);
                if ends_with_chars(&ncs, &scs) {
                    assert(skipped_suffixes()[i as int] == scs@);
                    assert(skipped_suffixes()[i as int].is_suffix_of(nm@));
                    assert(skipped_suffixes().len() == sufs@.len());
                    assert(has_skipped_suffix(nm@));
                    assert(opt_view(*lower_name) == Some(nm@));
                    return true;
                }
                i = i + 1;
            }
            false
        },
        None => false,
    }
}

/// Whether a created or modified (normalised) path should be indexed.
/// `zero_length` says the file is known to be empty; `indexable` says its
/// language is one the chunker handles.
pub fn is_watchable(path: &str, zero_length: bool, indexable: bool) -> (r: bool)
    ensures
        r == watchable(path@, zero_length, indexable),
{
    if is_in_ignored_dir(path) {
        return false;
    }
    let cs = chars_of(path);
    let name = file_name_of(&cs);
    let (lower_ext, lower_name) = match name {
        Some(n) => {
            let ext = extension_of(&n);
            let le = match ext {
                Some(e) => Some(lowercase(string_of(&e).as_str())),
                None => None,
            };
            (le, Some(lowercase(string_of(&n).as_str())))
        },
        None => (None, None),
    };
    if skipped_by_name(&lower_ext, &lower_name) {
        return false;
    }
    !zero_length && indexable
}

} // verus!
