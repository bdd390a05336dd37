//! Path normalisation. Every path stored or compared by the index goes through
//! `normalize_path`: long-path and UNC long-path prefixes are stripped,
//! backslashes become forward slashes, and trailing slashes are dropped.
use vstd::prelude::*;
use crate::text::{chars_of, string_of};

verus! {

/// `p` starts with the UNC long-path prefix `\\?\UNC\`.
pub open spec fn has_unc_long_prefix(p: Seq<char>) -> bool {
    p.len() >= 8 && p[0] == '\\' && p[1] == '\\' && p[2] == '?' && p[3] == '\\' && p[4] == 'U'
        && p[5] == 'N' && p[6] == 'C' && p[7] == '\\'
}

/// `p` starts with the long-path prefix `\\?\`.
pub open spec fn has_long_prefix(p: Seq<char>) -> bool {
    p.len() >= 4 && p[0] == '\\' && p[1] == '\\' && p[2] == '?' && p[3] == '\\'
}

/// `\\?\UNC\server\share` becomes `\\server\share`; `\\?\C:\x` becomes `C:\x`.
pub open spec fn strip_prefixes(p: Seq<char>) -> Seq<char> {
    if has_unc_long_prefix(p) {
        seq!['\\', '\\'] + p.subrange(8, p.len() as int)
    } else if has_long_prefix(p) {
        p.subrange(4, p.len() as int)
    } else {
        p
    }
}

/// A backslash becomes a forward slash; other characters stay.
pub open spec fn slash_of(c: char) -> char {
    if c == '\\' {
        '/'
    } else {
        c
    }
}

/// Every backslash replaced by a forward slash.
pub open spec fn forward_slashes(p: Seq<char>) -> Seq<char> {
    p.map_values(|c: char| slash_of(c))
}

/// Trailing slashes removed, keeping a lone root `/`.
pub open spec fn trim_trailing_slashes(p: Seq<char>) -> Seq<char>
    decreases p.len(),
{
    if p.len() > 1 && p.last() == '/' {
        trim_trailing_slashes(p.drop_last())
    } else {
        p
    }
}

/// The normal form of a path.
pub open spec fn normalised(p: Seq<char>) -> Seq<char> {
    trim_trailing_slashes(forward_slashes(strip_prefixes(p)))
}

/// Leading `./` segments removed.
pub open spec fn trim_dot_slash(p: Seq<char>) -> Seq<char>
    decreases p.len(),
{
    if p.len() >= 2 && p[0] == '.' && p[1] == '/' {
        trim_dot_slash(p.subrange(2, p.len() as int))
    } else {
        p
    }
}

/// Every trailing slash removed.
pub open spec fn trim_all_trailing_slashes(p: Seq<char>) -> Seq<char>
    decreases p.len(),
{
    if p.len() > 0 && p.last() == '/' {
        trim_all_trailing_slashes(p.drop_last())
    } else {
        p
    }
}

/// The form in which two paths are compared: normalised, without leading `./`.
pub open spec fn compare_form(p: Seq<char>) -> Seq<char> {
    trim_dot_slash(normalised(p))
}

/// The prefix that every tracked file under directory `dir` starts with.
pub open spec fn dir_prefix(dir: Seq<char>) -> Seq<char> {
    let d = normalised(dir);
    if d.len() > 0 && d.last() == '/' {
        d
    } else {
        d.push('/')
    }
}

/// A result path passes a path filter when its compare form starts with the
/// filter's compare form without trailing slashes.
pub open spec fn passes_filter(path: Seq<char>, filter: Seq<char>) -> bool {
    trim_all_trailing_slashes(compare_form(filter)).is_prefix_of(compare_form(path))
}

proof fn lemma_trim_trailing(p: Seq<char>)
    ensures
        trim_trailing_slashes(p).is_prefix_of(p),
        trim_trailing_slashes(p).len() <= 1 || trim_trailing_slashes(p).last() != '/',
        trim_trailing_slashes(p).len() > 0 || p.len() == 0,
    decreases p.len(),
{
    if p.len() > 1 && p.last() == '/' {
        lemma_trim_trailing(p.drop_last());
    }
}

proof fn lemma_trim_fixpoint(p: Seq<char>)
    requires
        p.len() <= 1 || p.last() != '/',
    ensures
        trim_trailing_slashes(p) == p,
{
}

/// Normalising a path twice gives the same result as normalising it once.
pub proof fn lemma_normalise_idempotent(p: Seq<char>)
    ensures
        normalised(normalised(p)) == normalised(p),
{
    let f = forward_slashes(strip_prefixes(p));
    let q = normalised(p);
    lemma_trim_trailing(f);
    assert forall|i: int| 0 <= i < q.len() implies q[i] != '\\' by {
        assert(q[i] == f[i]);
    }
    if q.len() > 0 {
        assert(q[0] != '\\');
    }
    assert(strip_prefixes(q) == q);
    assert(forward_slashes(q) =~= q);
    lemma_trim_fixpoint(q);
}

/// The normal form of `p`.
pub fn normalize_path(p: &str) -> (r: String)
    ensures
        r@ == normalised(p@),
{
    let cs = chars_of(p);
    let n = cs.len();
    let mut out: Vec<char> = Vec::new();
    let start: usize;
    let ghost head: Seq<char>;
    if n >= 8 && cs[0] == '\\' && cs[1] == '\\' && cs[2] == '?' && cs[3] == '\\' && cs[4] == 'U'
        && cs[5] == 'N' && cs[6] == 'C' && cs[7] == '\\' {
        out.push('/');
        out.push('/');
        start = 8;
        proof {
            head = seq!['\\', '\\'];
        }
    } else if n >= 4 && cs[0] == '\\' && cs[1] == '\\' && cs[2] == '?' && cs[3] == '\\' {
        start = 4;
        proof {
            head = Seq::empty();
        }
    } else {
        start = 0;
        proof {
            head = Seq::empty();
        }
    }
    assert(strip_prefixes(cs@) =~= head + cs@.subrange(start as int, n as int));
    assert(out@ =~= forward_slashes(head));
    let mut i = start;
    while i < n
        invariant
            start <= i <= n,
            n == cs@.len(),
            out@ == forward_slashes(head) + forward_slashes(cs@.subrange(start as int, i as int)),
        decreases n - i,
    {
        let c = cs[i];
        if c == '\\' {
            out.push('/');
        } else {
            out.push(c);
        }
        assert(forward_slashes(cs@.subrange(start as int, i + 1)) =~= forward_slashes(
            cs@.subrange(start as int, i as int),
        ).push(slash_of(c)));
        i = i + 1;
    }
    assert(out@ =~= forward_slashes(strip_prefixes(cs@)));
    let ghost full = out@;
    while out.len() > 1 && out[out.len() - 1] == '/'
        invariant
            trim_trailing_slashes(out@) == trim_trailing_slashes(full),
        decreases out.len(),
    {
        let ghost before = out@;
        out.pop();
        assert(out@ =~= before.drop_last());
    }
    string_of(&out)
}

/// The normal form of a path reported by the file watcher.
pub fn normalize_event_path(p: &str) -> (r: String)
    ensures
        r@ == normalised(p@),
{
    normalize_path(p)
}

fn trim_dot_slash_vec(cs: &Vec<char>) -> (r: Vec<char>)
    ensures
        r@ == trim_dot_slash(cs@),
{
    let n = cs.len();
    let mut i: usize = 0;
    assert(cs@.subrange(0, n as int) =~= cs@);
    while n - i >= 2 && cs[i] == '.' && cs[i + 1] == '/'
        invariant
            i <= n,
            n == cs@.len(),
            trim_dot_slash(cs@.subrange(i as int, n as int)) == trim_dot_slash(cs@),
        decreases n - i,
    {
        assert(cs@.subrange(i as int, n as int).subrange(2, (n - i) as int) =~= cs@.subrange(
            i + 2,
            n as int,
        ));
        i = i + 2;
    }
    let mut out: Vec<char> = Vec::new();
    let mut j = i;
    while j < n
        invariant
            i <= j <= n,
            n == cs@.len(),
            out@ == cs@.subrange(i as int, j as int),
        decreases n - j,
    {
        out.push(cs[j]);
        assert(cs@.subrange(i as int, j + 1) =~= cs@.subrange(i as int, j as int).push(cs@[j as int]));
        j = j + 1;
    }
    out
}

/// A path in the form used for comparisons: normalised, with leading `./`
/// segments removed.
pub fn normalize_path_for_compare(p: &str) -> (r: String)
    ensures
        r@ == compare_form(p@),
{
    let n = normalize_path(p);
    let cs = chars_of(n.as_str());
    let t = trim_dot_slash_vec(&cs);
    string_of(&t)
}

fn starts_with_chars(p: &Vec<char>, s: &Vec<char>) -> (r: bool)
    ensures
        r == p@.is_prefix_of(s@),
{
    if p.len() > s.len() {
        return false;
    }
    let mut i: usize = 0;
    while i < p.len()
        invariant
            i <= p.len() <= s.len(),
            forall|k: int| 0 <= k < i ==> p@[k] == s@[k],
        decreases p.len() - i,
    {
        if p[i] != s[i] {
            return false;
        }
        i = i + 1;
    }
    proof {
        assert(p@ =~= s@.subrange(0, p@.len() as int));
    }
    true
}

/// Whether the tracked (already normalised) path `file` lies under directory
/// `dir`: it starts with the normal form of `dir` followed by a slash.
pub fn is_under_dir(file: &str, dir: &str) -> (r: bool)
    ensures
        r == dir_prefix(dir@).is_prefix_of(file@),
{
    let d = normalize_path(dir);
    let mut pre = chars_of(d.as_str());
    let plen = pre.len();
    if !(plen > 0 && pre[plen - 1] == '/') {
        pre.push('/');
    }
    let f = chars_of(file);
    starts_with_chars(&pre, &f)
}

/// Whether a result path passes the caller's path filter: after both are
/// brought to compare form, the path starts with the filter without its
/// trailing slashes.
pub fn matches_path_filter(path: &str, filter: &str) -> (r: bool)
    ensures
        r == passes_filter(path@, filter@),
{
    let nf = normalize_path_for_compare(filter);
    let mut fcs = chars_of(nf.as_str());
    let ghost full = fcs@;
    while fcs.len() > 0 && fcs[fcs.len() - 1] == '/'
        invariant
            trim_all_trailing_slashes(fcs@) == trim_all_trailing_slashes(full),
        decreases fcs.len(),
    {
        let ghost before = fcs@;
        fcs.pop();
        assert(fcs@ =~= before.drop_last());
    }
    let np = normalize_path_for_compare(path);
    let pcs = chars_of(np.as_str());
    starts_with_chars(&fcs, &pcs)
}

} // verus!
