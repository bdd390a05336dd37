//! Database discovery: validity of a database directory, the reason an
//! existing one is incomplete, and the order in which candidate locations are
//! tried.
use vstd::prelude::*;
use crate::store::ErrorKind;
use crate::text::{eq_chars, push_str, string_of};

verus! {

/// What the file system shows of a database directory: whether it exists,
/// whether it is a directory, and which of its components are present
/// (`metadata.json`, `data.mdb`, and the `fts/` directory).
#[derive(Debug, Clone, Copy)]
pub struct DbProbe {
    pub exists: bool,
    pub is_dir: bool,
    pub has_metadata: bool,
    pub has_data: bool,
    pub has_fts_dir: bool,
}

/// A directory is a valid database when it is a directory holding all of
/// `metadata.json`, `data.mdb` and `fts/`.
pub open spec fn probe_valid(p: DbProbe) -> bool {
    p.exists && p.is_dir && p.has_metadata && p.has_data && p.has_fts_dir
}

/// Whether a database directory is valid and complete.
pub fn is_valid_database(p: &DbProbe) -> (r: bool)
    ensures
        r == probe_valid(*p),
{
    p.exists && p.is_dir && p.has_metadata && p.has_data && p.has_fts_dir
}

/// The names of the missing components, in the order metadata, data, index.
pub open spec fn missing_names(p: DbProbe) -> Seq<Seq<char>> {
    let a: Seq<Seq<char>> = if p.has_metadata { seq![] } else { seq!["metadata.json"@] };
    let b: Seq<Seq<char>> = if p.has_data { seq![] } else { seq!["data.mdb"@] };
    let c: Seq<Seq<char>> = if p.has_fts_dir { seq![] } else { seq!["fts/"@] };
    a + b + c
}

/// The parts joined with `", "` between consecutive parts.
pub open spec fn join_comma(parts: Seq<Seq<char>>) -> Seq<char>
    decreases parts.len(),
{
    if parts.len() == 0 {
        seq![]
    } else if parts.len() == 1 {
        parts[0]
    } else {
        join_comma(parts.drop_last()) + ", "@ + parts.last()
    }
}

/// Appends the missing component names, comma-separated, and returns them.
pub(crate) fn missing_components(p: &DbProbe) -> (r: Vec<char>)
    ensures
        r@ == join_comma(missing_names(*p)),
{
    let mut names: Vec<&str> = Vec::new();
    if !p.has_metadata {
        names.push("metadata.json");
    }
    if !p.has_data {
        names.push("data.mdb");
    }
    if !p.has_fts_dir {
        names.push("fts/");
    }
    let ghost parts = names@.map_values(|s: &str| s@);
    assert(parts =~= missing_names(*p));
    let mut out: Vec<char> = Vec::new();
    let mut i: usize = 0;
    while i < names.len()
        invariant
            i <= names@.len(),
            parts == names@.map_values(|s: &str| s@),
            out@ == join_comma(parts.subrange(0, i as int)),
        decreases names.len() - i,
    {
        if i > 0 {
            push_str(&mut out, ", ");
        }
        push_str(&mut out, names[i]);
        assert(parts.subrange(0, i + 1).drop_last() =~= parts.subrange(0, i as int));
        i = i + 1;
    }
    assert(parts.subrange(0, names@.len() as int) =~= parts);
    out
}

/// The reason an existing database directory is incomplete, if it is.
pub open spec fn integrity_problem(p: DbProbe) -> Option<Seq<char>> {
    if !p.exists {
        None
    } else if !p.is_dir {
        Some("exists but is not a directory"@)
    } else if p.has_metadata && p.has_data && p.has_fts_dir {
        None
    } else {
        Some("missing: "@ + join_comma(missing_names(p)))
    }
}

/// Why an existing database directory is incomplete: `None` when it is valid
/// or does not exist at all.
pub fn check_database_integrity(p: &DbProbe) -> (r: Option<String>)
    ensures
        r matches Some(s) ==> integrity_problem(*p) == Some(s@),
        r is None ==> integrity_problem(*p) is None,
{
    if !p.exists {
        return None;
    }
    if !p.is_dir {
        let mut v: Vec<char> = Vec::new();
        push_str(&mut v, "exists but is not a directory");
        return Some(string_of(&v));
    }
    if p.has_metadata && p.has_data && p.has_fts_dir {
        return None;
    }
    let mut v: Vec<char> = Vec::new();
    push_str(&mut v, "missing: ");
    let mut m = missing_components(p);
    v.append(&mut m);
    Some(string_of(&v))
}

/// A database found by discovery.
#[derive(Debug, Clone)]
pub struct DatabaseInfo {
    /// The project root: the directory that holds the database directory.
    pub project_path: String,
    /// The database directory.
    pub db_path: String,
    /// Whether it was found at the starting path itself.
    pub is_current: bool,
    /// 0 at the starting path, 1 for a child or the parent, and so on;
    /// `usize::MAX` for a globally registered database.
    pub depth: usize,
    /// Whether it came from the global registry.
    pub is_global: bool,
}

/// A place where a database may be found.
#[derive(Debug, Clone)]
pub struct Candidate {
    /// The directory's own name (used for child directories).
    pub name: String,
    pub project_path: String,
    pub db_path: String,
    pub probe: DbProbe,
}

/// Child directories that are never searched: hidden ones, `node_modules`
/// and `target`.
pub open spec fn skipped_child_name(name: Seq<char>) -> bool {
    (name.len() > 0 && name[0] == '.') || name == "node_modules"@ || name == "target"@
}

/// A child directory that is searched and holds a valid database.
pub open spec fn child_ok(c: Candidate) -> bool {
    !skipped_child_name(c.name@) && probe_valid(c.probe)
}

/// The information reported for candidate `c`.
pub open spec fn info_of(
    r: DatabaseInfo,
    c: Candidate,
    is_current: bool,
    depth: int,
    is_global: bool,
) -> bool {
    r.project_path@ == c.project_path@ && r.db_path@ == c.db_path@ && r.is_current == is_current
        && r.depth == depth && r.is_global == is_global
}

fn info(c: &Candidate, is_current: bool, depth: usize, is_global: bool) -> (r: DatabaseInfo)
    ensures
        info_of(r, *c, is_current, depth as int, is_global),
{
    DatabaseInfo {
        project_path: c.project_path.clone(),
        db_path: c.db_path.clone(),
        is_current,
        depth,
        is_global,
    }
}

fn is_skipped_child(name: &String) -> (r: bool)
    ensures
        r == skipped_child_name(name@),
{
    let cs = crate::text::chars_of(name.as_str());
    if cs.len() > 0 && cs[0] == '.' {
        return true;
    }
    let nm = crate::text::chars_of("node_modules");
    let tg = crate::text::chars_of("target");
    let a = eq_chars(&cs, &nm);
    let b = eq_chars(&cs, &tg);
    a || b
}

/// No child directory qualifies.
pub open spec fn no_child(children: Seq<Candidate>) -> bool {
    forall|i: int| 0 <= i < children.len() ==> !child_ok(#[trigger] children[i])
}

/// None of the (at most five searched) ancestors holds a valid database.
pub open spec fn no_ancestor(ancestors: Seq<Candidate>) -> bool {
    forall|i: int| 0 <= i < ancestors.len() && i < 5 ==> !probe_valid(#[trigger] ancestors[i].probe)
}

/// No globally registered database is valid.
pub open spec fn no_global(globals: Seq<Candidate>) -> bool {
    forall|i: int| 0 <= i < globals.len() ==> !probe_valid(#[trigger] globals[i].probe)
}

/// `d` reports the first qualifying child.
pub open spec fn first_child(d: DatabaseInfo, children: Seq<Candidate>) -> bool {
    exists|i: int|
        0 <= i < children.len() && child_ok(children[i]) && no_child(children.subrange(0, i))
            && info_of(d, children[i], false, 1, false)
}

/// `d` reports the nearest valid ancestor, at depth one more than its index.
pub open spec fn first_ancestor(d: DatabaseInfo, ancestors: Seq<Candidate>) -> bool {
    exists|i: int|
        0 <= i < ancestors.len() && i < 5 && probe_valid(ancestors[i].probe) && no_ancestor(
            ancestors.subrange(0, i),
        ) && info_of(d, ancestors[i], false, i + 1, false)
}

/// `d` reports the first valid global database.
pub open spec fn first_global(d: DatabaseInfo, globals: Seq<Candidate>) -> bool {
    exists|i: int|
        0 <= i < globals.len() && probe_valid(globals[i].probe) && no_global(globals.subrange(0, i))
            && info_of(d, globals[i], false, usize::MAX as int, true)
}

/// Picks the database to use from the candidates, in this order: the
/// starting directory itself; the first direct child (in the order given)
/// that is not skipped and holds a valid database; the nearest of up to five
/// ancestors (nearest first); the first valid globally registered one.
/// Invalid databases are passed over.
pub fn find_best_database(
    current: &Candidate,
    children: &Vec<Candidate>,
    ancestors: &Vec<Candidate>,
    globals: &Vec<Candidate>,
) -> (r: Option<DatabaseInfo>)
    ensures
        probe_valid(current.probe) ==> (r matches Some(d) && info_of(d, *current, true, 0, false)),
        !probe_valid(current.probe) && !no_child(children@) ==> (r matches Some(d) && first_child(
            d,
            children@,
        )),
        !probe_valid(current.probe) && no_child(children@) && !no_ancestor(ancestors@) ==> (r matches Some(d)
            && first_ancestor(d, ancestors@)),
        !probe_valid(current.probe) && no_child(children@) && no_ancestor(ancestors@) && !no_global(
            globals@,
        ) ==> (r matches Some(d) && first_global(d, globals@)),
        r is None <==> !probe_valid(current.probe) && no_child(children@) && no_ancestor(ancestors@)
            && no_global(globals@),
{
    if is_valid_database(&current.probe) {
        return Some(info(current, true, 0, false));
    }
    let mut i: usize = 0;
    assert(no_child(children@.subrange(0, 0)));
    while i < children.len()
        invariant
            i <= children@.len(),
            no_child(children@.subrange(0, i as int)),
            !probe_valid(current.probe),
        decreases children.len() - i,
    {
        let c = &children[i];
        let skipped = is_skipped_child(&c.name);
        if !skipped && is_valid_database(&c.probe) {
            return Some(info(c, false, 1, false));
        }
        assert(no_child(children@.subrange(0, i + 1)));
        i = i + 1;
    }
    assert(children@.subrange(0, i as int) =~= children@);
    let mut k: usize = 0;
    assert(no_ancestor(ancestors@.subrange(0, 0)));
    while k < ancestors.len() && k < 5
        invariant
            k <= ancestors@.len(),
            k <= 5,
            no_ancestor(ancestors@.subrange(0, k as int)),
            !probe_valid(current.probe),
            no_child(children@),
        decreases ancestors.len() - k,
    {
        let a = &ancestors[k];
        if is_valid_database(&a.probe) {
            return Some(info(a, false, k + 1, false));
        }
        assert(no_ancestor(ancestors@.subrange(0, k + 1)));
        k = k + 1;
    }
    assert(no_ancestor(ancestors@)) by {
        if k < 5 {
            assert(ancestors@.subrange(0, k as int) =~= ancestors@);
        } else {
            assert forall|j: int| 0 <= j < ancestors@.len() && j < 5 implies !probe_valid(
                #[trigger] ancestors@[j].probe,
            ) by {
                assert(ancestors@.subrange(0, k as int)[j] == ancestors@[j]);
            }
        }
    }
    let mut g: usize = 0;
    assert(no_global(globals@.subrange(0, 0)));
    while g < globals.len()
        invariant
            g <= globals@.len(),
            no_global(globals@.subrange(0, g as int)),
            !probe_valid(current.probe),
            no_child(children@),
            no_ancestor(ancestors@),
        decreases globals.len() - g,
    {
        let c = &globals[g];
        if is_valid_database(&c.probe) {
            return Some(info(c, false, usize::MAX, true));
        }
        assert(no_global(globals@.subrange(0, g + 1)));
        g = g + 1;
    }
    assert(globals@.subrange(0, g as int) =~= globals@);
    None
}

/// A refresh runs only on an existing, complete database, and never creates
/// one: `NotFound` when the directory is missing, `Invalid` when it is
/// incomplete.
pub fn require_database(p: &DbProbe) -> (r: Result<(), ErrorKind>)
    ensures
        !p.exists ==> r == Err::<(), ErrorKind>(ErrorKind::NotFound),
        p.exists && !probe_valid(*p) ==> r == Err::<(), ErrorKind>(ErrorKind::Invalid),
        probe_valid(*p) ==> r is Ok,
{
    if !p.exists {
        Err(ErrorKind::NotFound)
    } else if !is_valid_database(p) {
        Err(ErrorKind::Invalid)
    } else {
        Ok(())
    }
}

} // verus!
