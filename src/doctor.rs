//! Health checks behind the diagnostic report. Each check is a function from
//! what was observed (probes, loaded descriptors, counts) to a `CheckResult`.
use vstd::prelude::*;
use crate::discovery::{DatabaseInfo, DbProbe, probe_valid, missing_names, join_comma, missing_components};
use crate::file_meta::{tracks, unique_paths, Entries, FileMetaStore, FileStat, StatView};
use crate::store::StoreStats;
use crate::text::{decimal, digit_char, push_decimal, push_str, string_of};

verus! {

/// Outcome of one check.
#[derive(Debug, Clone, Copy, PartialEq, Eq, Structural)]
pub enum CheckStatus {
    Pass,
    Warn,
    Fail,
}

/// Result of a single check.
#[derive(Debug, Clone)]
pub struct CheckResult {
    pub name: String,
    pub status: CheckStatus,
    pub message: String,
    pub details: Option<String>,
    pub hint: Option<String>,
}

/// `r` has this status, name and message, and no details or hint.
pub open spec fn plain(r: CheckResult, status: CheckStatus, name: Seq<char>, message: Seq<char>) -> bool {
    r.status == status && r.name@ == name && r.message@ == message && r.details is None
        && r.hint is None
}

/// `r` has this status, name and message, and the given details and hint.
pub open spec fn full(
    r: CheckResult,
    status: CheckStatus,
    name: Seq<char>,
    message: Seq<char>,
    details: Option<Seq<char>>,
    hint: Option<Seq<char>>,
) -> bool {
    &&& r.status == status
    &&& r.name@ == name
    &&& r.message@ == message
    &&& match details {
        Some(d) => r.details matches Some(x) && x@ == d,
        None => r.details is None,
    }
    &&& match hint {
        Some(h) => r.hint matches Some(x) && x@ == h,
        None => r.hint is None,
    }
}

fn make(status: CheckStatus, name: &str, message: &str) -> (r: CheckResult)
    ensures
        plain(r, status, name@, message@),
{
    CheckResult {
        name: name.to_owned(),
        status,
        message: message.to_owned(),
        details: None,
        hint: None,
    }
}

impl CheckResult {
    /// A passing check.
    pub fn pass(name: &str, message: &str) -> (r: CheckResult)
        ensures
            plain(r, CheckStatus::Pass, name@, message@),
    {
        make(CheckStatus::Pass, name, message)
    }

    /// A check that passed with a warning.
    pub fn warn(name: &str, message: &str) -> (r: CheckResult)
        ensures
            plain(r, CheckStatus::Warn, name@, message@),
    {
        make(CheckStatus::Warn, name, message)
    }

    /// A failed check.
    pub fn fail(name: &str, message: &str) -> (r: CheckResult)
        ensures
            plain(r, CheckStatus::Fail, name@, message@),
    {
        make(CheckStatus::Fail, name, message)
    }

    /// The same result with its details set.
    pub fn with_details(self, details: &str) -> (r: CheckResult)
        ensures
            r.name == self.name,
            r.status == self.status,
            r.message == self.message,
            r.hint == self.hint,
            r.details matches Some(d) && d@ == details@,
    {
        let mut r = self;
        r.details = Some(details.to_owned());
        r
    }

    /// The same result with its hint set.
    pub fn with_hint(self, hint: &str) -> (r: CheckResult)
        ensures
            r.name == self.name,
            r.status == self.status,
            r.message == self.message,
            r.details == self.details,
            r.hint matches Some(h) && h@ == hint@,
    {
        let mut r = self;
        r.hint = Some(hint.to_owned());
        r
    }
}

/// `num / den` rounded to the nearest integer, ties to the even neighbour.
pub open spec fn round_half_even(num: nat, den: nat) -> nat
    recommends
        den > 0,
{
    let q = num / den;
    let r = num % den;
    if 2 * r > den || (2 * r == den && q % 2 == 1) {
        q + 1
    } else {
        q
    }
}

/// `n / 10` rendered with one decimal place.
pub open spec fn one_decimal(n: nat) -> Seq<char> {
    decimal(n / 10) + seq!['.', digit_char(n % 10)]
}

/// `n / 100` rendered with two decimal places.
pub open spec fn two_decimals(n: nat) -> Seq<char> {
    decimal(n / 100) + seq!['.', digit_char((n % 100) / 10), digit_char(n % 10)]
}

/// Human-readable size: whole bytes below 1 KiB; KiB and MiB with one
/// decimal; GiB with two decimals; each rounded to nearest, ties to even.
pub open spec fn bytes_text(b: nat) -> Seq<char> {
    if b < 1024 {
        decimal(b) + "B"@
    } else if b < 1024 * 1024 {
        one_decimal(round_half_even(b * 10, 1024)) + "KB"@
    } else if b < 1024 * 1024 * 1024 {
        one_decimal(round_half_even(b * 10, 1024 * 1024)) + "MB"@
    } else {
        two_decimals(round_half_even(b * 100, 1024 * 1024 * 1024)) + "GB"@
    }
}

fn round_even(num: u128, den: u128) -> (r: u128)
    requires
        den > 0,
        num / den < u128::MAX,
    ensures
        r == round_half_even(num as nat, den as nat),
{
    let q = num / den;
    let rem = num % den;
    if rem > den - rem || (rem == den - rem && q % 2 == 1) {
        q + 1
    } else {
        q
    }
}

/// Format a byte count in human-readable form.
pub fn format_bytes(bytes: usize) -> (r: String)
    ensures
        r@ == bytes_text(bytes as nat),
{
    let b = bytes as u128;
    let mut v: Vec<char> = Vec::new();
    if b < 1024 {
        push_decimal(&mut v, bytes as u64);
        push_str(&mut v, "B");
    } else if b < 1024 * 1024 {
        let q = round_even(b * 10, 1024);
        assert(q <= 10240);
        push_decimal(&mut v, (q / 10) as u64);
        v.push('.');
        v.push(digit_of((q % 10) as u64));
        push_str(&mut v, "KB");
    } else if b < 1024 * 1024 * 1024 {
        let q = round_even(b * 10, 1024 * 1024);
        assert(q <= 10240);
        push_decimal(&mut v, (q / 10) as u64);
        v.push('.');
        v.push(digit_of((q % 10) as u64));
        push_str(&mut v, "MB");
    } else {
        assert((b as int) * 100 / 1073741824int < 0x1_0000_0000_0000_0000int) by (nonlinear_arith)
            requires
                (b as int) < 0x1_0000_0000_0000_0000int,
        ;
        let q = round_even(b * 100, 1024 * 1024 * 1024);
        push_decimal(&mut v, (q / 100) as u64);
        v.push('.');
        v.push(digit_of(((q % 100) / 10) as u64));
        v.push(digit_of((q % 10) as u64));
        push_str(&mut v, "GB");
    }
    assert(v@ =~= bytes_text(bytes as nat));
    string_of(&v)
}

fn digit_of(d: u64) -> (c: char)
    requires
        d < 10,
    ensures
        c == digit_char(d as nat),
{
    let mut v: Vec<char> = Vec::new();
    push_decimal(&mut v, d);
    assert(v@ =~= seq![digit_char(d as nat)]);
    v[0]
}

fn text(parts: Vec<char>) -> (r: String)
    ensures
        r@ == parts@,
{
    string_of(&parts)
}

/// Check: was a database found?
pub fn check_find_database(found: &Result<Option<DatabaseInfo>, String>) -> (r: CheckResult)
    ensures
        found matches Ok(Some(d)) ==> full(
            r,
            CheckStatus::Pass,
            "Database found"@,
            "Database at "@ + d.db_path@,
            Some("Project: "@ + d.project_path@ + " (depth "@ + decimal(d.depth as nat) + ")"@),
            None,
        ),
        found matches Ok(None) ==> full(
            r,
            CheckStatus::Fail,
            "No database found"@,
            "No .codesearch.db found in current or parent directories"@,
            None,
            Some("Run 'codesearch index' to create an index"@),
        ),
        found matches Err(e) ==> plain(
            r,
            CheckStatus::Fail,
            "Database discovery failed"@,
            "Error finding database: "@ + e@,
        ),
{
    match found {
        Ok(Some(d)) => {
            let mut m: Vec<char> = Vec::new();
            push_str(&mut m, "Database at ");
            push_str(&mut m, d.db_path.as_str());
            let mut det: Vec<char> = Vec::new();
            push_str(&mut det, "Project: ");
            push_str(&mut det, d.project_path.as_str());
            push_str(&mut det, " (depth ");
            push_decimal(&mut det, d.depth as u64);
            push_str(&mut det, ")");
            let ms = text(m);
            let ds = text(det);
            CheckResult::pass("Database found", ms.as_str()).with_details(ds.as_str())
        },
        Ok(None) => CheckResult::fail(
            "No database found",
            "No .codesearch.db found in current or parent directories",
        ).with_hint("Run 'codesearch index' to create an index"),
        Err(e) => {
            let mut m: Vec<char> = Vec::new();
            push_str(&mut m, "Error finding database: ");
            push_str(&mut m, e.as_str());
            let ms = text(m);
            CheckResult::fail("Database discovery failed", ms.as_str())
        },
    }
}

/// Check: does the database directory hold all its components?
pub fn check_database_structure(p: &DbProbe) -> (r: CheckResult)
    ensures
        !p.exists ==> plain(
            r,
            CheckStatus::Fail,
            "Database structure"@,
            "Database path does not exist"@,
        ),
        p.exists && probe_valid(*p) ==> plain(
            r,
            CheckStatus::Pass,
            "Database structure"@,
            "All required components present"@,
        ),
        p.exists && !probe_valid(*p) && missing_names(*p).len() == 0 ==> full(
            r,
            CheckStatus::Warn,
            "Database structure"@,
            "Database appears incomplete or corrupted"@,
            Some("Required files exist but validation failed"@),
            None,
        ),
        p.exists && !probe_valid(*p) && missing_names(*p).len() > 0 ==> full(
            r,
            CheckStatus::Fail,
            "Database structure"@,
            "Missing components: "@ + join_comma(missing_names(*p)),
            None,
            Some("Run 'codesearch index' to recreate the index"@),
        ),
{
    if !p.exists {
        return CheckResult::fail("Database structure", "Database path does not exist");
    }
    if crate::discovery::is_valid_database(p) {
        return CheckResult::pass("Database structure", "All required components present");
    }
    if p.has_metadata && p.has_data && p.has_fts_dir {
        assert(missing_names(*p) =~= seq![]);
        return CheckResult::warn("Database structure", "Database appears incomplete or corrupted")
            .with_details("Required files exist but validation failed");
    }
    assert(missing_names(*p).len() > 0);
    let mut m: Vec<char> = Vec::new();
    push_str(&mut m, "Missing components: ");
    let mut list = missing_components(p);
    m.append(&mut list);
    let ms = text(m);
    CheckResult::fail("Database structure", ms.as_str()).with_hint(
        "Run 'codesearch index' to recreate the index",
    )
}

/// Check: do `metadata.json` and `file_meta.json` name the same model?
pub fn check_model_consistency(metadata_model: &Option<String>, file_meta_model: &Option<String>) -> (r:
    CheckResult)
    ensures
        r.name@ == "Model consistency"@,
        (metadata_model matches Some(a) && file_meta_model matches Some(b) && a@ == b@) ==> plain(
            r,
            CheckStatus::Pass,
            "Model consistency"@,
            "Model: "@ + metadata_model.unwrap()@,
        ),
        (metadata_model matches Some(a) && file_meta_model matches Some(b) && a@ != b@) ==> full(
            r,
            CheckStatus::Warn,
            "Model consistency"@,
            "Model name mismatch: metadata.json='"@ + metadata_model.unwrap()@
                + "', file_meta.json='"@ + file_meta_model.unwrap()@ + "'"@,
            None,
            Some("This may cause issues; consider re-indexing"@),
        ),
        (metadata_model is Some && file_meta_model is None) ==> plain(
            r,
            CheckStatus::Pass,
            "Model consistency"@,
            "Model: "@ + metadata_model.unwrap()@ + " (no file_meta.json yet)"@,
        ),
        (metadata_model is None && file_meta_model is Some) ==> plain(
            r,
            CheckStatus::Warn,
            "Model consistency"@,
            "Model in file_meta only: "@ + file_meta_model.unwrap()@,
        ),
        (metadata_model is None && file_meta_model is None) ==> plain(
            r,
            CheckStatus::Warn,
            "Model consistency"@,
            "No model information found"@,
        ),
{
    match (metadata_model, file_meta_model) {
        (Some(a), Some(b)) => {
            if crate::text::str_eq(a.as_str(), b.as_str()) {
                let mut m: Vec<char> = Vec::new();
                push_str(&mut m, "Model: ");
                push_str(&mut m, a.as_str());
                let ms = text(m);
                CheckResult::pass("Model consistency", ms.as_str())
            } else {
                let mut m: Vec<char> = Vec::new();
                push_str(&mut m, "Model name mismatch: metadata.json='");
                push_str(&mut m, a.as_str());
                push_str(&mut m, "', file_meta.json='");
                push_str(&mut m, b.as_str());
                push_str(&mut m, "'");
                let ms = text(m);
                CheckResult::warn("Model consistency", ms.as_str()).with_hint(
                    "This may cause issues; consider re-indexing",
                )
            }
        },
        (Some(a), None) => {
            let mut m: Vec<char> = Vec::new();
            push_str(&mut m, "Model: ");
            push_str(&mut m, a.as_str());
            push_str(&mut m, " (no file_meta.json yet)");
            let ms = text(m);
            CheckResult::pass("Model consistency", ms.as_str())
        },
        (None, Some(b)) => {
            let mut m: Vec<char> = Vec::new();
            push_str(&mut m, "Model in file_meta only: ");
            push_str(&mut m, b.as_str());
            let ms = text(m);
            CheckResult::warn("Model consistency", ms.as_str())
        },
        (None, None) => CheckResult::warn("Model consistency", "No model information found"),
    }
}

/// Check: is the index at the Git root? `git_root` is the result of looking
/// for the repository root; `db_path` and `expected_db_path` are the
/// canonical database path and the canonical path it would have at the root.
pub fn check_git_root_placement(
    git_root: &Result<Option<String>, String>,
    db_path: &str,
    expected_db_path: &str,
) -> (r: CheckResult)
    ensures
        r.name@ == "Git root placement"@,
        git_root matches Ok(Some(g)) ==> (db_path@ == expected_db_path@ ==> plain(
            r,
            CheckStatus::Pass,
            "Git root placement"@,
            "Index at git root: "@ + g@,
        )),
        git_root matches Ok(Some(g)) ==> (db_path@ != expected_db_path@ ==> full(
            r,
            CheckStatus::Warn,
            "Git root placement"@,
            "Index not at git root; .git is at "@ + g@,
            Some("Index should be at "@ + expected_db_path@ + " but is at "@ + db_path@),
            Some("Move .codesearch.db to git root and re-index"@),
        )),
        git_root matches Ok(None) ==> full(
            r,
            CheckStatus::Warn,
            "Git root placement"@,
            "No .git directory found"@,
            Some("Index may not be in optimal location"@),
            None,
        ),
        git_root matches Err(e) ==> plain(
            r,
            CheckStatus::Warn,
            "Git root placement"@,
            "Could not find .git: "@ + e@,
        ),
{
    match git_root {
        Ok(Some(g)) => {
            if crate::text::str_eq(db_path, expected_db_path) {
                let mut m: Vec<char> = Vec::new();
                push_str(&mut m, "Index at git root: ");
                push_str(&mut m, g.as_str());
                let ms = text(m);
                CheckResult::pass("Git root placement", ms.as_str())
            } else {
                let mut m: Vec<char> = Vec::new();
                push_str(&mut m, "Index not at git root; .git is at ");
                push_str(&mut m, g.as_str());
                let mut d: Vec<char> = Vec::new();
                push_str(&mut d, "Index should be at ");
                push_str(&mut d, expected_db_path);
                push_str(&mut d, " but is at ");
                push_str(&mut d, db_path);
                let ms = text(m);
                let ds = text(d);
                CheckResult::warn("Git root placement", ms.as_str()).with_details(ds.as_str()).with_hint(
                    "Move .codesearch.db to git root and re-index",
                )
            }
        },
        Ok(None) => CheckResult::warn("Git root placement", "No .git directory found").with_details(
            "Index may not be in optimal location",
        ),
        Err(e) => {
            let mut m: Vec<char> = Vec::new();
            push_str(&mut m, "Could not find .git: ");
            push_str(&mut m, e.as_str());
            let ms = text(m);
            CheckResult::warn("Git root placement", ms.as_str())
        },
    }
}

/// A file on disk counts as unindexed when it could not be examined or is
/// not tracked at all (a tracked file with no chunks is fine).
pub open spec fn unindexed(es: Entries, f: (Seq<char>, Option<StatView>)) -> bool {
    f.1 is None || !tracks(es, f.0)
}

/// How many of the files are unindexed.
pub open spec fn count_unindexed(es: Entries, fs: Seq<(Seq<char>, Option<StatView>)>) -> nat
    decreases fs.len(),
{
    if fs.len() == 0 {
        0
    } else {
        count_unindexed(es, fs.drop_last()) + if unindexed(es, fs.last()) {
            1nat
        } else {
            0nat
        }
    }
}

/// The disk walk as paths and optional stats.
pub open spec fn walk_view(fs: Seq<(String, Option<FileStat>)>) -> Seq<(Seq<char>, Option<StatView>)> {
    fs.map_values(
        |f: (String, Option<FileStat>)|
            (
                f.0@,
                match f.1 {
                    Some(s) => Some(s@),
                    None => None,
                },
            ),
    )
}

/// The file-integrity summary line and details for the given counts.
pub open spec fn integrity_message(stale: nat, unindexed: nat, up: nat) -> Seq<char> {
    decimal(stale) + " stale, "@ + decimal(unindexed) + " unindexed, "@ + decimal(up)
        + " up to date"@
}

/// The details line: the stale part, the unindexed part, or both joined by "; ".
pub open spec fn integrity_details(stale: nat, unindexed: nat) -> Seq<char> {
    let a = decimal(stale) + " stale files in index but deleted from disk"@;
    let b = decimal(unindexed) + " files on disk but not in index"@;
    if stale > 0 && unindexed > 0 {
        a + "; "@ + b
    } else if stale > 0 {
        a
    } else {
        b
    }
}

/// Check: are the tracked files and the files on disk in agreement?
/// `store` is the loaded file-meta store (or why it could not be loaded);
/// `exists[i]` says whether its i-th tracked file still exists; `walk` lists
/// the indexable files on disk with their stat (`None` when it could not be
/// read), or why the walk failed.
pub fn check_file_integrity(
    store: &Result<FileMetaStore, String>,
    exists: &Vec<bool>,
    walk: &Result<Vec<(String, Option<FileStat>)>, String>,
) -> (r: CheckResult)
    requires
        store matches Ok(s) ==> unique_paths(s.entries()) && exists@.len() == s.entries().len(),
    ensures
        r.name@ == "File integrity"@,
        store matches Err(e) ==> plain(
            r,
            CheckStatus::Fail,
            "File integrity"@,
            "Could not load file metadata: "@ + e@,
        ),
        store is Ok ==> (walk matches Err(e) ==> plain(
            r,
            CheckStatus::Warn,
            "File integrity"@,
            "Could not walk project files: "@ + e@,
        )),
        store matches Ok(s) ==> (walk matches Ok(fs) ==> {
            let stale = crate::file_meta::deleted_entries(s.entries(), exists@).len();
            let un = count_unindexed(s.entries(), walk_view(fs@));
            let up = fs@.len() - un;
            if stale > 0 || un > 0 {
                full(
                    r,
                    CheckStatus::Warn,
                    "File integrity"@,
                    integrity_message(stale, un, up as nat),
                    Some(integrity_details(stale, un)),
                    Some("Run 'codesearch index' to fix stale/missing files"@),
                )
            } else {
                plain(
                    r,
                    CheckStatus::Pass,
                    "File integrity"@,
                    decimal(up as nat) + " files indexed and up to date"@,
                )
            }
        }),
{
    let s = match store {
        Ok(s) => s,
        Err(e) => {
            let mut m: Vec<char> = Vec::new();
            push_str(&mut m, "Could not load file metadata: ");
            push_str(&mut m, e.as_str());
            let ms = text(m);
            return CheckResult::fail("File integrity", ms.as_str());
        },
    };
    let stale_files = s.find_deleted_files(exists);
    let stale = stale_files.len();
    proof {
        let dv = stale_files@.map_values(|e: (String, Vec<u32>)| (e.0@, e.1@));
        assert(dv.len() == stale_files@.len());
    }
    let files = match walk {
        Ok(fs) => fs,
        Err(e) => {
            let mut m: Vec<char> = Vec::new();
            push_str(&mut m, "Could not walk project files: ");
            push_str(&mut m, e.as_str());
            let ms = text(m);
            return CheckResult::warn("File integrity", ms.as_str());
        },
    };
    let ghost wv = walk_view(files@);
    let mut up: usize = 0;
    let mut un: usize = 0;
    let mut i: usize = 0;
    while i < files.len()
        invariant
            i <= files@.len(),
            wv == walk_view(files@),
            un == count_unindexed(s.entries(), wv.subrange(0, i as int)),
            up + un == i,
        decreases files.len() - i,
    {
        assert(wv.subrange(0, i + 1).drop_last() =~= wv.subrange(0, i as int));
        assert(wv[i as int].0 == files@[i as int].0@);
        let bad = match &files[i].1 {
            None => true,
            Some(_) => !s.is_tracked(files[i].0.as_str()),
        };
        if bad {
            un = un + 1;
        } else {
            up = up + 1;
        }
        i = i + 1;
    }
    assert(wv.subrange(0, i as int) =~= wv);
    if stale > 0 || un > 0 {
        let mut m: Vec<char> = Vec::new();
        push_decimal(&mut m, stale as u64);
        push_str(&mut m, " stale, ");
        push_decimal(&mut m, un as u64);
        push_str(&mut m, " unindexed, ");
        push_decimal(&mut m, up as u64);
        push_str(&mut m, " up to date");
        let mut d: Vec<char> = Vec::new();
        if stale > 0 {
            push_decimal(&mut d, stale as u64);
            push_str(&mut d, " stale files in index but deleted from disk");
        }
        if un > 0 {
            if stale > 0 {
                push_str(&mut d, "; ");
            }
            push_decimal(&mut d, un as u64);
            push_str(&mut d, " files on disk but not in index");
        }
        assert(d@ =~= integrity_details(stale as nat, un as nat));
        assert(m@ =~= integrity_message(stale as nat, un as nat, up as nat));
        let ms = text(m);
        let ds = text(d);
        CheckResult::warn("File integrity", ms.as_str()).with_details(ds.as_str()).with_hint(
            "Run 'codesearch index' to fix stale/missing files",
        )
    } else {
        let mut m: Vec<char> = Vec::new();
        push_decimal(&mut m, up as u64);
        push_str(&mut m, " files indexed and up to date");
        let ms = text(m);
        CheckResult::pass("File integrity", ms.as_str())
    }
}

/// Check: is the vector index built and searchable?
pub fn check_chunk_integrity(stats: &StoreStats) -> (r: CheckResult)
    ensures
        stats.indexed ==> full(
            r,
            CheckStatus::Pass,
            "Chunk integrity"@,
            "Vector index searchable ("@ + decimal(stats.total_chunks as nat) + " chunks)"@,
            Some(
                "Max chunk ID: "@ + decimal(stats.max_chunk_id as nat) + ", Files: "@ + decimal(
                    stats.total_files as nat,
                ) + ", Dimensions: "@ + decimal(stats.dimensions as nat),
            ),
            None,
        ),
        !stats.indexed ==> full(
            r,
            CheckStatus::Warn,
            "Chunk integrity"@,
            "Vector store empty - no chunks indexed"@,
            None,
            Some("Run 'codesearch index' to populate the index"@),
        ),
{
    if stats.indexed {
        let mut m: Vec<char> = Vec::new();
        push_str(&mut m, "Vector index searchable (");
        push_decimal(&mut m, stats.total_chunks as u64);
        push_str(&mut m, " chunks)");
        let mut d: Vec<char> = Vec::new();
        push_str(&mut d, "Max chunk ID: ");
        push_decimal(&mut d, stats.max_chunk_id as u64);
        push_str(&mut d, ", Files: ");
        push_decimal(&mut d, stats.total_files as u64);
        push_str(&mut d, ", Dimensions: ");
        push_decimal(&mut d, stats.dimensions as u64);
        let ms = text(m);
        let ds = text(d);
        CheckResult::pass("Chunk integrity", ms.as_str()).with_details(ds.as_str())
    } else {
        CheckResult::warn("Chunk integrity", "Vector store empty - no chunks indexed").with_hint(
            "Run 'codesearch index' to populate the index",
        )
    }
}

/// Check: can the lexical index be opened? `opened` is the outcome.
pub fn check_fts_health(opened: &Result<(), String>) -> (r: CheckResult)
    ensures
        opened is Ok ==> plain(
            r,
            CheckStatus::Pass,
            "FTS health"@,
            "Full-text search index readable"@,
        ),
        opened matches Err(e) ==> full(
            r,
            CheckStatus::Fail,
            "FTS health"@,
            "Failed to open FTS index: "@ + e@,
            None,
            Some("Run 'codesearch index' to rebuild FTS index"@),
        ),
{
    match opened {
        Ok(()) => CheckResult::pass("FTS health", "Full-text search index readable"),
        Err(e) => {
            let mut m: Vec<char> = Vec::new();
            push_str(&mut m, "Failed to open FTS index: ");
            push_str(&mut m, e.as_str());
            let ms = text(m);
            CheckResult::fail("FTS health", ms.as_str()).with_hint(
                "Run 'codesearch index' to rebuild FTS index",
            )
        },
    }
}

/// Check: is the persistent embedding cache usable? `cache` is the outcome
/// of opening it: its entry count and file size, `None` when its statistics
/// could not be read, or why it could not be opened.
pub fn check_embedding_cache(cache: &Result<Option<(usize, usize)>, String>) -> (r: CheckResult)
    ensures
        (cache matches Ok(Some(st)) && st.0 > 0) ==> plain(
            r,
            CheckStatus::Pass,
            "Embedding cache"@,
            decimal(cache.unwrap().unwrap().0 as nat) + " entries ("@ + bytes_text(
                cache.unwrap().unwrap().1 as nat,
            ) + ")"@,
        ),
        (cache matches Ok(Some(st)) && st.0 == 0) ==> plain(
            r,
            CheckStatus::Pass,
            "Embedding cache"@,
            "Cache empty but functional ("@ + decimal(0) + " entries)"@,
        ),
        cache matches Ok(None) ==> plain(
            r,
            CheckStatus::Warn,
            "Embedding cache"@,
            "Could not get cache stats"@,
        ),
        cache matches Err(e) ==> plain(
            r,
            CheckStatus::Warn,
            "Embedding cache"@,
            "Could not open cache: "@ + e@,
        ),
{
    match cache {
        Ok(Some((entries, size))) => {
            let mut m: Vec<char> = Vec::new();
            if *entries > 0 {
                push_decimal(&mut m, *entries as u64);
                push_str(&mut m, " entries (");
                let b = format_bytes(*size);
                push_str(&mut m, b.as_str());
                push_str(&mut m, ")");
            } else {
                push_str(&mut m, "Cache empty but functional (");
                push_decimal(&mut m, *entries as u64);
                push_str(&mut m, " entries)");
            }
            let ms = text(m);
            CheckResult::pass("Embedding cache", ms.as_str())
        },
        Ok(None) => CheckResult::warn("Embedding cache", "Could not get cache stats"),
        Err(e) => {
            let mut m: Vec<char> = Vec::new();
            push_str(&mut m, "Could not open cache: ");
            push_str(&mut m, e.as_str());
            let ms = text(m);
            CheckResult::warn("Embedding cache", ms.as_str())
        },
    }
}

/// How many of the results have the given status.
pub open spec fn count_with(rs: Seq<CheckResult>, status: CheckStatus) -> nat
    decreases rs.len(),
{
    if rs.len() == 0 {
        0
    } else {
        count_with(rs.drop_last(), status) + if rs.last().status == status {
            1nat
        } else {
            0nat
        }
    }
}

/// Counts the results with the given status (the report's warnings and
/// errors).
pub fn count_status(results: &Vec<CheckResult>, status: CheckStatus) -> (r: usize)
    ensures
        r == count_with(results@, status),
{
    let mut n: usize = 0;
    let mut i: usize = 0;
    while i < results.len()
        invariant
            i <= results@.len(),
            n == count_with(results@.subrange(0, i as int), status),
            n <= i,
        decreases results.len() - i,
    {
        assert(results@.subrange(0, i + 1).drop_last() =~= results@.subrange(0, i as int));
        if results[i].status == status {
            n = n + 1;
        }
        i = i + 1;
    }
    assert(results@.subrange(0, i as int) =~= results@);
    n
}

} // verus!
