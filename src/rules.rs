//! The fixed name lists that decide what is never indexed: excluded
//! directory names, file extensions, and compound file-name suffixes.
use vstd::prelude::*;

verus! {

/// Directory names excluded everywhere in the tree.
pub open spec fn excluded_dirs() -> Seq<Seq<char>> {
    seq![
        ".codesearch"@, ".codesearch.db"@, ".codesearch.dbs"@, "fastembed_cache"@, ".git"@, ".svn"@,
        ".hg"@, "node_modules"@, "target"@, "dist"@, "build"@, "out"@, "__pycache__"@,
        ".pytest_cache"@, ".tox"@, "venv"@, ".venv"@, "vendor"@, ".bundle"@, ".gradle"@, ".m2"@,
        ".idea"@, ".vscode"@, ".vs"@, "coverage"@, ".nyc_output"@, ".cache"@,
    ]
}

/// File extensions (lower case, without the dot) that are never indexed.
pub open spec fn skipped_extensions() -> Seq<Seq<char>> {
    seq![
        "tmp"@, "temp"@, "bak"@, "swp"@, "swo"@, "map"@, "lock"@, "sum"@, "pyc"@, "pyo"@, "pyd"@,
        "class"@, "o"@, "obj"@, "a"@, "lib"@, "so"@, "dll"@, "exe"@, "pdb"@, "ilk"@, "zip"@, "tar"@,
        "gz"@, "bz2"@, "xz"@, "7z"@, "rar"@, "png"@, "jpg"@, "jpeg"@, "gif"@, "bmp"@, "ico"@, "svg"@,
        "webp"@, "tiff"@, "mp3"@, "mp4"@, "wav"@, "ogg"@, "avi"@, "mov"@, "mkv"@, "woff"@, "woff2"@,
        "ttf"@, "otf"@, "eot"@, "db"@, "sqlite"@, "sqlite3"@, "mdb"@, "ldb"@, "pdf"@, "doc"@,
        "docx"@, "xls"@, "xlsx"@, "ppt"@, "pptx"@, "pem"@, "crt"@, "cer"@, "key"@, "p12"@, "pfx"@,
        "pb"@,
    ]
}

/// Lower-case file-name suffixes that are never indexed (minified bundles,
/// declaration files, generated code, snapshots, backups).
pub open spec fn skipped_suffixes() -> Seq<Seq<char>> {
    seq![
        ".min.js"@, ".min.css"@, ".min.mjs"@, ".bundle.js"@, ".chunk.js"@, ".esm.js"@, ".d.ts"@,
        ".d.mts"@, ".d.cts"@, ".pb.go"@, ".pb.cc"@, ".pb.h"@, "_pb2.py"@, "_grpc.pb.go"@,
        "_grpc_pb.js"@, ".generated.ts"@, ".generated.graphql"@, ".snap"@, ".orig"@,
    ]
}

/// The names as character sequences.
pub open spec fn views_of(v: Seq<&str>) -> Seq<Seq<char>> {
    v.map_values(|s: &str| s@)
}

/// The excluded directory names.
pub fn excluded_dir_names() -> (r: Vec<&'static str>)
    ensures
        views_of(r@) == excluded_dirs(),
{
    let r = vec![
        ".codesearch", ".codesearch.db", ".codesearch.dbs", "fastembed_cache", ".git", ".svn",
        ".hg", "node_modules", "target", "dist", "build", "out", "__pycache__", ".pytest_cache",
        ".tox", "venv", ".venv", "vendor", ".bundle", ".gradle", ".m2", ".idea", ".vscode", ".vs",
        "coverage", ".nyc_output", ".cache",
    ];
    assert(views_of(r@) =~= excluded_dirs());
    r
}

/// The skipped extensions.
pub fn skipped_extension_names() -> (r: Vec<&'static str>)
    ensures
        views_of(r@) == skipped_extensions(),
{
    let r = vec![
        "tmp", "temp", "bak", "swp", "swo", "map", "lock", "sum", "pyc", "pyo", "pyd", "class",
        "o", "obj", "a", "lib", "so", "dll", "exe", "pdb", "ilk", "zip", "tar", "gz", "bz2", "xz",
        "7z", "rar", "png", "jpg", "jpeg", "gif", "bmp", "ico", "svg", "webp", "tiff", "mp3", "mp4",
        "wav", "ogg", "avi", "mov", "mkv", "woff", "woff2", "ttf", "otf", "eot", "db", "sqlite",
        "sqlite3", "mdb", "ldb", "pdf", "doc", "docx", "xls", "xlsx", "ppt", "pptx", "pem", "crt",
        "cer", "key", "p12", "pfx", "pb",
    ];
    assert(views_of(r@) =~= skipped_extensions());
    r
}

/// The skipped file-name suffixes.
pub fn skipped_suffix_names() -> (r: Vec<&'static str>)
    ensures
        views_of(r@) == skipped_suffixes(),
{
    let r = vec![
        ".min.js", ".min.css", ".min.mjs", ".bundle.js", ".chunk.js", ".esm.js", ".d.ts", ".d.mts",
        ".d.cts", ".pb.go", ".pb.cc", ".pb.h", "_pb2.py", "_grpc.pb.go", "_grpc_pb.js",
        ".generated.ts", ".generated.graphql", ".snap", ".orig",
    ];
    assert(views_of(r@) =~= skipped_suffixes());
    r
}

} // verus!
