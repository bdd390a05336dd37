//! Chunks and the metadata the chunk store keeps for each: the chunk's
//! fields plus a searchable text that puts signature, docstring and kind in
//! front of the content.
use vstd::prelude::*;
use crate::query::ChunkKind;
use crate::text::{join_strings, join_with};
use crate::watch::opt_view;

verus! {

/// A contiguous range of lines of one file, as the chunker produces it.
#[derive(Debug, Clone)]
pub struct Chunk {
    pub content: String,
    /// Normalised absolute path of the file.
    pub path: String,
    pub start_line: usize,
    pub end_line: usize,
    pub kind: ChunkKind,
    pub signature: Option<String>,
    pub docstring: Option<String>,
    /// Enclosing scopes, outermost first.
    pub context: Vec<String>,
    /// Content hash; equal contents have equal hashes.
    pub hash: String,
    pub context_prev: Option<String>,
    pub context_next: Option<String>,
}

/// What the chunk store keeps for a chunk.
#[derive(Debug, Clone)]
pub struct ChunkMetadata {
    pub content: String,
    pub path: String,
    pub start_line: usize,
    pub end_line: usize,
    pub kind: String,
    pub signature: Option<String>,
    pub docstring: Option<String>,
    /// The enclosing scopes joined with " > ", if there are any.
    pub context: Option<String>,
    pub hash: String,
    pub context_prev: Option<String>,
    pub context_next: Option<String>,
    /// Signature, docstring, kind and content, one per line.
    pub searchable_text: String,
}

/// The name of a chunk kind.
pub open spec fn kind_text(k: ChunkKind) -> Seq<char> {
    match k {
        ChunkKind::Function => "Function"@,
        ChunkKind::Method => "Method"@,
        ChunkKind::Class => "Class"@,
        ChunkKind::Struct => "Struct"@,
        ChunkKind::Enum => "Enum"@,
        ChunkKind::Interface => "Interface"@,
        ChunkKind::Other => "Other"@,
    }
}

/// The name of a chunk kind.
pub fn kind_name(k: ChunkKind) -> (r: &'static str)
    ensures
        r@ == kind_text(k),
{
    match k {
        ChunkKind::Function => "Function",
        ChunkKind::Method => "Method",
        ChunkKind::Class => "Class",
        ChunkKind::Struct => "Struct",
        ChunkKind::Enum => "Enum",
        ChunkKind::Interface => "Interface",
        ChunkKind::Other => "Other",
    }
}

/// The optional parts present, as a sequence of zero or one.
pub open spec fn present(o: Option<Seq<char>>) -> Seq<Seq<char>> {
    match o {
        Some(s) => seq![s],
        None => seq![],
    }
}

/// Signature, docstring, kind name and content, one per line, leaving out
/// the absent ones.
pub open spec fn searchable(c: Chunk) -> Seq<char> {
    join_with(
        present(opt_view(c.signature)) + present(opt_view(c.docstring)) + seq![kind_text(c.kind), c.content@],
        "\n"@,
    )
}

/// The enclosing scopes joined with " > ", or nothing when there are none.
pub open spec fn context_text(c: Chunk) -> Option<Seq<char>> {
    if c.context@.len() == 0 {
        None
    } else {
        Some(join_with(c.context@.map_values(|s: String| s@), " > "@))
    }
}

fn copy_opt(o: &Option<String>) -> (r: Option<String>)
    ensures
        opt_view(r) == opt_view(*o),
{
    match o {
        Some(s) => Some(s.clone()),
        None => None,
    }
}

impl ChunkMetadata {
    /// The metadata stored for a chunk.
    pub fn from_chunk(chunk: &Chunk) -> (r: ChunkMetadata)
        ensures
            r.content@ == chunk.content@,
            r.path@ == chunk.path@,
            r.start_line == chunk.start_line,
            r.end_line == chunk.end_line,
            r.kind@ == kind_text(chunk.kind),
            opt_view(r.signature) == opt_view(chunk.signature),
            opt_view(r.docstring) == opt_view(chunk.docstring),
            opt_view(r.context) == context_text(*chunk),
            r.hash@ == chunk.hash@,
            opt_view(r.context_prev) == opt_view(chunk.context_prev),
            opt_view(r.context_next) == opt_view(chunk.context_next),
            r.searchable_text@ == searchable(*chunk),
    {
        let mut parts: Vec<String> = Vec::new();
        if let Some(sig) = &chunk.signature {
            parts.push(sig.clone());
        }
        if let Some(doc) = &chunk.docstring {
            parts.push(doc.clone());
        }
        parts.push(kind_name(chunk.kind).to_owned());
        parts.push(chunk.content.clone());
        assert(parts@.map_values(|s: String| s@) =~= present(opt_view(chunk.signature)) + present(
            opt_view(chunk.docstring),
        ) + seq![kind_text(chunk.kind), chunk.content@]);
        let searchable_text = join_strings(&parts, "\n");
        let context = if chunk.context.len() == 0 {
            None
        } else {
            Some(join_strings(&chunk.context, " > "))
        };
        ChunkMetadata {
            content: chunk.content.clone(),
            path: chunk.path.clone(),
            start_line: chunk.start_line,
            end_line: chunk.end_line,
            kind: kind_name(chunk.kind).to_owned(),
            signature: copy_opt(&chunk.signature),
            docstring: copy_opt(&chunk.docstring),
            context,
            hash: chunk.hash.clone(),
            context_prev: copy_opt(&chunk.context_prev),
            context_next: copy_opt(&chunk.context_next),
            searchable_text,
        }
    }
}

} // verus!
