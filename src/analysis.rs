//! Query analysis: the identifier-like words of a query (snake_case,
//! camelCase / PascalCase with an inner capital, `::`-qualified names), its
//! structural intent ("function that …", "class which …"), and the fusion
//! constants chosen from those features.
use vstd::prelude::*;
use crate::query::ChunkKind;
use crate::text::{chars_of, eq_chars, string_of};

verus! {

/// An ASCII lower-case letter.
pub open spec fn is_lower(c: char) -> bool {
    'a' <= c && c <= 'z'
}

/// An ASCII upper-case letter.
pub open spec fn is_upper(c: char) -> bool {
    'A' <= c && c <= 'Z'
}

/// An ASCII letter.
pub open spec fn is_alpha(c: char) -> bool {
    is_lower(c) || is_upper(c)
}

/// Characters that make up words: ASCII letters and digits, `_` and `:`.
pub open spec fn is_word_char(c: char) -> bool {
    is_alpha(c) || ('0' <= c && c <= '9') || c == '_' || c == ':'
}

/// Finished words and the word in progress after scanning `q`.
pub open spec fn scan(q: Seq<char>) -> (Seq<Seq<char>>, Seq<char>)
    decreases q.len(),
{
    if q.len() == 0 {
        (seq![], seq![])
    } else {
        let (ws, cur) = scan(q.drop_last());
        let c = q.last();
        if is_word_char(c) {
            (ws, cur.push(c))
        } else if cur.len() > 0 {
            (ws.push(cur), seq![])
        } else {
            (ws, seq![])
        }
    }
}

/// The words of the query, in order.
pub open spec fn words(q: Seq<char>) -> Seq<Seq<char>> {
    let (ws, cur) = scan(q);
    if cur.len() > 0 {
        ws.push(cur)
    } else {
        ws
    }
}

/// A word looks like an identifier: it has a letter and an underscore, or
/// a `::`, or a lower-case letter directly followed by an upper-case one.
pub open spec fn identifier_like(w: Seq<char>) -> bool {
    ((exists|i: int| 0 <= i < w.len() && is_alpha(#[trigger] w[i])) && ((exists|i: int|
        0 <= i < w.len() && #[trigger] w[i] == '_') || (exists|i: int|
        0 <= i < w.len() - 1 && #[trigger] w[i] == ':' && w[i + 1] == ':'))) || (exists|i: int|
        0 <= i < w.len() - 1 && is_lower(#[trigger] w[i]) && is_upper(w[i + 1]))
}

/// The identifier-like words, each once, in order of first appearance.
pub open spec fn identifiers_in(ws: Seq<Seq<char>>) -> Seq<Seq<char>>
    decreases ws.len(),
{
    if ws.len() == 0 {
        seq![]
    } else {
        let prev = identifiers_in(ws.drop_last());
        let w = ws.last();
        if identifier_like(w) && !prev.contains(w) {
            prev.push(w)
        } else {
            prev
        }
    }
}

fn word_chars(c: char) -> (r: bool)
    ensures
        r == is_word_char(c),
{
    ('a' <= c && c <= 'z') || ('A' <= c && c <= 'Z') || ('0' <= c && c <= '9') || c == '_' || c
        == ':'
}

fn split_words(q: &str) -> (r: Vec<Vec<char>>)
    ensures
        r@.map_values(|w: Vec<char>| w@) == words(q@),
{
    let cs = chars_of(q);
    let mut ws: Vec<Vec<char>> = Vec::new();
    let mut cur: Vec<char> = Vec::new();
    let mut i: usize = 0;
    assert(cs@.subrange(0, 0) =~= seq![]);
    while i < cs.len()
        invariant
            i <= cs@.len(),
            (ws@.map_values(|w: Vec<char>| w@), cur@) == scan(cs@.subrange(0, i as int)),
        decreases cs.len() - i,
    {
        let ghost before = ws@;
        assert(cs@.subrange(0, i + 1).drop_last() =~= cs@.subrange(0, i as int));
        let c = cs[i];
        if word_chars(c) {
            cur.push(c);
        } else if cur.len() > 0 {
            let done = cur;
            cur = Vec::new();
            ws.push(done);
            assert(ws@.map_values(|w: Vec<char>| w@) =~= before.map_values(|w: Vec<char>| w@).push(
                ws@[ws@.len() - 1]@,
            ));
        } else {
            assert(cur@ =~= seq![]);
        }
        i = i + 1;
    }
    assert(cs@.subrange(0, i as int) =~= cs@);
    if cur.len() > 0 {
        let ghost before = ws@;
        ws.push(cur);
        assert(ws@.map_values(|w: Vec<char>| w@) =~= before.map_values(|w: Vec<char>| w@).push(
            ws@[ws@.len() - 1]@,
        ));
    }
    ws
}

fn looks_like_identifier(w: &Vec<char>) -> (r: bool)
    ensures
        r == identifier_like(w@),
{
    let n = w.len();
    let mut alpha = false;
    let mut under = false;
    let mut colons = false;
    let mut camel = false;
    let mut i: usize = 0;
    while i < n
        invariant
            i <= n == w@.len(),
            alpha == exists|k: int| 0 <= k < i && is_alpha(#[trigger] w@[k]),
            under == exists|k: int| 0 <= k < i && #[trigger] w@[k] == '_',
            colons == exists|k: int| 0 <= k < i && k < n - 1 && #[trigger] w@[k] == ':' && w@[k + 1] == ':',
            camel == exists|k: int| 0 <= k < i && k < n - 1 && is_lower(#[trigger] w@[k]) && is_upper(w@[k + 1]),
        decreases n - i,
    {
        let c = w[i];
        if ('a' <= c && c <= 'z') || ('A' <= c && c <= 'Z') {
            alpha = true;
        }
        if c == '_' {
            under = true;
        }
        if i + 1 < n {
            let d = w[i + 1];
            if c == ':' && d == ':' {
                colons = true;
            }
            if 'a' <= c && c <= 'z' && 'A' <= d && d <= 'Z' {
                camel = true;
            }
        }
        i = i + 1;
    }
    (alpha && (under || colons)) || camel
}

fn contains_word(ws: &Vec<Vec<char>>, w: &Vec<char>) -> (r: bool)
    ensures
        r == ws@.map_values(|x: Vec<char>| x@).contains(w@),
{
    let ghost wv = ws@.map_values(|x: Vec<char>| x@);
    let mut i: usize = 0;
    while i < ws.len()
        invariant
            i <= ws@.len(),
            wv == ws@.map_values(|x: Vec<char>| x@),
            forall|k: int| 0 <= k < i ==> wv[k] != w@,
        decreases ws.len() - i,
    {
        if eq_chars(&ws[i], w) {
            assert(wv[i as int] == w@);
            return true;
        }
        i = i + 1;
    }
    false
}

/// The identifier-like words of the query, each once, in order of first
/// appearance. Each drives an exact-match search.
pub fn detect_identifiers(query: &str) -> (r: Vec<String>)
    ensures
        r@.map_values(|s: String| s@) == identifiers_in(words(query@)),
{
    let ws = split_words(query);
    let ghost wv = ws@.map_values(|w: Vec<char>| w@);
    let mut found: Vec<Vec<char>> = Vec::new();
    let mut i: usize = 0;
    while i < ws.len()
        invariant
            i <= ws@.len(),
            wv == ws@.map_values(|w: Vec<char>| w@),
            found@.map_values(|w: Vec<char>| w@) == identifiers_in(wv.subrange(0, i as int)),
        decreases ws.len() - i,
    {
        assert(wv.subrange(0, i + 1).drop_last() =~= wv.subrange(0, i as int));
        assert(wv[i as int] == ws@[i as int]@);
        let ghost before = found@;
        if looks_like_identifier(&ws[i]) && !contains_word(&found, &ws[i]) {
            found.push(ws[i].clone());
            assert(found@.map_values(|w: Vec<char>| w@) =~= before.map_values(|w: Vec<char>| w@).push(
                wv[i as int],
            ));
        }
        i = i + 1;
    }
    assert(wv.subrange(0, i as int) =~= wv);
    let mut out: Vec<String> = Vec::new();
    let mut j: usize = 0;
    while j < found.len()
        invariant
            j <= found@.len(),
            out@.len() == j,
            forall|k: int| 0 <= k < j ==> (#[trigger] out@[k])@ == found@[k]@,
        decreases found.len() - j,
    {
        out.push(string_of(&found[j]));
        j = j + 1;
    }
    assert(out@.map_values(|s: String| s@) =~= found@.map_values(|w: Vec<char>| w@));
    out
}

/// `w` equals the lower-case ASCII word `lit`, ignoring ASCII case.
pub open spec fn same_word(w: Seq<char>, lit: Seq<char>) -> bool {
    w.len() == lit.len() && forall|i: int|
        0 <= i < w.len() ==> (#[trigger] w[i] == lit[i] || (is_upper(w[i]) && w[i] as u32 + 32
            == lit[i] as u32))
}

/// The chunk kind a word names, singular or plural.
pub open spec fn kind_of_word(w: Seq<char>) -> Option<ChunkKind> {
    if same_word(w, "function"@) || same_word(w, "functions"@) {
        Some(ChunkKind::Function)
    } else if same_word(w, "method"@) || same_word(w, "methods"@) {
        Some(ChunkKind::Method)
    } else if same_word(w, "class"@) || same_word(w, "classes"@) {
        Some(ChunkKind::Class)
    } else if same_word(w, "struct"@) || same_word(w, "structs"@) {
        Some(ChunkKind::Struct)
    } else if same_word(w, "enum"@) || same_word(w, "enums"@) {
        Some(ChunkKind::Enum)
    } else if same_word(w, "interface"@) || same_word(w, "interfaces"@) {
        Some(ChunkKind::Interface)
    } else {
        None
    }
}

/// "that" or "which".
pub open spec fn connective(w: Seq<char>) -> bool {
    same_word(w, "that"@) || same_word(w, "which"@)
}

/// The kind named by the first kind word, from position `i` on, that is
/// directly followed by "that" or "which".
pub open spec fn intent_from(ws: Seq<Seq<char>>, i: int) -> Option<ChunkKind>
    decreases ws.len() - i,
{
    if i < 0 || i + 1 >= ws.len() {
        None
    } else if kind_of_word(ws[i]) is Some && connective(ws[i + 1]) {
        kind_of_word(ws[i])
    } else {
        intent_from(ws, i + 1)
    }
}

fn same_word_exec(w: &Vec<char>, lit: &str) -> (r: bool)
    ensures
        r == same_word(w@, lit@),
{
    let l = chars_of(lit);
    if w.len() != l.len() {
        return false;
    }
    let mut i: usize = 0;
    while i < w.len()
        invariant
            i <= w@.len() == l@.len(),
            l@ == lit@,
            forall|k: int|
                0 <= k < i ==> (#[trigger] w@[k] == l@[k] || (is_upper(w@[k]) && w@[k] as u32 + 32
                    == l@[k] as u32)),
        decreases w.len() - i,
    {
        let c = w[i];
        let d = l[i];
        if !(c == d || ('A' <= c && c <= 'Z' && (c as u32) + 32 == d as u32)) {
            return false;
        }
        i = i + 1;
    }
    true
}

fn kind_word(w: &Vec<char>) -> (r: Option<ChunkKind>)
    ensures
        r == kind_of_word(w@),
{
    if same_word_exec(w, "function") || same_word_exec(w, "functions") {
        Some(ChunkKind::Function)
    } else if same_word_exec(w, "method") || same_word_exec(w, "methods") {
        Some(ChunkKind::Method)
    } else if same_word_exec(w, "class") || same_word_exec(w, "classes") {
        Some(ChunkKind::Class)
    } else if same_word_exec(w, "struct") || same_word_exec(w, "structs") {
        Some(ChunkKind::Struct)
    } else if same_word_exec(w, "enum") || same_word_exec(w, "enums") {
        Some(ChunkKind::Enum)
    } else if same_word_exec(w, "interface") || same_word_exec(w, "interfaces") {
        Some(ChunkKind::Interface)
    } else {
        None
    }
}

/// The chunk kind the query asks for ("function that …" asks for
/// functions), if any.
pub fn detect_structural_intent(query: &str) -> (r: Option<ChunkKind>)
    ensures
        r == intent_from(words(query@), 0),
{
    let ws = split_words(query);
    let ghost wv = ws@.map_values(|w: Vec<char>| w@);
    let mut i: usize = 0;
    while i < ws.len() && ws.len() - i > 1
        invariant
            i <= ws@.len(),
            wv == ws@.map_values(|w: Vec<char>| w@),
            wv == words(query@),
            intent_from(wv, i as int) == intent_from(wv, 0),
        decreases ws.len() - i,
    {
        let k = kind_word(&ws[i]);
        if k.is_some() {
            let c1 = same_word_exec(&ws[i + 1], "that");
            let c2 = same_word_exec(&ws[i + 1], "which");
            if c1 || c2 {
                return k;
            }
        }
        i = i + 1;
    }
    assert(intent_from(wv, i as int) is None);
    None
}

/// Default fusion constant.
pub const DEFAULT_RRF_K: u32 = 60;

/// Fusion constants (vector, lexical) from the query's features. Short
/// identifier queries favour the lexical list (a lower lexical constant);
/// long conceptual queries favour the vector list.
pub open spec fn rrf_constants(n_words: nat, has_identifiers: bool, has_intent: bool) -> (u32, u32) {
    if has_identifiers && n_words <= 3 {
        (60, 20)
    } else if has_identifiers {
        (60, 40)
    } else if n_words >= 8 {
        (40, 80)
    } else if has_intent {
        (60, 50)
    } else {
        (60, 60)
    }
}

/// The fusion constants (vector, lexical) for a query.
pub fn adapt_rrf_k(query: &str) -> (r: (u32, u32))
    ensures
        r == rrf_constants(
            words(query@).len(),
            identifiers_in(words(query@)).len() > 0,
            intent_from(words(query@), 0) is Some,
        ),
{
    let n = split_words(query).len();
    let ids = detect_identifiers(query);
    let intent = detect_structural_intent(query);
    let has_ids = ids.len() > 0;
    if has_ids && n <= 3 {
        (60, 20)
    } else if has_ids {
        (60, 40)
    } else if n >= 8 {
        (40, 80)
    } else if intent.is_some() {
        (60, 50)
    } else {
        (DEFAULT_RRF_K, DEFAULT_RRF_K)
    }
}

} // verus!
