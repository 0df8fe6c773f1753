//! Concrete syntax trees as the adapters read them: the nodes of a tree in
//! document order (preorder), each with its depth below the root.
//!
//! The trees come from Tree-sitter; everything the adapters decide about them
//! (children, fields, parents, first descendants, node text) is defined here
//! over the flat node list and computed by verified code.

use vstd::prelude::*;
use vstd::utf8::{decode_utf8, valid_utf8};
use crate::order::{num_key, push_num_key};
use crate::text::{owned, starts_with};

verus! {

/// One node of a syntax tree, as a cursor visits it in preorder.
#[derive(Debug, Clone, PartialEq, Eq)]
pub struct SyntaxEntry {
    pub kind: String,
    /// The field under which the parent holds this node.
    pub field: Option<String>,
    /// Distance from the root; the root has depth `0`.
    pub depth: usize,
    pub named: bool,
    pub has_error: bool,
    pub start_byte: usize,
    pub end_byte: usize,
    /// Zero-based row and column (in bytes) of the first byte.
    pub start_row: usize,
    pub start_column: usize,
    /// Zero-based row and column just past the last byte.
    pub end_row: usize,
    pub end_column: usize,
}

/// Why a parser produced no tree: the grammar could not be loaded (with the
/// loader's message), or parsing returned nothing.
#[derive(Debug, Clone, PartialEq, Eq)]
pub enum ParseFailure {
    Language(String),
    NoTree,
}

pub open spec fn field_is(e: SyntaxEntry, f: Seq<char>) -> bool {
    e.field matches Some(x) && x@ == f
}

// ---- Tree-sitter ----

/// A node as the parser reports it: kind, field name, depth, whether it is
/// named, whether its subtree holds an error, and its byte range.
pub type RawNode = (String, Option<String>, u32, bool, bool, usize, usize);

/// What the Tree-sitter Java grammar gives for a source text: its nodes in
/// preorder, or the grammar loader's message, or nothing when no tree came back.
pub uninterp spec fn java_tree(source: Seq<char>) -> Result<Seq<RawNode>, Option<String>>;

/// What the Tree-sitter Python grammar gives for a source text, as `java_tree`.
pub uninterp spec fn python_tree(source: Seq<char>) -> Result<Seq<RawNode>, Option<String>>;

pub open spec fn raw_view(r: Result<Vec<RawNode>, Option<String>>) -> Result<Seq<RawNode>, Option<String>> {
    match r {
        Ok(v) => Ok(v@),
        Err(e) => Err(e),
    }
}

/// Parses Java source with Tree-sitter (`Parser::set_language` with
/// `tree_sitter_java::LANGUAGE`, then `Parser::parse`) and lists the nodes that a
/// `TreeCursor` visits from the root (`goto_descendant` over
/// `descendant_count`). The claim is only that the result is a function of the
/// source text; nothing is claimed of its shape.
#[verifier::external_body]
fn parse_java_tree(source: &str) -> (r: Result<Vec<RawNode>, Option<String>>)
    ensures
        raw_view(r) == java_tree(source@),
{
    let mut parser = tree_sitter::Parser::new();
    parser.set_language(&tree_sitter_java::LANGUAGE.into()).map_err(|e| Some(e.to_string()))?;
    let tree = parser.parse(source, None).ok_or(None)?;
    let mut c = tree.walk();
    Ok((0..tree.root_node().descendant_count()).map(|i| { c.goto_descendant(i); let n = c.node();
        (n.kind().to_owned(), c.field_name().map(str::to_owned), c.depth(), n.is_named(), n.has_error(), n.start_byte(), n.end_byte())
    }).collect())
}

/// Parses Python source with Tree-sitter (`Parser::set_language` with
/// `tree_sitter_python::LANGUAGE`, then `Parser::parse`) and lists the nodes as
/// `parse_java_tree` does. The claim is only that the result is a function of
/// the source text.
#[verifier::external_body]
fn parse_python_tree(source: &str) -> (r: Result<Vec<RawNode>, Option<String>>)
    ensures
        raw_view(r) == python_tree(source@),
{
    let mut parser = tree_sitter::Parser::new();
    parser.set_language(&tree_sitter_python::LANGUAGE.into()).map_err(|e| Some(e.to_string()))?;
    let tree = parser.parse(source, None).ok_or(None)?;
    let mut c = tree.walk();
    Ok((0..tree.root_node().descendant_count()).map(|i| { c.goto_descendant(i); let n = c.node();
        (n.kind().to_owned(), c.field_name().map(str::to_owned), c.depth(), n.is_named(), n.has_error(), n.start_byte(), n.end_byte())
    }).collect())
}

// ---- positions ----

/// The number of line feeds among the first `i` bytes.
pub open spec fn newlines_before(b: Seq<u8>, i: int) -> nat
    decreases i,
{
    if i <= 0 || i > b.len() {
        0
    } else {
        newlines_before(b, i - 1) + if b[i - 1] == 10 { 1nat } else { 0nat }
    }
}

/// Where the line that holds byte offset `i` starts.
pub open spec fn line_start(b: Seq<u8>, i: int) -> int
    decreases i,
{
    if i <= 0 || i > b.len() {
        0
    } else if b[i - 1] == 10 {
        i
    } else {
        line_start(b, i - 1)
    }
}

pub open spec fn clamped(i: usize, n: nat) -> int {
    if i <= n { i as int } else { n as int }
}

/// The zero-based row of a byte offset (offsets past the end count as the end).
pub open spec fn row_at(b: Seq<u8>, i: usize) -> usize {
    newlines_before(b, clamped(i, b.len())) as usize
}

/// The zero-based column, in bytes, of a byte offset.
pub open spec fn column_at(b: Seq<u8>, i: usize) -> usize {
    (clamped(i, b.len()) - line_start(b, clamped(i, b.len()))) as usize
}

pub open spec fn entry_of(b: Seq<u8>, n: RawNode) -> SyntaxEntry {
    SyntaxEntry {
        kind: n.0,
        field: n.1,
        depth: n.2 as usize,
        named: n.3,
        has_error: n.4,
        start_byte: n.5,
        end_byte: n.6,
        start_row: row_at(b, n.5),
        start_column: column_at(b, n.5),
        end_row: row_at(b, n.6),
        end_column: column_at(b, n.6),
    }
}

/// The syntax entries of a source, from what the parser reported.
pub open spec fn syntax_of(source: Seq<char>, raw: Result<Seq<RawNode>, Option<String>>) -> Result<
    Seq<SyntaxEntry>,
    ParseFailure,
> {
    let b = vstd::utf8::encode_utf8(source);
    match raw {
        Err(Some(m)) => Err(ParseFailure::Language(m)),
        Err(None) => Err(ParseFailure::NoTree),
        Ok(ns) => Ok(ns.map_values(|n: RawNode| entry_of(b, n))),
    }
}

pub open spec fn java_syntax(source: Seq<char>) -> Result<Seq<SyntaxEntry>, ParseFailure> {
    syntax_of(source, java_tree(source))
}

pub open spec fn python_syntax(source: Seq<char>) -> Result<Seq<SyntaxEntry>, ParseFailure> {
    syntax_of(source, python_tree(source))
}

pub open spec fn syntax_view(r: Result<Vec<SyntaxEntry>, ParseFailure>) -> Result<Seq<SyntaxEntry>, ParseFailure> {
    match r {
        Ok(v) => Ok(v@),
        Err(e) => Err(e),
    }
}

proof fn lemma_newlines_bounded(b: Seq<u8>, i: int)
    requires
        0 <= i <= b.len(),
    ensures
        newlines_before(b, i) <= i,
        0 <= line_start(b, i) <= i,
    decreases i,
{
    if i > 0 {
        lemma_newlines_bounded(b, i - 1);
    }
}

/// Converts the parser's nodes into syntax entries, with the row and column of
/// each node's start and end.
fn syntax_from_raw(source: &str, raw: Result<Vec<RawNode>, Option<String>>) -> (r: Result<Vec<SyntaxEntry>, ParseFailure>)
    ensures
        syntax_view(r) == syntax_of(source@, raw_view(raw)),
{
    let nodes = match raw {
        Err(Some(m)) => {
            return Err(ParseFailure::Language(m));
        },
        Err(None) => {
            return Err(ParseFailure::NoTree);
        },
        Ok(v) => v,
    };
    let b = source.as_bytes();
    let ghost bs = b@;
    let n = b.len();
    // rows[k] and starts[k]: the row of offset k and where its line starts
    let mut rows: Vec<usize> = Vec::new();
    let mut starts: Vec<usize> = Vec::new();
    rows.push(0);
    starts.push(0);
    let mut k: usize = 0;
    while k < n
        invariant
            k <= n,
            n == bs.len(),
            bs == b@,
            rows@.len() == k + 1,
            starts@.len() == k + 1,
            forall|j: int| 0 <= j <= k ==> #[trigger] rows@[j] == newlines_before(bs, j),
            forall|j: int| 0 <= j <= k ==> #[trigger] starts@[j] == line_start(bs, j),
        decreases n - k,
    {
        proof {
            lemma_newlines_bounded(bs, k as int);
        }
        let row = rows[k];
        let next_row = if b[k] == 10 { row + 1 } else { row };
        let next_start = if b[k] == 10 { k + 1 } else { starts[k] };
        rows.push(next_row);
        starts.push(next_start);
        k = k + 1;
    }
    let mut out: Vec<SyntaxEntry> = Vec::new();
    let mut i: usize = 0;
    while i < nodes.len()
        invariant
            i <= nodes@.len(),
            n == bs.len(),
            bs == encode_utf8_of(source@),
            rows@.len() == n + 1,
            starts@.len() == n + 1,
            forall|j: int| 0 <= j <= n ==> #[trigger] rows@[j] == newlines_before(bs, j),
            forall|j: int| 0 <= j <= n ==> #[trigger] starts@[j] == line_start(bs, j),
            out@ == nodes@.take(i as int).map_values(|x: RawNode| entry_of(bs, x)),
        decreases nodes.len() - i,
    {
        let node = &nodes[i];
        let s = if node.5 <= n { node.5 } else { n };
        let e = if node.6 <= n { node.6 } else { n };
        proof {
            lemma_newlines_bounded(bs, s as int);
            lemma_newlines_bounded(bs, e as int);
        }
        let entry = SyntaxEntry {
            kind: node.0.clone(),
            field: node.1.clone(),
            depth: node.2 as usize,
            named: node.3,
            has_error: node.4,
            start_byte: node.5,
            end_byte: node.6,
            start_row: rows[s],
            start_column: s - starts[s],
            end_row: rows[e],
            end_column: e - starts[e],
        };
        assert(entry == entry_of(bs, nodes@[i as int]));
        out.push(entry);
        assert(nodes@.take(i + 1).map_values(|x: RawNode| entry_of(bs, x)) =~= nodes@.take(i as int).map_values(
            |x: RawNode| entry_of(bs, x),
        ).push(entry_of(bs, nodes@[i as int])));
        i = i + 1;
    }
    assert(nodes@.take(nodes@.len() as int) =~= nodes@);
    Ok(out)
}

pub open spec fn encode_utf8_of(s: Seq<char>) -> Seq<u8> {
    vstd::utf8::encode_utf8(s)
}

/// Parses Java source with Tree-sitter into syntax entries.
pub fn parse_java_syntax(source: &str) -> (r: Result<Vec<SyntaxEntry>, ParseFailure>)
    ensures
        syntax_view(r) == java_syntax(source@),
{
    syntax_from_raw(source, parse_java_tree(source))
}

/// Parses Python source with Tree-sitter into syntax entries.
pub fn parse_python_syntax(source: &str) -> (r: Result<Vec<SyntaxEntry>, ParseFailure>)
    ensures
        syntax_view(r) == python_syntax(source@),
{
    syntax_from_raw(source, parse_python_tree(source))
}

/// Decodes bytes as UTF-8 (`std::str::from_utf8`): the text they encode, or
/// nothing when they are not valid UTF-8.
#[verifier::external_body]
fn decode_text(bytes: &[u8]) -> (r: Option<String>)
    ensures
        r is Some <==> valid_utf8(bytes@),
        r matches Some(s) ==> s@ == decode_utf8(bytes@),
{
    std::str::from_utf8(bytes).ok().map(str::to_owned)
}

// ---- tree structure over the preorder list ----

/// The first index in `[j, hi)` whose entry satisfies `p`.
pub open spec fn first_from(es: Seq<SyntaxEntry>, j: int, hi: int, p: spec_fn(SyntaxEntry) -> bool) -> Option<int>
    decreases hi - j,
{
    if j < 0 || j >= hi || j >= es.len() {
        None
    } else if p(es[j]) {
        Some(j)
    } else {
        first_from(es, j + 1, hi, p)
    }
}

pub open spec fn not_deeper(d: usize) -> spec_fn(SyntaxEntry) -> bool {
    |e: SyntaxEntry| e.depth <= d
}

pub open spec fn field_child(d: usize, f: Seq<char>) -> spec_fn(SyntaxEntry) -> bool {
    |e: SyntaxEntry| e.depth == d + 1 && field_is(e, f)
}

pub open spec fn named_child(d: usize) -> spec_fn(SyntaxEntry) -> bool {
    |e: SyntaxEntry| e.depth == d + 1 && e.named
}

pub open spec fn of_kind(k: Seq<char>) -> spec_fn(SyntaxEntry) -> bool {
    |e: SyntaxEntry| e.kind@ == k
}

pub open spec fn one_up(d: usize) -> spec_fn(SyntaxEntry) -> bool {
    |e: SyntaxEntry| e.depth + 1 == d
}

/// The index just past the subtree of node `i`: the first later node that is
/// not deeper than `i`, or the end of the list.
pub open spec fn subtree_end(es: Seq<SyntaxEntry>, i: int) -> int {
    match first_from(es, i + 1, es.len() as int, not_deeper(es[i].depth)) {
        Some(j) => j,
        None => es.len() as int,
    }
}

/// The first child of node `i` held under field `f` (`Node::child_by_field_name`).
pub open spec fn child_by_field(es: Seq<SyntaxEntry>, i: int, f: Seq<char>) -> Option<int> {
    first_from(es, i + 1, subtree_end(es, i), field_child(es[i].depth, f))
}

/// The first named child of node `i` (`Node::named_child(0)`).
pub open spec fn first_named_child(es: Seq<SyntaxEntry>, i: int) -> Option<int> {
    first_from(es, i + 1, subtree_end(es, i), named_child(es[i].depth))
}

/// The first descendant of node `i` of kind `k`, in document order.
pub open spec fn first_descendant(es: Seq<SyntaxEntry>, i: int, k: Seq<char>) -> Option<int> {
    first_from(es, i + 1, subtree_end(es, i), of_kind(k))
}

/// The last index in `[0, j)` whose entry satisfies `p`.
pub open spec fn last_before(es: Seq<SyntaxEntry>, j: int, p: spec_fn(SyntaxEntry) -> bool) -> Option<int>
    decreases j,
{
    if j <= 0 || j > es.len() {
        None
    } else if p(es[j - 1]) {
        Some(j - 1)
    } else {
        last_before(es, j - 1, p)
    }
}

/// The parent of node `i`: the nearest earlier node one level up.
pub open spec fn parent_of(es: Seq<SyntaxEntry>, i: int) -> Option<int> {
    let d = es[i].depth;
    if d == 0 {
        None
    } else {
        last_before(es, i, one_up(d))
    }
}

/// The text of the bytes `[start, end)` of a source, or empty text when the
/// range is out of bounds or not valid UTF-8.
pub open spec fn span_text(source: Seq<char>, start: int, end: int) -> Seq<char> {
    let b = vstd::utf8::encode_utf8(source);
    if 0 <= start <= end <= b.len() && valid_utf8(b.subrange(start, end)) {
        decode_utf8(b.subrange(start, end))
    } else {
        Seq::empty()
    }
}

pub open spec fn node_text(source: Seq<char>, e: SyntaxEntry) -> Seq<char> {
    span_text(source, e.start_byte as int, e.end_byte as int)
}

/// A zero-based position made one-based (saturating at the largest `usize`).
pub open spec fn one_based(n: usize) -> usize {
    if n < usize::MAX { (n + 1) as usize } else { n }
}

pub fn to_one_based(n: usize) -> (r: usize)
    ensures
        r == one_based(n),
{
    n.saturating_add(1)
}

pub open spec fn opt_view(o: Option<String>) -> Option<Seq<char>> {
    match o {
        Some(s) => Some(s@),
        None => None,
    }
}

pub open spec fn text_at(es: Seq<SyntaxEntry>, source: Seq<char>, o: Option<int>) -> Option<Seq<char>> {
    match o {
        Some(k) => Some(node_text(source, es[k])),
        None => None,
    }
}

pub open spec fn field_text(es: Seq<SyntaxEntry>, source: Seq<char>, i: int, f: Seq<char>) -> Option<Seq<char>> {
    text_at(es, source, child_by_field(es, i, f))
}

// ---- executable queries ----

pub fn text_of(source: &str, e: &SyntaxEntry) -> (r: String)
    ensures
        r@ == node_text(source@, *e),
{
    let bytes = source.as_bytes();
    if e.start_byte <= e.end_byte && e.end_byte <= bytes.len() {
        let part = vstd::slice::slice_subrange(bytes, e.start_byte, e.end_byte);
        match decode_text(part) {
            Some(t) => t,
            None => String::new(),
        }
    } else {
        String::new()
    }
}

/// `first_from` for "not deeper than `d`".
fn scan_not_deeper(es: &Vec<SyntaxEntry>, j: usize, d: usize) -> (r: usize)
    requires
        j <= es@.len(),
    ensures
        r == match first_from(es@, j as int, es@.len() as int, not_deeper(d)) {
            Some(k) => k,
            None => es@.len() as int,
        },
    decreases es@.len() - j,
{
    if j >= es.len() {
        es.len()
    } else if es[j].depth <= d {
        j
    } else {
        scan_not_deeper(es, j + 1, d)
    }
}

pub fn end_of_subtree(es: &Vec<SyntaxEntry>, i: usize) -> (r: usize)
    requires
        i < es.len(),
    ensures
        r == subtree_end(es@, i as int),
        i < r <= es@.len(),
{
    let r = scan_not_deeper(es, i + 1, es[i].depth);
    proof {
        lemma_first_from_range(es@, i + 1, es@.len() as int, not_deeper(es@[i as int].depth));
    }
    r
}

pub proof fn lemma_first_from_range(es: Seq<SyntaxEntry>, j: int, hi: int, p: spec_fn(SyntaxEntry) -> bool)
    ensures
        first_from(es, j, hi, p) matches Some(k) ==> j <= k < hi && k < es.len() && p(es[k]),
    decreases hi - j,
{
    if !(j < 0 || j >= hi || j >= es.len()) && !p(es[j]) {
        lemma_first_from_range(es, j + 1, hi, p);
    }
}

/// The first child of `i` held under field `f`.
pub fn find_child_by_field(es: &Vec<SyntaxEntry>, i: usize, f: &str) -> (r: Option<usize>)
    requires
        i < es.len(),
    ensures
        match child_by_field(es@, i as int, f@) {
            Some(k) => r == Some(k as usize),
            None => r is None,
        },
{
    let end = end_of_subtree(es, i);
    let d = es[i].depth;
    let ghost p = field_child(d, f@);
    let mut j: usize = i + 1;
    while j < end
        invariant
            i < j <= end <= es@.len(),
            end == subtree_end(es@, i as int),
            d == es@[i as int].depth,
            p == field_child(d, f@),
            first_from(es@, i + 1, end as int, p) == first_from(es@, j as int, end as int, p),
        decreases end - j,
    {
        let e = &es[j];
        let hit = e.depth == d + 1 && match &e.field {
            Some(x) => crate::text::text_eq(x.as_str(), f),
            None => false,
        };
        if hit {
            return Some(j);
        }
        j = j + 1;
    }
    None
}

/// The first named child of `i`.
pub fn find_first_named_child(es: &Vec<SyntaxEntry>, i: usize) -> (r: Option<usize>)
    requires
        i < es.len(),
    ensures
        match first_named_child(es@, i as int) {
            Some(k) => r == Some(k as usize),
            None => r is None,
        },
{
    let end = end_of_subtree(es, i);
    let d = es[i].depth;
    let ghost p = named_child(d);
    let mut j: usize = i + 1;
    while j < end
        invariant
            i < j <= end <= es@.len(),
            end == subtree_end(es@, i as int),
            d == es@[i as int].depth,
            p == named_child(d),
            first_from(es@, i + 1, end as int, p) == first_from(es@, j as int, end as int, p),
        decreases end - j,
    {
        if es[j].depth == d + 1 && es[j].named {
            return Some(j);
        }
        j = j + 1;
    }
    None
}

/// The first descendant of `i` of kind `k`.
pub fn find_first_descendant(es: &Vec<SyntaxEntry>, i: usize, k: &str) -> (r: Option<usize>)
    requires
        i < es.len(),
    ensures
        match first_descendant(es@, i as int, k@) {
            Some(x) => r == Some(x as usize),
            None => r is None,
        },
{
    let end = end_of_subtree(es, i);
    let ghost p = of_kind(k@);
    let mut j: usize = i + 1;
    while j < end
        invariant
            i < j <= end <= es@.len(),
            end == subtree_end(es@, i as int),
            p == of_kind(k@),
            first_from(es@, i + 1, end as int, p) == first_from(es@, j as int, end as int, p),
        decreases end - j,
    {
        if crate::text::text_eq(es[j].kind.as_str(), k) {
            return Some(j);
        }
        j = j + 1;
    }
    None
}

/// The parent of `i`.
pub fn find_parent(es: &Vec<SyntaxEntry>, i: usize) -> (r: Option<usize>)
    requires
        i < es.len(),
    ensures
        match parent_of(es@, i as int) {
            Some(k) => r == Some(k as usize),
            None => r is None,
        },
{
    let d = es[i].depth;
    if d == 0 {
        return None;
    }
    let ghost p = one_up(d);
    let mut j: usize = i;
    while j > 0
        invariant
            j <= i < es@.len(),
            d == es@[i as int].depth,
            d > 0,
            p == one_up(d),
            last_before(es@, i as int, p) == last_before(es@, j as int, p),
        decreases j,
    {
        if es[j - 1].depth == d - 1 {
            return Some(j - 1);
        }
        j = j - 1;
    }
    None
}

pub fn text_at_exec(es: &Vec<SyntaxEntry>, source: &str, o: Option<usize>) -> (r: Option<String>)
    requires
        o matches Some(k) ==> k < es@.len(),
    ensures
        opt_view(r) == text_at(es@, source@, match o {
            Some(k) => Some(k as int),
            None => None,
        }),
{
    match o {
        Some(k) => Some(text_of(source, &es[k])),
        None => None,
    }
}

pub fn field_text_exec(es: &Vec<SyntaxEntry>, source: &str, i: usize, f: &str) -> (r: Option<String>)
    requires
        i < es.len(),
    ensures
        opt_view(r) == field_text(es@, source@, i as int, f@),
{
    let c = find_child_by_field(es, i, f);
    proof {
        lemma_first_from_range(es@, i + 1, subtree_end(es@, i as int), field_child(es@[i as int].depth, f@));
    }
    text_at_exec(es, source, c)
}

pub proof fn lemma_last_before_range(es: Seq<SyntaxEntry>, j: int, p: spec_fn(SyntaxEntry) -> bool)
    ensures
        last_before(es, j, p) matches Some(k) ==> 0 <= k < j && k < es.len(),
    decreases j,
{
    if !(j <= 0 || j > es.len()) && !p(es[j - 1]) {
        lemma_last_before_range(es, j - 1, p);
    }
}

} // verus!
