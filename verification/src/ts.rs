//! The boundary to the tree-sitter parsing library.
//!
//! Grammars, syntax trees and compiled queries are opaque values here;
//! what the engine reads from them — capture names, capture ranges, the
//! extent of a parse — crosses the boundary as plain values through the
//! trusted functions below, and everything downstream of those values is
//! verified.

use vstd::prelude::*;
use vstd::utf8::encode_utf8;

use crate::range::{Point, Range};

verus! {

#[verifier::external_type_specification]
#[verifier::external_body]
pub struct ExLanguage(tree_sitter::Language);

#[verifier::external_type_specification]
#[verifier::external_body]
pub struct ExTree(tree_sitter::Tree);

#[verifier::external_type_specification]
#[verifier::external_body]
pub struct ExQuery(tree_sitter::Query);

#[verifier::external_type_specification]
#[verifier::external_body]
pub struct ExQueryError(tree_sitter::QueryError);

/// One capture produced by running a query: the capture's index in the
/// query's capture-name table, and the captured node's extent.
#[derive(Clone, Copy, Debug)]
pub struct RawCapture {
    /// Index into the query's capture names.
    pub index: u32,
    /// The captured node's extent.
    pub range: Range,
}

/// One match produced by running a query: its captures, in the order the
/// query engine reports them.
#[derive(Clone, Debug)]
pub struct RawMatch {
    /// The match's captures.
    pub captures: Vec<RawCapture>,
}

/// A capture's range is well formed, fits the wire, and lies within a
/// source of length `n`.
pub open spec fn capture_ok(c: RawCapture, n: int) -> bool {
    &&& c.range.wf()
    &&& c.range.wire_safe()
    &&& c.range.end_byte <= n
}

/// The names of the captures appearing in a query's source text, in
/// order of first appearance, as bytes.
pub uninterp spec fn capture_names_in(source: Seq<char>) -> Seq<Seq<u8>>;

/// The capture-name table of a compiled query, as bytes.
pub uninterp spec fn query_capture_names(q: tree_sitter::Query) -> Seq<Seq<u8>>;

/// The extent of a syntax tree's root node.
pub uninterp spec fn root_range_of(t: tree_sitter::Tree) -> Range;

/// The tree's root lies within a source of length `n`: the text handed
/// alongside the tree covers every node. Running a query demands this;
/// a tree is only ever queried with the text it was parsed from.
pub open spec fn tree_within(t: tree_sitter::Tree, n: int) -> bool {
    root_range_of(t).end_byte <= n
}

/// Whether `source` compiles as a query under `language`.
pub uninterp spec fn query_compiles(language: tree_sitter::Language, source: Seq<char>) -> bool;

/// The query that `source` compiles to under `language`: compilation is
/// deterministic, so the compiled query is a function of the two.
pub uninterp spec fn compiled_query(
    language: tree_sitter::Language,
    source: Seq<char>,
) -> tree_sitter::Query;

/// What parsing `src` under `language` yields: parsing is deterministic,
/// so the result is a function of the two.
pub uninterp spec fn parse_result_of(
    language: tree_sitter::Language,
    src: Seq<u8>,
) -> Option<tree_sitter::Tree>;

/// The match stream of a query over a tree with its source: each match's
/// captures, in the order the query engine reports them.
pub uninterp spec fn matches_of(
    q: tree_sitter::Query,
    t: tree_sitter::Tree,
    src: Seq<u8>,
) -> Seq<Seq<RawCapture>>;

/// The capture stream of a query over a tree with its source: one
/// capture at a time, in source order.
pub uninterp spec fn captures_of(
    q: tree_sitter::Query,
    t: tree_sitter::Tree,
    src: Seq<u8>,
) -> Seq<RawCapture>;

/// The handle of the grammar with the given name: each grammar crate
/// exposes one static grammar object.
pub uninterp spec fn language_handle(name: Seq<char>) -> tree_sitter::Language;

/// The captures of `caps` that a filter keeps: all of them, or only
/// those with the wanted index.
pub open spec fn filter_captures(caps: Seq<RawCapture>, wanted: Option<u32>) -> Seq<RawCapture>
    decreases caps.len(),
{
    if caps.len() == 0 {
        Seq::empty()
    } else {
        let keep = match wanted {
            Some(w) => caps[0].index == w,
            None => true,
        };
        if keep {
            seq![caps[0]] + filter_captures(caps.drop_first(), wanted)
        } else {
            filter_captures(caps.drop_first(), wanted)
        }
    }
}

/// The flat capture list of a match stream, filtered.
pub open spec fn selected_captures(ms: Seq<Seq<RawCapture>>, wanted: Option<u32>) -> Seq<
    RawCapture,
>
    decreases ms.len(),
{
    if ms.len() == 0 {
        Seq::empty()
    } else {
        filter_captures(ms[0], wanted) + selected_captures(ms.drop_first(), wanted)
    }
}

/// Relies on `tree_sitter::Query::new`: compilation succeeds or fails
/// deterministically by language and source text alone; a compiled
/// query's capture names are exactly the capture names written in its
/// source text, and capture indices are 32-bit, so the table's length
/// fits 32 bits.
#[verifier::external_body]
pub fn query_new(language: tree_sitter::Language, source: &str) -> (r: Result<
    tree_sitter::Query,
    tree_sitter::QueryError,
>)
    ensures
        r is Ok <==> query_compiles(language, source@),
        r matches Ok(q) ==> {
            &&& q == compiled_query(language, source@)
            &&& query_capture_names(q) == capture_names_in(source@)
            &&& capture_names_in(source@).len() <= 0xFFFF_FFFF
        },
{
    tree_sitter::Query::new(language, source)
}

/// Relies on `tree_sitter::Query::capture_names`: it returns the names
/// of the query's captures, in table order; capture indices are 32-bit,
/// so the table's length fits 32 bits.
#[verifier::external_body]
pub(crate) fn capture_names(q: &tree_sitter::Query) -> (r: Vec<String>)
    ensures
        r@.map_values(|s: String| encode_utf8(s@)) == query_capture_names(*q),
        r@.len() <= 0xFFFF_FFFF,
{
    q.capture_names().to_vec()
}

/// Relies on `tree_sitter::Parser::parse` (after `set_language`):
/// parsing is deterministic by language and input alone, and on success
/// the returned tree's root node ends at the input's end — though it may
/// start past byte 0, since the lexer folds leading text it skips into
/// padding that the root node's extent leaves out. `None` when the
/// language could not be set or parsing did not finish. The parser
/// addresses its input through 32-bit offsets, so the input must be
/// shorter than 2^32 bytes.
#[verifier::external_body]
pub fn parse_source(language: tree_sitter::Language, src: &[u8]) -> (r: Option<tree_sitter::Tree>)
    requires
        src@.len() < 0x1_0000_0000,
    ensures
        r == parse_result_of(language, src@),
        r matches Some(t) ==> root_range_of(t).end_byte == src@.len(),
{
    let mut parser = tree_sitter::Parser::new();
    if parser.set_language(language).is_err() {
        return None;
    }
    parser.parse(src, None)
}

/// Relies on `tree_sitter::Tree::root_node` and `Node::range`: the root
/// node's extent; the parser stores positions in 32 bits, and a node
/// never ends before it starts.
#[verifier::external_body]
pub(crate) fn tree_root_range(t: &tree_sitter::Tree) -> (r: Range)
    ensures
        r == root_range_of(*t),
        r.wf(),
        r.wire_safe(),
{
    let r = t.root_node().range();
    Range {
        start_byte: r.start_byte,
        end_byte: r.end_byte,
        start_point: Point { row: r.start_point.row, column: r.start_point.column },
        end_point: Point { row: r.end_point.row, column: r.end_point.column },
    }
}

/// Relies on `tree_sitter::QueryCursor::matches`, run from the tree's
/// root with `src` as the text for the query's text predicates: the
/// match stream is deterministic by query, tree and text; every reported
/// capture carries an index into the query's capture-name table and a
/// well-formed node extent within the parsed source. The text must
/// cover the tree: the engine slices it at node ranges.
#[verifier::external_body]
pub(crate) fn query_matches(query: &tree_sitter::Query, tree: &tree_sitter::Tree, src: &[u8]) -> (r: Vec<
    RawMatch,
>)
    requires
        tree_within(*tree, src@.len() as int),
    ensures
        r@.map_values(|m: RawMatch| m.captures@) == matches_of(*query, *tree, src@),
        forall|i: int, j: int|
            0 <= i < r@.len() && 0 <= j < r@[i].captures@.len() ==> {
                &&& capture_ok(#[trigger] r@[i].captures@[j], src@.len() as int)
                &&& r@[i].captures@[j].index < query_capture_names(*query).len()
            },
{
    let mut cursor = tree_sitter::QueryCursor::new();
    cursor.matches(query, tree.root_node(), src).map(|m| RawMatch {
        captures: m.captures.iter().map(|c| {
            let r = c.node.range();
            RawCapture { index: c.index, range: Range {
            start_byte: r.start_byte,
            end_byte: r.end_byte,
            start_point: Point { row: r.start_point.row, column: r.start_point.column },
            end_point: Point { row: r.end_point.row, column: r.end_point.column },
        } }
        }).collect(),
    }).collect()
}

/// Relies on `tree_sitter::QueryCursor::captures`, run from the tree's
/// root with `src` as the text for the query's text predicates: the
/// capture stream is deterministic by query, tree and text, and comes
/// one capture at a time, in source order; each carries an index into
/// the query's capture-name table and a well-formed node extent within
/// the parsed source. The text must cover the tree: the engine slices
/// it at node ranges.
#[verifier::external_body]
pub(crate) fn query_captures(query: &tree_sitter::Query, tree: &tree_sitter::Tree, src: &[u8]) -> (r: Vec<
    RawCapture,
>)
    requires
        tree_within(*tree, src@.len() as int),
    ensures
        r@ == captures_of(*query, *tree, src@),
        forall|i: int|
            0 <= i < r@.len() ==> {
                &&& capture_ok(#[trigger] r@[i], src@.len() as int)
                &&& r@[i].index < query_capture_names(*query).len()
            },
{
    let mut cursor = tree_sitter::QueryCursor::new();
    cursor.captures(query, tree.root_node(), src).map(|(m, capture_index)| {
        let c = m.captures[capture_index];
        let r = c.node.range();
        RawCapture { index: c.index, range: Range {
            start_byte: r.start_byte,
            end_byte: r.end_byte,
            start_point: Point { row: r.start_point.row, column: r.start_point.column },
            end_point: Point { row: r.end_point.row, column: r.end_point.column },
        } }
    }).collect()
}

/// Relies on `tree_sitter_bash::language`: it hands out the one
/// static grammar object of its crate.
#[verifier::external_body]
pub fn bash_language() -> (r: tree_sitter::Language)
    ensures
        r == language_handle("bash"@),
{
    tree_sitter_bash::language()
}

/// Relies on `tree_sitter_dockerfile::language`: it hands out the one
/// static grammar object of its crate.
#[verifier::external_body]
pub fn dockerfile_language() -> (r: tree_sitter::Language)
    ensures
        r == language_handle("dockerfile"@),
{
    tree_sitter_dockerfile::language()
}

/// Relies on `tree_sitter_elm::language`: it hands out the one
/// static grammar object of its crate.
#[verifier::external_body]
pub fn elm_language() -> (r: tree_sitter::Language)
    ensures
        r == language_handle("elm"@),
{
    tree_sitter_elm::language()
}

/// Relies on `tree_sitter_go::language`: it hands out the one
/// static grammar object of its crate.
#[verifier::external_body]
pub fn go_language() -> (r: tree_sitter::Language)
    ensures
        r == language_handle("go"@),
{
    tree_sitter_go::language()
}

/// Relies on `tree_sitter_ruby::language`: it hands out the one
/// static grammar object of its crate.
#[verifier::external_body]
pub fn ruby_language() -> (r: tree_sitter::Language)
    ensures
        r == language_handle("ruby"@),
{
    tree_sitter_ruby::language()
}

/// Relies on `tree_sitter_yaml::language`: it hands out the one
/// static grammar object of its crate.
#[verifier::external_body]
pub fn yaml_language() -> (r: tree_sitter::Language)
    ensures
        r == language_handle("yaml"@),
{
    tree_sitter_yaml::language()
}

} // verus!
