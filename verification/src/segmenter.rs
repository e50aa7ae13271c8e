//! The syntax segmenter: per-language, pattern-based extraction of syntactic
//! units from a parsed source tree, delegating oversized units to the
//! sliding-window splitter.
//!
//! Parsing and query matching are done by the tree-sitter library.  Both are
//! deterministic in the grammar and the text, so their outcomes are named
//! (`ts_parses`, `ts_query_captures`) and every step after the calls is
//! verified against those names.

use vstd::prelude::*;

use crate::splitter::{spec_split, TextSplitter};
use crate::strutil::{contains_seq, contains_str, dec_str, lines_of, str_eq, usize_to_string};
use crate::tokenizer::{token_count_of, Tokenizer};
use crate::types::{Chunk, ChunkType, ChunkView};

verus! {

#[verifier::external_type_specification]
#[verifier::external_body]
pub struct ExTsLanguage(tree_sitter::Language);

#[verifier::external_type_specification]
#[verifier::external_body]
pub struct ExTsTree(tree_sitter::Tree);

/// Grammar tags, used to name what the per-language parsers return.
pub const LANG_RUST: u64 = 1;

pub const LANG_JAVASCRIPT: u64 = 2;

pub const LANG_TSX: u64 = 3;

pub const LANG_JAVA: u64 = 4;

/// One query capture, handed out of tree-sitter as plain values.
pub struct RawCapture {
    /// Ordinal of the match this capture belongs to, in match order.
    pub match_index: usize,
    /// The capture's name in the query (`"item"`, `"name"`, `"body"`).
    pub cap_name: String,
    pub start_byte: usize,
    pub end_byte: usize,
    pub start_row: usize,
    pub end_row: usize,
    /// The captured node's text, when its byte span lies on character
    /// boundaries inside the content.
    pub text: Option<String>,
}

/// The mathematical shadow of a [`RawCapture`].
pub struct CaptureView {
    pub match_index: int,
    pub cap_name: Seq<char>,
    pub start_byte: int,
    pub end_byte: int,
    pub start_row: int,
    pub end_row: int,
    pub text: Option<Seq<char>>,
}

impl View for RawCapture {
    type V = CaptureView;

    open spec fn view(&self) -> CaptureView {
        CaptureView {
            match_index: self.match_index as int,
            cap_name: self.cap_name@,
            start_byte: self.start_byte as int,
            end_byte: self.end_byte as int,
            start_row: self.start_row as int,
            end_row: self.end_row as int,
            text: match self.text {
                Some(ref t) => Some(t@),
                None => None,
            },
        }
    }
}

/// Whether the grammar tagged `lang` parses `content` into a tree.
pub uninterp spec fn ts_parses(lang: int, content: Seq<char>) -> bool;

/// The captures that running `query` over the parse tree of `content`
/// under the grammar tagged `lang` yields, in match order; `None` when the
/// query does not compile.
pub uninterp spec fn ts_query_captures(lang: int, query: Seq<char>, content: Seq<char>) -> Option<
    Seq<CaptureView>,
>;

/// A grammar handle and the tree it parsed, as tree-sitter hands them out.
struct RawTree {
    lang: tree_sitter::Language,
    tree: tree_sitter::Tree,
}

/// A parse tree together with the ghost of which grammar built it and of
/// which content it parses.  The fields are private: values exist only
/// through the `parse_*` constructors below, which pair each tree with the
/// tag of the grammar that actually built it.
pub struct ParsedTree {
    raw: RawTree,
    tag: Ghost<int>,
    content: Ghost<Seq<char>>,
}

impl ParsedTree {
    /// Which grammar built this tree.
    pub closed spec fn lang_tag(&self) -> int {
        self.tag@
    }

    /// The content this tree parses.
    pub closed spec fn text(&self) -> Seq<char> {
        self.content@
    }
}

/// Relies on `tree_sitter::Parser::new`, `Parser::set_language` with the
/// `tree_sitter_rust` grammar, and `Parser::parse`: parsing is deterministic
/// in the content.
#[verifier::external_body]
fn parse_rust_raw(content: &str) -> (r: Option<RawTree>)
    ensures
        r is Some <==> ts_parses(LANG_RUST as int, content@),
{
    let language = tree_sitter_rust::language();
    let mut parser = tree_sitter::Parser::new();
    if parser.set_language(language).is_err() {
        return None;
    }
    let tree = parser.parse(content, None)?;
    Some(RawTree { lang: language, tree })
}

/// Relies on `tree_sitter::Parser` with the `tree_sitter_javascript`
/// grammar, as `parse_rust_raw` does.
#[verifier::external_body]
fn parse_javascript_raw(content: &str) -> (r: Option<RawTree>)
    ensures
        r is Some <==> ts_parses(LANG_JAVASCRIPT as int, content@),
{
    let language = tree_sitter_javascript::language();
    let mut parser = tree_sitter::Parser::new();
    if parser.set_language(language).is_err() {
        return None;
    }
    let tree = parser.parse(content, None)?;
    Some(RawTree { lang: language, tree })
}

/// Relies on `tree_sitter::Parser` with the `tree_sitter_typescript` TSX
/// grammar, as `parse_rust_raw` does.
#[verifier::external_body]
fn parse_tsx_raw(content: &str) -> (r: Option<RawTree>)
    ensures
        r is Some <==> ts_parses(LANG_TSX as int, content@),
{
    let language = tree_sitter_typescript::language_tsx();
    let mut parser = tree_sitter::Parser::new();
    if parser.set_language(language).is_err() {
        return None;
    }
    let tree = parser.parse(content, None)?;
    Some(RawTree { lang: language, tree })
}

/// Relies on `tree_sitter::Parser` with the `tree_sitter_java` grammar, as
/// `parse_rust_raw` does.
#[verifier::external_body]
fn parse_java_raw(content: &str) -> (r: Option<RawTree>)
    ensures
        r is Some <==> ts_parses(LANG_JAVA as int, content@),
{
    let language = tree_sitter_java::language();
    let mut parser = tree_sitter::Parser::new();
    if parser.set_language(language).is_err() {
        return None;
    }
    let tree = parser.parse(content, None)?;
    Some(RawTree { lang: language, tree })
}

fn parse_rust(content: &str) -> (r: Option<ParsedTree>)
    ensures
        r is Some <==> ts_parses(LANG_RUST as int, content@),
        r matches Some(t) ==> t.lang_tag() == LANG_RUST as int && t.text() == content@,
{
    match parse_rust_raw(content) {
        Some(raw) => Some(
            ParsedTree { raw, tag: Ghost(LANG_RUST as int), content: Ghost(content@) },
        ),
        None => None,
    }
}

fn parse_javascript(content: &str) -> (r: Option<ParsedTree>)
    ensures
        r is Some <==> ts_parses(LANG_JAVASCRIPT as int, content@),
        r matches Some(t) ==> t.lang_tag() == LANG_JAVASCRIPT as int && t.text() == content@,
{
    match parse_javascript_raw(content) {
        Some(raw) => Some(
            ParsedTree { raw, tag: Ghost(LANG_JAVASCRIPT as int), content: Ghost(content@) },
        ),
        None => None,
    }
}

fn parse_tsx(content: &str) -> (r: Option<ParsedTree>)
    ensures
        r is Some <==> ts_parses(LANG_TSX as int, content@),
        r matches Some(t) ==> t.lang_tag() == LANG_TSX as int && t.text() == content@,
{
    match parse_tsx_raw(content) {
        Some(raw) => Some(ParsedTree { raw, tag: Ghost(LANG_TSX as int), content: Ghost(content@) }),
        None => None,
    }
}

fn parse_java(content: &str) -> (r: Option<ParsedTree>)
    ensures
        r is Some <==> ts_parses(LANG_JAVA as int, content@),
        r matches Some(t) ==> t.lang_tag() == LANG_JAVA as int && t.text() == content@,
{
    match parse_java_raw(content) {
        Some(raw) => Some(
            ParsedTree { raw, tag: Ghost(LANG_JAVA as int), content: Ghost(content@) },
        ),
        None => None,
    }
}

/// One capture as plain values: match ordinal, capture name, byte span,
/// row span, and the captured text when its span could be sliced out.
pub type CapRec = (usize, String, usize, usize, usize, usize, Option<String>);

/// The shadow of one plain capture record.
pub open spec fn rec_view(r: CapRec) -> CaptureView {
    CaptureView {
        match_index: r.0 as int,
        cap_name: r.1@,
        start_byte: r.2 as int,
        end_byte: r.3 as int,
        start_row: r.4 as int,
        end_row: r.5 as int,
        text: match r.6 {
            Some(t) => Some(t@),
            None => None,
        },
    }
}

/// The view of what a query run hands back.
pub open spec fn recs_view(r: Option<Vec<CapRec>>) -> Option<Seq<CaptureView>> {
    match r {
        Some(v) => Some(v@.map_values(|c: CapRec| rec_view(c))),
        None => None,
    }
}

/// Relies on `tree_sitter::Query::new` and `tree_sitter::QueryCursor::matches`:
/// for a fixed grammar, the captures of a query over a text depend on the
/// query and the text alone.  Every capture of every match is handed back as
/// plain values, in match order; `None` when the query does not compile.
/// The tree must parse this very content under the grammar its tag names,
/// which the `parse_*` constructors guarantee.
#[verifier::external_body]
fn run_query(t: &ParsedTree, query_src: &str, content: &str) -> (r: Option<Vec<CapRec>>)
    requires
        t.text() == content@,
    ensures
        recs_view(r) == ts_query_captures(t.lang_tag(), query_src@, content@),
{
    let query = match tree_sitter::Query::new(t.raw.lang, query_src) {
        Ok(q) => q,
        Err(_) => return None,
    };
    let mut cursor = tree_sitter::QueryCursor::new();
    let mut out: Vec<CapRec> = Vec::new();
    for (mi, m) in cursor.matches(&query, t.raw.tree.root_node(), content.as_bytes()).enumerate() {
        for c in m.captures {
            let n = c.node;
            out.push((mi, query.capture_names()[c.index as usize].clone(), n.start_byte(), n.end_byte(), n.start_position().row, n.end_position().row, content.get(n.byte_range()).map(|s| s.to_string())));
        }
    }
    Some(out)
}

/// Rebuild structured captures from the plain records of a query run.
fn caps_of_recs(recs: Vec<CapRec>) -> (r: Vec<RawCapture>)
    ensures
        r@.map_values(|c: RawCapture| c@) == recs@.map_values(|c: CapRec| rec_view(c)),
{
    let ghost rv = recs@.map_values(|c: CapRec| rec_view(c));
    let mut out: Vec<RawCapture> = Vec::new();
    let n: usize = recs.len();
    let mut i: usize = 0;
    while i < n
        invariant
            n == recs@.len(),
            rv == recs@.map_values(|c: CapRec| rec_view(c)),
            0 <= i <= n,
            out@.map_values(|c: RawCapture| c@) == rv.take(i as int),
        decreases n - i,
    {
        let rec: &CapRec = &recs[i];
        let cap = RawCapture {
            match_index: rec.0,
            cap_name: rec.1.clone(),
            start_byte: rec.2,
            end_byte: rec.3,
            start_row: rec.4,
            end_row: rec.5,
            text: match &rec.6 {
                Some(t) => Some(t.clone()),
                None => None,
            },
        };
        let ghost before = out@;
        out.push(cap);
        proof {
            assert(rv[i as int] == rec_view(recs@[i as int]));
            assert(out@.map_values(|c: RawCapture| c@) =~= before.map_values(
                |c: RawCapture| c@,
            ).push(rv[i as int]));
            assert(out@.map_values(|c: RawCapture| c@) =~= rv.take(i + 1));
        }
        i = i + 1;
    }
    proof {
        assert(rv.take(n as int) =~= rv);
    }
    out
}

/// The structural patterns for Rust sources.
pub const RUST_Q_FUNCTION: &'static str = "(function_item name: (identifier) @name body: (block) @body) @item";

pub const RUST_Q_STRUCT: &'static str = "(struct_item name: (type_identifier) @name body: (field_declaration_list) @body) @item";

pub const RUST_Q_IMPL: &'static str = "(impl_item type: (type_identifier) @name body: (declaration_list) @body) @item";

/// The structural patterns for JavaScript sources.
pub const JS_Q_FUNCTION: &'static str = "(function_declaration name: (identifier) @name body: (statement_block) @body) @item";

pub const JS_Q_ARROW: &'static str = "(variable_declarator name: (identifier) @name value: (arrow_function body: (statement_block) @body)) @item";

pub const JS_Q_CLASS: &'static str = "(class_declaration name: (identifier) @name body: (class_body) @body) @item";

pub const JS_Q_METHOD: &'static str = "(method_definition name: (property_identifier) @name body: (statement_block) @body) @item";

/// The structural patterns for TSX sources, beyond the JavaScript ones.
pub const TSX_Q_INTERFACE: &'static str = "(interface_declaration name: (type_identifier) @name body: (interface_body) @body) @item";

/// The structural patterns for Java sources.
pub const JAVA_Q_CLASS: &'static str = "(class_declaration name: (identifier) @name body: (class_body) @body) @item";

pub const JAVA_Q_METHOD: &'static str = "(method_declaration name: (identifier) @name body: (block) @body) @item";

pub const JAVA_Q_INTERFACE: &'static str = "(interface_declaration name: (identifier) @name body: (interface_body) @body) @item";

pub open spec fn rust_query_seq() -> Seq<Seq<char>> {
    seq![RUST_Q_FUNCTION@, RUST_Q_STRUCT@, RUST_Q_IMPL@]
}

pub open spec fn javascript_query_seq() -> Seq<Seq<char>> {
    seq![JS_Q_FUNCTION@, JS_Q_ARROW@, JS_Q_CLASS@, JS_Q_METHOD@]
}

pub open spec fn tsx_query_seq() -> Seq<Seq<char>> {
    seq![JS_Q_FUNCTION@, JS_Q_ARROW@, JS_Q_CLASS@, TSX_Q_INTERFACE@, JS_Q_METHOD@]
}

pub open spec fn java_query_seq() -> Seq<Seq<char>> {
    seq![JAVA_Q_CLASS@, JAVA_Q_METHOD@, JAVA_Q_INTERFACE@]
}

fn rust_queries() -> (r: Vec<&'static str>)
    ensures
        r@.map_values(|q: &str| q@) == rust_query_seq(),
{
    let r: Vec<&'static str> = vec![RUST_Q_FUNCTION, RUST_Q_STRUCT, RUST_Q_IMPL];
    proof {
        assert(r@.map_values(|q: &str| q@) =~= rust_query_seq());
    }
    r
}

fn javascript_queries() -> (r: Vec<&'static str>)
    ensures
        r@.map_values(|q: &str| q@) == javascript_query_seq(),
{
    let r: Vec<&'static str> = vec![JS_Q_FUNCTION, JS_Q_ARROW, JS_Q_CLASS, JS_Q_METHOD];
    proof {
        assert(r@.map_values(|q: &str| q@) =~= javascript_query_seq());
    }
    r
}

fn tsx_queries() -> (r: Vec<&'static str>)
    ensures
        r@.map_values(|q: &str| q@) == tsx_query_seq(),
{
    let r: Vec<&'static str> = vec![
        JS_Q_FUNCTION,
        JS_Q_ARROW,
        JS_Q_CLASS,
        TSX_Q_INTERFACE,
        JS_Q_METHOD,
    ];
    proof {
        assert(r@.map_values(|q: &str| q@) =~= tsx_query_seq());
    }
    r
}

fn java_queries() -> (r: Vec<&'static str>)
    ensures
        r@.map_values(|q: &str| q@) == java_query_seq(),
{
    let r: Vec<&'static str> = vec![JAVA_Q_CLASS, JAVA_Q_METHOD, JAVA_Q_INTERFACE];
    proof {
        assert(r@.map_values(|q: &str| q@) =~= java_query_seq());
    }
    r
}

/// Which chunk kind a pattern produces, read off the pattern's text.
pub open spec fn spec_chunk_type(q: Seq<char>) -> ChunkType {
    if contains_seq(q, "class_declaration"@) {
        ChunkType::Class
    } else if contains_seq(q, "interface_declaration"@) {
        ChunkType::Interface
    } else if contains_seq(q, "struct_item"@) {
        ChunkType::Struct
    } else if contains_seq(q, "impl_item"@) {
        ChunkType::Impl
    } else if contains_seq(q, "method_"@) {
        ChunkType::Method
    } else {
        ChunkType::Function
    }
}

/// Classify the chunk kind a structural pattern produces.
pub fn determine_chunk_type(query_str: &str) -> (r: ChunkType)
    ensures
        r == spec_chunk_type(query_str@),
{
    if contains_str(query_str, "class_declaration") {
        ChunkType::Class
    } else if contains_str(query_str, "interface_declaration") {
        ChunkType::Interface
    } else if contains_str(query_str, "struct_item") {
        ChunkType::Struct
    } else if contains_str(query_str, "impl_item") {
        ChunkType::Impl
    } else if contains_str(query_str, "method_") {
        ChunkType::Method
    } else {
        ChunkType::Function
    }
}

/// The byte length of a text under UTF-8, as `str::len` reports it.
pub open spec fn byte_len(s: Seq<char>) -> int {
    (vstd::utf8::encode_utf8(s).len() as usize) as int
}

/// Whether a capture denotes a syntactic unit the segmenter emits: an
/// `item` capture whose byte span is non-empty and inside the content,
/// whose text could be sliced out, and whose rows are sane enough that the
/// emitted line numbers fit the machine.
pub open spec fn cap_is_unit(cap: CaptureView, cbytes: int) -> bool {
    &&& cap.cap_name == "item"@
    &&& cap.start_byte < cap.end_byte
    &&& cap.end_byte <= cbytes
    &&& cap.text is Some
    &&& cap.start_row <= cap.end_row
    &&& cap.end_row + 1 <= usize::MAX
    &&& cap.start_row + cap.text.unwrap().len() + 2 <= usize::MAX
}

/// The first `name` capture of match `m`, searching from position `i`.
pub open spec fn find_name_cap(all: Seq<CaptureView>, m: int, i: int) -> int
    decreases all.len() - i,
    when 0 <= i <= all.len()
{
    if i >= all.len() {
        -1
    } else if all[i].match_index == m && all[i].cap_name == "name"@ {
        i
    } else {
        find_name_cap(all, m, i + 1)
    }
}

pub proof fn lemma_find_name_cap_bounds(all: Seq<CaptureView>, m: int, i: int)
    requires
        0 <= i <= all.len(),
    ensures
        find_name_cap(all, m, i) == -1 || i <= find_name_cap(all, m, i) < all.len(),
    decreases all.len() - i,
{
    if i < all.len() && !(all[i].match_index == m && all[i].cap_name == "name"@) {
        lemma_find_name_cap_bounds(all, m, i + 1);
    }
}

/// The unit's optional identifier: the text of the first `name` capture of
/// the same match, when its span is non-empty and inside the content.
pub open spec fn spec_unit_name(all: Seq<CaptureView>, m: int, cbytes: int) -> Option<Seq<char>> {
    let i = find_name_cap(all, m, 0);
    if i < 0 {
        None
    } else {
        let c = all[i];
        if c.start_byte < c.end_byte && c.end_byte <= cbytes && c.text is Some {
            Some(c.text.unwrap())
        } else {
            None
        }
    }
}

/// The chunks one syntactic unit contributes: a single chunk when its token
/// count fits `max`, else the sliding-window sub-chunks with composite
/// indices and line spans shifted to the unit's start line.  The splitter's
/// window ends are exclusive; shifted sub-chunks carry 1-based inclusive
/// spans, like the unshifted syntax chunks, so the shifted end is the
/// window end plus the start line minus one.  Every sub-chunk therefore
/// stays inside the unit's own line span.
pub open spec fn spec_unit_chunks(
    cap: CaptureView,
    name: Option<Seq<char>>,
    kind: ChunkType,
    path: Seq<char>,
    idx: int,
    max: int,
    size: int,
    overlap: int,
) -> Seq<ChunkView> {
    let text = cap.text.unwrap();
    let sl = cap.start_row + 1;
    if token_count_of(text) > max {
        let subs = spec_split(text, path, size, overlap);
        Seq::new(
            subs.len(),
            |j: int|
                ChunkView {
                    path: path,
                    chunk_index: dec_str(idx) + seq!['-'] + dec_str(j),
                    chunk_start_line: subs[j].chunk_start_line + sl,
                    chunk_end_line: subs[j].chunk_end_line + sl - 1,
                    text: subs[j].text,
                    function_name: name,
                    chunk_type: kind,
                },
        )
    } else {
        seq![
            ChunkView {
                path: path,
                chunk_index: dec_str(idx),
                chunk_start_line: sl,
                chunk_end_line: cap.end_row + 1,
                text: text,
                function_name: name,
                chunk_type: kind,
            },
        ]
    }
}

/// The chunks a capture list contributes, processing `item` captures in
/// order and numbering each unit consecutively from `idx`.
pub open spec fn spec_units(
    caps: Seq<CaptureView>,
    all: Seq<CaptureView>,
    kind: ChunkType,
    cbytes: int,
    path: Seq<char>,
    idx: int,
    max: int,
    size: int,
    overlap: int,
) -> Seq<ChunkView>
    decreases caps.len(),
{
    if caps.len() == 0 {
        Seq::empty()
    } else {
        let head = caps[0];
        if cap_is_unit(head, cbytes) {
            spec_unit_chunks(
                head,
                spec_unit_name(all, head.match_index, cbytes),
                kind,
                path,
                idx,
                max,
                size,
                overlap,
            ) + spec_units(caps.drop_first(), all, kind, cbytes, path, idx + 1, max, size, overlap)
        } else {
            spec_units(caps.drop_first(), all, kind, cbytes, path, idx, max, size, overlap)
        }
    }
}

/// How many units a capture list holds.
pub open spec fn count_units(caps: Seq<CaptureView>, cbytes: int) -> int
    decreases caps.len(),
{
    if caps.len() == 0 {
        0
    } else {
        (if cap_is_unit(caps[0], cbytes) {
            1int
        } else {
            0int
        }) + count_units(caps.drop_first(), cbytes)
    }
}

/// The chunks of the queries from position `qi` on, in pattern order, with
/// units numbered consecutively from `idx` across patterns.
pub open spec fn spec_segment_queries(
    lang: int,
    queries: Seq<Seq<char>>,
    qi: int,
    content: Seq<char>,
    cbytes: int,
    path: Seq<char>,
    idx: int,
    max: int,
    size: int,
    overlap: int,
) -> Seq<ChunkView>
    decreases queries.len() - qi,
    when 0 <= qi <= queries.len()
{
    if qi >= queries.len() {
        Seq::empty()
    } else {
        match ts_query_captures(lang, queries[qi], content) {
            None => spec_segment_queries(
                lang,
                queries,
                qi + 1,
                content,
                cbytes,
                path,
                idx,
                max,
                size,
                overlap,
            ),
            Some(caps) => spec_units(
                caps,
                caps,
                spec_chunk_type(queries[qi]),
                cbytes,
                path,
                idx,
                max,
                size,
                overlap,
            ) + spec_segment_queries(
                lang,
                queries,
                qi + 1,
                content,
                cbytes,
                path,
                idx + count_units(caps, cbytes),
                max,
                size,
                overlap,
            ),
        }
    }
}

/// What segmenting `content` under the grammar tagged `lang` yields: the
/// empty sequence when the content does not parse, else the units of the
/// fixed ordered pattern set.
pub open spec fn spec_segment(
    lang: int,
    queries: Seq<Seq<char>>,
    content: Seq<char>,
    path: Seq<char>,
    max: int,
    size: int,
    overlap: int,
) -> Seq<ChunkView> {
    if !ts_parses(lang, content) {
        Seq::empty()
    } else {
        spec_segment_queries(
            lang,
            queries,
            0,
            content,
            byte_len(content),
            path,
            0,
            max,
            size,
            overlap,
        )
    }
}

/// Find a unit's optional identifier among the captures of its match.
pub fn extract_function_name(caps: &Vec<RawCapture>, m: usize, content_bytes: usize) -> (r: Option<
    String,
>)
    ensures
        ({
            let rv = match r {
                Some(ref s) => Some(s@),
                None => None,
            };
            rv == spec_unit_name(caps@.map_values(|c: RawCapture| c@), m as int, content_bytes as int)
        }),
{
    let ghost all = caps@.map_values(|c: RawCapture| c@);
    let n: usize = caps.len();
    let mut i: usize = 0;
    while i < n
        invariant
            n == caps@.len(),
            all == caps@.map_values(|c: RawCapture| c@),
            0 <= i <= n,
            find_name_cap(all, m as int, 0) == find_name_cap(all, m as int, i as int),
        decreases n - i,
    {
        let is_name: bool = caps[i].match_index == m && str_eq(caps[i].cap_name.as_str(), "name");
        if is_name {
            proof {
                assert(all[i as int] == caps@[i as int]@);
                assert(find_name_cap(all, m as int, i as int) == i);
            }
            let c = &caps[i];
            if c.start_byte < c.end_byte && c.end_byte <= content_bytes {
                match &c.text {
                    Some(t) => {
                        return Some(t.clone());
                    },
                    None => {
                        return None;
                    },
                }
            }
            return None;
        }
        proof {
            assert(all[i as int] == caps@[i as int]@);
        }
        i = i + 1;
    }
    proof {
        lemma_find_name_cap_bounds(all, m as int, i as int);
    }
    None
}

pub proof fn lemma_count_units_append(a: Seq<CaptureView>, b: Seq<CaptureView>, cb: int)
    ensures
        count_units(a + b, cb) == count_units(a, cb) + count_units(b, cb),
    decreases a.len(),
{
    if a.len() == 0 {
        assert(a + b =~= b);
    } else {
        assert((a + b).drop_first() =~= a.drop_first() + b);
        assert((a + b)[0] == a[0]);
        lemma_count_units_append(a.drop_first(), b, cb);
    }
}

pub proof fn lemma_count_units_nonneg(a: Seq<CaptureView>, cb: int)
    ensures
        0 <= count_units(a, cb) <= a.len(),
    decreases a.len(),
{
    if a.len() > 0 {
        lemma_count_units_nonneg(a.drop_first(), cb);
    }
}

/// Emit the units of one pattern's captures, numbering them from `idx0`.
/// Returns the next free ordinal.
fn units_for_query(
    caps: &Vec<RawCapture>,
    kind: ChunkType,
    content_bytes: usize,
    path: &str,
    idx0: usize,
    max: usize,
    splitter: &TextSplitter,
    tok: &Tokenizer,
    out: &mut Vec<Chunk>,
) -> (r: usize)
    requires
        idx0 <= old(out)@.len(),
    ensures
        final(out)@.map_values(|ch: Chunk| ch@) == old(out)@.map_values(|ch: Chunk| ch@)
            + spec_units(
            caps@.map_values(|c: RawCapture| c@),
            caps@.map_values(|c: RawCapture| c@),
            kind,
            content_bytes as int,
            path@,
            idx0 as int,
            max as int,
            splitter.chunk_size as int,
            splitter.chunk_overlap as int,
        ),
        r as int == idx0 + count_units(caps@.map_values(|c: RawCapture| c@), content_bytes as int),
        r <= final(out)@.len(),
{
    let ghost capsv = caps@.map_values(|c: RawCapture| c@);
    let ghost base = out@.map_values(|ch: Chunk| ch@);
    let ghost cb = content_bytes as int;
    let ghost size = splitter.chunk_size as int;
    let ghost overlap = splitter.chunk_overlap as int;
    let n: usize = caps.len();
    let mut idx: usize = idx0;
    let mut j: usize = 0;
    proof {
        assert(capsv.skip(0) =~= capsv);
        assert(capsv.take(0) =~= Seq::<CaptureView>::empty());
    }
    while j < n
        invariant
            n == caps@.len(),
            capsv == caps@.map_values(|c: RawCapture| c@),
            cb == content_bytes as int,
            size == splitter.chunk_size as int,
            overlap == splitter.chunk_overlap as int,
            0 <= j <= n,
            out@.map_values(|ch: Chunk| ch@) + spec_units(
                capsv.skip(j as int),
                capsv,
                kind,
                cb,
                path@,
                idx as int,
                max as int,
                size,
                overlap,
            ) == base + spec_units(
                capsv,
                capsv,
                kind,
                cb,
                path@,
                idx0 as int,
                max as int,
                size,
                overlap,
            ),
            idx as int == idx0 + count_units(capsv.take(j as int), cb),
            idx <= out@.len(),
        decreases n - j,
    {
        proof {
            assert(capsv.skip(j as int)[0] == capsv[j as int]);
            assert(capsv.skip(j as int).drop_first() =~= capsv.skip(j + 1));
            assert(capsv[j as int] == caps@[j as int]@);
            assert(capsv.take(j + 1) =~= capsv.take(j as int) + seq![capsv[j as int]]);
            lemma_count_units_append(capsv.take(j as int), seq![capsv[j as int]], cb);
            assert(seq![capsv[j as int]].drop_first() =~= Seq::<CaptureView>::empty());
            assert(count_units(Seq::<CaptureView>::empty(), cb) == 0);
            assert(count_units(seq![capsv[j as int]], cb) == (if cap_is_unit(
                capsv[j as int],
                cb,
            ) {
                1int
            } else {
                0int
            }));
        }
        let is_item: bool = str_eq(caps[j].cap_name.as_str(), "item");
        let spans_ok: bool = caps[j].start_byte < caps[j].end_byte && caps[j].end_byte
            <= content_bytes;
        let rows_ok: bool = caps[j].start_row <= caps[j].end_row && caps[j].end_row
            <= usize::MAX - 1;
        let mut is_unit: bool = false;
        let mut unit_text: String = String::new();
        if is_item && spans_ok && rows_ok {
            match &caps[j].text {
                Some(t) => {
                    let tl: usize = t.unicode_len();
                    if tl <= usize::MAX - 2 && caps[j].start_row <= usize::MAX - 2 - tl {
                        is_unit = true;
                        unit_text = t.clone();
                    }
                },
                None => {},
            }
        }
        proof {
            assert(is_unit == cap_is_unit(capsv[j as int], cb));
            if is_unit {
                assert(unit_text@ == capsv[j as int].text.unwrap());
            }
        }
        if is_unit {
            let ghost pre = out@.map_values(|ch: Chunk| ch@);
            let ghost unit_spec = spec_unit_chunks(
                capsv[j as int],
                spec_unit_name(capsv, capsv[j as int].match_index, cb),
                kind,
                path@,
                idx as int,
                max as int,
                size,
                overlap,
            );
            let name: Option<String> = extract_function_name(caps, caps[j].match_index, content_bytes);
            let sl: usize = caps[j].start_row + 1;
            let tokens: usize = tok.count(unit_text.as_str());
            if tokens > max {
                let subs: Vec<Chunk> = match splitter.split_text(
                    unit_text.as_str(),
                    path.to_owned(),
                    tok,
                ) {
                    Ok(cs) => cs,
                    Err(_) => {
                        proof {
                            assert(false);
                        }
                        Vec::new()
                    },
                };
                let ghost subsv = spec_split(unit_text@, path@, size, overlap);
                proof {
                    crate::splitter::lemma_spec_split_wf(unit_text@, path@, size, overlap);
                    crate::strutil::lemma_lines_from_count(unit_text@, 0);
                }
                let m: usize = subs.len();
                let mut j2: usize = 0;
                while j2 < m
                    invariant
                        (j as int) < capsv.len(),
                        m == subs@.len(),
                        subs@.map_values(|ch: Chunk| ch@) == subsv,
                        subsv == spec_split(unit_text@, path@, size, overlap),
                        unit_spec.len() == subsv.len(),
                        forall|q: int|
                            0 <= q < subsv.len() ==> {
                                let sc = #[trigger] subsv[q];
                                0 <= sc.chunk_start_line < sc.chunk_end_line <= unit_text@.len()
                                    + 1
                            },
                        forall|q: int|
                            0 <= q < subsv.len() ==> #[trigger] unit_spec[q] == (ChunkView {
                                path: path@,
                                chunk_index: dec_str(idx as int) + seq!['-'] + dec_str(q),
                                chunk_start_line: subsv[q].chunk_start_line + sl,
                                chunk_end_line: subsv[q].chunk_end_line + sl - 1,
                                text: subsv[q].text,
                                function_name: spec_unit_name(
                                    capsv,
                                    capsv[j as int].match_index,
                                    cb,
                                ),
                                chunk_type: kind,
                            }),
                        sl == capsv[j as int].start_row + 1,
                        sl + unit_text@.len() + 1 <= usize::MAX,
                        ({
                            let rv = match name {
                                Some(ref s) => Some(s@),
                                None => None,
                            };
                            rv == spec_unit_name(capsv, capsv[j as int].match_index, cb)
                        }),
                        0 <= j2 <= m,
                        out@.map_values(|ch: Chunk| ch@) == pre + unit_spec.take(j2 as int),
                    decreases m - j2,
                {
                    let mut ix: String = usize_to_string(idx);
                    ix.append("-");
                    let sub_ix: String = usize_to_string(j2);
                    ix.append(sub_ix.as_str());
                    proof {
                        reveal_strlit("-");
                        assert("-"@ =~= seq!['-']);
                        assert(ix@ == dec_str(idx as int) + seq!['-'] + dec_str(j2 as int));
                        assert(subs@[j2 as int]@ == subsv[j2 as int]);
                    }
                    let s2: usize = subs[j2].chunk_start_line + sl;
                    let e2: usize = subs[j2].chunk_end_line + sl - 1;
                    let nm: Option<String> = match &name {
                        Some(s) => Some(s.clone()),
                        None => None,
                    };
                    let ch = Chunk {
                        path: path.to_owned(),
                        chunk_index: ix,
                        chunk_start_line: s2,
                        chunk_end_line: e2,
                        text: subs[j2].text.clone(),
                        function_name: nm,
                        chunk_type: kind,
                    };
                    let ghost chv = ch@;
                    let ghost before = out@;
                    out.push(ch);
                    proof {
                        assert(chv == unit_spec[j2 as int]);
                        assert(out@ == before.push(ch));
                        assert(out@.map_values(|c2: Chunk| c2@) =~= before.map_values(
                            |c2: Chunk| c2@,
                        ).push(chv));
                        assert(unit_spec.take(j2 + 1) =~= unit_spec.take(j2 as int) + seq![
                            unit_spec[j2 as int],
                        ]);
                        assert(out@.map_values(|c2: Chunk| c2@) =~= pre + unit_spec.take(j2 + 1));
                    }
                    j2 = j2 + 1;
                }
                proof {
                    assert(unit_spec.take(m as int) =~= unit_spec);
                    assert(out@.map_values(|c2: Chunk| c2@) == pre + unit_spec);
                    assert(unit_spec.len() >= 1);
                }
            } else {
                let e1: usize = caps[j].end_row + 1;
                let ch = Chunk {
                    path: path.to_owned(),
                    chunk_index: usize_to_string(idx),
                    chunk_start_line: sl,
                    chunk_end_line: e1,
                    text: unit_text,
                    function_name: name,
                    chunk_type: kind,
                };
                out.push(ch);
                proof {
                    assert(out@.map_values(|c2: Chunk| c2@) =~= pre + unit_spec);
                    assert(unit_spec.len() == 1);
                }
            }
            // Each unit contributed at least one chunk, so the next ordinal
            // still fits.
            let cur_len: usize = out.len();
            proof {
                assert(out@.map_values(|c2: Chunk| c2@).len() == out@.len());
                assert(idx < cur_len);
            }
            idx = idx + 1;
            proof {
                assert(out@.map_values(|ch2: Chunk| ch2@) + spec_units(
                    capsv.skip(j + 1),
                    capsv,
                    kind,
                    cb,
                    path@,
                    idx as int,
                    max as int,
                    size,
                    overlap,
                ) =~= base + spec_units(
                    capsv,
                    capsv,
                    kind,
                    cb,
                    path@,
                    idx0 as int,
                    max as int,
                    size,
                    overlap,
                ));
            }
        } else {
            proof {
                assert(out@.map_values(|ch2: Chunk| ch2@) + spec_units(
                    capsv.skip(j + 1),
                    capsv,
                    kind,
                    cb,
                    path@,
                    idx as int,
                    max as int,
                    size,
                    overlap,
                ) =~= base + spec_units(
                    capsv,
                    capsv,
                    kind,
                    cb,
                    path@,
                    idx0 as int,
                    max as int,
                    size,
                    overlap,
                ));
            }
        }
        j = j + 1;
    }
    proof {
        assert(capsv.skip(n as int) =~= Seq::<CaptureView>::empty());
        assert(spec_units(
            capsv.skip(n as int),
            capsv,
            kind,
            cb,
            path@,
            idx as int,
            max as int,
            size,
            overlap,
        ) =~= Seq::<ChunkView>::empty());
        assert(capsv.take(n as int) =~= capsv);
        assert(out@.map_values(|ch: Chunk| ch@) =~= base + spec_units(
            capsv,
            capsv,
            kind,
            cb,
            path@,
            idx0 as int,
            max as int,
            size,
            overlap,
        ));
    }
    idx
}

/// Run the fixed pattern list over an already parsed tree, in pattern
/// order, and collect every unit's chunks.
fn run_all_queries(
    tree: &ParsedTree,
    queries: &Vec<&'static str>,
    content: &str,
    path: &str,
    max: usize,
    splitter: &TextSplitter,
    tok: &Tokenizer,
) -> (r: Vec<Chunk>)
    requires
        tree.text() == content@,
    ensures
        r@.map_values(|ch: Chunk| ch@) == spec_segment_queries(
            tree.lang_tag(),
            queries@.map_values(|q: &str| q@),
            0,
            content@,
            byte_len(content@),
            path@,
            0,
            max as int,
            splitter.chunk_size as int,
            splitter.chunk_overlap as int,
        ),
{
    let ghost lang = tree.lang_tag();
    let ghost qv = queries@.map_values(|q: &str| q@);
    let ghost size = splitter.chunk_size as int;
    let ghost overlap = splitter.chunk_overlap as int;
    let content_bytes: usize = content.len();
    let ghost cb = byte_len(content@);
    proof {
        assert(content_bytes as int == cb);
    }
    let nq: usize = queries.len();
    let mut out: Vec<Chunk> = Vec::new();
    let mut idx: usize = 0;
    let mut qi: usize = 0;
    while qi < nq
        invariant
            nq == queries@.len(),
            qv == queries@.map_values(|q: &str| q@),
            lang == tree.lang_tag(),
            tree.text() == content@,
            content_bytes as int == cb,
            size == splitter.chunk_size as int,
            overlap == splitter.chunk_overlap as int,
            0 <= qi <= nq,
            idx <= out@.len(),
            out@.map_values(|ch: Chunk| ch@) + spec_segment_queries(
                lang,
                qv,
                qi as int,
                content@,
                cb,
                path@,
                idx as int,
                max as int,
                size,
                overlap,
            ) == spec_segment_queries(
                lang,
                qv,
                0,
                content@,
                cb,
                path@,
                0,
                max as int,
                size,
                overlap,
            ),
        decreases nq - qi,
    {
        proof {
            assert(qv[qi as int] == queries@[qi as int]@);
        }
        let kind: ChunkType = determine_chunk_type(queries[qi]);
        match run_query(tree, queries[qi], content) {
            None => {
                proof {
                    assert(ts_query_captures(lang, qv[qi as int], content@) is None);
                }
            },
            Some(recs) => {
                let caps: Vec<RawCapture> = caps_of_recs(recs);
                proof {
                    assert(ts_query_captures(lang, qv[qi as int], content@) == Some(
                        caps@.map_values(|c: RawCapture| c@),
                    ));
                    lemma_count_units_nonneg(caps@.map_values(|c: RawCapture| c@), cb);
                }
                idx = units_for_query(
                    &caps,
                    kind,
                    content_bytes,
                    path,
                    idx,
                    max,
                    splitter,
                    tok,
                    &mut out,
                );
            },
        }
        qi = qi + 1;
    }
    proof {
        assert(spec_segment_queries(
            lang,
            qv,
            nq as int,
            content@,
            cb,
            path@,
            idx as int,
            max as int,
            size,
            overlap,
        ) =~= Seq::<ChunkView>::empty());
        assert(out@.map_values(|ch: Chunk| ch@) =~= spec_segment_queries(
            lang,
            qv,
            0,
            content@,
            cb,
            path@,
            0,
            max as int,
            size,
            overlap,
        ));
    }
    out
}

/// Segment Rust source by its structural patterns; an empty result means
/// the content did not parse or no pattern matched, and the caller falls
/// back to the sliding-window splitter.
pub fn chunk_rust(
    content: &str,
    file_path: &str,
    max_chunk_size: usize,
    splitter: &TextSplitter,
    tok: &Tokenizer,
) -> (r: Result<Vec<Chunk>, String>)
    ensures
        r matches Ok(cs) && cs@.map_values(|ch: Chunk| ch@) == spec_segment(
            LANG_RUST as int,
            rust_query_seq(),
            content@,
            file_path@,
            max_chunk_size as int,
            splitter.chunk_size as int,
            splitter.chunk_overlap as int,
        ),
{
    match parse_rust(content) {
        None => Ok(Vec::new()),
        Some(tree) => {
            let queries = rust_queries();
            Ok(run_all_queries(&tree, &queries, content, file_path, max_chunk_size, splitter, tok))
        },
    }
}

/// Segment JavaScript source by its structural patterns; empty on parse
/// failure, as for `chunk_rust`.
pub fn chunk_javascript(
    content: &str,
    file_path: &str,
    max_chunk_size: usize,
    splitter: &TextSplitter,
    tok: &Tokenizer,
) -> (r: Result<Vec<Chunk>, String>)
    ensures
        r matches Ok(cs) && cs@.map_values(|ch: Chunk| ch@) == spec_segment(
            LANG_JAVASCRIPT as int,
            javascript_query_seq(),
            content@,
            file_path@,
            max_chunk_size as int,
            splitter.chunk_size as int,
            splitter.chunk_overlap as int,
        ),
{
    match parse_javascript(content) {
        None => Ok(Vec::new()),
        Some(tree) => {
            let queries = javascript_queries();
            Ok(run_all_queries(&tree, &queries, content, file_path, max_chunk_size, splitter, tok))
        },
    }
}

/// Segment TSX/TypeScript source by its structural patterns; empty on
/// parse failure, as for `chunk_rust`.
pub fn chunk_tsx(
    content: &str,
    file_path: &str,
    max_chunk_size: usize,
    splitter: &TextSplitter,
    tok: &Tokenizer,
) -> (r: Result<Vec<Chunk>, String>)
    ensures
        r matches Ok(cs) && cs@.map_values(|ch: Chunk| ch@) == spec_segment(
            LANG_TSX as int,
            tsx_query_seq(),
            content@,
            file_path@,
            max_chunk_size as int,
            splitter.chunk_size as int,
            splitter.chunk_overlap as int,
        ),
{
    match parse_tsx(content) {
        None => Ok(Vec::new()),
        Some(tree) => {
            let queries = tsx_queries();
            Ok(run_all_queries(&tree, &queries, content, file_path, max_chunk_size, splitter, tok))
        },
    }
}

/// Segment Java source by its structural patterns; empty on parse failure,
/// as for `chunk_rust`.
pub fn chunk_java(
    content: &str,
    file_path: &str,
    max_chunk_size: usize,
    splitter: &TextSplitter,
    tok: &Tokenizer,
) -> (r: Result<Vec<Chunk>, String>)
    ensures
        r matches Ok(cs) && cs@.map_values(|ch: Chunk| ch@) == spec_segment(
            LANG_JAVA as int,
            java_query_seq(),
            content@,
            file_path@,
            max_chunk_size as int,
            splitter.chunk_size as int,
            splitter.chunk_overlap as int,
        ),
{
    match parse_java(content) {
        None => Ok(Vec::new()),
        Some(tree) => {
            let queries = java_queries();
            Ok(run_all_queries(&tree, &queries, content, file_path, max_chunk_size, splitter, tok))
        },
    }
}

/// Determinism of the segmenter: its chunk sequence is a function of the
/// grammar, the pattern list, the content, the path and the configuration,
/// so two runs on identical inputs yield identical chunk sequences.
pub proof fn lemma_segment_deterministic(
    r1: Seq<ChunkView>,
    r2: Seq<ChunkView>,
    lang: int,
    queries: Seq<Seq<char>>,
    content: Seq<char>,
    path: Seq<char>,
    max: int,
    size: int,
    overlap: int,
)
    requires
        r1 == spec_segment(lang, queries, content, path, max, size, overlap),
        r2 == spec_segment(lang, queries, content, path, max, size, overlap),
    ensures
        r1 == r2,
{
}

/// Composite indexing: an oversized unit whose text really spans the rows
/// the capture reports yields sub-chunks indexed "parent-0", "parent-1", …
/// whose 1-based inclusive line spans all lie inside the unit's own span
/// `[start_row + 1, end_row + 1]`.
pub proof fn lemma_composite_indexing(
    cap: CaptureView,
    name: Option<Seq<char>>,
    kind: ChunkType,
    path: Seq<char>,
    idx: int,
    max: int,
    size: int,
    overlap: int,
)
    requires
        cap.text is Some,
        token_count_of(cap.text.unwrap()) > max,
        lines_of(cap.text.unwrap()).len() == cap.end_row - cap.start_row + 1,
    ensures
        ({
            let subs = spec_unit_chunks(cap, name, kind, path, idx, max, size, overlap);
            forall|j: int|
                0 <= j < subs.len() ==> {
                    let sc = #[trigger] subs[j];
                    &&& sc.chunk_index == dec_str(idx) + seq!['-'] + dec_str(j)
                    &&& cap.start_row + 1 <= sc.chunk_start_line <= sc.chunk_end_line
                    &&& sc.chunk_end_line <= cap.end_row + 1
                }
        }),
{
    let text = cap.text.unwrap();
    crate::splitter::lemma_spec_split_wf(text, path, size, overlap);
}

} // verus!
