//! Reading chunks back out of stored point payloads, and preparing the
//! lexical side of hybrid search.

use vstd::prelude::*;
use vstd::string::StrSliceExecFns;

use crate::segmenter::byte_len;
use crate::strutil::str_eq;
use crate::types::{Chunk, ChunkType, ChunkView};

verus! {

/// The serialized tag name of a chunk kind.
pub open spec fn spec_type_name(t: ChunkType) -> Seq<char> {
    match t {
        ChunkType::Function => "Function"@,
        ChunkType::Class => "Class"@,
        ChunkType::Method => "Method"@,
        ChunkType::Interface => "Interface"@,
        ChunkType::Struct => "Struct"@,
        ChunkType::Impl => "Impl"@,
        ChunkType::LineChunk => "LineChunk"@,
    }
}

/// Serialize a chunk kind to its tag name.
pub fn chunk_type_name(t: ChunkType) -> (r: &'static str)
    ensures
        r@ == spec_type_name(t),
{
    match t {
        ChunkType::Function => "Function",
        ChunkType::Class => "Class",
        ChunkType::Method => "Method",
        ChunkType::Interface => "Interface",
        ChunkType::Struct => "Struct",
        ChunkType::Impl => "Impl",
        ChunkType::LineChunk => "LineChunk",
    }
}

/// Read a chunk kind back from its tag name; anything unknown is a
/// line chunk.
pub open spec fn spec_type_of_name(s: Seq<char>) -> ChunkType {
    if s == "Function"@ {
        ChunkType::Function
    } else if s == "Class"@ {
        ChunkType::Class
    } else if s == "Method"@ {
        ChunkType::Method
    } else if s == "Interface"@ {
        ChunkType::Interface
    } else if s == "Struct"@ {
        ChunkType::Struct
    } else if s == "Impl"@ {
        ChunkType::Impl
    } else {
        ChunkType::LineChunk
    }
}

/// Parse a chunk kind from its tag name.
pub fn chunk_type_of_name(s: &str) -> (r: ChunkType)
    ensures
        r == spec_type_of_name(s@),
{
    if str_eq(s, "Function") {
        ChunkType::Function
    } else if str_eq(s, "Class") {
        ChunkType::Class
    } else if str_eq(s, "Method") {
        ChunkType::Method
    } else if str_eq(s, "Interface") {
        ChunkType::Interface
    } else if str_eq(s, "Struct") {
        ChunkType::Struct
    } else if str_eq(s, "Impl") {
        ChunkType::Impl
    } else {
        ChunkType::LineChunk
    }
}

/// Why a stored payload could not be read back as a chunk.
#[derive(Clone, Copy, Debug, PartialEq, Eq, Structural)]
pub enum PayloadError {
    MissingPath,
    MissingChunkIndex,
    MissingStartLine,
    MissingEndLine,
    MissingText,
}

impl PayloadError {
    /// A human-readable description of the fault.
    pub fn message(&self) -> (r: &'static str)
        ensures
            r@ == self.spec_message(),
    {
        match self {
            PayloadError::MissingPath => "Missing or invalid 'path' in payload",
            PayloadError::MissingChunkIndex => "Missing or invalid 'chunk_index' in payload",
            PayloadError::MissingStartLine => "Missing or invalid 'chunk_start_line' in payload",
            PayloadError::MissingEndLine => "Missing or invalid 'chunk_end_line' in payload",
            PayloadError::MissingText => "Missing or invalid 'chunk_text' in payload",
        }
    }

    pub open spec fn spec_message(self) -> Seq<char> {
        match self {
            PayloadError::MissingPath => "Missing or invalid 'path' in payload"@,
            PayloadError::MissingChunkIndex => "Missing or invalid 'chunk_index' in payload"@,
            PayloadError::MissingStartLine => "Missing or invalid 'chunk_start_line' in payload"@,
            PayloadError::MissingEndLine => "Missing or invalid 'chunk_end_line' in payload"@,
            PayloadError::MissingText => "Missing or invalid 'chunk_text' in payload"@,
        }
    }
}

/// The fields a stored point's payload may carry, each as the plain value
/// found under its key, or `None` when absent or of the wrong kind.
pub struct PayloadFields {
    pub path: Option<String>,
    pub chunk_index: Option<String>,
    pub chunk_start_line: Option<i64>,
    pub chunk_end_line: Option<i64>,
    pub chunk_text: Option<String>,
    pub function_name: Option<String>,
    pub chunk_type: Option<String>,
}

/// The mathematical shadow of [`PayloadFields`].
pub struct PayloadFieldsView {
    pub path: Option<Seq<char>>,
    pub chunk_index: Option<Seq<char>>,
    pub chunk_start_line: Option<int>,
    pub chunk_end_line: Option<int>,
    pub chunk_text: Option<Seq<char>>,
    pub function_name: Option<Seq<char>>,
    pub chunk_type: Option<Seq<char>>,
}

impl View for PayloadFields {
    type V = PayloadFieldsView;

    open spec fn view(&self) -> PayloadFieldsView {
        PayloadFieldsView {
            path: match self.path {
                Some(ref s) => Some(s@),
                None => None,
            },
            chunk_index: match self.chunk_index {
                Some(ref s) => Some(s@),
                None => None,
            },
            chunk_start_line: match self.chunk_start_line {
                Some(i) => Some(i as int),
                None => None,
            },
            chunk_end_line: match self.chunk_end_line {
                Some(i) => Some(i as int),
                None => None,
            },
            chunk_text: match self.chunk_text {
                Some(ref s) => Some(s@),
                None => None,
            },
            function_name: match self.function_name {
                Some(ref s) => Some(s@),
                None => None,
            },
            chunk_type: match self.chunk_type {
                Some(ref s) => Some(s@),
                None => None,
            },
        }
    }
}

/// A line-number field is usable when present and representable.
pub open spec fn line_ok(o: Option<int>) -> bool {
    match o {
        Some(i) => 0 <= i <= usize::MAX,
        None => false,
    }
}

/// What reading a payload yields: the chunk when every required field is
/// present and usable, else the first missing field's error, in field
/// order.  An empty `function_name` means no name; an unknown or missing
/// `chunk_type` reads as a line chunk.
pub open spec fn spec_chunk_from_fields(f: PayloadFieldsView) -> Result<ChunkView, PayloadError> {
    if f.path is None {
        Err(PayloadError::MissingPath)
    } else if f.chunk_index is None {
        Err(PayloadError::MissingChunkIndex)
    } else if !line_ok(f.chunk_start_line) {
        Err(PayloadError::MissingStartLine)
    } else if !line_ok(f.chunk_end_line) {
        Err(PayloadError::MissingEndLine)
    } else if f.chunk_text is None {
        Err(PayloadError::MissingText)
    } else {
        Ok(
            ChunkView {
                path: f.path.unwrap(),
                chunk_index: f.chunk_index.unwrap(),
                chunk_start_line: f.chunk_start_line.unwrap(),
                chunk_end_line: f.chunk_end_line.unwrap(),
                text: f.chunk_text.unwrap(),
                function_name: match f.function_name {
                    Some(n) => if n.len() == 0 {
                        None
                    } else {
                        Some(n)
                    },
                    None => None,
                },
                chunk_type: match f.chunk_type {
                    Some(t) => spec_type_of_name(t),
                    None => ChunkType::LineChunk,
                },
            },
        )
    }
}

/// Rebuild a chunk from the plain fields of a stored payload.
pub fn chunk_from_fields(f: PayloadFields) -> (r: Result<Chunk, PayloadError>)
    ensures
        match (r, spec_chunk_from_fields(f@)) {
            (Ok(c), Ok(cv)) => c@ == cv,
            (Err(e1), Err(e2)) => e1 == e2,
            _ => false,
        },
{
    let path: String = match f.path {
        Some(s) => s,
        None => {
            return Err(PayloadError::MissingPath);
        },
    };
    let chunk_index: String = match f.chunk_index {
        Some(s) => s,
        None => {
            return Err(PayloadError::MissingChunkIndex);
        },
    };
    let chunk_start_line: usize = match f.chunk_start_line {
        Some(i) => {
            if i >= 0 && (i as u64) <= (usize::MAX as u64) {
                i as usize
            } else {
                return Err(PayloadError::MissingStartLine);
            }
        },
        None => {
            return Err(PayloadError::MissingStartLine);
        },
    };
    let chunk_end_line: usize = match f.chunk_end_line {
        Some(i) => {
            if i >= 0 && (i as u64) <= (usize::MAX as u64) {
                i as usize
            } else {
                return Err(PayloadError::MissingEndLine);
            }
        },
        None => {
            return Err(PayloadError::MissingEndLine);
        },
    };
    let text: String = match f.chunk_text {
        Some(s) => s,
        None => {
            return Err(PayloadError::MissingText);
        },
    };
    let function_name: Option<String> = match f.function_name {
        Some(n) => {
            if n.as_str().is_empty() {
                None
            } else {
                Some(n)
            }
        },
        None => None,
    };
    let chunk_type: ChunkType = match f.chunk_type {
        Some(t) => chunk_type_of_name(t.as_str()),
        None => ChunkType::LineChunk,
    };
    Ok(
        Chunk {
            path,
            chunk_index,
            chunk_start_line,
            chunk_end_line,
            text,
            function_name,
            chunk_type,
        },
    )
}

#[verifier::external_type_specification]
#[verifier::external_body]
pub struct ExScoredPoint(qdrant_client::qdrant::ScoredPoint);

/// The string a stored point's payload holds under `key`, if any.
pub uninterp spec fn payload_str_of(p: qdrant_client::qdrant::ScoredPoint, key: Seq<char>) -> Option<
    Seq<char>,
>;

/// The integer a stored point's payload holds under `key`, if any.
pub uninterp spec fn payload_int_of(p: qdrant_client::qdrant::ScoredPoint, key: Seq<char>) -> Option<
    int,
>;

pub open spec fn opt_string_view(o: Option<String>) -> Option<Seq<char>> {
    match o {
        Some(s) => Some(s@),
        None => None,
    }
}

pub open spec fn opt_i64_view(o: Option<i64>) -> Option<int> {
    match o {
        Some(i) => Some(i as int),
        None => None,
    }
}

/// Relies on `HashMap::get` and the `qdrant_client::qdrant::value::Kind`
/// variants: picks the string stored under `key`, if any — a function of
/// the point's payload and the key alone.
#[verifier::external_body]
fn payload_str(p: &qdrant_client::qdrant::ScoredPoint, key: &str) -> (r: Option<String>)
    ensures
        opt_string_view(r) == payload_str_of(*p, key@),
{
    p.payload.get(key).and_then(|v| v.kind.as_ref()).and_then(
        |k| match k {
            qdrant_client::qdrant::value::Kind::StringValue(s) => Some(s.clone()),
            _ => None,
        },
    )
}

/// Relies on `HashMap::get` and the `qdrant_client::qdrant::value::Kind`
/// variants: picks the integer stored under `key`, if any — a function of
/// the point's payload and the key alone.
#[verifier::external_body]
fn payload_int(p: &qdrant_client::qdrant::ScoredPoint, key: &str) -> (r: Option<i64>)
    ensures
        opt_i64_view(r) == payload_int_of(*p, key@),
{
    p.payload.get(key).and_then(|v| v.kind.as_ref()).and_then(
        |k| match k {
            qdrant_client::qdrant::value::Kind::IntegerValue(i) => Some(*i),
            _ => None,
        },
    )
}

/// The plain fields a stored point carries, read at the fixed payload keys.
pub open spec fn spec_point_fields(p: qdrant_client::qdrant::ScoredPoint) -> PayloadFieldsView {
    PayloadFieldsView {
        path: payload_str_of(p, "path"@),
        chunk_index: payload_str_of(p, "chunk_index"@),
        chunk_start_line: payload_int_of(p, "chunk_start_line"@),
        chunk_end_line: payload_int_of(p, "chunk_end_line"@),
        chunk_text: payload_str_of(p, "chunk_text"@),
        function_name: payload_str_of(p, "function_name"@),
        chunk_type: payload_str_of(p, "chunk_type"@),
    }
}

/// Read one stored point back as a chunk: exactly what
/// `spec_chunk_from_fields` yields for the point's fields at the fixed
/// payload keys.
pub fn chunk_from_point(p: &qdrant_client::qdrant::ScoredPoint) -> (r: Result<Chunk, PayloadError>)
    ensures
        match (r, spec_chunk_from_fields(spec_point_fields(*p))) {
            (Ok(c), Ok(cv)) => c@ == cv,
            (Err(e1), Err(e2)) => e1 == e2,
            _ => false,
        },
{
    let fields = PayloadFields {
        path: payload_str(p, "path"),
        chunk_index: payload_str(p, "chunk_index"),
        chunk_start_line: payload_int(p, "chunk_start_line"),
        chunk_end_line: payload_int(p, "chunk_end_line"),
        chunk_text: payload_str(p, "chunk_text"),
        function_name: payload_str(p, "function_name"),
        chunk_type: payload_str(p, "chunk_type"),
    };
    proof {
        assert(fields@ == spec_point_fields(*p));
    }
    chunk_from_fields(fields)
}

/// The lowercase form of a text, as `str::to_lowercase` yields it.
pub uninterp spec fn lower_of(s: Seq<char>) -> Seq<char>;

/// Relies on `str::to_lowercase`: the result depends on the characters
/// alone.
#[verifier::external_body]
fn lowercase(s: &str) -> (r: String)
    ensures
        r@ == lower_of(s@),
{
    s.to_lowercase()
}

/// The whitespace-delimited words of a text, as `str::split_whitespace`
/// yields them.
pub uninterp spec fn words_of(s: Seq<char>) -> Seq<Seq<char>>;

/// Relies on `str::split_whitespace`: the words depend on the characters
/// alone.
#[verifier::external_body]
fn split_whitespace_vec(s: &str) -> (r: Vec<String>)
    ensures
        r@.map_values(|w: String| w@) == words_of(s@),
{
    s.split_whitespace().map(|w| w.to_string()).collect()
}

/// The words kept as lexical search terms: those longer than two bytes.
pub open spec fn spec_keep_terms(ws: Seq<Seq<char>>) -> Seq<Seq<char>>
    decreases ws.len(),
{
    if ws.len() == 0 {
        Seq::empty()
    } else {
        (if byte_len(ws[0]) > 2 {
            seq![ws[0]]
        } else {
            Seq::empty()
        }) + spec_keep_terms(ws.drop_first())
    }
}

/// The lexical query terms of a query text: its lowercase words longer
/// than two bytes.
pub open spec fn spec_terms(q: Seq<char>) -> Seq<Seq<char>> {
    spec_keep_terms(words_of(lower_of(q)))
}

/// Extract the lexical search terms of a query: lowercase it, split it on
/// whitespace, and keep the words longer than two bytes.  An empty result
/// means the lexical search has nothing to match and degrades to pure
/// semantic ranking.
pub fn extract_terms(query_text: &str) -> (r: Vec<String>)
    ensures
        r@.map_values(|t: String| t@) == spec_terms(query_text@),
{
    let lower: String = lowercase(query_text);
    let words: Vec<String> = split_whitespace_vec(lower.as_str());
    let ghost wv = words@.map_values(|w: String| w@);
    let n: usize = words.len();
    let mut out: Vec<String> = Vec::new();
    let mut i: usize = 0;
    proof {
        assert(wv.skip(0) =~= wv);
    }
    while i < n
        invariant
            n == words@.len(),
            wv == words@.map_values(|w: String| w@),
            0 <= i <= n,
            out@.map_values(|t: String| t@) + spec_keep_terms(wv.skip(i as int))
                == spec_keep_terms(wv),
        decreases n - i,
    {
        proof {
            assert(wv.skip(i as int)[0] == wv[i as int]);
            assert(wv.skip(i as int).drop_first() =~= wv.skip(i + 1));
            assert(wv[i as int] == words@[i as int]@);
        }
        if words[i].as_str().len() > 2 {
            let ghost before = out@;
            out.push(words[i].clone());
            proof {
                assert(out@.map_values(|t: String| t@) =~= before.map_values(
                    |t: String| t@,
                ).push(wv[i as int]));
                assert(out@.map_values(|t: String| t@) + spec_keep_terms(wv.skip(i + 1))
                    =~= spec_keep_terms(wv));
            }
        } else {
            proof {
                assert(out@.map_values(|t: String| t@) + spec_keep_terms(wv.skip(i + 1))
                    =~= spec_keep_terms(wv));
            }
        }
        i = i + 1;
    }
    proof {
        assert(wv.skip(n as int) =~= Seq::<Seq<char>>::empty());
        assert(spec_keep_terms(wv.skip(n as int)) =~= Seq::<Seq<char>>::empty());
        assert(out@.map_values(|t: String| t@) =~= spec_keep_terms(wv));
    }
    out
}

/// When every word of the lowered query is at most two bytes long, no
/// lexical term survives.
pub proof fn lemma_terms_degenerate(q: Seq<char>)
    requires
        forall|i: int|
            0 <= i < words_of(lower_of(q)).len() ==> byte_len(
                #[trigger] words_of(lower_of(q))[i],
            ) <= 2,
    ensures
        spec_terms(q).len() == 0,
{
    lemma_keep_terms_empty(words_of(lower_of(q)));
}

proof fn lemma_keep_terms_empty(ws: Seq<Seq<char>>)
    requires
        forall|i: int| 0 <= i < ws.len() ==> byte_len(#[trigger] ws[i]) <= 2,
    ensures
        spec_keep_terms(ws).len() == 0,
    decreases ws.len(),
{
    if ws.len() > 0 {
        assert forall|i: int| 0 <= i < ws.drop_first().len() implies byte_len(
            #[trigger] ws.drop_first()[i],
        ) <= 2 by {
            assert(ws.drop_first()[i] == ws[i + 1]);
        }
        lemma_keep_terms_empty(ws.drop_first());
    }
}

} // verus!
