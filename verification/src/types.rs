//! The data model: chunks, their kinds, and the run configuration.

use vstd::prelude::*;

verus! {

/// The closed set of tags a chunk can carry.  `LineChunk` marks content that
/// came from the token-window fallback rather than from syntax extraction.
#[derive(Clone, Copy, Debug, PartialEq, Eq, Structural)]
pub enum ChunkType {
    Function,
    Class,
    Method,
    Interface,
    Struct,
    Impl,
    LineChunk,
}

/// The unit of indexing and retrieval: a bounded excerpt of one source file.
#[derive(Debug, Clone)]
pub struct Chunk {
    /// Source file identifier.
    pub path: String,
    /// Flat ordinal ("3") or composite "parent-sub" identifier ("3-0").
    pub chunk_index: String,
    /// First line of the excerpt's span.
    pub chunk_start_line: usize,
    /// End of the excerpt's span.
    pub chunk_end_line: usize,
    /// The literal content of the excerpt.
    pub text: String,
    /// Identifier of the enclosing syntactic unit, when one was captured.
    pub function_name: Option<String>,
    /// Which kind of unit the excerpt is.
    pub chunk_type: ChunkType,
}

/// The mathematical shadow of a [`Chunk`]: every field as a plain value.
pub struct ChunkView {
    pub path: Seq<char>,
    pub chunk_index: Seq<char>,
    pub chunk_start_line: int,
    pub chunk_end_line: int,
    pub text: Seq<char>,
    pub function_name: Option<Seq<char>>,
    pub chunk_type: ChunkType,
}

impl View for Chunk {
    type V = ChunkView;

    open spec fn view(&self) -> ChunkView {
        ChunkView {
            path: self.path@,
            chunk_index: self.chunk_index@,
            chunk_start_line: self.chunk_start_line as int,
            chunk_end_line: self.chunk_end_line as int,
            text: self.text@,
            function_name: match self.function_name {
                Some(ref n) => Some(n@),
                None => None,
            },
            chunk_type: self.chunk_type,
        }
    }
}

impl ChunkView {
    /// A chunk's span never runs backward.
    pub open spec fn wf(self) -> bool {
        self.chunk_start_line <= self.chunk_end_line
    }
}

impl Chunk {
    /// An explicit deep copy whose result is known to equal the original.
    pub fn duplicate(&self) -> (r: Chunk)
        ensures
            r@ == self@,
    {
        Chunk {
            path: self.path.clone(),
            chunk_index: self.chunk_index.clone(),
            chunk_start_line: self.chunk_start_line,
            chunk_end_line: self.chunk_end_line,
            text: self.text.clone(),
            function_name: match self.function_name {
                Some(ref n) => Some(n.clone()),
                None => None,
            },
            chunk_type: self.chunk_type,
        }
    }
}

/// Optional inclusion/exclusion policy applied to discovered paths.
pub struct FilterConfig {
    /// `"include"` or `"exclude"`; anything else means "include everything".
    pub mode: String,
    /// Regular-expression patterns; a path is matched if any pattern matches.
    pub paths: Vec<String>,
}

/// Classification of a file by its extension.
#[derive(Clone, Copy, Debug, PartialEq, Eq, Structural)]
pub enum FileType {
    Code,
    Doc,
    Other,
}

/// A discovered file eligible for segmentation.
pub struct FileMeta {
    pub path: String,
}

/// The immutable run configuration, constructed once and passed by reference.
pub struct Config {
    pub chunk_size: usize,
    pub chunk_overlap: usize,
    pub vector_dimension: usize,
    pub top_k: u64,
}

impl Default for Config {
    /// The built-in configuration values.
    fn default() -> (r: Config)
        ensures
            r.chunk_size == 350,
            r.chunk_overlap == 100,
            r.vector_dimension == 1536,
            r.top_k == 10,
    {
        Config { chunk_size: 350, chunk_overlap: 100, vector_dimension: 1536, top_k: 10 }
    }
}

} // verus!
