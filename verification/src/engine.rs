//! The segmentation engine: dispatch a file's content to the grammar its
//! extension selects, and fall back to the sliding-window splitter when no
//! grammar is available, parsing fails, or no pattern matched.

use vstd::prelude::*;

use crate::filter::{ext_of, path_extension};
use crate::segmenter::{
    chunk_java, chunk_javascript, chunk_rust, chunk_tsx, java_query_seq, javascript_query_seq,
    rust_query_seq, spec_segment, ts_parses, tsx_query_seq, LANG_JAVA, LANG_JAVASCRIPT, LANG_RUST,
    LANG_TSX,
};
use crate::splitter::{spec_split, TextSplitter};
use crate::strutil::str_eq;
use crate::tokenizer::Tokenizer;
use crate::types::{Chunk, ChunkView};

verus! {

/// Which grammar an extension selects.
pub open spec fn ext_lang(ext: Seq<char>) -> Option<int> {
    if ext == "rs"@ {
        Some(LANG_RUST as int)
    } else if ext == "js"@ || ext == "jsx"@ {
        Some(LANG_JAVASCRIPT as int)
    } else if ext == "ts"@ || ext == "tsx"@ {
        Some(LANG_TSX as int)
    } else if ext == "java"@ {
        Some(LANG_JAVA as int)
    } else {
        None
    }
}

/// The pattern list of a grammar.
pub open spec fn lang_queries(lang: int) -> Seq<Seq<char>> {
    if lang == LANG_RUST as int {
        rust_query_seq()
    } else if lang == LANG_JAVASCRIPT as int {
        javascript_query_seq()
    } else if lang == LANG_TSX as int {
        tsx_query_seq()
    } else {
        java_query_seq()
    }
}

/// What segmenting a whole file yields: syntactic units under the grammar
/// the extension selects, with the sliding-window split of the whole text
/// as the result whenever no grammar applies or the units come out empty.
/// A parse failure and a parse with no matches are indistinguishable here:
/// both fall back.
pub open spec fn spec_split_content(
    content: Seq<char>,
    path: Seq<char>,
    size: int,
    overlap: int,
) -> Seq<ChunkView> {
    match ext_lang(ext_of(path)) {
        None => spec_split(content, path, size, overlap),
        Some(lang) => {
            let units = spec_segment(lang, lang_queries(lang), content, path, size, size, overlap);
            if units.len() == 0 {
                spec_split(content, path, size, overlap)
            } else {
                units
            }
        },
    }
}

impl TextSplitter {
    /// Segment one file's content: syntax-aware where a grammar matches the
    /// path's extension, the token-window fallback otherwise.
    pub fn split_content(&self, content: &str, path: &str, tok: &Tokenizer) -> (r: Result<
        Vec<Chunk>,
        String,
    >)
        ensures
            r matches Ok(cs) && cs@.map_values(|ch: Chunk| ch@) == spec_split_content(
                content@,
                path@,
                self.chunk_size as int,
                self.chunk_overlap as int,
            ),
    {
        let ext: String = path_extension(path);
        let e: &str = ext.as_str();
        let chunks: Vec<Chunk> = if str_eq(e, "rs") {
            match chunk_rust(content, path, self.chunk_size, self, tok) {
                Ok(cs) => cs,
                Err(_) => {
                    proof {
                        assert(false);
                    }
                    Vec::new()
                },
            }
        } else if str_eq(e, "js") || str_eq(e, "jsx") {
            match chunk_javascript(content, path, self.chunk_size, self, tok) {
                Ok(cs) => cs,
                Err(_) => {
                    proof {
                        assert(false);
                    }
                    Vec::new()
                },
            }
        } else if str_eq(e, "ts") || str_eq(e, "tsx") {
            match chunk_tsx(content, path, self.chunk_size, self, tok) {
                Ok(cs) => cs,
                Err(_) => {
                    proof {
                        assert(false);
                    }
                    Vec::new()
                },
            }
        } else if str_eq(e, "java") {
            match chunk_java(content, path, self.chunk_size, self, tok) {
                Ok(cs) => cs,
                Err(_) => {
                    proof {
                        assert(false);
                    }
                    Vec::new()
                },
            }
        } else {
            return self.split_text(content, path.to_owned(), tok);
        };
        if chunks.len() == 0 {
            self.split_text(content, path.to_owned(), tok)
        } else {
            Ok(chunks)
        }
    }
}

/// Fallback equivalence: when the grammar the extension selects cannot
/// parse the content, segmenting the file yields exactly what the
/// sliding-window splitter yields on the same raw text.
pub proof fn lemma_fallback_equivalence(content: Seq<char>, path: Seq<char>, size: int, overlap: int)
    requires
        match ext_lang(ext_of(path)) {
            Some(lang) => !ts_parses(lang, content),
            None => true,
        },
    ensures
        spec_split_content(content, path, size, overlap) == spec_split(
            content,
            path,
            size,
            overlap,
        ),
{
}

} // verus!
