//! Preparing chunks for the embedding stage: contextual text prefixes,
//! token-bounded batching, input selection, and token totals.

use vstd::prelude::*;
use vstd::string::StrSliceExecFns;
use vstd::string::StringExecFns;

use crate::payload::{chunk_type_name, spec_type_name};
use crate::segmenter::byte_len;
use crate::strutil::{dec_str, starts_with_seq, str_starts_with, usize_to_string};
use crate::tokenizer::{
    special_token_count_of, token_count_of, truncated_to, Tokenizer,
};
use crate::types::{Chunk, ChunkView};

verus! {

/// Most chunks one embedding request may carry.
pub const MAX_BATCH_SIZE: usize = 128;

/// Most tokens one embedding request may carry in total.
pub const MAX_TOTAL_TOKENS: usize = 16384;

/// Most tokens a single text may carry; longer texts are truncated at the
/// token level.
pub const MAX_SEQUENCE_LENGTH: usize = 8192;

/// The trimmed form of a text, as `str::trim` yields it: leading and
/// trailing whitespace removed.
pub uninterp spec fn trimmed_of(s: Seq<char>) -> Seq<char>;

/// Relies on `str::trim`: the result depends on the characters alone.
#[verifier::external_body]
fn trim_str(s: &str) -> (r: &str)
    ensures
        r@ == trimmed_of(s@),
{
    s.trim()
}

/// The path with a leading `"clone/"` working-directory prefix removed.
pub open spec fn spec_short_path(p: Seq<char>) -> Seq<char> {
    if starts_with_seq(p, "clone/"@) {
        p.skip("clone/"@.len() as int)
    } else {
        p
    }
}

/// The contextual text an embedded chunk carries: its kind, name, origin
/// and span, then its trimmed content.
pub open spec fn spec_prepared_text(c: ChunkView) -> Seq<char> {
    "["@ + spec_type_name(c.chunk_type) + "] "@ + (match c.function_name {
        Some(n) => n,
        None => "anonymous"@,
    }) + " @ "@ + spec_short_path(c.path) + ":"@ + dec_str(c.chunk_start_line) + "-"@ + dec_str(
        c.chunk_end_line,
    ) + "\n"@ + trimmed_of(c.text)
}

/// Prefix a chunk's text with its provenance, for embedding context.
/// Everything but the text is kept as it is.
pub fn prepare_chunk(chunk: Chunk) -> (r: Chunk)
    ensures
        r@.path == chunk@.path,
        r@.chunk_index == chunk@.chunk_index,
        r@.chunk_start_line == chunk@.chunk_start_line,
        r@.chunk_end_line == chunk@.chunk_end_line,
        r@.function_name == chunk@.function_name,
        r@.chunk_type == chunk@.chunk_type,
        r@.text == spec_prepared_text(chunk@),
{
    let short_path: String = if str_starts_with(chunk.path.as_str(), "clone/") {
        let pl: usize = "clone/".unicode_len();
        let n: usize = chunk.path.as_str().unicode_len();
        chunk.path.as_str().substring_char(pl, n).to_owned()
    } else {
        chunk.path.clone()
    };
    proof {
        assert(short_path@ =~= spec_short_path(chunk@.path));
    }
    let mut text: String = String::new();
    text.append("[");
    text.append(chunk_type_name(chunk.chunk_type));
    text.append("] ");
    match &chunk.function_name {
        Some(n) => text.append(n.as_str()),
        None => text.append("anonymous"),
    };
    text.append(" @ ");
    text.append(short_path.as_str());
    text.append(":");
    let start_str: String = usize_to_string(chunk.chunk_start_line);
    text.append(start_str.as_str());
    text.append("-");
    let end_str: String = usize_to_string(chunk.chunk_end_line);
    text.append(end_str.as_str());
    text.append("\n");
    let trimmed: &str = trim_str(chunk.text.as_str());
    text.append(trimmed);
    proof {
        assert(text@ =~= spec_prepared_text(chunk@));
    }
    Chunk {
        path: chunk.path,
        chunk_index: chunk.chunk_index,
        chunk_start_line: chunk.chunk_start_line,
        chunk_end_line: chunk.chunk_end_line,
        text,
        function_name: chunk.function_name,
        chunk_type: chunk.chunk_type,
    }
}

/// A text as the embedding stage sees it: truncated to the sequence limit
/// when its token count exceeds it.
pub open spec fn spec_capped_text(t: Seq<char>) -> Seq<char> {
    if token_count_of(t) > MAX_SEQUENCE_LENGTH {
        truncated_to(t, MAX_SEQUENCE_LENGTH as int)
    } else {
        t
    }
}

/// A chunk with its text capped to the sequence limit.
pub open spec fn spec_capped_chunk(c: ChunkView) -> ChunkView {
    ChunkView {
        path: c.path,
        chunk_index: c.chunk_index,
        chunk_start_line: c.chunk_start_line,
        chunk_end_line: c.chunk_end_line,
        text: spec_capped_text(c.text),
        function_name: c.function_name,
        chunk_type: c.chunk_type,
    }
}

/// The batches the embedding stage receives: chunks in order, each text
/// capped, a batch closed before a chunk that would push it past the batch
/// size or the token budget.
pub open spec fn spec_batches(chunks: Seq<ChunkView>, cur: Seq<ChunkView>, cur_tokens: int) -> Seq<
    Seq<ChunkView>,
>
    decreases chunks.len(),
{
    if chunks.len() == 0 {
        if cur.len() == 0 {
            Seq::empty()
        } else {
            seq![cur]
        }
    } else {
        let c2 = spec_capped_chunk(chunks[0]);
        let n = token_count_of(c2.text);
        if cur.len() >= MAX_BATCH_SIZE || cur_tokens + n > MAX_TOTAL_TOKENS {
            if cur.len() > 0 {
                seq![cur] + spec_batches(chunks.drop_first(), seq![c2], n as int)
            } else {
                spec_batches(chunks.drop_first(), seq![c2], n as int)
            }
        } else {
            spec_batches(chunks.drop_first(), cur.push(c2), cur_tokens + n)
        }
    }
}

/// Split prepared chunks into embedding batches, each within the batch
/// size and total-token budget, capping each text to the sequence limit.
pub fn make_batches(chunks: Vec<Chunk>, tok: &Tokenizer) -> (r: Vec<Vec<Chunk>>)
    ensures
        r@.map_values(|b: Vec<Chunk>| b@.map_values(|c: Chunk| c@)) == spec_batches(
            chunks@.map_values(|c: Chunk| c@),
            Seq::empty(),
            0,
        ),
{
    let ghost cv = chunks@.map_values(|c: Chunk| c@);
    let n: usize = chunks.len();
    let mut batches: Vec<Vec<Chunk>> = Vec::new();
    let mut current: Vec<Chunk> = Vec::new();
    let mut current_tokens: usize = 0;
    let mut i: usize = 0;
    proof {
        assert(cv.skip(0) =~= cv);
        assert(current@.map_values(|c: Chunk| c@) =~= Seq::<ChunkView>::empty());
        assert(batches@.map_values(|b: Vec<Chunk>| b@.map_values(|c: Chunk| c@)) + spec_batches(
            cv,
            Seq::empty(),
            0,
        ) =~= spec_batches(cv, Seq::empty(), 0));
    }
    while i < n
        invariant
            n == chunks@.len(),
            cv == chunks@.map_values(|c: Chunk| c@),
            0 <= i <= n,
            batches@.map_values(|b: Vec<Chunk>| b@.map_values(|c: Chunk| c@)) + spec_batches(
                cv.skip(i as int),
                current@.map_values(|c: Chunk| c@),
                current_tokens as int,
            ) == spec_batches(cv, Seq::empty(), 0),
        decreases n - i,
    {
        proof {
            assert(cv.skip(i as int)[0] == cv[i as int]);
            assert(cv.skip(i as int).drop_first() =~= cv.skip(i + 1));
            assert(cv[i as int] == chunks@[i as int]@);
        }
        let chunk: &Chunk = &chunks[i];
        let count: usize = tok.count(chunk.text.as_str());
        let t: String = if count > MAX_SEQUENCE_LENGTH {
            tok.truncate_tokens(chunk.text.as_str(), MAX_SEQUENCE_LENGTH)
        } else {
            chunk.text.clone()
        };
        let n_tokens: usize = tok.count(t.as_str());
        let prepared = Chunk {
            path: chunk.path.clone(),
            chunk_index: chunk.chunk_index.clone(),
            chunk_start_line: chunk.chunk_start_line,
            chunk_end_line: chunk.chunk_end_line,
            text: t,
            function_name: match &chunk.function_name {
                Some(s) => Some(s.clone()),
                None => None,
            },
            chunk_type: chunk.chunk_type,
        };
        proof {
            assert(prepared@ == spec_capped_chunk(cv[i as int]));
        }
        let must_flush: bool = current.len() >= MAX_BATCH_SIZE || current_tokens > MAX_TOTAL_TOKENS
            || n_tokens > MAX_TOTAL_TOKENS - current_tokens;
        if must_flush {
            if current.len() > 0 {
                let ghost bb = batches@;
                let full: Vec<Chunk> = current;
                current = Vec::new();
                batches.push(full);
                proof {
                    assert(batches@.map_values(|b: Vec<Chunk>| b@.map_values(|c: Chunk| c@))
                        =~= bb.map_values(|b: Vec<Chunk>| b@.map_values(|c: Chunk| c@)).push(
                        full@.map_values(|c: Chunk| c@),
                    ));
                }
            }
            let ghost cb = current@;
            current.push(prepared);
            current_tokens = n_tokens;
            proof {
                assert(current@.map_values(|c: Chunk| c@) =~= seq![
                    spec_capped_chunk(cv[i as int]),
                ]);
                assert(batches@.map_values(|b: Vec<Chunk>| b@.map_values(|c: Chunk| c@))
                    + spec_batches(
                    cv.skip(i + 1),
                    current@.map_values(|c: Chunk| c@),
                    current_tokens as int,
                ) =~= spec_batches(cv, Seq::empty(), 0));
            }
        } else {
            let ghost cb = current@.map_values(|c: Chunk| c@);
            current.push(prepared);
            current_tokens = current_tokens + n_tokens;
            proof {
                assert(current@.map_values(|c: Chunk| c@) =~= cb.push(
                    spec_capped_chunk(cv[i as int]),
                ));
                assert(batches@.map_values(|b: Vec<Chunk>| b@.map_values(|c: Chunk| c@))
                    + spec_batches(
                    cv.skip(i + 1),
                    current@.map_values(|c: Chunk| c@),
                    current_tokens as int,
                ) =~= spec_batches(cv, Seq::empty(), 0));
            }
        }
        i = i + 1;
    }
    proof {
        assert(cv.skip(n as int) =~= Seq::<ChunkView>::empty());
    }
    if current.len() > 0 {
        let ghost bb = batches@;
        let full: Vec<Chunk> = current;
        batches.push(full);
        proof {
            assert(batches@.map_values(|b: Vec<Chunk>| b@.map_values(|c: Chunk| c@))
                =~= bb.map_values(|b: Vec<Chunk>| b@.map_values(|c: Chunk| c@)).push(
                full@.map_values(|c: Chunk| c@),
            ));
            assert(batches@.map_values(|b: Vec<Chunk>| b@.map_values(|c: Chunk| c@))
                =~= spec_batches(cv, Seq::empty(), 0));
        }
        batches
    } else {
        proof {
            assert(batches@.map_values(|b: Vec<Chunk>| b@.map_values(|c: Chunk| c@))
                =~= spec_batches(cv, Seq::empty(), 0));
        }
        batches
    }
}

/// A text the embedding provider accepts: non-blank after trimming, and
/// within the byte-length limit.
pub open spec fn spec_embed_text_ok(t: Seq<char>) -> bool {
    trimmed_of(t).len() != 0 && byte_len(t) <= MAX_SEQUENCE_LENGTH
}

/// The texts of a batch that the provider accepts, in order.
pub open spec fn spec_embed_inputs(cs: Seq<ChunkView>) -> Seq<Seq<char>>
    decreases cs.len(),
{
    if cs.len() == 0 {
        Seq::empty()
    } else {
        (if spec_embed_text_ok(cs[0].text) {
            seq![cs[0].text]
        } else {
            Seq::empty()
        }) + spec_embed_inputs(cs.drop_first())
    }
}

/// The paths of a batch, in order.
pub open spec fn spec_paths_of(cs: Seq<ChunkView>) -> Seq<Seq<char>> {
    cs.map_values(|c: ChunkView| c.path)
}

/// Check a question before embedding it, as the provider requires: it
/// must not be blank and must fit the sequence byte limit.
pub fn validate_question(question: &str) -> (r: bool)
    ensures
        r == spec_embed_text_ok(question@),
{
    let trimmed: &str = trim_str(question);
    !trimmed.is_empty() && question.len() <= MAX_SEQUENCE_LENGTH
}

/// Select the texts of a batch that can be embedded.  When none survives,
/// the whole batch fails and the offending paths are handed back — the
/// caller reports them rather than silently skipping the batch.
pub fn select_embed_inputs(batch: &Vec<Chunk>) -> (r: Result<Vec<String>, Vec<String>>)
    ensures
        match r {
            Ok(texts) => texts@.map_values(|t: String| t@) == spec_embed_inputs(
                batch@.map_values(|c: Chunk| c@),
            ) && texts@.len() > 0,
            Err(paths) => spec_embed_inputs(batch@.map_values(|c: Chunk| c@)).len() == 0
                && paths@.map_values(|p: String| p@) == spec_paths_of(
                batch@.map_values(|c: Chunk| c@),
            ),
        },
{
    let ghost bv = batch@.map_values(|c: Chunk| c@);
    let n: usize = batch.len();
    let mut texts: Vec<String> = Vec::new();
    let mut i: usize = 0;
    proof {
        assert(bv.skip(0) =~= bv);
    }
    while i < n
        invariant
            n == batch@.len(),
            bv == batch@.map_values(|c: Chunk| c@),
            0 <= i <= n,
            texts@.map_values(|t: String| t@) + spec_embed_inputs(bv.skip(i as int))
                == spec_embed_inputs(bv),
        decreases n - i,
    {
        proof {
            assert(bv.skip(i as int)[0] == bv[i as int]);
            assert(bv.skip(i as int).drop_first() =~= bv.skip(i + 1));
            assert(bv[i as int] == batch@[i as int]@);
        }
        let t: &str = batch[i].text.as_str();
        let trimmed: &str = trim_str(t);
        if !trimmed.is_empty() && t.len() <= MAX_SEQUENCE_LENGTH {
            let ghost before = texts@;
            texts.push(batch[i].text.clone());
            proof {
                assert(texts@.map_values(|t2: String| t2@) =~= before.map_values(
                    |t2: String| t2@,
                ).push(bv[i as int].text));
                assert(texts@.map_values(|t2: String| t2@) + spec_embed_inputs(bv.skip(i + 1))
                    =~= spec_embed_inputs(bv));
            }
        } else {
            proof {
                assert(texts@.map_values(|t2: String| t2@) + spec_embed_inputs(bv.skip(i + 1))
                    =~= spec_embed_inputs(bv));
            }
        }
        i = i + 1;
    }
    proof {
        assert(bv.skip(n as int) =~= Seq::<ChunkView>::empty());
        assert(spec_embed_inputs(bv.skip(n as int)) =~= Seq::<Seq<char>>::empty());
        assert(texts@.map_values(|t: String| t@) =~= spec_embed_inputs(bv));
    }
    if texts.len() == 0 {
        let mut paths: Vec<String> = Vec::new();
        let mut j: usize = 0;
        while j < n
            invariant
                n == batch@.len(),
                bv == batch@.map_values(|c: Chunk| c@),
                0 <= j <= n,
                paths@.map_values(|p: String| p@) == spec_paths_of(bv).take(j as int),
            decreases n - j,
        {
            let ghost before = paths@;
            paths.push(batch[j].path.clone());
            proof {
                assert(bv[j as int] == batch@[j as int]@);
                assert(paths@.map_values(|p: String| p@) =~= before.map_values(
                    |p: String| p@,
                ).push(bv[j as int].path));
                assert(paths@.map_values(|p: String| p@) =~= spec_paths_of(bv).take(j + 1));
            }
            j = j + 1;
        }
        proof {
            assert(spec_paths_of(bv).take(n as int) =~= spec_paths_of(bv));
        }
        Err(paths)
    } else {
        Ok(texts)
    }
}

/// The total token count of a chunk sequence, special tokens included.
pub open spec fn spec_total_special(cs: Seq<ChunkView>) -> int
    decreases cs.len(),
{
    if cs.len() == 0 {
        0
    } else {
        special_token_count_of(cs[0].text) + spec_total_special(cs.drop_first())
    }
}

/// Sum the token counts of all chunks, special tokens included: the
/// number a cost estimate is based on.
pub fn total_tokens_with_special(chunks: &Vec<Chunk>, tok: &Tokenizer) -> (r: u128)
    ensures
        r as int == spec_total_special(chunks@.map_values(|c: Chunk| c@)),
{
    let ghost cv = chunks@.map_values(|c: Chunk| c@);
    let n: usize = chunks.len();
    let mut acc: u128 = 0;
    let mut i: usize = 0;
    proof {
        assert(cv.skip(0) =~= cv);
        assert(spec_total_special(cv.skip(0)) == spec_total_special(cv));
    }
    while i < n
        invariant
            n == chunks@.len(),
            cv == chunks@.map_values(|c: Chunk| c@),
            0 <= i <= n,
            acc as int + spec_total_special(cv.skip(i as int)) == spec_total_special(cv),
            acc as int <= i * 0xFFFF_FFFF_FFFF_FFFF,
            i <= 0xFFFF_FFFF_FFFF_FFFF,
        decreases n - i,
    {
        proof {
            assert(cv.skip(i as int)[0] == cv[i as int]);
            assert(cv.skip(i as int).drop_first() =~= cv.skip(i + 1));
            assert(cv[i as int] == chunks@[i as int]@);
        }
        let count: usize = tok.count_with_special(chunks[i].text.as_str());
        proof {
            assert(acc as int + count as int <= (i + 1) * 0xFFFF_FFFF_FFFF_FFFF)
                by (nonlinear_arith)
                requires
                    acc as int <= i * 0xFFFF_FFFF_FFFF_FFFF,
                    count as int <= 0xFFFF_FFFF_FFFF_FFFF,
                    i >= 0,
            {}
            assert((i + 1) * 0xFFFF_FFFF_FFFF_FFFF < 0xFFFF_FFFF_FFFF_FFFF_FFFF_FFFF_FFFF_FFFF)
                by (nonlinear_arith)
                requires
                    0 <= i + 1 <= 0x1_0000_0000_0000_0000,
            {}
        }
        acc = acc + (count as u128);
        i = i + 1;
    }
    proof {
        assert(cv.skip(n as int) =~= Seq::<ChunkView>::empty());
        assert(spec_total_special(cv.skip(n as int)) == 0);
    }
    acc
}

} // verus!
