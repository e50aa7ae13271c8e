//! The sliding-window splitter: turns a line sequence into overlapping
//! token-bounded chunks.  The exact window boundaries are pinned by the
//! spec functions below, so that identical input always yields the
//! identical chunk sequence.

use vstd::prelude::*;

use crate::strutil::{dec_str, join_space, lines_of, join_with_space, split_lines, usize_to_string};
use crate::tokenizer::{token_count_of, Tokenizer};
use crate::types::{Chunk, ChunkType, ChunkView};

verus! {

/// The sum of a sequence of token counts.
pub open spec fn sum_counts(c: Seq<nat>) -> int
    decreases c.len(),
{
    if c.len() == 0 {
        0
    } else {
        c[0] + sum_counts(c.drop_first())
    }
}

/// Where the window that starts at `i` with a remaining token budget ends:
/// lines are taken while their counts fit the budget.
pub open spec fn window_end_from(c: Seq<nat>, i: int, budget: int) -> int
    decreases c.len() - i,
    when 0 <= i <= c.len()
{
    if i >= c.len() {
        i
    } else if c[i] > budget {
        i
    } else {
        window_end_from(c, i + 1, budget - c[i])
    }
}

pub proof fn lemma_window_end_from_bounds(c: Seq<nat>, i: int, budget: int)
    requires
        0 <= i <= c.len(),
    ensures
        i <= window_end_from(c, i, budget) <= c.len(),
    decreases c.len() - i,
{
    if i < c.len() && !(c[i] > budget) {
        lemma_window_end_from_bounds(c, i + 1, budget - c[i]);
    }
}

/// The exclusive end of the window starting at `start`: grow while the
/// cumulative count stays within `size`; a line whose own count already
/// exceeds `size` still makes a one-line window.
pub open spec fn window_end(c: Seq<nat>, start: int, size: int) -> int {
    let e = window_end_from(c, start, size);
    if e == start {
        start + 1
    } else {
        e
    }
}

pub proof fn lemma_window_end_bounds(c: Seq<nat>, start: int, size: int)
    requires
        0 <= start < c.len(),
    ensures
        start < window_end(c, start, size) <= c.len(),
{
    lemma_window_end_from_bounds(c, start, size);
}

/// Walk backward from `b`, spending `rem` of overlap budget, and return the
/// index where the accumulated counts first reach the budget — or `start`
/// when the budget is never reached.
pub open spec fn backtrack(c: Seq<nat>, start: int, b: int, rem: int) -> int
    decreases b - start,
    when 0 <= start <= b <= c.len()
{
    if b <= start {
        b
    } else if c[b - 1] >= rem {
        b - 1
    } else {
        backtrack(c, start, b - 1, rem - c[b - 1])
    }
}

pub proof fn lemma_backtrack_bounds(c: Seq<nat>, start: int, b: int, rem: int)
    requires
        0 <= start <= b <= c.len(),
    ensures
        start <= backtrack(c, start, b, rem) <= b,
        b > start ==> backtrack(c, start, b, rem) < b,
    decreases b - start,
{
    if b > start && !(c[b - 1] >= rem) {
        lemma_backtrack_bounds(c, start, b - 1, rem - c[b - 1]);
    }
}

/// When backtracking stops above `start`, the counts between the stop index
/// and the window end reach the overlap budget.
pub proof fn lemma_backtrack_sum(c: Seq<nat>, start: int, b: int, rem: int)
    requires
        0 <= start <= b <= c.len(),
    ensures
        backtrack(c, start, b, rem) > start ==> sum_counts(
            c.subrange(backtrack(c, start, b, rem), b),
        ) >= rem,
    decreases b - start,
{
    let r = backtrack(c, start, b, rem);
    if b <= start {
    } else if c[b - 1] >= rem {
        if r > start {
            assert(c.subrange(r, b) =~= seq![c[b - 1]]);
            assert(seq![c[b - 1]].drop_first() =~= Seq::<nat>::empty());
            assert(sum_counts(Seq::<nat>::empty()) == 0);
            assert(sum_counts(seq![c[b - 1]]) == c[b - 1]);
        }
    } else {
        lemma_backtrack_sum(c, start, b - 1, rem - c[b - 1]);
        lemma_backtrack_bounds(c, start, b - 1, rem - c[b - 1]);
        if r > start {
            assert(c.subrange(r, b).drop_last() =~= c.subrange(r, b - 1));
            lemma_sum_last(c.subrange(r, b));
        }
    }
}

pub proof fn lemma_sum_last(c: Seq<nat>)
    requires
        c.len() > 0,
    ensures
        sum_counts(c) == sum_counts(c.drop_last()) + c.last(),
    decreases c.len(),
{
    if c.len() == 1 {
        assert(c.drop_last() =~= Seq::<nat>::empty());
        assert(c.drop_first() =~= Seq::<nat>::empty());
    } else {
        lemma_sum_last(c.drop_first());
        assert(c.drop_first().drop_last() =~= c.drop_last().drop_first());
        assert(c.drop_last()[0] == c[0]);
        assert(c.drop_first().last() == c.last());
    }
}

/// Where the window after the one starting at `start` begins.  Backtracking
/// that makes no progress still advances by one line, so that the window
/// sequence always terminates.
pub open spec fn next_start(c: Seq<nat>, start: int, size: int, overlap: int) -> int {
    let e = window_end(c, start, size);
    let b = backtrack(c, start, e, overlap);
    if b > start {
        b
    } else {
        start + 1
    }
}

pub proof fn lemma_next_start_bounds(c: Seq<nat>, start: int, size: int, overlap: int)
    requires
        0 <= start < c.len(),
    ensures
        start < next_start(c, start, size, overlap) <= window_end(c, start, size),
{
    lemma_window_end_bounds(c, start, size);
    lemma_backtrack_bounds(c, start, window_end(c, start, size), overlap);
}

/// The full sequence of `[start, end)` windows over the line counts.
pub open spec fn spec_windows(c: Seq<nat>, size: int, overlap: int, start: int) -> Seq<(int, int)>
    decreases c.len() - start,
    when 0 <= start <= c.len()
    via spec_windows_decreases
{
    if start >= c.len() {
        Seq::empty()
    } else {
        let e = window_end(c, start, size);
        if e >= c.len() {
            seq![(start, e)]
        } else {
            seq![(start, e)] + spec_windows(c, size, overlap, next_start(c, start, size, overlap))
        }
    }
}

#[via_fn]
proof fn spec_windows_decreases(c: Seq<nat>, size: int, overlap: int, start: int) {
    if start < c.len() {
        lemma_next_start_bounds(c, start, size, overlap);
    }
}

/// Every window is in range and non-empty.
pub proof fn lemma_windows_wf(c: Seq<nat>, size: int, overlap: int, start: int)
    requires
        0 <= start <= c.len(),
    ensures
        forall|k: int|
            0 <= k < spec_windows(c, size, overlap, start).len() ==> {
                let w = #[trigger] spec_windows(c, size, overlap, start)[k];
                start <= w.0 < w.1 <= c.len()
            },
    decreases c.len() - start,
{
    if start < c.len() {
        let e = window_end(c, start, size);
        lemma_window_end_bounds(c, start, size);
        if e < c.len() {
            let ns = next_start(c, start, size, overlap);
            lemma_next_start_bounds(c, start, size, overlap);
            lemma_windows_wf(c, size, overlap, ns);
            let ws = spec_windows(c, size, overlap, start);
            let rest = spec_windows(c, size, overlap, ns);
            assert forall|k: int| 0 <= k < ws.len() implies {
                let w = #[trigger] ws[k];
                start <= w.0 < w.1 <= c.len()
            } by {
                if k > 0 {
                    assert(ws[k] == rest[k - 1]);
                }
            }
        }
    }
}

/// Sliding-window coverage: every line from `start` on lies inside some
/// window, so the emitted chunks never skip a line.
pub proof fn lemma_windows_cover(c: Seq<nat>, size: int, overlap: int, start: int, line: int)
    requires
        0 <= start <= c.len(),
        start <= line < c.len(),
    ensures
        exists|k: int|
            0 <= k < spec_windows(c, size, overlap, start).len() && {
                let w = #[trigger] spec_windows(c, size, overlap, start)[k];
                w.0 <= line < w.1
            },
    decreases c.len() - start,
{
    let ws = spec_windows(c, size, overlap, start);
    let e = window_end(c, start, size);
    lemma_window_end_bounds(c, start, size);
    if e >= c.len() {
        assert(ws[0].0 <= line < ws[0].1);
    } else {
        let ns = next_start(c, start, size, overlap);
        lemma_next_start_bounds(c, start, size, overlap);
        if line < e {
            assert(ws[0].0 <= line < ws[0].1);
        } else {
            lemma_windows_cover(c, size, overlap, ns, line);
            let k = choose|k: int|
                0 <= k < spec_windows(c, size, overlap, ns).len() && {
                    let w = #[trigger] spec_windows(c, size, overlap, ns)[k];
                    w.0 <= line < w.1
                };
            assert(ws[k + 1] == spec_windows(c, size, overlap, ns)[k]);
            assert(ws[k + 1].0 <= line < ws[k + 1].1);
        }
    }
}

/// Consecutive windows are linked by `next_start`.
pub proof fn lemma_windows_adjacent(c: Seq<nat>, size: int, overlap: int, start: int, k: int)
    requires
        0 <= start <= c.len(),
        0 <= k,
        k + 1 < spec_windows(c, size, overlap, start).len(),
    ensures
        ({
            let ws = spec_windows(c, size, overlap, start);
            ws[k].1 == window_end(c, ws[k].0, size) && ws[k + 1].0 == next_start(
                c,
                ws[k].0,
                size,
                overlap,
            )
        }),
    decreases c.len() - start,
{
    let ws = spec_windows(c, size, overlap, start);
    let e = window_end(c, start, size);
    if start < c.len() && e < c.len() {
        let ns = next_start(c, start, size, overlap);
        lemma_next_start_bounds(c, start, size, overlap);
        if k == 0 {
            assert(ws[0] == (start, e));
            assert(ws[1] == spec_windows(c, size, overlap, ns)[0]);
            if ns < c.len() {
                assert(spec_windows(c, size, overlap, ns)[0] == (
                    ns,
                    window_end(c, ns, size),
                ));
            }
        } else {
            lemma_windows_adjacent(c, size, overlap, ns, k - 1);
            assert(ws[k] == spec_windows(c, size, overlap, ns)[k - 1]);
            assert(ws[k + 1] == spec_windows(c, size, overlap, ns)[k]);
        }
    }
}

/// Overlap bound: between two consecutive windows, the token count of the
/// overlapping region reaches `overlap` — unless backtracking already hit
/// the previous window's start, in which case the next window begins just
/// one line further.  The exception cannot be dropped: when a whole
/// window's tokens sum below `overlap` (say three one-token lines with
/// `size` 2 and `overlap` 10), no terminating splitter can both make
/// progress and hand the next window an overlap that reaches the budget,
/// so the bound holds in exactly this conditional form.
pub proof fn lemma_overlap_bound(c: Seq<nat>, size: int, overlap: int, k: int)
    requires
        0 <= k,
        k + 1 < spec_windows(c, size, overlap, 0).len(),
    ensures
        ({
            let ws = spec_windows(c, size, overlap, 0);
            sum_counts(c.subrange(ws[k + 1].0, ws[k].1)) >= overlap || ws[k + 1].0 == ws[k].0 + 1
        }),
{
    let ws = spec_windows(c, size, overlap, 0);
    lemma_windows_adjacent(c, size, overlap, 0, k);
    lemma_windows_wf(c, size, overlap, 0);
    let s = ws[k].0;
    let e = ws[k].1;
    let b = backtrack(c, s, e, overlap);
    lemma_backtrack_bounds(c, s, e, overlap);
    lemma_backtrack_sum(c, s, e, overlap);
}

/// The chunk views that `split_text` emits for the given lines and counts.
pub open spec fn spec_line_chunks(
    lines: Seq<Seq<char>>,
    c: Seq<nat>,
    path: Seq<char>,
    size: int,
    overlap: int,
) -> Seq<ChunkView> {
    let ws = spec_windows(c, size, overlap, 0);
    Seq::new(
        ws.len(),
        |k: int|
            ChunkView {
                path: path,
                chunk_index: dec_str(k),
                chunk_start_line: ws[k].0,
                chunk_end_line: ws[k].1,
                text: join_space(lines.subrange(ws[k].0, ws[k].1)),
                function_name: None,
                chunk_type: ChunkType::LineChunk,
            },
    )
}

/// The token counts of a sequence of lines.
pub open spec fn spec_counts(lines: Seq<Seq<char>>) -> Seq<nat> {
    lines.map_values(|l: Seq<char>| token_count_of(l))
}

/// What splitting a whole text yields: the text's lines, split along the
/// window sequence of their token counts.
pub open spec fn spec_split(text: Seq<char>, path: Seq<char>, size: int, overlap: int) -> Seq<
    ChunkView,
> {
    let lines = lines_of(text);
    spec_line_chunks(lines, spec_counts(lines), path, size, overlap)
}

/// Sliding-window splitter configuration: maximum chunk size and overlap,
/// both in tokens.
pub struct TextSplitter {
    pub chunk_size: usize,
    pub chunk_overlap: usize,
}

/// Compute the window sequence over the given counts, exactly as
/// `spec_windows` describes it.
fn compute_windows(counts: &Vec<usize>, size: usize, overlap: usize) -> (r: Vec<(usize, usize)>)
    ensures
        r@.map_values(|w: (usize, usize)| (w.0 as int, w.1 as int)) == spec_windows(
            counts@.map_values(|x: usize| x as nat),
            size as int,
            overlap as int,
            0,
        ),
{
    let ghost c = counts@.map_values(|x: usize| x as nat);
    let n: usize = counts.len();
    let mut out: Vec<(usize, usize)> = Vec::new();
    let mut start: usize = 0;
    while start < n
        invariant_except_break
            out@.map_values(|w: (usize, usize)| (w.0 as int, w.1 as int)) + spec_windows(
                c,
                size as int,
                overlap as int,
                start as int,
            ) == spec_windows(c, size as int, overlap as int, 0),
        invariant
            n == counts@.len(),
            c == counts@.map_values(|x: usize| x as nat),
            0 <= start <= n,
        ensures
            out@.map_values(|w: (usize, usize)| (w.0 as int, w.1 as int)) == spec_windows(
                c,
                size as int,
                overlap as int,
                0,
            ),
        decreases n - start,
    {
        // Grow the window while the cumulative token count stays within size.
        let mut e: usize = start;
        let mut total: usize = 0;
        while e < n && counts[e as usize] <= size - total
            invariant
                n == counts@.len(),
                c == counts@.map_values(|x: usize| x as nat),
                start <= e <= n,
                total <= size,
                window_end_from(c, start as int, size as int) == window_end_from(
                    c,
                    e as int,
                    size - total,
                ),
            decreases n - e,
        {
            total = total + counts[e];
            e = e + 1;
        }
        proof {
            assert(window_end_from(c, e as int, size - total) == e);
            lemma_window_end_from_bounds(c, start as int, size as int);
        }
        if e == start {
            e = start + 1;
        }
        proof {
            assert(e as int == window_end(c, start as int, size as int));
        }
        // Walk backward, accumulating counts until the overlap is reached.
        let mut b: usize = e;
        let mut rem: usize = overlap;
        loop
            invariant_except_break
                n == counts@.len(),
                c == counts@.map_values(|x: usize| x as nat),
                start <= b <= e <= n,
                backtrack(c, start as int, e as int, overlap as int) == backtrack(
                    c,
                    start as int,
                    b as int,
                    rem as int,
                ),
            ensures
                b == backtrack(c, start as int, e as int, overlap as int),
                start <= b <= e,
            decreases b - start,
        {
            if b <= start {
                break;
            }
            if counts[b - 1] >= rem {
                b = b - 1;
                proof {
                    lemma_backtrack_bounds(c, start as int, e as int, overlap as int);
                }
                break;
            }
            rem = rem - counts[b - 1];
            b = b - 1;
        }
        let ns: usize = if b > start {
            b
        } else {
            start + 1
        };
        proof {
            assert(ns as int == next_start(c, start as int, size as int, overlap as int));
        }
        out.push((start, e));
        if e >= n {
            proof {
                assert(spec_windows(c, size as int, overlap as int, start as int) =~= seq![
                    (start as int, e as int),
                ]);
                assert(out@.map_values(|w: (usize, usize)| (w.0 as int, w.1 as int))
                    =~= spec_windows(c, size as int, overlap as int, 0));
            }
            break;
        }
        proof {
            lemma_next_start_bounds(c, start as int, size as int, overlap as int);
            assert(spec_windows(c, size as int, overlap as int, start as int) == seq![
                (start as int, e as int),
            ] + spec_windows(c, size as int, overlap as int, ns as int));
            assert(out@.map_values(|w: (usize, usize)| (w.0 as int, w.1 as int)) + spec_windows(
                c,
                size as int,
                overlap as int,
                ns as int,
            ) =~= spec_windows(c, size as int, overlap as int, 0));
        }
        start = ns;
    }
    out
}

impl TextSplitter {
    /// Split a text into overlapping token-bounded line chunks.
    ///
    /// The result is exactly the chunk sequence that `spec_split` pins for
    /// this text, path and configuration; splitting never fails.  Chunk
    /// text is non-empty except where a window covers a single empty input
    /// line (`lemma_split_text_empty_only_for_empty_line`): dropping such
    /// windows would break line coverage, so they are emitted.
    pub fn split_text(&self, text: &str, path: String, tok: &Tokenizer) -> (r: Result<
        Vec<Chunk>,
        String,
    >)
        ensures
            r matches Ok(cs) && cs@.map_values(|ch: Chunk| ch@) == spec_split(
                text@,
                path@,
                self.chunk_size as int,
                self.chunk_overlap as int,
            ),
    {
        let lines: Vec<String> = split_lines(text);
        let ghost glines = lines@.map_values(|l: String| l@);
        let mut counts: Vec<usize> = Vec::new();
        let mut i: usize = 0;
        while i < lines.len()
            invariant
                glines == lines@.map_values(|l: String| l@),
                0 <= i <= lines@.len(),
                counts@.len() == i,
                forall|j: int|
                    0 <= j < i ==> counts@.map_values(|x: usize| x as nat)[j] == spec_counts(
                        glines,
                    )[j],
            decreases lines@.len() - i,
        {
            let cnt: usize = tok.count(lines[i].as_str());
            counts.push(cnt);
            i = i + 1;
        }
        proof {
            assert(counts@.map_values(|x: usize| x as nat) =~= spec_counts(glines));
        }
        let windows: Vec<(usize, usize)> = compute_windows(
            &counts,
            self.chunk_size,
            self.chunk_overlap,
        );
        let ghost ws = spec_windows(
            spec_counts(glines),
            self.chunk_size as int,
            self.chunk_overlap as int,
            0,
        );
        proof {
            lemma_windows_wf(
                spec_counts(glines),
                self.chunk_size as int,
                self.chunk_overlap as int,
                0,
            );
        }
        let mut chunks: Vec<Chunk> = Vec::new();
        let mut k: usize = 0;
        while k < windows.len()
            invariant
                glines == lines@.map_values(|l: String| l@),
                ws == spec_windows(
                    spec_counts(glines),
                    self.chunk_size as int,
                    self.chunk_overlap as int,
                    0,
                ),
                windows@.map_values(|w: (usize, usize)| (w.0 as int, w.1 as int)) == ws,
                forall|q: int|
                    0 <= q < ws.len() ==> (#[trigger] ws[q]).0 < ws[q].1 <= glines.len(),
                0 <= k <= windows@.len(),
                chunks@.len() == k,
                forall|q: int|
                    0 <= q < k ==> chunks@.map_values(|ch: Chunk| ch@)[q] == spec_line_chunks(
                        glines,
                        spec_counts(glines),
                        path@,
                        self.chunk_size as int,
                        self.chunk_overlap as int,
                    )[q],
            decreases windows@.len() - k,
        {
            let (ws_k0, ws_k1): (usize, usize) = (windows[k].0, windows[k].1);
            proof {
                assert(ws[k as int] == (ws_k0 as int, ws_k1 as int));
            }
            let text_k: String = join_with_space(&lines, ws_k0, ws_k1);
            let idx: String = usize_to_string(k);
            proof {
                assert(glines.subrange(ws_k0 as int, ws_k1 as int) == lines@.map_values(
                    |l: String| l@,
                ).subrange(ws_k0 as int, ws_k1 as int));
            }
            let chunk = Chunk {
                path: path.clone(),
                chunk_index: idx,
                chunk_start_line: ws_k0,
                chunk_end_line: ws_k1,
                text: text_k,
                function_name: None,
                chunk_type: ChunkType::LineChunk,
            };
            chunks.push(chunk);
            k = k + 1;
        }
        proof {
            assert(chunks@.map_values(|ch: Chunk| ch@) =~= spec_split(
                text@,
                path@,
                self.chunk_size as int,
                self.chunk_overlap as int,
            ));
        }
        Ok(chunks)
    }
}

/// The split of any text has at least one chunk, and every chunk's span is
/// a non-empty range of line numbers within the text's lines.
pub proof fn lemma_spec_split_wf(text: Seq<char>, path: Seq<char>, size: int, overlap: int)
    ensures
        spec_split(text, path, size, overlap).len() >= 1,
        forall|k: int|
            0 <= k < spec_split(text, path, size, overlap).len() ==> {
                let ch = #[trigger] spec_split(text, path, size, overlap)[k];
                0 <= ch.chunk_start_line < ch.chunk_end_line <= lines_of(text).len()
            },
{
    let lines = lines_of(text);
    let c = spec_counts(lines);
    crate::strutil::lemma_lines_from_count(text, 0);
    lemma_windows_wf(c, size, overlap, 0);
    assert(spec_windows(c, size, overlap, 0).len() >= 1);
}

/// When a chunk's text can be empty.  Joining two or more lines always
/// yields text holding at least the separating space, so an empty text
/// arises exactly one way: a window that covers a single empty input line.
/// Skipping such windows would leave that line uncovered; emitting them
/// keeps coverage, so the never-empty rule for chunk text is relaxed for
/// them and for nothing else.
pub proof fn lemma_split_text_empty_only_for_empty_line(
    text: Seq<char>,
    path: Seq<char>,
    size: int,
    overlap: int,
    k: int,
)
    requires
        0 <= k < spec_split(text, path, size, overlap).len(),
    ensures
        ({
            let ch = spec_split(text, path, size, overlap)[k];
            ch.text.len() == 0 ==> ch.chunk_end_line == ch.chunk_start_line + 1 && lines_of(
                text,
            )[ch.chunk_start_line].len() == 0
        }),
{
    let lines = lines_of(text);
    let c = spec_counts(lines);
    lemma_windows_wf(c, size, overlap, 0);
    let ws = spec_windows(c, size, overlap, 0);
    let w = ws[k];
    let sub = lines.subrange(w.0, w.1);
    let ch = spec_split(text, path, size, overlap)[k];
    if w.1 - w.0 >= 2 {
        assert(join_space(sub) == sub[0] + seq![' '] + join_space(sub.drop_first()));
        assert(ch.text.len() >= 1);
    } else {
        assert(sub.len() == 1);
        assert(ch.text == sub[0]);
        assert(sub[0] == lines[w.0]);
    }
}

/// Determinism of the splitter: the chunk sequence is a function of the
/// text, the path and the configuration, so two runs on identical inputs
/// yield identical chunk sequences.
pub proof fn lemma_split_deterministic(
    r1: Seq<ChunkView>,
    r2: Seq<ChunkView>,
    text: Seq<char>,
    path: Seq<char>,
    size: int,
    overlap: int,
)
    requires
        r1 == spec_split(text, path, size, overlap),
        r2 == spec_split(text, path, size, overlap),
    ensures
        r1 == r2,
{
}

/// Coverage of the splitter output: every line of the input text lies in
/// the span of at least one emitted chunk.
pub proof fn lemma_split_coverage(
    text: Seq<char>,
    path: Seq<char>,
    size: int,
    overlap: int,
    line: int,
)
    requires
        0 <= line < lines_of(text).len(),
    ensures
        exists|k: int|
            0 <= k < spec_split(text, path, size, overlap).len() && {
                let ch = #[trigger] spec_split(text, path, size, overlap)[k];
                ch.chunk_start_line <= line < ch.chunk_end_line
            },
{
    let lines = lines_of(text);
    let c = spec_counts(lines);
    lemma_windows_cover(c, size, overlap, 0, line);
    let ws = spec_windows(c, size, overlap, 0);
    let k = choose|k: int|
        0 <= k < ws.len() && {
            let w = #[trigger] ws[k];
            w.0 <= line < w.1
        };
    assert(spec_split(text, path, size, overlap)[k].chunk_start_line <= line < spec_split(
        text,
        path,
        size,
        overlap,
    )[k].chunk_end_line);
}

} // verus!
