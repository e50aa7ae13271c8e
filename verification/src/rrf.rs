//! Reciprocal rank fusion: merge a semantic and a lexical ranked list by
//! summing `1 / (k + rank)` per list, compare the fused scores exactly as
//! rationals, and keep the best `top_k`.
//!
//! Chunk identity for fusion is the pair (path, chunk_index): two chunks
//! are the same entity exactly when both fields match.

use vstd::prelude::*;

use crate::strutil::str_eq;
use crate::types::{Chunk, ChunkView};

verus! {

/// Fusion identity: same path and same chunk index.
pub open spec fn same_key(a: ChunkView, b: ChunkView) -> bool {
    a.path == b.path && a.chunk_index == b.chunk_index
}

/// First index at or after `i` whose entry shares `c`'s key, or `-1`.
pub open spec fn find_key(l: Seq<ChunkView>, c: ChunkView, i: int) -> int
    decreases l.len() - i,
    when 0 <= i <= l.len()
{
    if i >= l.len() {
        -1
    } else if same_key(l[i], c) {
        i
    } else {
        find_key(l, c, i + 1)
    }
}

pub proof fn lemma_find_key_bounds(l: Seq<ChunkView>, c: ChunkView, i: int)
    requires
        0 <= i <= l.len(),
    ensures
        find_key(l, c, i) == -1 || i <= find_key(l, c, i) < l.len(),
        find_key(l, c, i) >= 0 ==> same_key(l[find_key(l, c, i)], c),
    decreases l.len() - i,
{
    if i < l.len() && !same_key(l[i], c) {
        lemma_find_key_bounds(l, c, i + 1);
    }
}

/// The 1-based rank of `c`'s key in the list, if present.
pub open spec fn rank_of(l: Seq<ChunkView>, c: ChunkView) -> Option<int> {
    let i = find_key(l, c, 0);
    if i < 0 {
        None
    } else {
        Some(i + 1)
    }
}

pub open spec fn has_key(l: Seq<ChunkView>, c: ChunkView) -> bool {
    find_key(l, c, 0) >= 0
}

/// One fusion candidate: a chunk and its 1-based rank in each list.
pub struct CandView {
    pub chunk: ChunkView,
    pub sem: Option<int>,
    pub lex: Option<int>,
}

/// The candidates contributed by the lexical list alone: entries whose key
/// the semantic list does not hold.
pub open spec fn lex_only(lex: Seq<ChunkView>, sem: Seq<ChunkView>, i: int) -> Seq<CandView>
    decreases lex.len() - i,
    when 0 <= i <= lex.len()
{
    if i >= lex.len() {
        Seq::empty()
    } else if has_key(sem, lex[i]) {
        lex_only(lex, sem, i + 1)
    } else {
        seq![CandView { chunk: lex[i], sem: None, lex: Some(i + 1) }] + lex_only(lex, sem, i + 1)
    }
}

/// All fusion candidates: every semantic entry with its lexical rank, then
/// the lexical-only entries.
pub open spec fn candidates(sem: Seq<ChunkView>, lex: Seq<ChunkView>) -> Seq<CandView> {
    Seq::new(
        sem.len(),
        |i: int| CandView { chunk: sem[i], sem: Some(i + 1), lex: rank_of(lex, sem[i]) },
    ) + lex_only(lex, sem, 0)
}

/// Numerator of the fused score `sum of 1/(k+r)` written as one fraction.
pub open spec fn score_num(k: int, c: CandView) -> int {
    match (c.sem, c.lex) {
        (Some(r1), Some(r2)) => (k + r1) + (k + r2),
        (Some(_), None) => 1,
        (None, Some(_)) => 1,
        (None, None) => 0,
    }
}

/// Denominator of the fused score.
pub open spec fn score_den(k: int, c: CandView) -> int {
    match (c.sem, c.lex) {
        (Some(r1), Some(r2)) => (k + r1) * (k + r2),
        (Some(r1), None) => k + r1,
        (None, Some(r2)) => k + r2,
        (None, None) => 1,
    }
}

/// `a`'s fused score is strictly below `b`'s, compared as exact rationals
/// by cross-multiplication.
pub open spec fn score_lt(k: int, a: CandView, b: CandView) -> bool {
    score_num(k, a) * score_den(k, b) < score_num(k, b) * score_den(k, a)
}

/// Insert `x` behind every already placed candidate whose score is not
/// below `x`'s: a stable descending insertion.
pub open spec fn insert_desc(k: int, x: CandView, l: Seq<CandView>) -> Seq<CandView>
    decreases l.len(),
{
    if l.len() > 0 && !score_lt(k, l[0], x) {
        seq![l[0]] + insert_desc(k, x, l.drop_first())
    } else {
        seq![x] + l
    }
}

/// Stable descending insertion sort by fused score.
pub open spec fn sort_desc(k: int, l: Seq<CandView>) -> Seq<CandView>
    decreases l.len(),
{
    if l.len() == 0 {
        Seq::empty()
    } else {
        insert_desc(k, l.last(), sort_desc(k, l.drop_last()))
    }
}

/// What hybrid fusion yields: all candidates sorted by descending fused
/// score (ties kept in candidate order), truncated to `top_k`.
pub open spec fn spec_rrf(sem: Seq<ChunkView>, lex: Seq<ChunkView>, k: int, top_k: int) -> Seq<
    ChunkView,
> {
    let sorted = sort_desc(k, candidates(sem, lex));
    let n = if top_k < sorted.len() {
        top_k
    } else {
        sorted.len() as int
    };
    sorted.map_values(|c: CandView| c.chunk).take(n)
}

/// An executable fusion candidate.
struct Candidate {
    chunk: Chunk,
    sem: Option<usize>,
    lex: Option<usize>,
}

impl View for Candidate {
    type V = CandView;

    closed spec fn view(&self) -> CandView {
        CandView {
            chunk: self.chunk@,
            sem: match self.sem {
                Some(r) => Some(r as int),
                None => None,
            },
            lex: match self.lex {
                Some(r) => Some(r as int),
                None => None,
            },
        }
    }
}

/// Rank bounds under which the fraction arithmetic fits the machine.
pub open spec fn cand_wf(c: CandView) -> bool {
    &&& match c.sem {
        Some(r) => 1 <= r <= 0x1_0000_0000,
        None => true,
    }
    &&& match c.lex {
        Some(r) => 1 <= r <= 0x1_0000_0000,
        None => true,
    }
}

/// Find the 1-based rank of `c`'s key in a chunk list.
fn find_rank(l: &Vec<Chunk>, c: &Chunk) -> (r: Option<usize>)
    ensures
        ({
            let rv = match r {
                Some(x) => Some(x as int),
                None => None,
            };
            rv == rank_of(l@.map_values(|ch: Chunk| ch@), c@)
        }),
        r matches Some(x) ==> 1 <= x <= l@.len(),
{
    let ghost lv = l@.map_values(|ch: Chunk| ch@);
    let n: usize = l.len();
    let mut i: usize = 0;
    while i < n
        invariant
            n == l@.len(),
            lv == l@.map_values(|ch: Chunk| ch@),
            0 <= i <= n,
            find_key(lv, c@, 0) == find_key(lv, c@, i as int),
        decreases n - i,
    {
        proof {
            assert(lv[i as int] == l@[i as int]@);
        }
        if str_eq(l[i].path.as_str(), c.path.as_str()) && str_eq(
            l[i].chunk_index.as_str(),
            c.chunk_index.as_str(),
        ) {
            proof {
                assert(same_key(lv[i as int], c@));
                assert(find_key(lv, c@, i as int) == i);
            }
            return Some(i + 1);
        }
        i = i + 1;
    }
    proof {
        lemma_find_key_bounds(lv, c@, i as int);
    }
    None
}

/// Compare two candidates' fused scores exactly.
fn cand_lt(k_rrf: u64, a: &Candidate, b: &Candidate) -> (r: bool)
    requires
        k_rrf <= 0xFFFF_FFFF,
        cand_wf(a@),
        cand_wf(b@),
    ensures
        r == score_lt(k_rrf as int, a@, b@),
{
    let (na, da): (u64, u128) = cand_frac(k_rrf, a);
    let (nb, db): (u64, u128) = cand_frac(k_rrf, b);
    proof {
        assert((na as u128) * db <= 0x200_0000_0000_0000_0000_0000_0000 && (nb as u128) * da
            <= 0x200_0000_0000_0000_0000_0000_0000) by (nonlinear_arith)
            requires
                na <= 0x8_0000_0000,
                nb <= 0x8_0000_0000,
                da <= 0x4_0000_0000_0000_0000,
                db <= 0x4_0000_0000_0000_0000,
        {}
    }
    (na as u128) * db < (nb as u128) * da
}

/// The fused score of one candidate as an exact fraction.
fn cand_frac(k_rrf: u64, c: &Candidate) -> (r: (u64, u128))
    requires
        k_rrf <= 0xFFFF_FFFF,
        cand_wf(c@),
    ensures
        r.0 as int == score_num(k_rrf as int, c@),
        r.1 as int == score_den(k_rrf as int, c@),
        r.0 <= 0x8_0000_0000,
        r.1 <= 0x4_0000_0000_0000_0000,
{
    match (&c.sem, &c.lex) {
        (Some(r1), Some(r2)) => {
            let a: u64 = k_rrf + (*r1 as u64);
            let b: u64 = k_rrf + (*r2 as u64);
            proof {
                assert((a as u128) * (b as u128) <= 0x4_0000_0000_0000_0000) by (nonlinear_arith)
                    requires
                        a <= 0x2_0000_0000,
                        b <= 0x2_0000_0000,
                {}
            }
            (a + b, (a as u128) * (b as u128))
        },
        (Some(r1), None) => (1, (k_rrf + (*r1 as u64)) as u128),
        (None, Some(r2)) => (1, (k_rrf + (*r2 as u64)) as u128),
        (None, None) => (0, 1),
    }
}

pub proof fn lemma_insert_desc_at(k: int, x: CandView, l: Seq<CandView>, p: int)
    requires
        0 <= p <= l.len(),
        forall|q: int| 0 <= q < p ==> !score_lt(k, #[trigger] l[q], x),
        p == l.len() || score_lt(k, l[p], x),
    ensures
        insert_desc(k, x, l) == l.take(p) + seq![x] + l.skip(p),
    decreases l.len(),
{
    if l.len() > 0 && !score_lt(k, l[0], x) {
        lemma_insert_desc_at(k, x, l.drop_first(), p - 1);
        assert(l.drop_first().take(p - 1) =~= l.take(p).drop_first());
        assert(l.drop_first().skip(p - 1) =~= l.skip(p));
        assert(seq![l[0]] + (l.take(p).drop_first() + seq![x] + l.skip(p)) =~= l.take(p) + seq![x]
            + l.skip(p));
    } else {
        assert(l.take(0) =~= Seq::<CandView>::empty());
        assert(l.skip(0) =~= l);
        assert(seq![x] + l =~= l.take(0) + seq![x] + l.skip(0));
    }
}

/// Fuse a semantic and a lexical ranked chunk list by reciprocal rank
/// fusion with constant `k_rrf`, and keep the best `top_k` chunks.
pub fn reciprocal_rank_fusion(
    semantic_results: Vec<Chunk>,
    lexical_results: Vec<Chunk>,
    k_rrf: u64,
    top_k: u64,
) -> (r: Vec<Chunk>)
    requires
        k_rrf <= 0xFFFF_FFFF,
        semantic_results@.len() <= 0xFFFF_FFFF,
        lexical_results@.len() <= 0xFFFF_FFFF,
    ensures
        r@.map_values(|c: Chunk| c@) == spec_rrf(
            semantic_results@.map_values(|c: Chunk| c@),
            lexical_results@.map_values(|c: Chunk| c@),
            k_rrf as int,
            top_k as int,
        ),
{
    let ghost semv = semantic_results@.map_values(|c: Chunk| c@);
    let ghost lexv = lexical_results@.map_values(|c: Chunk| c@);
    let ghost k = k_rrf as int;
    let nsem: usize = semantic_results.len();
    let nlex: usize = lexical_results.len();

    // Gather the candidates: semantic entries first, then lexical-only ones.
    let mut cands: Vec<Candidate> = Vec::new();
    let mut i: usize = 0;
    while i < nsem
        invariant
            nsem == semantic_results@.len(),
            semv == semantic_results@.map_values(|c: Chunk| c@),
            lexv == lexical_results@.map_values(|c: Chunk| c@),
            semv.len() <= 0xFFFF_FFFF,
            lexv.len() <= 0xFFFF_FFFF,
            0 <= i <= nsem,
            cands@.len() == i,
            forall|q: int|
                0 <= q < i ==> #[trigger] cands@[q]@ == (CandView {
                    chunk: semv[q],
                    sem: Some(q + 1),
                    lex: rank_of(lexv, semv[q]),
                }),
            forall|q: int| 0 <= q < i ==> cand_wf(#[trigger] cands@[q]@),
        decreases nsem - i,
    {
        let lex_rank: Option<usize> = find_rank(&lexical_results, &semantic_results[i]);
        let cand = Candidate {
            chunk: semantic_results[i].duplicate(),
            sem: Some(i + 1),
            lex: lex_rank,
        };
        proof {
            assert(semv[i as int] == semantic_results@[i as int]@);
        }
        cands.push(cand);
        i = i + 1;
    }
    proof {
        assert(cands@.map_values(|c: Candidate| c@) =~= Seq::new(
            semv.len(),
            |q: int| CandView { chunk: semv[q], sem: Some(q + 1), lex: rank_of(lexv, semv[q]) },
        ));
    }
    let ghost sem_cands = cands@.map_values(|c: Candidate| c@);
    let mut j: usize = 0;
    while j < nlex
        invariant
            nlex == lexical_results@.len(),
            semv == semantic_results@.map_values(|c: Chunk| c@),
            lexv == lexical_results@.map_values(|c: Chunk| c@),
            lexv.len() <= 0xFFFF_FFFF,
            0 <= j <= nlex,
            sem_cands.len() <= 0xFFFF_FFFF,
            cands@.map_values(|c: Candidate| c@) + lex_only(lexv, semv, j as int) == sem_cands
                + lex_only(lexv, semv, 0),
            forall|q: int| 0 <= q < cands@.len() ==> cand_wf(#[trigger] cands@[q]@),
        decreases nlex - j,
    {
        proof {
            assert(lexv[j as int] == lexical_results@[j as int]@);
        }
        let in_sem: Option<usize> = find_rank(&semantic_results, &lexical_results[j]);
        match in_sem {
            Some(_) => {
                proof {
                    assert(has_key(semv, lexv[j as int]));
                }
            },
            None => {
                proof {
                    assert(!has_key(semv, lexv[j as int]));
                }
                let ghost before = cands@.map_values(|c: Candidate| c@);
                let cand = Candidate {
                    chunk: lexical_results[j].duplicate(),
                    sem: None,
                    lex: Some(j + 1),
                };
                cands.push(cand);
                proof {
                    assert(cands@.map_values(|c: Candidate| c@) =~= before.push(
                        CandView { chunk: lexv[j as int], sem: None, lex: Some(j + 1) },
                    ));
                    assert(lex_only(lexv, semv, j as int) == seq![
                        CandView { chunk: lexv[j as int], sem: None, lex: Some(j + 1) },
                    ] + lex_only(lexv, semv, j + 1));
                    assert(cands@.map_values(|c: Candidate| c@) + lex_only(lexv, semv, j + 1)
                        =~= sem_cands + lex_only(lexv, semv, 0));
                }
            },
        }
        j = j + 1;
    }
    proof {
        assert(lex_only(lexv, semv, nlex as int) =~= Seq::<CandView>::empty());
        assert(cands@.map_values(|c: Candidate| c@) =~= candidates(semv, lexv));
    }

    // Stable insertion sort by descending fused score.
    let ghost call = candidates(semv, lexv);
    let ncands: usize = cands.len();
    let mut sorted: Vec<Candidate> = Vec::new();
    let mut c2: usize = 0;
    proof {
        assert(call.take(0) =~= Seq::<CandView>::empty());
    }
    while c2 < ncands
        invariant
            ncands == cands@.len(),
            call == candidates(semv, lexv),
            cands@.map_values(|c: Candidate| c@) == call,
            forall|q: int| 0 <= q < cands@.len() ==> cand_wf(#[trigger] cands@[q]@),
            k_rrf <= 0xFFFF_FFFF,
            k == k_rrf as int,
            0 <= c2 <= ncands,
            sorted@.map_values(|c: Candidate| c@) == sort_desc(k, call.take(c2 as int)),
            sorted@.len() == c2,
            forall|q: int| 0 <= q < sorted@.len() ==> cand_wf(#[trigger] sorted@[q]@),
        decreases ncands - c2,
    {
        let x: Candidate = cands[c2].duplicate_cand();
        proof {
            assert(cands@[c2 as int]@ == call[c2 as int]);
        }
        let ns: usize = sorted.len();
        let mut p: usize = 0;
        while p < ns && !cand_lt(k_rrf, &sorted[p], &x)
            invariant
                ns == sorted@.len(),
                k_rrf <= 0xFFFF_FFFF,
                k == k_rrf as int,
                x@ == call[c2 as int],
                call == candidates(semv, lexv),
                cand_wf(x@),
                forall|q: int| 0 <= q < sorted@.len() ==> cand_wf(#[trigger] sorted@[q]@),
                0 <= p <= ns,
                forall|q: int|
                    0 <= q < p ==> !score_lt(k, #[trigger] sorted@[q]@, x@),
            decreases ns - p,
        {
            proof {
                assert(sorted@.map_values(|c: Candidate| c@)[p as int] == sorted@[p as int]@);
            }
            p = p + 1;
        }
        let ghost sortedv = sorted@.map_values(|c: Candidate| c@);
        proof {
            if p < ns {
                assert(sorted@.map_values(|c: Candidate| c@)[p as int] == sorted@[p as int]@);
            }
            assert forall|q: int| 0 <= q < p implies !score_lt(k, #[trigger] sortedv[q], x@) by {
                assert(sortedv[q] == sorted@[q]@);
            }
            lemma_insert_desc_at(k, x@, sortedv, p as int);
        }
        sorted.insert(p, x);
        proof {
            assert(sorted@.map_values(|c: Candidate| c@) =~= sortedv.take(p as int) + seq![
                call[c2 as int],
            ] + sortedv.skip(p as int));
            assert(call.take(c2 + 1).drop_last() =~= call.take(c2 as int));
            assert(call.take(c2 + 1).last() == call[c2 as int]);
            assert(sort_desc(k, call.take(c2 + 1)) == insert_desc(
                k,
                call[c2 as int],
                sort_desc(k, call.take(c2 as int)),
            ));
        }
        c2 = c2 + 1;
    }
    proof {
        assert(call.take(ncands as int) =~= call);
    }

    // Truncate to the best top_k.
    let limit: usize = if top_k < (ncands as u64) {
        // top_k < ncands <= usize::MAX, so the cast is exact.
        top_k as usize
    } else {
        ncands
    };
    let mut out: Vec<Chunk> = Vec::new();
    let mut t: usize = 0;
    while t < limit
        invariant
            limit <= sorted@.len(),
            sorted@.map_values(|c: Candidate| c@) == sort_desc(k, call),
            0 <= t <= limit,
            out@.map_values(|c: Chunk| c@) == sort_desc(k, call).map_values(
                |c: CandView| c.chunk,
            ).take(t as int),
        decreases limit - t,
    {
        let ghost before = out@.map_values(|c: Chunk| c@);
        out.push(sorted[t].chunk.duplicate());
        proof {
            assert(sorted@[t as int]@ == sort_desc(k, call)[t as int]);
            assert(out@.map_values(|c: Chunk| c@) =~= before.push(
                sort_desc(k, call)[t as int].chunk,
            ));
            assert(out@.map_values(|c: Chunk| c@) =~= sort_desc(k, call).map_values(
                |c: CandView| c.chunk,
            ).take(t + 1));
        }
        t = t + 1;
    }
    proof {
        assert(out@.map_values(|c: Chunk| c@) =~= spec_rrf(semv, lexv, k, top_k as int));
    }
    out
}

impl Candidate {
    /// An explicit deep copy with a known view.
    fn duplicate_cand(&self) -> (r: Candidate)
        ensures
            r@ == self@,
    {
        Candidate { chunk: self.chunk.duplicate(), sem: self.sem, lex: self.lex }
    }
}

proof fn lemma_insert_mem(k: int, x: CandView, l: Seq<CandView>)
    ensures
        insert_desc(k, x, l).len() == l.len() + 1,
        forall|i: int|
            0 <= i < l.len() + 1 ==> (#[trigger] insert_desc(k, x, l)[i] == x || l.contains(
                insert_desc(k, x, l)[i],
            )),
    decreases l.len(),
{
    let r = insert_desc(k, x, l);
    if l.len() > 0 && !score_lt(k, l[0], x) {
        lemma_insert_mem(k, x, l.drop_first());
        let r2 = insert_desc(k, x, l.drop_first());
        assert forall|i: int| 0 <= i < l.len() + 1 implies (#[trigger] r[i] == x || l.contains(
            r[i],
        )) by {
            if i == 0 {
                assert(l[0] == r[0]);
                assert(l.contains(r[0]));
            } else {
                assert(r[i] == r2[i - 1]);
                if r2[i - 1] != x {
                    assert(l.drop_first().contains(r2[i - 1]));
                    let j = choose|j: int|
                        0 <= j < l.drop_first().len() && l.drop_first()[j] == r2[i - 1];
                    assert(l[j + 1] == r2[i - 1]);
                    assert(l.contains(r[i]));
                }
            }
        }
    } else {
        assert forall|i: int| 0 <= i < l.len() + 1 implies (#[trigger] r[i] == x || l.contains(
            r[i],
        )) by {
            if i > 0 {
                assert(r[i] == l[i - 1]);
                assert(l.contains(r[i]));
            }
        }
    }
}

proof fn lemma_sort_mem(k: int, l: Seq<CandView>)
    ensures
        sort_desc(k, l).len() == l.len(),
        forall|i: int| 0 <= i < l.len() ==> l.contains(#[trigger] sort_desc(k, l)[i]),
    decreases l.len(),
{
    if l.len() > 0 {
        let l2 = l.drop_last();
        let x = l.last();
        lemma_sort_mem(k, l2);
        lemma_insert_mem(k, x, sort_desc(k, l2));
        let s = sort_desc(k, l);
        assert forall|i: int| 0 <= i < l.len() implies l.contains(#[trigger] s[i]) by {
            if s[i] == x {
                assert(l[l.len() - 1] == x);
            } else {
                assert(sort_desc(k, l2).contains(s[i]));
                let j = choose|j: int|
                    0 <= j < sort_desc(k, l2).len() && sort_desc(k, l2)[j] == s[i];
                assert(l2.contains(s[i]));
                let j2 = choose|j2: int| 0 <= j2 < l2.len() && l2[j2] == s[i];
                assert(l[j2] == s[i]);
            }
        }
    }
}

/// When one candidate's score strictly beats every other's, the sort puts
/// it first.
proof fn lemma_sort_top(k: int, l: Seq<CandView>, m: int)
    requires
        0 <= m < l.len(),
        forall|q: int| 0 <= q < l.len() && q != m ==> score_lt(k, #[trigger] l[q], l[m]),
    ensures
        sort_desc(k, l).len() == l.len(),
        sort_desc(k, l)[0] == l[m],
    decreases l.len(),
{
    lemma_sort_mem(k, l);
    let l2 = l.drop_last();
    let x = l.last();
    let s2 = sort_desc(k, l2);
    if l.len() == 1 {
        assert(sort_desc(k, l) == insert_desc(k, x, sort_desc(k, l2)));
        assert(sort_desc(k, l2) =~= Seq::<CandView>::empty());
    } else if m == l.len() - 1 {
        lemma_sort_mem(k, l2);
        assert(l2.contains(s2[0]));
        let j = choose|j: int| 0 <= j < l2.len() && l2[j] == s2[0];
        assert(l[j] == s2[0]);
        assert(score_lt(k, s2[0], x));
    } else {
        assert forall|q: int| 0 <= q < l2.len() && q != m implies score_lt(
            k,
            #[trigger] l2[q],
            l2[m],
        ) by {
            assert(l2[q] == l[q] && l2[m] == l[m]);
        }
        lemma_sort_top(k, l2, m);
        assert(score_lt(k, x, l[m]));
        assert(!score_lt(k, l[m], x));
        assert(s2[0] == l[m]);
        assert(insert_desc(k, x, s2)[0] == l[m]);
    }
}

/// Every lexical-only candidate carries only a lexical rank, at least
/// `i + 1`.
proof fn lemma_lex_only_shape(lex: Seq<ChunkView>, sem: Seq<ChunkView>, i: int)
    requires
        0 <= i <= lex.len(),
    ensures
        forall|q: int|
            0 <= q < lex_only(lex, sem, i).len() ==> {
                let c = #[trigger] lex_only(lex, sem, i)[q];
                c.sem is None && (c.lex matches Some(r) && i + 1 <= r <= lex.len())
            },
    decreases lex.len() - i,
{
    if i < lex.len() {
        lemma_lex_only_shape(lex, sem, i + 1);
        let rest = lex_only(lex, sem, i + 1);
        let cur = lex_only(lex, sem, i);
        if !has_key(sem, lex[i]) {
            assert forall|q: int| 0 <= q < cur.len() implies {
                let c = #[trigger] cur[q];
                c.sem is None && (c.lex matches Some(r) && i + 1 <= r <= lex.len())
            } by {
                if q > 0 {
                    assert(cur[q] == rest[q - 1]);
                }
            }
        }
    }
}

/// A candidate present in one list only scores strictly below one ranked
/// first in both.
proof fn lemma_single_rank_lt(k: int, r: int)
    requires
        k >= 0,
        r >= 1,
    ensures
        1 * ((k + 1) * (k + 1)) < ((k + 1) + (k + 1)) * (k + r),
{
    assert(1 * ((k + 1) * (k + 1)) < ((k + 1) + (k + 1)) * (k + r)) by (nonlinear_arith)
        requires
            k >= 0,
            r >= 1,
    {}
}

/// A candidate ranked second or worse in one list scores strictly below
/// one ranked first in both.
proof fn lemma_two_rank_lt(k: int, r1: int, r2: int)
    requires
        k >= 0,
        r1 >= 2,
        r2 >= 1,
    ensures
        ((k + r1) + (k + r2)) * ((k + 1) * (k + 1)) < ((k + 1) + (k + 1)) * ((k + r1) * (k + r2)),
{
    let a = k + r1;
    let b = k + r2;
    let c = k + 1;
    assert((a + b) * (c * c) < (c + c) * (a * b)) by (nonlinear_arith)
        requires
            c >= 1,
            a >= c + 1,
            b >= c,
    {}
}

/// Reciprocal-rank-fusion monotonicity: a chunk ranked first in both the
/// semantic and the lexical list receives the fused score `2 / (k + 1)`
/// and comes first in the fused output.
pub proof fn lemma_rrf_top_hit(sem: Seq<ChunkView>, lex: Seq<ChunkView>, k: int, top_k: int)
    requires
        sem.len() >= 1,
        lex.len() >= 1,
        top_k >= 1,
        k >= 0,
        same_key(sem[0], lex[0]),
    ensures
        ({
            let r = spec_rrf(sem, lex, k, top_k);
            let c0 = candidates(sem, lex)[0];
            &&& r.len() >= 1
            &&& r[0] == sem[0]
            &&& c0.sem == Some(1int)
            &&& c0.lex == Some(1int)
            &&& score_num(k, c0) * (k + 1) == 2 * score_den(k, c0)
        }),
{
    let call = candidates(sem, lex);
    let firsts = Seq::new(
        sem.len(),
        |i: int| CandView { chunk: sem[i], sem: Some(i + 1), lex: rank_of(lex, sem[i]) },
    );
    assert(same_key(lex[0], sem[0]));
    assert(find_key(lex, sem[0], 0) == 0);
    let c0 = call[0];
    assert(c0 == firsts[0]);
    assert(c0.sem == Some(1int) && c0.lex == Some(1int));
    assert(score_num(k, c0) == (k + 1) + (k + 1));
    assert(score_den(k, c0) == (k + 1) * (k + 1));
    assert(score_num(k, c0) * (k + 1) == 2 * score_den(k, c0)) by (nonlinear_arith)
        requires
            score_num(k, c0) == (k + 1) + (k + 1),
            score_den(k, c0) == (k + 1) * (k + 1),
    {}
    lemma_lex_only_shape(lex, sem, 0);
    assert forall|q: int| 0 <= q < call.len() && q != 0 implies score_lt(k, #[trigger] call[q], c0) by {
        if q < sem.len() {
            assert(call[q] == firsts[q]);
            let rl = rank_of(lex, sem[q]);
            lemma_find_key_bounds(lex, sem[q], 0);
            match rl {
                Some(r2) => {
                    lemma_two_rank_lt(k, q + 1, r2);
                },
                None => {
                    lemma_single_rank_lt(k, q + 1);
                },
            }
        } else {
            assert(call[q] == lex_only(lex, sem, 0)[q - sem.len()]);
            let c = call[q];
            assert(c.sem is None && (c.lex matches Some(r) && 1 <= r <= lex.len()));
            lemma_single_rank_lt(k, c.lex.unwrap());
        }
    }
    lemma_sort_top(k, call, 0);
    let sorted = sort_desc(k, call);
    assert(sorted[0] == c0);
    assert(spec_rrf(sem, lex, k, top_k)[0] == sorted.map_values(|c: CandView| c.chunk)[0]);
}

} // verus!
