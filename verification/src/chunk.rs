//! The chunker: windows a finished `Document`'s cell sequence into
//! overlapping, order-preserving chunks sized by token or cell count.
//! Chunking is read-only over the document and never splits a cell;
//! every cell is covered by at least one chunk, chunks appear in
//! document order, and the final chunk may be shorter than the target.

use vstd::prelude::*;

use crate::document::{doc_wf, DocView, Document};
use crate::tokens::{est_tokens, TokenizerKind};
use crate::trim::costs_of_cells;

verus! {

/// The two windowing modes.
#[derive(Debug, Clone, Copy, PartialEq, Eq, Structural)]
pub enum ChunkMode {
    /// Fixed-size window of consecutive cells with a fixed cell overlap.
    Cells,
    /// Accumulate cells until the next one would exceed the token target,
    /// then step back over enough trailing cells to cover the overlap.
    Tokens,
}

/// Chunking configuration.
#[derive(Debug, Clone, Copy, PartialEq, Eq, Structural)]
pub struct ChunkConfig {
    pub mode: ChunkMode,
    pub cells_per_chunk: usize,
    pub overlap_cells: usize,
    pub max_tokens: u64,
    pub overlap_tokens: u64,
    pub tokenizer: TokenizerKind,
}

/// A configuration the chunker accepts.
pub open spec fn chunk_config_valid(c: ChunkConfig) -> bool {
    match c.mode {
        ChunkMode::Cells => 1 <= c.cells_per_chunk && c.overlap_cells < c.cells_per_chunk,
        ChunkMode::Tokens => c.max_tokens >= 1,
    }
}

/// One chunk: the half-open cell index range `start..end` of the source
/// document, its sequential id, and its estimated token count.
#[derive(Debug, Clone, Copy, PartialEq, Eq, Structural)]
pub struct ChunkRecord {
    pub id: usize,
    pub start: usize,
    pub end: usize,
    pub token_count: u64,
}

/// Sum of the costs in the index range `s..e`.
pub open spec fn cost_sum(costs: Seq<u64>, s: int, e: int) -> int
    decreases e - s,
{
    if s >= e || s < 0 || e > costs.len() {
        0
    } else {
        cost_sum(costs, s, e - 1) + costs[e - 1]
    }
}

/// Range sums are non-negative and split additively.
pub proof fn lemma_cost_sum_split(costs: Seq<u64>, a: int, b: int, c: int)
    requires
        0 <= a <= b <= c <= costs.len(),
    ensures
        cost_sum(costs, a, c) == cost_sum(costs, a, b) + cost_sum(costs, b, c),
        cost_sum(costs, a, b) >= 0,
        cost_sum(costs, b, c) >= 0,
    decreases c - b,
{
    lemma_cost_sum_nonneg(costs, a, b);
    lemma_cost_sum_nonneg(costs, b, c);
    if b == c {
    } else {
        lemma_cost_sum_split(costs, a, b, c - 1);
    }
}

pub proof fn lemma_cost_sum_nonneg(costs: Seq<u64>, s: int, e: int)
    ensures
        cost_sum(costs, s, e) >= 0,
    decreases e - s,
{
    if !(s >= e || s < 0 || e > costs.len()) {
        lemma_cost_sum_nonneg(costs, s, e - 1);
    }
}

/// The per-cell token costs of a document under a strategy.
pub open spec fn doc_costs(d: DocView, kind: TokenizerKind) -> Seq<u64> {
    Seq::new(
        d.cells.len(),
        |i: int|
            est_tokens(
                crate::document::dict_payload(d.dict, d.cells[i].code_id),
                kind,
            ) as u64,
    )
}

/// The general guarantees every chunking run gives: chunks are nonempty
/// in-range windows with sequential ids and exact token counts; the
/// first chunk starts at the first cell, the last — and only the last —
/// ends at the last cell, and consecutive chunks advance without
/// leaving a gap.
pub open spec fn chunks_wf(r: Seq<ChunkRecord>, costs: Seq<u64>, n: int) -> bool {
    &&& forall|k: int|
        0 <= k < r.len() ==> {
            &&& (#[trigger] r[k]).id == k
            &&& 0 <= r[k].start < r[k].end <= n
            &&& r[k].token_count as int == cost_sum(costs, r[k].start as int, r[k].end as int)
            &&& (r[k].end == n ==> k == r.len() - 1)
        }
    &&& (n > 0 ==> r.len() > 0 && r[0].start == 0 && r[r.len() - 1].end == n)
    &&& (n == 0 ==> r.len() == 0)
    &&& forall|k: int|
        0 <= k < r.len() - 1 ==> (#[trigger] r[k + 1]).start <= r[k].end && r[k + 1].start
            > r[k].start
}

/// Chunk coverage: every cell of the document lies inside at least one
/// chunk window.
pub proof fn lemma_chunk_coverage(r: Seq<ChunkRecord>, costs: Seq<u64>, n: int, i: int)
    requires
        chunks_wf(r, costs, n),
        0 <= i < n,
    ensures
        exists|k: int| 0 <= k < r.len() && (#[trigger] r[k]).start <= i < r[k].end,
{
    lemma_chunk_covers_index(r, costs, n, i, r.len() - 1);
}

/// Chunk order: chunk windows appear in strictly increasing document
/// order of their start cells.
pub proof fn lemma_chunk_order(r: Seq<ChunkRecord>, costs: Seq<u64>, n: int, k: int, l: int)
    requires
        chunks_wf(r, costs, n),
        0 <= k < l < r.len(),
    ensures
        r[k].start < r[l].start,
    decreases l - k,
{
    if l > k + 1 {
        lemma_chunk_order(r, costs, n, k, l - 1);
        let j = l - 1;
        assert(r[j + 1].start > r[j].start);
    } else {
        assert(r[k + 1].start > r[k].start);
    }
}

/// The chunks `0..=m` cover the cells `0..r[m].end`.
proof fn lemma_chunk_covers_index(r: Seq<ChunkRecord>, costs: Seq<u64>, n: int, i: int, m: int)
    requires
        chunks_wf(r, costs, n),
        0 <= m < r.len(),
        0 <= i < r[m].end,
    ensures
        exists|k: int| 0 <= k < r.len() && (#[trigger] r[k]).start <= i < r[k].end,
    decreases m,
{
    if r[m].start <= i {
        assert(0 <= m < r.len() && r[m].start <= i < r[m].end);
    } else {
        assert(m > 0) by {
            if m == 0 {
                assert(r[0].start == 0);
            }
        }
        let j = m - 1;
        assert(r[j + 1].start <= r[j].end);
        lemma_chunk_covers_index(r, costs, n, i, m - 1);
    }
}

/// Sums one cost range.
fn range_cost(costs: &Vec<u64>, s: usize, e: usize) -> (r: u64)
    requires
        s <= e <= costs@.len(),
        cost_sum(costs@, 0, costs@.len() as int) <= u64::MAX,
    ensures
        r as int == cost_sum(costs@, s as int, e as int),
{
    proof {
        lemma_cost_sum_split(costs@, 0, s as int, costs@.len() as int);
        lemma_cost_sum_split(costs@, s as int, e as int, costs@.len() as int);
    }
    let mut acc: u64 = 0;
    let mut j: usize = s;
    while j < e
        invariant
            s <= j <= e <= costs@.len(),
            acc as int == cost_sum(costs@, s as int, j as int),
            cost_sum(costs@, 0, costs@.len() as int) <= u64::MAX,
        decreases e - j,
    {
        proof {
            lemma_cost_sum_split(costs@, 0, s as int, costs@.len() as int);
            lemma_cost_sum_split(costs@, s as int, j + 1, costs@.len() as int);
            lemma_cost_sum_split(costs@, s as int, j as int, j + 1);
        }
        acc = acc + costs[j];
        j = j + 1;
    }
    acc
}

/// Windows a document's cells by the configured mode.
///
/// In cells mode every chunk but possibly the last spans exactly
/// `cells_per_chunk` cells and consecutive chunks share
/// `overlap_cells`. In tokens mode a chunk takes cells while the next
/// one still fits `max_tokens` (a single oversized cell stands alone),
/// and the next chunk steps back over the fewest trailing cells whose
/// cost reaches `overlap_tokens` — at least one cell forward, never past
/// the previous boundary.
pub fn chunk_cells(doc: &Document, cfg: &ChunkConfig) -> (r: Vec<ChunkRecord>)
    requires
        doc_wf(doc@),
        chunk_config_valid(*cfg),
        cost_sum(doc_costs(doc@, cfg.tokenizer), 0, doc@.cells.len() as int) <= u64::MAX,
    ensures
        chunks_wf(r@, doc_costs(doc@, cfg.tokenizer), doc@.cells.len() as int),
        cfg.mode == ChunkMode::Cells ==> forall|k: int|
            0 <= k < r@.len() ==> {
                &&& (#[trigger] r@[k]).end as int == if r@[k].start + cfg.cells_per_chunk
                    <= doc@.cells.len() {
                    r@[k].start + cfg.cells_per_chunk
                } else {
                    doc@.cells.len() as int
                }
                &&& (k < r@.len() - 1 ==> r@[k + 1].start == r@[k].start + (cfg.cells_per_chunk
                    - cfg.overlap_cells))
            },
        cfg.mode == ChunkMode::Tokens ==> ({
            let costs = doc_costs(doc@, cfg.tokenizer);
            let n = doc@.cells.len() as int;
            forall|k: int|
                0 <= k < r@.len() ==> {
                    &&& (cost_sum(costs, (#[trigger] r@[k]).start as int, r@[k].end as int)
                        <= cfg.max_tokens || r@[k].end == r@[k].start + 1)
                    &&& (r@[k].end < n ==> cost_sum(costs, r@[k].start as int, r@[k].end + 1)
                        > cfg.max_tokens)
                    &&& (k < r@.len() - 1 ==> {
                        &&& r@[k + 1].start >= r@[k].start + 1
                        &&& r@[k + 1].start <= r@[k].end
                        &&& (cost_sum(costs, r@[k + 1].start as int, r@[k].end as int)
                            >= cfg.overlap_tokens || r@[k + 1].start == r@[k].start + 1)
                        &&& (r@[k + 1].start == r@[k].end || cost_sum(
                            costs,
                            r@[k + 1].start + 1,
                            r@[k].end as int,
                        ) < cfg.overlap_tokens)
                    })
                }
        }),
{
    let costs = costs_of_cells(&doc.cells, &doc.dict, cfg.tokenizer);
    let ghost cv = doc_costs(doc@, cfg.tokenizer);
    proof {
        assert(costs@ =~= cv);
    }
    let n = doc.cells.len();
    let mut out: Vec<ChunkRecord> = Vec::new();
    match cfg.mode {
        ChunkMode::Cells => {
            let size = cfg.cells_per_chunk;
            let step = cfg.cells_per_chunk - cfg.overlap_cells;
            let mut start: usize = 0;
            while start < n
                invariant
                    doc_wf(doc@),
                    cv == doc_costs(doc@, cfg.tokenizer),
                    costs@ == cv,
                    costs@.len() == n,
                    n == doc@.cells.len(),
                    cost_sum(cv, 0, n as int) <= u64::MAX,
                    size == cfg.cells_per_chunk,
                    step == cfg.cells_per_chunk - cfg.overlap_cells,
                    1 <= step <= size,
                    start <= n,
                    out@.len() == 0 ==> start == 0,
                    forall|k: int|
                        0 <= k < out@.len() ==> {
                            &&& (#[trigger] out@[k]).id == k
                            &&& 0 <= out@[k].start < out@[k].end <= n
                            &&& out@[k].token_count as int == cost_sum(
                                cv,
                                out@[k].start as int,
                                out@[k].end as int,
                            )
                            &&& out@[k].end as int == if out@[k].start + size <= n {
                                out@[k].start + size as int
                            } else {
                                n as int
                            }
                        },
                    out@.len() > 0 ==> out@[0].start == 0,
                    forall|k: int| 0 <= k < out@.len() - 1 ==> (#[trigger] out@[k]).end < n,
                    start < n && out@.len() > 0 ==> out@[out@.len() - 1].end < n,
                    forall|k: int|
                        0 <= k < out@.len() - 1 ==> (#[trigger] out@[k + 1]).start <= out@[k].end
                            && out@[k + 1].start == out@[k].start + step,
                    out@.len() > 0 ==> (if start < n {
                        start == out@[out@.len() - 1].start + step && start <= out@[out@.len()
                            - 1].end
                    } else {
                        out@[out@.len() - 1].end == n
                    }),
                decreases n - start,
            {
                let end = if size <= n - start {
                    start + size
                } else {
                    n
                };
                let tc = range_cost(&costs, start, end);
                out.push(ChunkRecord { id: out.len(), start, end, token_count: tc });
                if end >= n {
                    start = n;
                } else {
                    start = start + step;
                }
            }
            out
        },
        ChunkMode::Tokens => {
            let mut start: usize = 0;
            while start < n
                invariant
                    doc_wf(doc@),
                    cv == doc_costs(doc@, cfg.tokenizer),
                    costs@ == cv,
                    costs@.len() == n,
                    n == doc@.cells.len(),
                    cost_sum(cv, 0, n as int) <= u64::MAX,
                    cfg.max_tokens >= 1,
                    start <= n,
                    out@.len() == 0 ==> start == 0,
                    forall|k: int|
                        0 <= k < out@.len() ==> {
                            &&& (#[trigger] out@[k]).id == k
                            &&& 0 <= out@[k].start < out@[k].end <= n
                            &&& out@[k].token_count as int == cost_sum(
                                cv,
                                out@[k].start as int,
                                out@[k].end as int,
                            )
                            &&& (cost_sum(cv, out@[k].start as int, out@[k].end as int)
                                <= cfg.max_tokens || out@[k].end == out@[k].start + 1)
                            &&& (out@[k].end < n ==> cost_sum(
                                cv,
                                out@[k].start as int,
                                out@[k].end + 1,
                            ) > cfg.max_tokens)
                        },
                    out@.len() > 0 ==> out@[0].start == 0,
                    forall|k: int| 0 <= k < out@.len() - 1 ==> (#[trigger] out@[k]).end < n,
                    start < n && out@.len() > 0 ==> out@[out@.len() - 1].end < n,
                    forall|k: int|
                        0 <= k < out@.len() - 1 ==> {
                            &&& (#[trigger] out@[k + 1]).start <= out@[k].end
                            &&& out@[k + 1].start >= out@[k].start + 1
                            &&& (cost_sum(cv, out@[k + 1].start as int, out@[k].end as int)
                                >= cfg.overlap_tokens || out@[k + 1].start == out@[k].start + 1)
                            &&& (out@[k + 1].start == out@[k].end || cost_sum(
                                cv,
                                out@[k + 1].start + 1,
                                out@[k].end as int,
                            ) < cfg.overlap_tokens)
                        },
                    out@.len() > 0 ==> (if start < n {
                        let last = out@[out@.len() - 1];
                        &&& start >= last.start + 1
                        &&& start <= last.end
                        &&& (cost_sum(cv, start as int, last.end as int) >= cfg.overlap_tokens
                            || start == last.start + 1)
                        &&& (start == last.end || cost_sum(cv, start + 1, last.end as int)
                            < cfg.overlap_tokens)
                    } else {
                        out@[out@.len() - 1].end == n
                    }),
                decreases n - start,
            {
                let mut end: usize = start + 1;
                let mut acc: u64 = costs[start];
                proof {
                    lemma_cost_sum_split(cv, start as int, start as int, start + 1);
                    assert(acc as int == cost_sum(cv, start as int, end as int));
                }
                while end < n
                    invariant
                        costs@ == cv,
                        costs@.len() == n,
                        cost_sum(cv, 0, n as int) <= u64::MAX,
                        start < end <= n,
                        acc as int == cost_sum(cv, start as int, end as int),
                        end > start + 1 ==> acc <= cfg.max_tokens,
                    ensures
                        costs@ == cv,
                        start < end <= n,
                        acc as int == cost_sum(cv, start as int, end as int),
                        end > start + 1 ==> acc <= cfg.max_tokens,
                        end == n || cost_sum(cv, start as int, end + 1) > cfg.max_tokens,
                    decreases n - end,
                {
                    proof {
                        lemma_cost_sum_split(cv, 0, start as int, n as int);
                        lemma_cost_sum_split(cv, start as int, end + 1, n as int);
                        lemma_cost_sum_split(cv, start as int, end as int, end + 1);
                        assert(cost_sum(cv, end as int, end as int) == 0);
                        assert(cost_sum(cv, end as int, end + 1) == cv[end as int]);
                    }
                    if (acc as u128) + (costs[end] as u128) > (cfg.max_tokens as u128) {
                        break;
                    }
                    acc = acc + costs[end];
                    end = end + 1;
                }
                out.push(ChunkRecord { id: out.len(), start, end, token_count: acc });
                if end >= n {
                    start = n;
                } else {
                    let mut s: usize = end;
                    let mut back: u64 = 0;
                    proof {
                        lemma_cost_sum_split(cv, end as int, end as int, end as int);
                    }
                    while s > start + 1 && back < cfg.overlap_tokens
                        invariant
                            costs@ == cv,
                            costs@.len() == n,
                            cost_sum(cv, 0, n as int) <= u64::MAX,
                            start + 1 <= s <= end,
                            end <= n,
                            back as int == cost_sum(cv, s as int, end as int),
                            s == end || cost_sum(cv, s + 1, end as int) < cfg.overlap_tokens,
                        decreases s,
                    {
                        proof {
                            lemma_cost_sum_split(cv, 0, s - 1, n as int);
                            lemma_cost_sum_split(cv, s - 1, end as int, n as int);
                            lemma_cost_sum_split(cv, s - 1, s as int, end as int);
                            assert(cost_sum(cv, s - 1, s - 1) == 0);
                            assert(cost_sum(cv, s - 1, s as int) == cv[s - 1]);
                        }
                        s = s - 1;
                        back = back + costs[s];
                    }
                    start = s;
                }
            }
            out
        },
    }
}

/// The chunker: a configuration plus a read-only pass over a document.
#[derive(Debug, Clone, Copy)]
pub struct Chunker {
    pub cfg: ChunkConfig,
}

impl Chunker {
    /// Wraps a chunking configuration.
    pub fn new(cfg: ChunkConfig) -> (r: Chunker)
        ensures
            r.cfg == cfg,
    {
        Chunker { cfg }
    }

    /// Chunks a document; see `chunk_cells`.
    pub fn chunk(&self, doc: &Document) -> (r: Vec<ChunkRecord>)
        requires
            doc_wf(doc@),
            chunk_config_valid(self.cfg),
            cost_sum(doc_costs(doc@, self.cfg.tokenizer), 0, doc@.cells.len() as int)
                <= u64::MAX,
        ensures
            chunks_wf(r@, doc_costs(doc@, self.cfg.tokenizer), doc@.cells.len() as int),
    {
        chunk_cells(doc, &self.cfg)
    }
}

} // verus!
