//! NumGuard: advisory numeric-consistency checks over the finished cell
//! sequence. It extracts numeric tokens (integers, decimals, percent- or
//! currency-annotated) per cell and runs three checks in a fixed order:
//! sum-mismatch inside table clusters, magnitude outliers against the
//! cluster median, and cross-occurrence drift of the same label across
//! pages. NumGuard never mutates cells — it only produces alerts.
//!
//! Magnitudes are held in hundredths (two decimal places, further frac
//! digits ignored); integer parts cap at 10^13 and cluster sums saturate
//! at `u64::MAX`, deterministically.

use vstd::prelude::*;

use crate::config::NumGuardConfig;
use crate::document::{dict_payload, doc_wf, CellRecord, CellType, DocView, Document};
use crate::hashing::{hash_payload, hash_seq};
use crate::tokens::{is_alpha, is_digit, to_lower};

verus! {

/// Alert severity.
#[derive(Debug, Clone, Copy, PartialEq, Eq, Structural)]
pub enum Severity {
    Low,
    Medium,
    High,
}

/// The check that raised an alert.
#[derive(Debug, Clone, Copy, PartialEq, Eq, Structural)]
pub enum NumGuardIssue {
    SumMismatch,
    MagnitudeOutlier,
    CrossOccurrenceDrift,
}

/// One advisory alert: the issue, its severity, the offending cell(s),
/// and the expected and found magnitudes in hundredths.
#[derive(Debug, Clone, Copy, PartialEq, Eq, Structural)]
pub struct NumGuardAlert {
    pub issue: NumGuardIssue,
    pub severity: Severity,
    pub cell: usize,
    pub other_cell: usize,
    pub expected_c: u64,
    pub found_c: u64,
}

impl NumGuardAlert {
    /// A short human-readable description of the alert.
    pub fn describe(&self) -> String {
        match self.issue {
            NumGuardIssue::SumMismatch => "labeled total differs from the sum of its constituents".to_owned(),
            NumGuardIssue::MagnitudeOutlier => "value far from the cluster median".to_owned(),
            NumGuardIssue::CrossOccurrenceDrift => "same label carries different values across pages".to_owned(),
        }
    }
}

/// One numeric token inside one cell: magnitude in hundredths and the
/// byte range of its raw text.
#[derive(Debug, Clone, Copy, PartialEq, Eq, Structural)]
pub struct CellTok {
    pub value_c: u64,
    pub start: usize,
    pub end: usize,
}

/// The token-scanner state.
#[derive(Debug, Clone, Copy, PartialEq, Eq, Structural)]
pub struct ScanSt {
    pub in_num: bool,
    pub in_frac: bool,
    pub fracn: u32,
    pub ip: u64,
    pub fp: u64,
    pub start: usize,
}

/// Integer parts stop accumulating at this cap.
pub const INT_CAP: u64 = 1_000_000_000_000;

/// Every token magnitude is below this bound.
pub const MAX_VALUE_C: u64 = 1_000_000_000_000_000;

/// The scanner's starting state.
pub open spec fn scan_init() -> (ScanSt, Seq<CellTok>) {
    (ScanSt { in_num: false, in_frac: false, fracn: 0, ip: 0, fp: 0, start: 0 }, Seq::empty())
}

/// Closes the pending token at byte offset `end`.
pub open spec fn scan_flush(st: ScanSt, toks: Seq<CellTok>, end: usize) -> (ScanSt, Seq<CellTok>) {
    (
        ScanSt { in_num: false, in_frac: false, fracn: 0, ip: 0, fp: 0, start: 0 },
        toks.push(CellTok { value_c: (st.ip * 100 + st.fp) as u64, start: st.start, end }),
    )
}

/// One scanner step over byte `b` at offset `i`.
pub open spec fn scan_step(p: (ScanSt, Seq<CellTok>), b: u8, i: usize) -> (ScanSt, Seq<CellTok>) {
    let st = p.0;
    let toks = p.1;
    if is_digit(b) {
        let d = (b - 48) as u64;
        if !st.in_num {
            (ScanSt { in_num: true, in_frac: false, fracn: 0, ip: d, fp: 0, start: i }, toks)
        } else if !st.in_frac {
            (
                ScanSt {
                    in_num: true,
                    in_frac: false,
                    fracn: 0,
                    ip: if st.ip < INT_CAP {
                        (st.ip * 10 + d) as u64
                    } else {
                        st.ip
                    },
                    fp: 0,
                    start: st.start,
                },
                toks,
            )
        } else if st.fracn == 0 {
            (
                ScanSt {
                    in_num: true,
                    in_frac: true,
                    fracn: 1,
                    ip: st.ip,
                    fp: (d * 10) as u64,
                    start: st.start,
                },
                toks,
            )
        } else if st.fracn == 1 {
            (
                ScanSt {
                    in_num: true,
                    in_frac: true,
                    fracn: 2,
                    ip: st.ip,
                    fp: (st.fp + d) as u64,
                    start: st.start,
                },
                toks,
            )
        } else {
            (st, toks)
        }
    } else if b == 46 {
        if st.in_num && !st.in_frac {
            (
                ScanSt {
                    in_num: true,
                    in_frac: true,
                    fracn: 0,
                    ip: st.ip,
                    fp: st.fp,
                    start: st.start,
                },
                toks,
            )
        } else if st.in_num {
            scan_flush(st, toks, i)
        } else {
            (st, toks)
        }
    } else if b == 37 {
        if st.in_num {
            scan_flush(st, toks, (i + 1) as usize)
        } else {
            (st, toks)
        }
    } else {
        if st.in_num {
            scan_flush(st, toks, i)
        } else {
            (st, toks)
        }
    }
}

/// The scanner state after the first `i` bytes.
pub open spec fn scan_at(s: Seq<u8>, i: int) -> (ScanSt, Seq<CellTok>)
    decreases i,
{
    if i <= 0 {
        scan_init()
    } else {
        scan_step(scan_at(s, i - 1), s[i - 1], (i - 1) as usize)
    }
}

/// All numeric tokens of a payload, in order of appearance.
pub open spec fn scan_tokens(s: Seq<u8>) -> Seq<CellTok> {
    let p = scan_at(s, s.len() as int);
    if p.0.in_num {
        scan_flush(p.0, p.1, s.len() as usize).1
    } else {
        p.1
    }
}

/// Scanner bounds: the integer part stays below ten times its cap, the
/// fraction below one hundred, and every emitted magnitude below
/// `MAX_VALUE_C`.
pub proof fn lemma_scan_bounds(s: Seq<u8>, i: int)
    ensures
        scan_at(s, i).0.ip < 10 * INT_CAP,
        scan_at(s, i).0.fp <= 99,
        forall|k: int|
            0 <= k < scan_at(s, i).1.len() ==> (#[trigger] scan_at(s, i).1[k]).value_c
                < MAX_VALUE_C,
    decreases i,
{
    if i > 0 {
        lemma_scan_bounds(s, i - 1);
    }
}

/// Every token of a payload has magnitude below `MAX_VALUE_C`.
pub proof fn lemma_scan_tokens_bound(s: Seq<u8>)
    ensures
        forall|k: int|
            0 <= k < scan_tokens(s).len() ==> (#[trigger] scan_tokens(s)[k]).value_c < MAX_VALUE_C,
{
    lemma_scan_bounds(s, s.len() as int);
}

/// Extracts the numeric tokens of one payload.
pub fn extract_tokens(payload: &Vec<u8>) -> (r: Vec<CellTok>)
    ensures
        r@ == scan_tokens(payload@),
        forall|k: int| 0 <= k < r@.len() ==> (#[trigger] r@[k]).value_c < MAX_VALUE_C,
{
    proof {
        lemma_scan_tokens_bound(payload@);
    }
    let mut st = ScanSt { in_num: false, in_frac: false, fracn: 0, ip: 0, fp: 0, start: 0 };
    let mut toks: Vec<CellTok> = Vec::new();
    let mut i: usize = 0;
    while i < payload.len()
        invariant
            0 <= i <= payload.len(),
            (st, toks@) == scan_at(payload@, i as int),
        decreases payload.len() - i,
    {
        proof {
            lemma_scan_bounds(payload@, i as int);
        }
        let b = payload[i];
        if b >= 48 && b <= 57 {
            let d = (b - 48) as u64;
            if !st.in_num {
                st = ScanSt { in_num: true, in_frac: false, fracn: 0, ip: d, fp: 0, start: i };
            } else if !st.in_frac {
                if st.ip < INT_CAP {
                    st = ScanSt {
                        in_num: true,
                        in_frac: false,
                        fracn: 0,
                        ip: st.ip * 10 + d,
                        fp: 0,
                        start: st.start,
                    };
                }
            } else if st.fracn == 0 {
                st = ScanSt {
                    in_num: true,
                    in_frac: true,
                    fracn: 1,
                    ip: st.ip,
                    fp: d * 10,
                    start: st.start,
                };
            } else if st.fracn == 1 {
                st = ScanSt {
                    in_num: true,
                    in_frac: true,
                    fracn: 2,
                    ip: st.ip,
                    fp: st.fp + d,
                    start: st.start,
                };
            }
        } else if b == 46 {
            if st.in_num && !st.in_frac {
                st = ScanSt {
                    in_num: true,
                    in_frac: true,
                    fracn: 0,
                    ip: st.ip,
                    fp: st.fp,
                    start: st.start,
                };
            } else if st.in_num {
                toks.push(CellTok { value_c: st.ip * 100 + st.fp, start: st.start, end: i });
                st = ScanSt { in_num: false, in_frac: false, fracn: 0, ip: 0, fp: 0, start: 0 };
            }
        } else if b == 37 {
            if st.in_num {
                toks.push(CellTok { value_c: st.ip * 100 + st.fp, start: st.start, end: i + 1 });
                st = ScanSt { in_num: false, in_frac: false, fracn: 0, ip: 0, fp: 0, start: 0 };
            }
        } else {
            if st.in_num {
                toks.push(CellTok { value_c: st.ip * 100 + st.fp, start: st.start, end: i });
                st = ScanSt { in_num: false, in_frac: false, fracn: 0, ip: 0, fp: 0, start: 0 };
            }
        }
        i = i + 1;
    }
    proof {
        lemma_scan_bounds(payload@, payload@.len() as int);
    }
    if st.in_num {
        toks.push(
            CellTok { value_c: st.ip * 100 + st.fp, start: st.start, end: payload.len() },
        );
    }
    proof {
        assert(toks@ == scan_tokens(payload@));
    }
    toks
}

/// The normalized label of a payload: its lower-cased letters before the
/// first digit.
pub open spec fn label_prefix(s: Seq<u8>) -> Seq<u8>
    decreases s.len(),
{
    if s.len() == 0 {
        Seq::empty()
    } else if is_digit(s[0]) {
        Seq::empty()
    } else if is_alpha(s[0]) {
        seq![to_lower(s[0])] + label_prefix(s.skip(1))
    } else {
        label_prefix(s.skip(1))
    }
}

/// Computes the normalized label of a payload.
pub fn label_of(payload: &Vec<u8>) -> (r: Vec<u8>)
    ensures
        r@ == label_prefix(payload@),
{
    let mut out: Vec<u8> = Vec::new();
    let mut i: usize = 0;
    proof {
        assert(payload@.skip(0) =~= payload@);
        assert(out@ + label_prefix(payload@) =~= label_prefix(payload@));
    }
    while i < payload.len()
        invariant
            0 <= i <= payload.len(),
            label_prefix(payload@) == out@ + label_prefix(payload@.skip(i as int)),
        ensures
            out@ == label_prefix(payload@),
        decreases payload.len() - i,
    {
        let ghost rest = payload@.skip(i as int);
        proof {
            assert(rest[0] == payload@[i as int]);
            assert(rest.skip(1) =~= payload@.skip(i + 1));
        }
        let b = payload[i];
        if b >= 48 && b <= 57 {
            proof {
                assert(label_prefix(rest) =~= Seq::<u8>::empty());
                assert(out@ + Seq::<u8>::empty() =~= out@);
            }
            break;
        }
        if (b >= 97 && b <= 122) || (b >= 65 && b <= 90) {
            let ghost out_old = out@;
            let lb = if b >= 65 && b <= 90 {
                b + 32
            } else {
                b
            };
            out.push(lb);
            proof {
                assert(label_prefix(rest) == seq![to_lower(rest[0])] + label_prefix(rest.skip(1)));
                assert(out@ =~= out_old + seq![to_lower(rest[0])]);
                assert((out_old + seq![to_lower(rest[0])]) + label_prefix(rest.skip(1)) =~= out_old
                    + (seq![to_lower(rest[0])] + label_prefix(rest.skip(1))));
            }
        } else {
            proof {
                assert(label_prefix(rest) == label_prefix(rest.skip(1)));
            }
        }
        i = i + 1;
        proof {
            if i == payload.len() {
                assert(payload@.skip(i as int) =~= Seq::<u8>::empty());
                assert(out@ + Seq::<u8>::empty() =~= out@);
            }
        }
    }
    out
}

/// One numeric token with its originating cell, page and label.
#[derive(Debug, Clone, Copy, PartialEq, Eq, Structural)]
pub struct NumToken {
    pub cell: usize,
    pub z: u32,
    pub value_c: u64,
    pub label: u64,
    pub has_label: bool,
}

/// The tokens of cell `k`, tagged with cell index, page and label.
pub open spec fn cell_tokens(d: DocView, k: int) -> Seq<NumToken> {
    let text = dict_payload(d.dict, d.cells[k].code_id);
    let lab = label_prefix(text);
    scan_tokens(text).map_values(
        |t: CellTok|
            NumToken {
                cell: k as usize,
                z: d.cells[k].z,
                value_c: t.value_c,
                label: hash_seq(lab),
                has_label: lab.len() > 0,
            },
    )
}

/// All tokens of the first `k` cells, in document order.
pub open spec fn toks_upto(d: DocView, k: int) -> Seq<NumToken>
    decreases k,
{
    if k <= 0 {
        Seq::empty()
    } else {
        toks_upto(d, k - 1) + cell_tokens(d, k - 1)
    }
}

/// All tokens of the document.
pub open spec fn doc_tokens(d: DocView) -> Seq<NumToken> {
    toks_upto(d, d.cells.len() as int)
}

/// Collects all numeric tokens of a document.
pub fn collect_tokens(doc: &Document) -> (r: Vec<NumToken>)
    requires
        doc_wf(doc@),
    ensures
        r@ == doc_tokens(doc@),
{
    let mut out: Vec<NumToken> = Vec::new();
    let mut k: usize = 0;
    while k < doc.cells.len()
        invariant
            doc_wf(doc@),
            0 <= k <= doc@.cells.len(),
            out@ == toks_upto(doc@, k as int),
        decreases doc.cells.len() - k,
    {
        let key = doc.cells[k].code_id;
        let payload = match doc.resolve(key) {
            Some(p) => p,
            None => {
                proof {
                    assert(false);
                }
                return out;
            },
        };
        let ct = extract_tokens(payload);
        let lab = label_of(payload);
        let has = lab.len() > 0;
        let lh = hash_payload(&lab);
        let z = doc.cells[k].z;
        let ghost base = toks_upto(doc@, k as int);
        let mut j: usize = 0;
        while j < ct.len()
            invariant
                0 <= j <= ct@.len(),
                ct@ == scan_tokens(dict_payload(doc@.dict, doc@.cells[k as int].code_id)),
                lab@ == label_prefix(dict_payload(doc@.dict, doc@.cells[k as int].code_id)),
                lh == hash_seq(lab@),
                has == (lab@.len() > 0),
                k < doc@.cells.len(),
                z == doc@.cells[k as int].z,
                out@.len() == base.len() + j,
                base == toks_upto(doc@, k as int),
                forall|q: int| 0 <= q < base.len() ==> out@[q] == base[q],
                forall|q: int|
                    0 <= q < j ==> out@[base.len() + q] == cell_tokens(doc@, k as int)[q],
            decreases ct.len() - j,
        {
            out.push(
                NumToken { cell: k, z, value_c: ct[j].value_c, label: lh, has_label: has },
            );
            j = j + 1;
        }
        proof {
            assert(out@ =~= toks_upto(doc@, k as int) + cell_tokens(doc@, k as int));
        }
        k = k + 1;
    }
    out
}

/// The running state of the table-cluster scan.
#[verifier::ext_equal]
pub ghost struct ClStV {
    pub cl: Seq<(usize, usize)>,
    pub active: bool,
    pub start: usize,
    pub z: u32,
}

/// No cluster open yet.
pub open spec fn cl_init() -> ClStV {
    ClStV { cl: Seq::empty(), active: false, start: 0, z: 0 }
}

/// One cluster-scan step over cell `k`: a maximal run of table cells on
/// one page forms a cluster.
pub open spec fn cl_step(st: ClStV, t: CellType, z: u32, k: usize) -> ClStV {
    if t == CellType::Table {
        if st.active && z == st.z {
            st
        } else if st.active {
            ClStV { cl: st.cl.push((st.start, k)), active: true, start: k, z }
        } else {
            ClStV { cl: st.cl, active: true, start: k, z }
        }
    } else {
        if st.active {
            ClStV { cl: st.cl.push((st.start, k)), active: false, start: 0, z: 0 }
        } else {
            st
        }
    }
}

/// Cluster-scan state after the first `k` cells.
pub open spec fn cl_at(cells: Seq<CellRecord>, k: int) -> ClStV
    decreases k,
{
    if k <= 0 {
        cl_init()
    } else {
        cl_step(cl_at(cells, k - 1), cells[k - 1].cell_type, cells[k - 1].z, (k - 1) as usize)
    }
}

/// The table clusters of a cell sequence, as half-open index ranges.
pub open spec fn clusters_of(cells: Seq<CellRecord>) -> Seq<(usize, usize)> {
    let st = cl_at(cells, cells.len() as int);
    if st.active {
        st.cl.push((st.start, cells.len() as usize))
    } else {
        st.cl
    }
}

/// Cluster ranges are in bounds.
pub proof fn lemma_cl_wf(cells: Seq<CellRecord>, k: int)
    requires
        0 <= k <= cells.len(),
        k <= usize::MAX,
    ensures
        cl_at(cells, k).active ==> cl_at(cells, k).start < k,
        forall|m: int|
            0 <= m < cl_at(cells, k).cl.len() ==> 0 <= (#[trigger] cl_at(cells, k).cl[m]).0
                < cl_at(cells, k).cl[m].1 <= k,
    decreases k,
{
    if k > 0 {
        lemma_cl_wf(cells, k - 1);
        let prev = cl_at(cells, k - 1);
        let st = cl_at(cells, k);
        assert forall|m: int| 0 <= m < st.cl.len() implies 0 <= (#[trigger] st.cl[m]).0
            < st.cl[m].1 <= k by {
            if m < prev.cl.len() {
                assert(st.cl[m] == prev.cl[m]);
            } else {
                assert(st.cl[m] == (prev.start, (k - 1) as usize));
            }
        }
    }
}

/// Clusters of a whole sequence are in bounds.
pub proof fn lemma_clusters_wf(cells: Seq<CellRecord>)
    requires
        cells.len() <= usize::MAX,
    ensures
        forall|m: int|
            0 <= m < clusters_of(cells).len() ==> 0 <= (#[trigger] clusters_of(cells)[m]).0
                < clusters_of(cells)[m].1 <= cells.len(),
{
    lemma_cl_wf(cells, cells.len() as int);
    let st = cl_at(cells, cells.len() as int);
    let cl = clusters_of(cells);
    assert forall|m: int| 0 <= m < cl.len() implies 0 <= (#[trigger] cl[m]).0 < cl[m].1
        <= cells.len() by {
        if m < st.cl.len() {
            assert(cl[m] == st.cl[m]);
        } else {
            assert(cl[m] == (st.start, cells.len() as usize));
        }
    }
}

/// Scans a cell sequence for table clusters.
pub fn table_clusters(cells: &Vec<CellRecord>) -> (r: Vec<(usize, usize)>)
    ensures
        r@ == clusters_of(cells@),
        forall|m: int|
            0 <= m < r@.len() ==> 0 <= (#[trigger] r@[m]).0 < r@[m].1 <= cells@.len(),
{
    let n = cells.len();
    proof {
        assert(cells@.len() == n);
        lemma_clusters_wf(cells@);
    }
    let mut cl: Vec<(usize, usize)> = Vec::new();
    let mut active: bool = false;
    let mut start: usize = 0;
    let mut zz: u32 = 0;
    let mut k: usize = 0;
    while k < cells.len()
        invariant
            0 <= k <= cells@.len(),
            (ClStV { cl: cl@, active, start, z: zz }) == cl_at(cells@, k as int),
        decreases cells.len() - k,
    {
        let t = cells[k].cell_type;
        let z = cells[k].z;
        if t == CellType::Table {
            if active && z == zz {
            } else if active {
                cl.push((start, k));
                start = k;
                zz = z;
            } else {
                active = true;
                start = k;
                zz = z;
            }
        } else {
            if active {
                cl.push((start, k));
                active = false;
                start = 0;
                zz = 0;
            }
        }
        proof {
            assert((ClStV { cl: cl@, active, start, z: zz }) =~= cl_at(cells@, k + 1));
        }
        k = k + 1;
    }
    if active {
        cl.push((start, cells.len()));
    }
    proof {
        assert(cl@ == clusters_of(cells@));
    }
    cl
}

/// A case-insensitive occurrence of the word "total" at offset `i`.
pub open spec fn total_at(s: Seq<u8>, i: int) -> bool {
    &&& 0 <= i
    &&& i + 5 <= s.len()
    &&& to_lower(s[i]) == 116
    &&& to_lower(s[i + 1]) == 111
    &&& to_lower(s[i + 2]) == 116
    &&& to_lower(s[i + 3]) == 97
    &&& to_lower(s[i + 4]) == 108
}

/// Whether the payload mentions a total label.
pub open spec fn contains_total(s: Seq<u8>) -> bool {
    exists|i: int| total_at(s, i)
}

/// Tests a payload for a total label.
pub fn has_total_label(payload: &Vec<u8>) -> (r: bool)
    ensures
        r == contains_total(payload@),
{
    let n = payload.len();
    if n < 5 {
        proof {
            assert(forall|i: int| !total_at(payload@, i));
        }
        return false;
    }
    let mut i: usize = 0;
    while i <= n - 5
        invariant
            n >= 5,
            0 <= i <= n - 4,
            n == payload@.len(),
            forall|j: int| 0 <= j < i ==> !total_at(payload@, j),
        decreases n - i,
    {
        let m = crate::classify::lower_byte(payload[i]) == 116 && crate::classify::lower_byte(
            payload[i + 1],
        ) == 111 && crate::classify::lower_byte(payload[i + 2]) == 116
            && crate::classify::lower_byte(payload[i + 3]) == 97 && crate::classify::lower_byte(
            payload[i + 4],
        ) == 108;
        if m {
            proof {
                assert(total_at(payload@, i as int));
            }
            return true;
        }
        i = i + 1;
    }
    proof {
        assert forall|j: int| !total_at(payload@, j) by {
            if 0 <= j < i {
            } else {
                assert(j < 0 || j + 5 > payload@.len());
            }
        }
    }
    false
}

/// The magnitudes of cell `k`'s tokens.
pub open spec fn cell_vals(d: DocView, k: int) -> Seq<u64> {
    scan_tokens(dict_payload(d.dict, d.cells[k].code_id)).map_values(|t: CellTok| t.value_c)
}

/// Saturating sum of a magnitude sequence.
pub open spec fn sum_sat(vs: Seq<u64>) -> u64
    decreases vs.len(),
{
    if vs.len() == 0 {
        0u64
    } else {
        let rest = sum_sat(vs.drop_last());
        if rest as int + vs.last() as int > u64::MAX as int {
            u64::MAX
        } else {
            (rest + vs.last()) as u64
        }
    }
}

/// Saturating sum of the token magnitudes of the cells `a..b`, leaving
/// cell `excl` out.
pub open spec fn cluster_sum_excl(d: DocView, a: int, b: int, excl: int) -> u64
    decreases b - a,
{
    if a >= b {
        0u64
    } else {
        let rest = cluster_sum_excl(d, a, b - 1, excl);
        let add: u64 = if b - 1 == excl {
            0u64
        } else {
            sum_sat(cell_vals(d, b - 1))
        };
        if rest as int + add as int > u64::MAX as int {
            u64::MAX
        } else {
            (rest + add) as u64
        }
    }
}

/// Number of total-labeled cells among `a..b`.
pub open spec fn count_totals(d: DocView, a: int, b: int) -> int
    decreases b - a,
{
    if a >= b {
        0
    } else {
        count_totals(d, a, b - 1) + if contains_total(dict_payload(d.dict, d.cells[b - 1].code_id)) {
            1int
        } else {
            0int
        }
    }
}

/// First total-labeled cell in `a..b`, or `b` if none.
pub open spec fn first_total(d: DocView, a: int, b: int) -> int
    decreases b - a,
{
    if a >= b {
        b
    } else if contains_total(dict_payload(d.dict, d.cells[a].code_id)) {
        a
    } else {
        first_total(d, a + 1, b)
    }
}

/// The sum-mismatch alert of one cluster, if any: with exactly one
/// total-labeled cell holding a numeric token, the total's first token
/// must equal the saturating sum of the other cells' tokens within the
/// configured relative tolerance. The alert names the expected total —
/// the sum the constituents give — against the total the document
/// states.
pub open spec fn sum_alert_for(d: DocView, cfg: NumGuardConfig, a: int, b: int) -> Seq<
    NumGuardAlert,
> {
    if count_totals(d, a, b) == 1 {
        let t = first_total(d, a, b);
        let ts = cell_vals(d, t);
        if ts.len() > 0 {
            let e = ts[0];
            let f = cluster_sum_excl(d, a, b, t);
            let diff: u64 = if e >= f {
                (e - f) as u64
            } else {
                (f - e) as u64
            };
            if diff as int * 1000 > cfg.sum_tol_permille as int * e as int {
                seq![
                    NumGuardAlert {
                        issue: NumGuardIssue::SumMismatch,
                        severity: Severity::Medium,
                        cell: t as usize,
                        other_cell: t as usize,
                        expected_c: f,
                        found_c: e,
                    },
                ]
            } else {
                Seq::empty()
            }
        } else {
            Seq::empty()
        }
    } else {
        Seq::empty()
    }
}

/// Sum-mismatch alerts of the first `m` clusters.
pub open spec fn sum_alerts_upto(
    d: DocView,
    cfg: NumGuardConfig,
    cls: Seq<(usize, usize)>,
    m: int,
) -> Seq<NumGuardAlert>
    decreases m,
{
    if m <= 0 {
        Seq::empty()
    } else {
        sum_alerts_upto(d, cfg, cls, m - 1) + sum_alert_for(
            d,
            cfg,
            cls[m - 1].0 as int,
            cls[m - 1].1 as int,
        )
    }
}

/// A cluster holds a total cell exactly when its first total index is
/// inside it, and that index points at a total-labeled cell.
pub proof fn lemma_first_total(d: DocView, a: int, b: int)
    requires
        a <= b,
    ensures
        (count_totals(d, a, b) > 0) == (first_total(d, a, b) < b),
        a <= first_total(d, a, b) <= b,
        first_total(d, a, b) < b ==> contains_total(
            dict_payload(d.dict, d.cells[first_total(d, a, b)].code_id),
        ),
    decreases b - a,
{
    if a < b {
        lemma_first_total(d, a + 1, b);
        lemma_count_totals_split(d, a, a + 1, b);
        assert(count_totals(d, a, a) == 0);
        if contains_total(dict_payload(d.dict, d.cells[a].code_id)) {
            assert(first_total(d, a, b) == a);
            assert(count_totals(d, a, a + 1) == 1);
        } else {
            assert(first_total(d, a, b) == first_total(d, a + 1, b));
            assert(count_totals(d, a, a + 1) == 0);
        }
    }
}

/// Total counts split additively over a range.
pub proof fn lemma_count_totals_split(d: DocView, a: int, b: int, c: int)
    requires
        a <= b <= c,
    ensures
        count_totals(d, a, c) == count_totals(d, a, b) + count_totals(d, b, c),
        count_totals(d, b, c) >= 0,
    decreases c - b,
{
    if b < c {
        lemma_count_totals_split(d, a, b, c - 1);
    }
}

/// Saturating add.
pub fn sat_add(a: u64, b: u64) -> (r: u64)
    ensures
        r as int == if a as int + b as int > u64::MAX as int {
            u64::MAX as int
        } else {
            a as int + b as int
        },
{
    if a > u64::MAX - b {
        u64::MAX
    } else {
        a + b
    }
}

/// Saturating sum of the magnitudes of one extracted token list.
fn toks_value_sum(ct: &Vec<CellTok>) -> (r: u64)
    ensures
        r == sum_sat(ct@.map_values(|t: CellTok| t.value_c)),
{
    let ghost vs = ct@.map_values(|t: CellTok| t.value_c);
    let mut s: u64 = 0;
    let mut j: usize = 0;
    while j < ct.len()
        invariant
            0 <= j <= ct@.len(),
            vs == ct@.map_values(|t: CellTok| t.value_c),
            vs.len() == ct@.len(),
            s == sum_sat(vs.take(j as int)),
        decreases ct.len() - j,
    {
        proof {
            assert(vs.take(j + 1).drop_last() =~= vs.take(j as int));
            assert(vs.take(j + 1).last() == vs[j as int]);
            assert(vs[j as int] == ct@[j as int].value_c);
        }
        s = sat_add(s, ct[j].value_c);
        j = j + 1;
    }
    proof {
        assert(vs.take(vs.len() as int) =~= vs);
    }
    s
}

/// Runs the sum-mismatch check over every table cluster.
pub fn sum_check(doc: &Document, cfg: &NumGuardConfig, cls: &Vec<(usize, usize)>) -> (r: Vec<
    NumGuardAlert,
>)
    requires
        doc_wf(doc@),
        forall|m: int|
            0 <= m < cls@.len() ==> 0 <= (#[trigger] cls@[m]).0 < cls@[m].1 <= doc@.cells.len(),
    ensures
        r@ == sum_alerts_upto(doc@, *cfg, cls@, cls@.len() as int),
{
    let mut out: Vec<NumGuardAlert> = Vec::new();
    let mut m: usize = 0;
    while m < cls.len()
        invariant
            doc_wf(doc@),
            0 <= m <= cls@.len(),
            forall|q: int|
                0 <= q < cls@.len() ==> 0 <= (#[trigger] cls@[q]).0 < cls@[q].1
                    <= doc@.cells.len(),
            out@ == sum_alerts_upto(doc@, *cfg, cls@, m as int),
        decreases cls.len() - m,
    {
        let a = cls[m].0;
        let b = cls[m].1;
        let ghost ai = a as int;
        let ghost bi = b as int;
        // count the total-labeled cells and find the first one
        let mut cnt: usize = 0;
        let mut ft: usize = b;
        let mut found: bool = false;
        let mut k: usize = a;
        while k < b
            invariant
                doc_wf(doc@),
                ai == a as int,
                bi == b as int,
                a <= k <= b <= doc@.cells.len(),
                cnt == count_totals(doc@, ai, k as int),
                cnt <= k - a,
                first_total(doc@, ai, bi) == if found {
                    ft as int
                } else {
                    first_total(doc@, k as int, bi)
                },
                found ==> a <= ft < b,
            decreases b - k,
        {
            let payload = match doc.resolve(doc.cells[k].code_id) {
                Some(p) => p,
                None => {
                    proof {
                        assert(false);
                    }
                    return out;
                },
            };
            let tot = has_total_label(payload);
            if tot && !found {
                found = true;
                ft = k;
            }
            if tot {
                cnt = cnt + 1;
            }
            k = k + 1;
        }
        proof {
            lemma_first_total(doc@, ai, bi);
        }
        if cnt == 1 {
            let t = ft;
            proof {
                assert(found);
                assert(t as int == first_total(doc@, ai, bi));
            }
            let tp = match doc.resolve(doc.cells[t].code_id) {
                Some(p) => p,
                None => {
                    proof {
                        assert(false);
                    }
                    return out;
                },
            };
            let ts = extract_tokens(tp);
            proof {
                assert(cell_vals(doc@, t as int) =~= ts@.map_values(|c: CellTok| c.value_c));
            }
            if ts.len() > 0 {
                let e = ts[0].value_c;
                proof {
                    assert(cell_vals(doc@, t as int)[0] == e);
                }
                let mut f: u64 = 0;
                let mut k2: usize = a;
                while k2 < b
                    invariant
                        doc_wf(doc@),
                        ai == a as int,
                        a <= k2 <= b <= doc@.cells.len(),
                        f == cluster_sum_excl(doc@, ai, k2 as int, t as int),
                    decreases b - k2,
                {
                    if k2 != t {
                        let pk = match doc.resolve(doc.cells[k2].code_id) {
                            Some(p) => p,
                            None => {
                                proof {
                                    assert(false);
                                }
                                return out;
                            },
                        };
                        let ck = extract_tokens(pk);
                        proof {
                            assert(cell_vals(doc@, k2 as int) =~= ck@.map_values(
                                |c: CellTok| c.value_c,
                            ));
                        }
                        let s = toks_value_sum(&ck);
                        f = sat_add(f, s);
                    }
                    k2 = k2 + 1;
                }
                let diff = if e >= f {
                    e - f
                } else {
                    f - e
                };
                proof {
                    assert((cfg.sum_tol_permille as u128) * (e as u128)
                        < 0x1_0000_0000_0000_0000_0000_0000u128) by (nonlinear_arith)
                        requires
                            cfg.sum_tol_permille <= u32::MAX,
                            e <= u64::MAX,
                    ;
                }
                if (diff as u128) * 1000 > (cfg.sum_tol_permille as u128) * (e as u128) {
                    out.push(
                        NumGuardAlert {
                            issue: NumGuardIssue::SumMismatch,
                            severity: Severity::Medium,
                            cell: t,
                            other_cell: t,
                            expected_c: f,
                            found_c: e,
                        },
                    );
                }
            }
        }
        proof {
            assert(out@ =~= sum_alerts_upto(doc@, *cfg, cls@, m as int) + sum_alert_for(
                doc@,
                *cfg,
                ai,
                bi,
            ));
        }
        m = m + 1;
    }
    out
}

/// Inserts `x` into an already accumulated sequence, before the first
/// element it does not exceed.
pub open spec fn insert_sorted(s: Seq<u64>, x: u64) -> Seq<u64>
    decreases s.len(),
{
    if s.len() == 0 {
        seq![x]
    } else if x <= s[0] {
        seq![x] + s
    } else {
        seq![s[0]] + insert_sorted(s.skip(1), x)
    }
}

/// Insertion sort of a magnitude sequence.
pub open spec fn sort_spec(s: Seq<u64>) -> Seq<u64>
    decreases s.len(),
{
    if s.len() == 0 {
        Seq::empty()
    } else {
        insert_sorted(sort_spec(s.drop_last()), s.last())
    }
}

/// Inserting at the first position whose element reaches `x` is what
/// `insert_sorted` does.
pub proof fn lemma_insert_sorted_at(s: Seq<u64>, x: u64, p: int)
    requires
        0 <= p <= s.len(),
        forall|j: int| 0 <= j < p ==> s[j] < x,
        p < s.len() ==> x <= s[p],
    ensures
        insert_sorted(s, x) =~= s.subrange(0, p) + seq![x] + s.subrange(p, s.len() as int),
    decreases p,
{
    if s.len() == 0 {
        assert(insert_sorted(s, x) =~= seq![x]);
        assert(s.subrange(0, 0) + seq![x] + s.subrange(0, 0) =~= seq![x]);
    } else if p == 0 {
        assert(insert_sorted(s, x) == seq![x] + s);
        assert(s.subrange(0, 0) + seq![x] + s.subrange(0, s.len() as int) =~= seq![x] + s);
    } else {
        let tail = s.skip(1);
        assert forall|j: int| 0 <= j < p - 1 implies tail[j] < x by {
            assert(tail[j] == s[j + 1]);
        }
        if p - 1 < tail.len() {
            assert(tail[p - 1] == s[p]);
        }
        lemma_insert_sorted_at(tail, x, p - 1);
        assert(insert_sorted(s, x) == seq![s[0]] + insert_sorted(tail, x));
        assert(seq![s[0]] + (tail.subrange(0, p - 1) + seq![x] + tail.subrange(
            p - 1,
            tail.len() as int,
        )) =~= s.subrange(0, p) + seq![x] + s.subrange(p, s.len() as int));
    }
}

/// Inserts one magnitude into a sorted buffer.
fn sorted_insert(v: &mut Vec<u64>, x: u64)
    ensures
        final(v)@ == insert_sorted(old(v)@, x),
{
    let ghost s = v@;
    let mut p: usize = 0;
    while p < v.len() && v[p] < x
        invariant
            0 <= p <= v@.len(),
            s == v@,
            forall|j: int| 0 <= j < p ==> v@[j] < x,
        decreases v@.len() - p,
    {
        p = p + 1;
    }
    proof {
        lemma_insert_sorted_at(s, x, p as int);
    }
    v.insert(p, x);
    proof {
        assert(v@ =~= s.subrange(0, p as int) + seq![x] + s.subrange(p as int, s.len() as int));
    }
}

/// One insertion grows the sequence by one.
pub proof fn lemma_insert_sorted_len(s: Seq<u64>, x: u64)
    ensures
        insert_sorted(s, x).len() == s.len() + 1,
    decreases s.len(),
{
    if s.len() > 0 && !(x <= s[0]) {
        lemma_insert_sorted_len(s.skip(1), x);
    }
}

/// Sorting keeps the length.
pub proof fn lemma_sort_len(s: Seq<u64>)
    ensures
        sort_spec(s).len() == s.len(),
    decreases s.len(),
{
    if s.len() > 0 {
        lemma_sort_len(s.drop_last());
        lemma_insert_sorted_len(sort_spec(s.drop_last()), s.last());
    }
}

/// Sorts a magnitude list.
pub fn sort_values(v: &Vec<u64>) -> (r: Vec<u64>)
    ensures
        r@ == sort_spec(v@),
        r@.len() == v@.len(),
{
    proof {
        lemma_sort_len(v@);
    }
    let mut out: Vec<u64> = Vec::new();
    let mut i: usize = 0;
    while i < v.len()
        invariant
            0 <= i <= v@.len(),
            out@ == sort_spec(v@.take(i as int)),
        decreases v.len() - i,
    {
        proof {
            assert(v@.take(i + 1).drop_last() =~= v@.take(i as int));
            assert(v@.take(i + 1).last() == v@[i as int]);
        }
        sorted_insert(&mut out, v[i]);
        i = i + 1;
    }
    proof {
        assert(v@.take(v@.len() as int) =~= v@);
    }
    out
}

/// A value far from the cluster median by more than the configured
/// factor, in either direction.
pub open spec fn is_outlier(v: u64, med: u64, cfg: NumGuardConfig) -> bool {
    med > 0 && (v as int > cfg.outlier_factor as int * med as int || (v as int)
        * (cfg.outlier_factor as int) < med as int)
}

/// Outlier alerts of one cell's magnitudes against a cluster median.
pub open spec fn out_vals(vs: Seq<u64>, med: u64, cfg: NumGuardConfig, k: int) -> Seq<
    NumGuardAlert,
>
    decreases vs.len(),
{
    if vs.len() == 0 {
        Seq::empty()
    } else {
        out_vals(vs.drop_last(), med, cfg, k) + if is_outlier(vs.last(), med, cfg) {
            seq![
                NumGuardAlert {
                    issue: NumGuardIssue::MagnitudeOutlier,
                    severity: Severity::Low,
                    cell: k as usize,
                    other_cell: k as usize,
                    expected_c: med,
                    found_c: vs.last(),
                },
            ]
        } else {
            Seq::empty()
        }
    }
}

/// All magnitudes of the cells `a..b`, in order.
pub open spec fn cluster_vals(d: DocView, a: int, b: int) -> Seq<u64>
    decreases b - a,
{
    if a >= b {
        Seq::empty()
    } else {
        cluster_vals(d, a, b - 1) + cell_vals(d, b - 1)
    }
}

/// Outlier alerts of the cells `a..b` against a median.
pub open spec fn out_cells(d: DocView, cfg: NumGuardConfig, med: u64, a: int, b: int) -> Seq<
    NumGuardAlert,
>
    decreases b - a,
{
    if a >= b {
        Seq::empty()
    } else {
        out_cells(d, cfg, med, a, b - 1) + out_vals(cell_vals(d, b - 1), med, cfg, b - 1)
    }
}

/// The magnitude-outlier alerts of one cluster: each value is held
/// against the median of the cluster's sorted magnitudes.
pub open spec fn outlier_for(d: DocView, cfg: NumGuardConfig, a: int, b: int) -> Seq<
    NumGuardAlert,
> {
    let vs = cluster_vals(d, a, b);
    if vs.len() == 0 {
        Seq::empty()
    } else {
        out_cells(d, cfg, sort_spec(vs)[vs.len() as int / 2], a, b)
    }
}

/// Outlier alerts of the first `m` clusters.
pub open spec fn outlier_alerts_upto(
    d: DocView,
    cfg: NumGuardConfig,
    cls: Seq<(usize, usize)>,
    m: int,
) -> Seq<NumGuardAlert>
    decreases m,
{
    if m <= 0 {
        Seq::empty()
    } else {
        outlier_alerts_upto(d, cfg, cls, m - 1) + outlier_for(
            d,
            cfg,
            cls[m - 1].0 as int,
            cls[m - 1].1 as int,
        )
    }
}

/// Runs the magnitude-outlier check over every table cluster.
pub fn outlier_check(doc: &Document, cfg: &NumGuardConfig, cls: &Vec<(usize, usize)>) -> (r: Vec<
    NumGuardAlert,
>)
    requires
        doc_wf(doc@),
        forall|m: int|
            0 <= m < cls@.len() ==> 0 <= (#[trigger] cls@[m]).0 < cls@[m].1 <= doc@.cells.len(),
    ensures
        r@ == outlier_alerts_upto(doc@, *cfg, cls@, cls@.len() as int),
{
    let mut out: Vec<NumGuardAlert> = Vec::new();
    let mut m: usize = 0;
    while m < cls.len()
        invariant
            doc_wf(doc@),
            0 <= m <= cls@.len(),
            forall|q: int|
                0 <= q < cls@.len() ==> 0 <= (#[trigger] cls@[q]).0 < cls@[q].1
                    <= doc@.cells.len(),
            out@ == outlier_alerts_upto(doc@, *cfg, cls@, m as int),
        decreases cls.len() - m,
    {
        let a = cls[m].0;
        let b = cls[m].1;
        let ghost ai = a as int;
        let ghost bi = b as int;
        let ghost base = out@;
        let mut vals: Vec<u64> = Vec::new();
        let mut k: usize = a;
        while k < b
            invariant
                doc_wf(doc@),
                ai == a as int,
                a <= k <= b <= doc@.cells.len(),
                vals@ == cluster_vals(doc@, ai, k as int),
            decreases b - k,
        {
            let pk = match doc.resolve(doc.cells[k].code_id) {
                Some(p) => p,
                None => {
                    proof {
                        assert(false);
                    }
                    return out;
                },
            };
            let ck = extract_tokens(pk);
            proof {
                assert(cell_vals(doc@, k as int) =~= ck@.map_values(|c: CellTok| c.value_c));
            }
            let ghost vals_old = vals@;
            let mut j: usize = 0;
            while j < ck.len()
                invariant
                    0 <= j <= ck@.len(),
                    k < doc@.cells.len(),
                    cell_vals(doc@, k as int) =~= ck@.map_values(|c: CellTok| c.value_c),
                    vals@ == vals_old + cell_vals(doc@, k as int).take(j as int),
                decreases ck.len() - j,
            {
                vals.push(ck[j].value_c);
                proof {
                    assert(vals@ =~= vals_old + cell_vals(doc@, k as int).take(j + 1));
                }
                j = j + 1;
            }
            proof {
                assert(cell_vals(doc@, k as int).take(ck@.len() as int) =~= cell_vals(
                    doc@,
                    k as int,
                ));
                assert(vals@ =~= cluster_vals(doc@, ai, k + 1));
            }
            k = k + 1;
        }
        if vals.len() > 0 {
            let sorted = sort_values(&vals);
            let med = sorted[vals.len() / 2];
            proof {
                assert(med == sort_spec(cluster_vals(doc@, ai, bi))[cluster_vals(
                    doc@,
                    ai,
                    bi,
                ).len() as int / 2]);
            }
            let mut k2: usize = a;
            while k2 < b
                invariant
                    doc_wf(doc@),
                    ai == a as int,
                    a <= k2 <= b <= doc@.cells.len(),
                    out@ == base + out_cells(doc@, *cfg, med, ai, k2 as int),
                decreases b - k2,
            {
                let pk = match doc.resolve(doc.cells[k2].code_id) {
                    Some(p) => p,
                    None => {
                        proof {
                            assert(false);
                        }
                        return out;
                    },
                };
                let ck = extract_tokens(pk);
                proof {
                    assert(cell_vals(doc@, k2 as int) =~= ck@.map_values(|c: CellTok| c.value_c));
                }
                let ghost mid = out@;
                let mut j: usize = 0;
                while j < ck.len()
                    invariant
                        0 <= j <= ck@.len(),
                        k2 < doc@.cells.len(),
                        cell_vals(doc@, k2 as int) =~= ck@.map_values(|c: CellTok| c.value_c),
                        out@ == mid + out_vals(
                            cell_vals(doc@, k2 as int).take(j as int),
                            med,
                            *cfg,
                            k2 as int,
                        ),
                    decreases ck.len() - j,
                {
                    let v = ck[j].value_c;
                    proof {
                        assert(cell_vals(doc@, k2 as int).take(j + 1).drop_last() =~= cell_vals(
                            doc@,
                            k2 as int,
                        ).take(j as int));
                        assert(cell_vals(doc@, k2 as int).take(j + 1).last() == v);
                    }
                    proof {
                        assert((cfg.outlier_factor as u128) * (med as u128)
                            < 0x1_0000_0000_0000_0000_0000_0000u128) by (nonlinear_arith)
                            requires
                                cfg.outlier_factor <= u32::MAX,
                                med <= u64::MAX,
                        ;
                        assert((v as u128) * (cfg.outlier_factor as u128)
                            < 0x1_0000_0000_0000_0000_0000_0000u128) by (nonlinear_arith)
                            requires
                                v <= u64::MAX,
                                cfg.outlier_factor <= u32::MAX,
                        ;
                    }
                    if med > 0 && ((v as u128) > (cfg.outlier_factor as u128) * (med as u128) || (
                    v as u128) * (cfg.outlier_factor as u128) < (med as u128)) {
                        out.push(
                            NumGuardAlert {
                                issue: NumGuardIssue::MagnitudeOutlier,
                                severity: Severity::Low,
                                cell: k2,
                                other_cell: k2,
                                expected_c: med,
                                found_c: v,
                            },
                        );
                    }
                    proof {
                        assert(out@ =~= mid + out_vals(
                            cell_vals(doc@, k2 as int).take(j + 1),
                            med,
                            *cfg,
                            k2 as int,
                        ));
                    }
                    j = j + 1;
                }
                proof {
                    assert(cell_vals(doc@, k2 as int).take(ck@.len() as int) =~= cell_vals(
                        doc@,
                        k2 as int,
                    ));
                    assert(out@ =~= base + out_cells(doc@, *cfg, med, ai, k2 + 1));
                }
                k2 = k2 + 1;
            }
        }
        proof {
            assert(out@ =~= outlier_alerts_upto(doc@, *cfg, cls@, m as int) + outlier_for(
                doc@,
                *cfg,
                ai,
                bi,
            ));
        }
        m = m + 1;
    }
    out
}

/// Materially different: the difference exceeds the configured percent
/// of the larger value.
pub open spec fn drift_cond(a: u64, b: u64, cfg: NumGuardConfig) -> bool {
    let hi: u64 = if a >= b {
        a
    } else {
        b
    };
    let lo: u64 = if a >= b {
        b
    } else {
        a
    };
    (hi - lo) * 100 > cfg.drift_percent as int * hi as int
}

/// The drift alert of one ordered token pair, if any: same non-empty
/// label, different pages, materially different magnitudes.
pub open spec fn drift_pair(t1: NumToken, t2: NumToken, cfg: NumGuardConfig) -> Seq<
    NumGuardAlert,
> {
    if t1.has_label && t2.has_label && t1.label == t2.label && t1.z != t2.z && drift_cond(
        t1.value_c,
        t2.value_c,
        cfg,
    ) {
        seq![
            NumGuardAlert {
                issue: NumGuardIssue::CrossOccurrenceDrift,
                severity: Severity::Medium,
                cell: t1.cell,
                other_cell: t2.cell,
                expected_c: t1.value_c,
                found_c: t2.value_c,
            },
        ]
    } else {
        Seq::empty()
    }
}

/// Drift alerts over all ordered token pairs from `(i, j)` on, in
/// lexicographic pair order.
pub open spec fn drift_from(toks: Seq<NumToken>, cfg: NumGuardConfig, i: int, j: int) -> Seq<
    NumGuardAlert,
>
    decreases toks.len() - i, toks.len() + 2 - j,
{
    if i < 0 || j < i || i >= toks.len() {
        Seq::empty()
    } else if j >= toks.len() {
        drift_from(toks, cfg, i + 1, i + 2)
    } else {
        drift_pair(toks[i], toks[j], cfg) + drift_from(toks, cfg, i, j + 1)
    }
}

/// Runs the cross-occurrence drift check over all token pairs.
pub fn drift_check(toks: &Vec<NumToken>, cfg: &NumGuardConfig) -> (r: Vec<NumGuardAlert>)
    ensures
        r@ == drift_from(toks@, *cfg, 0, 1),
{
    let n = toks.len();
    let mut out: Vec<NumGuardAlert> = Vec::new();
    let mut i: usize = 0;
    proof {
        if n == 0 {
            assert(drift_from(toks@, *cfg, 0, 1) =~= Seq::<NumGuardAlert>::empty());
        }
    }
    while i < n
        invariant
            0 <= i <= n,
            n == toks@.len(),
            drift_from(toks@, *cfg, 0, 1) == out@ + drift_from(toks@, *cfg, i as int, i + 1),
        decreases n - i,
    {
        let mut j: usize = i + 1;
        while j < n
            invariant
                0 <= i < n,
                i < j <= n,
                n == toks@.len(),
                drift_from(toks@, *cfg, 0, 1) == out@ + drift_from(toks@, *cfg, i as int, j as int),
            decreases n - j,
        {
            let t1 = toks[i];
            let t2 = toks[j];
            if t1.has_label && t2.has_label && t1.label == t2.label && t1.z != t2.z {
                let hi = if t1.value_c >= t2.value_c {
                    t1.value_c
                } else {
                    t2.value_c
                };
                let lo = if t1.value_c >= t2.value_c {
                    t2.value_c
                } else {
                    t1.value_c
                };
                proof {
                    assert(((hi - lo) as u128) * 100 < 0x1_0000_0000_0000_0000_0000u128);
                    assert((cfg.drift_percent as u128) * (hi as u128)
                        < 0x1_0000_0000_0000_0000_0000_0000u128) by (nonlinear_arith)
                        requires
                            cfg.drift_percent <= u32::MAX,
                            hi <= u64::MAX,
                    ;
                }
                if ((hi - lo) as u128) * 100 > (cfg.drift_percent as u128) * (hi as u128) {
                    out.push(
                        NumGuardAlert {
                            issue: NumGuardIssue::CrossOccurrenceDrift,
                            severity: Severity::Medium,
                            cell: t1.cell,
                            other_cell: t2.cell,
                            expected_c: t1.value_c,
                            found_c: t2.value_c,
                        },
                    );
                }
            }
            proof {
                assert(drift_from(toks@, *cfg, i as int, j as int) == drift_pair(
                    toks@[i as int],
                    toks@[j as int],
                    *cfg,
                ) + drift_from(toks@, *cfg, i as int, j + 1));
                assert(drift_from(toks@, *cfg, 0, 1) =~= out@ + drift_from(
                    toks@,
                    *cfg,
                    i as int,
                    j + 1,
                ));
            }
            j = j + 1;
        }
        proof {
            assert(drift_from(toks@, *cfg, i as int, n as int) == drift_from(
                toks@,
                *cfg,
                i + 1,
                i + 2,
            ));
        }
        i = i + 1;
    }
    proof {
        assert(drift_from(toks@, *cfg, n as int, n as int + 1) =~= Seq::<NumGuardAlert>::empty());
        assert(out@ + Seq::<NumGuardAlert>::empty() =~= out@);
    }
    out
}

/// All alerts of one NumGuard pass: the sum-mismatch alerts of every
/// table cluster, then the magnitude outliers, then the cross-occurrence
/// drift pairs.
pub open spec fn numguard_spec(d: DocView, cfg: NumGuardConfig) -> Seq<NumGuardAlert> {
    let cls = clusters_of(d.cells);
    sum_alerts_upto(d, cfg, cls, cls.len() as int) + outlier_alerts_upto(
        d,
        cfg,
        cls,
        cls.len() as int,
    ) + drift_from(doc_tokens(d), cfg, 0, 1)
}

/// Runs all numeric-consistency checks over a document. The document is
/// only read — NumGuard never mutates a cell; it returns advisory
/// alerts.
pub fn run_numguard(doc: &Document, cfg: &NumGuardConfig) -> (r: Vec<NumGuardAlert>)
    requires
        doc_wf(doc@),
    ensures
        r@ == numguard_spec(doc@, *cfg),
{
    let cls = table_clusters(&doc.cells);
    let mut out = sum_check(doc, cfg, &cls);
    let more = outlier_check(doc, cfg, &cls);
    let ghost o1 = out@;
    let mut q: usize = 0;
    while q < more.len()
        invariant
            0 <= q <= more@.len(),
            out@ == o1 + more@.take(q as int),
        decreases more.len() - q,
    {
        out.push(more[q]);
        proof {
            assert(out@ =~= o1 + more@.take(q + 1));
        }
        q = q + 1;
    }
    proof {
        assert(more@.take(more@.len() as int) =~= more@);
    }
    let toks = collect_tokens(doc);
    let third = drift_check(&toks, cfg);
    let ghost o2 = out@;
    let mut q2: usize = 0;
    while q2 < third.len()
        invariant
            0 <= q2 <= third@.len(),
            out@ == o2 + third@.take(q2 as int),
        decreases third.len() - q2,
    {
        out.push(third[q2]);
        proof {
            assert(out@ =~= o2 + third@.take(q2 + 1));
        }
        q2 = q2 + 1;
    }
    proof {
        assert(third@.take(third@.len() as int) =~= third@);
        assert(out@ =~= numguard_spec(doc@, *cfg));
    }
    out
}

/// The NumGuard checker: thresholds plus a read-only pass.
#[derive(Debug, Clone, Copy)]
pub struct NumGuard {
    pub cfg: NumGuardConfig,
}

impl NumGuard {
    /// Wraps a threshold configuration.
    pub fn new(cfg: NumGuardConfig) -> (r: NumGuard)
        ensures
            r.cfg == cfg,
    {
        NumGuard { cfg }
    }

    /// Runs the checks; see `run_numguard`.
    pub fn run(&self, doc: &Document) -> (r: Vec<NumGuardAlert>)
        requires
            doc_wf(doc@),
        ensures
            r@ == numguard_spec(doc@, self.cfg),
    {
        run_numguard(doc, &self.cfg)
    }
}

} // verus!
