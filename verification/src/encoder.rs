//! The encoder: drives classification, scoring, deduplication, NumGuard
//! and budget trimming over ingested raw units and produces a
//! `Document` plus encoding `Metrics`.
//!
//! Everything the encoder does is a pure function of the unit sequence
//! and the configuration: encoding the same input twice under the same
//! configuration yields the same document, cell for cell and dictionary
//! entry for dictionary entry.

use vstd::prelude::*;

use crate::classify::{RawUnit, RawUnitV};
use crate::config::{
    config_valid, default_config, header_of, preset_config, preset_by_name, preset_of_name,
    EncoderConfig, EncoderPreset, HyphenationMode, ImportanceTuning, NumGuardConfig,
};
use crate::dedup::{dedup_cells, dedup_run, lemma_dedup_wf, DedupStateV};
use crate::document::{doc_wf, DocView, Document, PageInfo};
use crate::error::DcfError;
use crate::numguard::{numguard_spec, run_numguard, NumGuardAlert};
use crate::score::{stage_all, stage_units};
use crate::tokens::TokenizerKind;
use crate::trim::{
    costs_of_cells, costs_spec, lemma_mask_cost, lemma_mask_membership, lemma_mask_sorted,
    lemma_trim_spec_budget, mask_spec, sum_sel, total_cost, trim_cells, trim_spec,
};

verus! {

/// Encoding metrics: page and cell counts, duplicate hits, and the
/// advisory NumGuard alerts with their count.
#[derive(Debug, Clone)]
pub struct Metrics {
    pub pages: usize,
    pub cells_total: usize,
    pub cells_kept: usize,
    pub dedup_hits: usize,
    pub numguard_count: usize,
    pub alerts: Vec<NumGuardAlert>,
}

/// Mathematical model of the metrics.
#[verifier::ext_equal]
pub ghost struct MetricsV {
    pub pages: int,
    pub cells_total: int,
    pub cells_kept: int,
    pub dedup_hits: int,
    pub numguard_count: int,
    pub alerts: Seq<NumGuardAlert>,
}

impl View for Metrics {
    type V = MetricsV;

    open spec fn view(&self) -> MetricsV {
        MetricsV {
            pages: self.pages as int,
            cells_total: self.cells_total as int,
            cells_kept: self.cells_kept as int,
            dedup_hits: self.dedup_hits as int,
            numguard_count: self.numguard_count as int,
            alerts: self.alerts@,
        }
    }
}

impl Metrics {
    /// The dedup ratio `cells_total / cells_kept`, in permille.
    pub fn dedup_ratio_permille(&self) -> (r: u64)
        requires
            self.cells_kept >= 1,
            self.cells_total as int <= 0x0010_0000_0000_0000,
        ensures
            r as int == self.cells_total as int * 1000 / self.cells_kept as int,
    {
        ((self.cells_total as u64) * 1000) / (self.cells_kept as u64)
    }
}

/// A well-formed unit sequence: 1-based page numbers in non-decreasing
/// document order, as a validated ingestion adapter delivers them.
pub open spec fn units_valid(us: Seq<RawUnitV>) -> bool {
    &&& forall|i: int| 0 <= i < us.len() ==> (#[trigger] us[i]).z >= 1
    &&& forall|i: int, j: int| 0 <= i < j < us.len() ==> us[i].z <= us[j].z
}

/// The page list of a unit sequence: one entry per distinct page
/// number, carrying the configured pixel frame.
pub open spec fn pages_upto(us: Seq<RawUnitV>, c: EncoderConfig, k: int) -> Seq<PageInfo>
    decreases k,
{
    if k <= 0 {
        Seq::empty()
    } else {
        let p = pages_upto(us, c, k - 1);
        if p.len() > 0 && p.last().z == us[k - 1].z {
            p
        } else {
            p.push(PageInfo { z: us[k - 1].z, width: c.page_width, height: c.page_height })
        }
    }
}

/// All pages of a unit sequence.
pub open spec fn spec_pages(us: Seq<RawUnitV>, c: EncoderConfig) -> Seq<PageInfo> {
    pages_upto(us, c, us.len() as int)
}

/// Page lists from valid unit sequences are 1-based and strictly
/// increasing, and stay within the unit count.
pub proof fn lemma_pages_wf(us: Seq<RawUnitV>, c: EncoderConfig, k: int)
    requires
        units_valid(us),
        0 <= k <= us.len(),
    ensures
        ({
            let p = pages_upto(us, c, k);
            &&& forall|i: int| 0 <= i < p.len() ==> (#[trigger] p[i]).z >= 1
            &&& forall|i: int, j: int| 0 <= i < j < p.len() ==> p[i].z < p[j].z
            &&& p.len() <= k
            &&& (p.len() > 0 ==> k > 0 && p.last().z == us[k - 1].z)
        }),
    decreases k,
{
    if k > 0 {
        lemma_pages_wf(us, c, k - 1);
        let prev = pages_upto(us, c, k - 1);
        let p = pages_upto(us, c, k);
        if !(prev.len() > 0 && prev.last().z == us[k - 1].z) {
            assert forall|i: int, j: int| 0 <= i < j < p.len() implies p[i].z < p[j].z by {
                if j < prev.len() {
                } else {
                    assert(p[j] == p.last());
                    assert(p[i] == prev[i]);
                    if prev.len() > 0 {
                        assert(prev[i].z <= prev.last().z);
                        assert(prev.last().z == us[k - 2].z || prev.last().z != us[k - 1].z);
                        assert(us[k - 2].z <= us[k - 1].z || k < 2);
                    }
                }
            }
        }
    }
}

/// The deduplication state of one encode run.
pub open spec fn spec_dedup(us: Seq<RawUnitV>, c: EncoderConfig) -> DedupStateV {
    dedup_run(stage_all(us, c), c.dedup_window, c.drop_footers)
}

/// The cells the run keeps: the deduplicated cells, trimmed to the
/// budget when one is configured.
pub open spec fn spec_kept_cells(us: Seq<RawUnitV>, c: EncoderConfig) -> Seq<
    crate::document::CellRecord,
> {
    let st = spec_dedup(us, c);
    match c.budget {
        Option::None => st.cells,
        Option::Some(b) => mask_spec(
            st.cells,
            trim_spec(st.cells, costs_spec(st.cells, st.dict, c.tokenizer), b).sel,
        ),
    }
}

/// The document one encode run produces: a pure function of the unit
/// sequence and the configuration alone.
pub open spec fn spec_document(us: Seq<RawUnitV>, c: EncoderConfig) -> DocView {
    DocView { pages: spec_pages(us, c), cells: spec_kept_cells(us, c), dict: spec_dedup(us, c).dict }
}

/// The document as NumGuard sees it: fully deduplicated and scored,
/// before any budget trimming — the checks run over every cell, and a
/// later trim loses no alert.
pub open spec fn spec_predoc(us: Seq<RawUnitV>, c: EncoderConfig) -> DocView {
    DocView { pages: spec_pages(us, c), cells: spec_dedup(us, c).cells, dict: spec_dedup(us, c).dict }
}

/// The metrics of one encode run.
pub open spec fn spec_metrics(us: Seq<RawUnitV>, c: EncoderConfig) -> MetricsV {
    let alerts = numguard_spec(spec_predoc(us, c), c.numguard);
    MetricsV {
        pages: spec_pages(us, c).len() as int,
        cells_total: us.len() as int,
        cells_kept: spec_kept_cells(us, c).len() as int,
        dedup_hits: spec_dedup(us, c).hits,
        numguard_count: alerts.len() as int,
        alerts,
    }
}

/// Determinism: any two documents encoded from the same units under the
/// same configuration are equal — the encode contract pins the output
/// to `spec_document`, of which this lemma states the uniqueness.
pub proof fn lemma_encode_deterministic(
    us: Seq<RawUnitV>,
    c: EncoderConfig,
    d1: DocView,
    d2: DocView,
)
    requires
        d1 == spec_document(us, c),
        d2 == spec_document(us, c),
    ensures
        d1 == d2,
{
}

/// The encoder: an immutable configuration driving encode calls. The
/// same encoder may be reused across many calls; nothing is shared
/// between calls.
#[derive(Debug, Clone, Copy)]
pub struct Encoder {
    pub cfg: EncoderConfig,
}

impl Encoder {
    /// Builds an encoder from a preset name; unknown names are a
    /// configuration error.
    pub fn from_preset(name: &str) -> (r: Result<Encoder, DcfError>)
        ensures
            match preset_of_name(name@) {
                Option::Some(p) => r matches Ok(e) && e.cfg == preset_config(p),
                Option::None => r matches Err(e) && e == DcfError::ConfigurationError,
            },
    {
        match preset_by_name(name) {
            Some(p) => Ok(Encoder { cfg: default_config(p) }),
            None => Err(DcfError::ConfigurationError),
        }
    }

    /// Encodes one document: classification, scoring, windowed
    /// deduplication, NumGuard (advisory only) and budget trimming, in
    /// that order.
    ///
    /// An empty unit sequence is `UnsupportedInput`; on any valid
    /// non-empty sequence the call succeeds, returns the document
    /// `spec_document` describes together with its metrics, and the
    /// document is well-formed: every cell resolves in the dictionary,
    /// pages are strictly increasing, cells keep document order. When a
    /// token budget is configured the total estimated cost of the kept
    /// cells never exceeds it, and the kept cell count never exceeds the
    /// total.
    pub fn encode(&self, units: &Vec<RawUnit>) -> (r: Result<(Document, Metrics), DcfError>)
        requires
            config_valid(self.cfg),
            units_valid(units@.map_values(|u: RawUnit| u@)),
        ensures
            ({
                let uv = units@.map_values(|u: RawUnit| u@);
                match r {
                    Ok(p) => {
                        &&& units@.len() > 0
                        &&& p.0@ == spec_document(uv, self.cfg)
                        &&& p.1@ == spec_metrics(uv, self.cfg)
                        &&& doc_wf(p.0@)
                        &&& p.0.header == header_of(self.cfg)
                        &&& (self.cfg.budget matches Some(b) ==> total_cost(
                            p.0@.cells,
                            p.0@.dict,
                            self.cfg.tokenizer,
                        ) <= b)
                        &&& p.1@.cells_kept <= p.1@.cells_total
                        &&& (p.1@.dedup_hits == 0 && self.cfg.budget is None ==> p.1@.cells_kept
                            == p.1@.cells_total)
                        &&& p.1@.numguard_count == p.1@.alerts.len()
                    },
                    Err(e) => e == DcfError::UnsupportedInput && units@.len() == 0,
                }
            }),
    {
        if units.len() == 0 {
            return Err(DcfError::UnsupportedInput);
        }
        let ghost uv = units@.map_values(|u: RawUnit| u@);
        let c = self.cfg;
        let staged = stage_units(units, &c);
        proof {
            let sv = stage_all(uv, c);
            assert(staged@.map_values(|s: crate::score::StagedCell| s@) == sv);
            assert forall|i: int| 0 <= i < sv.len() implies (#[trigger] sv[i]).z == uv[i].z by {
            }
            assert forall|i: int, j: int| 0 <= i < j < sv.len() implies sv[i].z <= sv[j].z by {
                assert(sv[i].z == uv[i].z);
                assert(sv[j].z == uv[j].z);
            }
            assert forall|i: int| 0 <= i < sv.len() implies (#[trigger] sv[i]).importance
                <= 100 by {
                assert(sv[i] == staged@[i]@);
            }
            lemma_dedup_wf(sv, c.dedup_window, c.drop_footers);
        }
        let dd = dedup_cells(&staged, c.dedup_window, c.drop_footers);
        let cells = dd.0;
        let dict = dd.1;
        let hits = dd.2;
        let ghost st = spec_dedup(uv, c);
        let ghost dv = dict@.map_values(|e: crate::document::DictEntry| e@);
        // page list
        let mut pages: Vec<PageInfo> = Vec::new();
        let mut k: usize = 0;
        while k < units.len()
            invariant
                0 <= k <= units@.len(),
                uv == units@.map_values(|u: RawUnit| u@),
                uv.len() == units@.len(),
                c == self.cfg,
                pages@ == pages_upto(uv, c, k as int),
            decreases units.len() - k,
        {
            let z = units[k].z;
            let push_new = if pages.len() > 0 {
                pages[pages.len() - 1].z != z
            } else {
                true
            };
            if push_new {
                pages.push(PageInfo { z, width: c.page_width, height: c.page_height });
            }
            k = k + 1;
        }
        proof {
            lemma_pages_wf(uv, c, uv.len() as int);
        }
        let header = crate::config::Header {
            preset: c.preset,
            budget: c.budget,
            dedup_window: c.dedup_window,
            drop_footers: c.drop_footers,
        };
        // NumGuard sees the fully deduplicated, scored, untrimmed cells
        let predoc = Document { header, pages, cells, dict };
        proof {
            assert(predoc@ =~~= spec_predoc(uv, c));
            assert(doc_wf(predoc@));
        }
        let alerts = run_numguard(&predoc, &c.numguard);
        let Document { header, pages, cells, dict } = predoc;
        proof {
            assert(dict@.map_values(|e: crate::document::DictEntry| e@) == dv);
        }
        let costs = costs_of_cells(&cells, &dict, c.tokenizer);
        let kept = match c.budget {
            Some(b) => {
                proof {
                    lemma_trim_spec_budget(cells@, costs@, b);
                    lemma_mask_membership(cells@, trim_spec(cells@, costs@, b).sel);
                    lemma_mask_sorted(cells@, trim_spec(cells@, costs@, b).sel);
                    assert forall|i: int| 0 <= i < cells@.len() implies crate::tokens::est_tokens(
                        crate::document::dict_payload(dv, (#[trigger] cells@[i]).code_id),
                        c.tokenizer,
                    ) <= u64::MAX by {
                        assert(costs@[i] as int == crate::tokens::est_tokens(
                            crate::document::dict_payload(dv, cells@[i].code_id),
                            c.tokenizer,
                        ));
                    }
                    lemma_mask_cost(cells@, dv, c.tokenizer, trim_spec(cells@, costs@, b).sel);
                }
                trim_cells(&cells, &costs, b)
            },
            None => cells,
        };
        let document = Document { header, pages, cells: kept, dict };
        proof {
            assert(document@ =~~= spec_document(uv, c));
            assert(doc_wf(document@)) by {
                assert forall|i: int| 0 <= i < document@.cells.len() implies
                    crate::document::dict_has(
                    document@.dict,
                    (#[trigger] document@.cells[i]).code_id,
                ) by {
                    if c.budget is Some {
                        let sel = trim_spec(cells@, costs@, c.budget.unwrap()).sel;
                        let j = choose|j: int|
                            0 <= j < cells@.len() && mask_spec(cells@, sel)[i] == cells@[j];
                        assert(crate::document::dict_has(dv, cells@[j].code_id));
                    }
                }
                assert forall|i: int| 0 <= i < document@.cells.len() implies (
                #[trigger] document@.cells[i]).importance <= 100 by {
                    if c.budget is Some {
                        let sel = trim_spec(cells@, costs@, c.budget.unwrap()).sel;
                        let j = choose|j: int|
                            0 <= j < cells@.len() && mask_spec(cells@, sel)[i] == cells@[j];
                    }
                }
            }
        }
        let metrics = Metrics {
            pages: pages_len_of(&document),
            cells_total: units.len(),
            cells_kept: document.cells.len(),
            dedup_hits: hits,
            numguard_count: alerts.len(),
            alerts,
        };
        proof {
            assert(metrics@ =~~= spec_metrics(uv, c));
        }
        Ok((document, metrics))
    }
}

/// Number of pages of a document.
fn pages_len_of(doc: &Document) -> (r: usize)
    ensures
        r == doc@.pages.len(),
{
    doc.pages.len()
}

/// Step-by-step construction of an encoder configuration, validated at
/// build time.
#[derive(Debug, Clone, Copy)]
pub struct EncoderBuilder {
    pub cfg: EncoderConfig,
}

impl EncoderBuilder {
    /// Starts from a preset by name; unknown names are a configuration
    /// error.
    pub fn new(name: &str) -> (r: Result<EncoderBuilder, DcfError>)
        ensures
            match preset_of_name(name@) {
                Option::Some(p) => r matches Ok(b) && b.cfg == preset_config(p),
                Option::None => r matches Err(e) && e == DcfError::ConfigurationError,
            },
    {
        match preset_by_name(name) {
            Some(p) => Ok(EncoderBuilder { cfg: default_config(p) }),
            None => Err(DcfError::ConfigurationError),
        }
    }

    /// Sets the token budget.
    pub fn budget(self, b: Option<u64>) -> (r: Self)
        ensures
            r.cfg == (EncoderConfig { budget: b, ..self.cfg }),
    {
        EncoderBuilder { cfg: EncoderConfig { budget: b, ..self.cfg } }
    }

    /// Sets footer dropping.
    pub fn drop_footers(self, d: bool) -> (r: Self)
        ensures
            r.cfg == (EncoderConfig { drop_footers: d, ..self.cfg }),
    {
        EncoderBuilder { cfg: EncoderConfig { drop_footers: d, ..self.cfg } }
    }

    /// Sets the dedup window, in pages.
    pub fn dedup_window(self, w: u32) -> (r: Self)
        ensures
            r.cfg == (EncoderConfig { dedup_window: w, ..self.cfg }),
    {
        EncoderBuilder { cfg: EncoderConfig { dedup_window: w, ..self.cfg } }
    }

    /// Sets the hyphenation mode.
    pub fn hyphenation(self, h: HyphenationMode) -> (r: Self)
        ensures
            r.cfg == (EncoderConfig { hyphenation: h, ..self.cfg }),
    {
        EncoderBuilder { cfg: EncoderConfig { hyphenation: h, ..self.cfg } }
    }

    /// Sets the table-detection pixel tolerance.
    pub fn table_tolerance(self, t: u32) -> (r: Self)
        ensures
            r.cfg == (EncoderConfig { table_tolerance: t, ..self.cfg }),
    {
        EncoderBuilder { cfg: EncoderConfig { table_tolerance: t, ..self.cfg } }
    }

    /// Sets the importance weights.
    pub fn importance_tuning(self, t: ImportanceTuning) -> (r: Self)
        ensures
            r.cfg == (EncoderConfig { tuning: t, ..self.cfg }),
    {
        EncoderBuilder { cfg: EncoderConfig { tuning: t, ..self.cfg } }
    }

    /// Sets the NumGuard thresholds.
    pub fn numguard(self, n: NumGuardConfig) -> (r: Self)
        ensures
            r.cfg == (EncoderConfig { numguard: n, ..self.cfg }),
    {
        EncoderBuilder { cfg: EncoderConfig { numguard: n, ..self.cfg } }
    }

    /// Sets the token-estimation strategy.
    pub fn tokenizer(self, k: TokenizerKind) -> (r: Self)
        ensures
            r.cfg == (EncoderConfig { tokenizer: k, ..self.cfg }),
    {
        EncoderBuilder { cfg: EncoderConfig { tokenizer: k, ..self.cfg } }
    }

    /// Validates the configuration: out-of-range tuning or threshold
    /// values are a configuration error, and never reach the pipeline.
    pub fn build(self) -> (r: Result<Encoder, DcfError>)
        ensures
            config_valid(self.cfg) ==> (r matches Ok(e) && e.cfg == self.cfg),
            !config_valid(self.cfg) ==> (r matches Err(e) && e == DcfError::ConfigurationError),
    {
        let c = self.cfg;
        let ok = c.page_width >= 100 && c.page_height >= 100 && c.tuning.heading_boost <= 1000
            && c.tuning.number_boost <= 1000 && c.tuning.footer_penalty <= 100
            && c.tuning.early_line_bonus <= 100 && c.numguard.sum_tol_permille <= 1000
            && c.numguard.outlier_factor >= 2 && c.numguard.outlier_factor <= 1000
            && c.numguard.drift_percent >= 1 && c.numguard.drift_percent <= 100
            && c.table_tolerance <= c.page_width;
        if ok {
            Ok(Encoder { cfg: c })
        } else {
            Err(DcfError::ConfigurationError)
        }
    }
}

} // verus!
