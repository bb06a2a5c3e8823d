//! The importance scorer: a bounded integer score per cell, a pure
//! function of (cell type, position, payload, tuning) — no dependency on
//! processing order across cells.

use vstd::prelude::*;

use crate::classify::{classify_spec, classify_unit, RawUnitV, RawUnit};
use crate::config::{tuning_valid, EncoderConfig, ImportanceTuning};
use crate::document::CellType;
use crate::normalize::{normalize_payload, normalize_seq};
use crate::tokens::{has_digit, has_digit_seq};

verus! {

/// Base score of a cell type: headings highest, body the baseline,
/// footers lowest.
pub open spec fn base_score(t: CellType) -> u32 {
    match t {
        CellType::Heading => 80u32,
        CellType::Table => 70u32,
        CellType::Code => 60u32,
        CellType::Caption => 55u32,
        CellType::Body => 50u32,
        CellType::Footer => 20u32,
    }
}

/// The importance score: the base score of the type, boosted for
/// headings and numeric content, credited for appearing early on the
/// page, penalized for footers, and clamped to 0..=100.
pub open spec fn score_spec(
    t: CellType,
    y: u32,
    page_h: u32,
    has_num: bool,
    tn: ImportanceTuning,
) -> u32 {
    let ph = if page_h == 0 {
        1int
    } else {
        page_h as int
    };
    let s0 = base_score(t) as int;
    let s1 = if t == CellType::Heading {
        s0 * tn.heading_boost / 100
    } else {
        s0
    };
    let s2 = if has_num {
        s1 * tn.number_boost / 100
    } else {
        s1
    };
    let yc = if y as int > ph {
        ph
    } else {
        y as int
    };
    let mult = 100 + tn.early_line_bonus * (ph - yc) / ph;
    let s3 = s2 * mult / 100;
    let s4 = if t == CellType::Footer {
        s3 * tn.footer_penalty / 100
    } else {
        s3
    };
    if s4 > 100 {
        100u32
    } else {
        s4 as u32
    }
}

/// Computes the importance score of one classified cell.
pub fn score_cell(t: CellType, y: u32, page_h: u32, has_num: bool, tn: &ImportanceTuning) -> (r:
    u32)
    requires
        page_h >= 1,
        tuning_valid(*tn),
    ensures
        r == score_spec(t, y, page_h, has_num, *tn),
        r <= 100,
{
    let ph: u64 = page_h as u64;
    let s0: u64 = match t {
        CellType::Heading => 80,
        CellType::Table => 70,
        CellType::Code => 60,
        CellType::Caption => 55,
        CellType::Body => 50,
        CellType::Footer => 20,
    };
    proof {
        assert(s0 * (tn.heading_boost as u64) <= 80000) by (nonlinear_arith)
            requires
                s0 <= 80,
                tn.heading_boost <= 1000,
        ;
    }
    let s1: u64 = if t == CellType::Heading {
        s0 * (tn.heading_boost as u64) / 100
    } else {
        s0
    };
    proof {
        assert(s1 <= 800);
        assert(s1 * (tn.number_boost as u64) <= 800000) by (nonlinear_arith)
            requires
                s1 <= 800,
                tn.number_boost <= 1000,
        ;
    }
    let s2: u64 = if has_num {
        s1 * (tn.number_boost as u64) / 100
    } else {
        s1
    };
    let yc: u64 = if (y as u64) > ph {
        ph
    } else {
        y as u64
    };
    proof {
        assert(s2 <= 8000);
        assert((tn.early_line_bonus as int) * (ph as int - yc as int) <= 100 * (ph as int))
            by (nonlinear_arith)
            requires
                tn.early_line_bonus <= 100,
                yc <= ph,
        ;
        assert((tn.early_line_bonus as int) * (ph as int - yc as int) / (ph as int) <= 100)
            by (nonlinear_arith)
            requires
                (tn.early_line_bonus as int) * (ph as int - yc as int) <= 100 * (ph as int),
                (tn.early_line_bonus as int) * (ph as int - yc as int) >= 0,
                ph >= 1,
        ;
    }
    let mult: u64 = 100 + (tn.early_line_bonus as u64) * (ph - yc) / ph;
    proof {
        assert(mult <= 200);
        assert(s2 * mult <= 1600000) by (nonlinear_arith)
            requires
                s2 <= 8000,
                mult <= 200,
        ;
    }
    let s3: u64 = s2 * mult / 100;
    proof {
        assert(s3 <= 16000);
        assert(s3 * (tn.footer_penalty as u64) <= 1600000) by (nonlinear_arith)
            requires
                s3 <= 16000,
                tn.footer_penalty <= 100,
        ;
    }
    let s4: u64 = if t == CellType::Footer {
        s3 * (tn.footer_penalty as u64) / 100
    } else {
        s3
    };
    if s4 > 100 {
        100
    } else {
        s4 as u32
    }
}

/// One staged cell: the normalized payload together with its
/// classification, geometry and importance, before deduplication.
#[derive(Debug, Clone)]
pub struct StagedCell {
    pub text: Vec<u8>,
    pub cell_type: CellType,
    pub x: u32,
    pub y: u32,
    pub w: u32,
    pub h: u32,
    pub z: u32,
    pub importance: u32,
}

/// Mathematical model of a staged cell.
#[verifier::ext_equal]
pub ghost struct StagedCellV {
    pub text: Seq<u8>,
    pub cell_type: CellType,
    pub x: u32,
    pub y: u32,
    pub w: u32,
    pub h: u32,
    pub z: u32,
    pub importance: u32,
}

impl View for StagedCell {
    type V = StagedCellV;

    open spec fn view(&self) -> StagedCellV {
        StagedCellV {
            text: self.text@,
            cell_type: self.cell_type,
            x: self.x,
            y: self.y,
            w: self.w,
            h: self.h,
            z: self.z,
            importance: self.importance,
        }
    }
}

/// The staged form of one raw unit: normalized, classified and scored.
pub open spec fn stage_spec(u: RawUnitV, c: EncoderConfig) -> StagedCellV {
    let text = normalize_seq(u.text, c.hyphenation);
    let t = classify_spec(u, c);
    StagedCellV {
        text,
        cell_type: t,
        x: u.x,
        y: u.y,
        w: u.w,
        h: u.h,
        z: u.z,
        importance: score_spec(t, u.y, c.page_height, has_digit_seq(text), c.tuning),
    }
}

/// The staged forms of a whole unit sequence, in order.
pub open spec fn stage_all(us: Seq<RawUnitV>, c: EncoderConfig) -> Seq<StagedCellV> {
    us.map_values(|u: RawUnitV| stage_spec(u, c))
}

/// Stages one raw unit: normalization, classification, scoring.
pub fn stage_unit(u: &RawUnit, c: &EncoderConfig) -> (r: StagedCell)
    requires
        c.page_height >= 1,
        tuning_valid(c.tuning),
    ensures
        r@ == stage_spec(u@, *c),
        r@.importance <= 100,
{
    let text = normalize_payload(&u.text, c.hyphenation);
    let t = classify_unit(u, c);
    let num = has_digit(&text);
    let importance = score_cell(t, u.y, c.page_height, num, &c.tuning);
    StagedCell { text, cell_type: t, x: u.x, y: u.y, w: u.w, h: u.h, z: u.z, importance }
}

/// Stages a whole unit sequence in document order.
pub fn stage_units(units: &Vec<RawUnit>, c: &EncoderConfig) -> (r: Vec<StagedCell>)
    requires
        c.page_height >= 1,
        tuning_valid(c.tuning),
    ensures
        r@.map_values(|s: StagedCell| s@) == stage_all(
            units@.map_values(|u: RawUnit| u@),
            *c,
        ),
        r@.len() == units@.len(),
        forall|i: int| 0 <= i < r@.len() ==> (#[trigger] r@[i])@.importance <= 100,
{
    let ghost uv = units@.map_values(|u: RawUnit| u@);
    let mut out: Vec<StagedCell> = Vec::new();
    let mut i: usize = 0;
    while i < units.len()
        invariant
            0 <= i <= units.len(),
            uv == units@.map_values(|u: RawUnit| u@),
            uv.len() == units@.len(),
            out@.len() == i,
            c.page_height >= 1,
            tuning_valid(c.tuning),
            forall|j: int| 0 <= j < i ==> (#[trigger] out@[j])@ == stage_spec(uv[j], *c),
            forall|j: int| 0 <= j < out@.len() ==> (#[trigger] out@[j])@.importance <= 100,
        decreases units.len() - i,
    {
        let s = stage_unit(&units[i], c);
        out.push(s);
        proof {
            assert(uv[i as int] == units@[i as int]@);
            assert(out@[i as int] == s);
        }
        i = i + 1;
    }
    proof {
        assert(out@.map_values(|s: StagedCell| s@) =~= stage_all(uv, *c)) by {
            assert forall|k: int| 0 <= k < uv.len() implies (#[trigger] out@[k])@ == stage_all(
                uv,
                *c,
            )[k] by {
                assert(out@[k]@ == stage_spec(uv[k], *c));
            }
        }
    }
    out
}

} // verus!
