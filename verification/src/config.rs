//! Encoder configuration: presets, tunable weights and validity ranges.
//!
//! Configuration is immutable for the duration of one encode call and may
//! be reused across many calls. Invalid values are rejected at
//! construction time and never reach the pipeline.

use vstd::prelude::*;

use crate::tokens::TokenizerKind;

verus! {

/// The named presets. Each fixes default page pixel dimensions and
/// defaults for all tunables.
#[derive(Debug, Clone, Copy, PartialEq, Eq, Structural)]
pub enum EncoderPreset {
    Reports,
    Slides,
    News,
    Scans,
}

/// How hyphenated line breaks in a payload are normalized before hashing
/// and storage.
#[derive(Debug, Clone, Copy, PartialEq, Eq, Structural)]
pub enum HyphenationMode {
    /// Keep payload bytes as delivered.
    Preserve,
    /// Join hyphenated line breaks: every `-` immediately followed by a
    /// line feed is removed together with the line feed.
    Merge,
}

/// Multiplicative importance weights, in percent (100 = neutral).
#[derive(Debug, Clone, Copy, PartialEq, Eq, Structural)]
pub struct ImportanceTuning {
    /// Applied to heading cells; valid range 0..=1000.
    pub heading_boost: u32,
    /// Applied to cells holding numeric tokens; valid range 0..=1000.
    pub number_boost: u32,
    /// Applied to footer cells; valid range 0..=100.
    pub footer_penalty: u32,
    /// Extra percent credited to a cell at the very top of its page,
    /// fading linearly to zero at the bottom; valid range 0..=100.
    pub early_line_bonus: u32,
}

impl Default for ImportanceTuning {
    /// The neutral-leaning default weights.
    fn default() -> (r: Self)
        ensures
            r == (ImportanceTuning {
                heading_boost: 150,
                number_boost: 120,
                footer_penalty: 50,
                early_line_bonus: 20,
            }),
    {
        ImportanceTuning { heading_boost: 150, number_boost: 120, footer_penalty: 50, early_line_bonus: 20 }
    }
}

/// All weights inside their valid ranges.
pub open spec fn tuning_valid(t: ImportanceTuning) -> bool {
    &&& t.heading_boost <= 1000
    &&& t.number_boost <= 1000
    &&& t.footer_penalty <= 100
    &&& t.early_line_bonus <= 100
}

/// Thresholds of the numeric-consistency checks.
#[derive(Debug, Clone, Copy, PartialEq, Eq, Structural)]
pub struct NumGuardConfig {
    /// Sum-mismatch: allowed relative deviation of a labeled total from
    /// the sum of its constituents, in permille; valid range 0..=1000.
    pub sum_tol_permille: u32,
    /// Magnitude-outlier: a value this many times above (or below) the
    /// cluster median is flagged; valid range 2..=1000.
    pub outlier_factor: u32,
    /// Cross-occurrence drift: relative difference, in percent of the
    /// larger value, beyond which two occurrences of the same label on
    /// different pages are flagged; valid range 1..=100.
    pub drift_percent: u32,
}

/// All thresholds inside their valid ranges.
pub open spec fn numguard_valid(c: NumGuardConfig) -> bool {
    &&& c.sum_tol_permille <= 1000
    &&& 2 <= c.outlier_factor <= 1000
    &&& 1 <= c.drift_percent <= 100
}

/// The full, immutable encoder configuration.
#[derive(Debug, Clone, Copy, PartialEq, Eq, Structural)]
pub struct EncoderConfig {
    pub preset: EncoderPreset,
    /// Page pixel frame for bounding-box interpretation.
    pub page_width: u32,
    pub page_height: u32,
    /// Optional token budget for trimming.
    pub budget: Option<u64>,
    /// Drop footer cells whose payload dedup-matches inside the window.
    pub drop_footers: bool,
    /// Sliding dedup window, in pages.
    pub dedup_window: u32,
    pub hyphenation: HyphenationMode,
    /// Pixel tolerance of the table grid-alignment cue.
    pub table_tolerance: u32,
    pub tuning: ImportanceTuning,
    pub numguard: NumGuardConfig,
    pub tokenizer: TokenizerKind,
}

/// A configuration the pipeline accepts.
pub open spec fn config_valid(c: EncoderConfig) -> bool {
    &&& c.page_width >= 100
    &&& c.page_height >= 100
    &&& tuning_valid(c.tuning)
    &&& numguard_valid(c.numguard)
    &&& c.table_tolerance <= c.page_width
}

/// Default numeric-consistency thresholds.
pub open spec fn default_numguard() -> NumGuardConfig {
    NumGuardConfig { sum_tol_permille: 5, outlier_factor: 100, drift_percent: 50 }
}

/// The configuration a preset stands for.
pub open spec fn preset_config(p: EncoderPreset) -> EncoderConfig {
    EncoderConfig {
        preset: p,
        page_width: match p {
            EncoderPreset::Reports => 1024u32,
            EncoderPreset::Slides => 1920u32,
            EncoderPreset::News => 1100u32,
            EncoderPreset::Scans => 1400u32,
        },
        page_height: match p {
            EncoderPreset::Reports => 1400u32,
            EncoderPreset::Slides => 1080u32,
            EncoderPreset::News => 1600u32,
            EncoderPreset::Scans => 2000u32,
        },
        budget: None,
        drop_footers: false,
        dedup_window: 5,
        hyphenation: match p {
            EncoderPreset::Reports => HyphenationMode::Merge,
            EncoderPreset::Slides => HyphenationMode::Preserve,
            EncoderPreset::News => HyphenationMode::Merge,
            EncoderPreset::Scans => HyphenationMode::Preserve,
        },
        table_tolerance: match p {
            EncoderPreset::Reports => 8u32,
            EncoderPreset::Slides => 12u32,
            EncoderPreset::News => 8u32,
            EncoderPreset::Scans => 16u32,
        },
        tuning: ImportanceTuning {
            heading_boost: 150,
            number_boost: 120,
            footer_penalty: 50,
            early_line_bonus: 20,
        },
        numguard: default_numguard(),
        tokenizer: TokenizerKind::Whitespace,
    }
}

/// The preset a name selects, if any.
pub open spec fn preset_of_name(s: Seq<char>) -> Option<EncoderPreset> {
    if s == "reports"@ {
        Some(EncoderPreset::Reports)
    } else if s == "slides"@ {
        Some(EncoderPreset::Slides)
    } else if s == "news"@ {
        Some(EncoderPreset::News)
    } else if s == "scans"@ {
        Some(EncoderPreset::Scans)
    } else {
        None
    }
}

/// Looks a preset up by name.
pub fn preset_by_name(name: &str) -> (r: Option<EncoderPreset>)
    ensures
        r == preset_of_name(name@),
{
    let owned = name.to_owned();
    if owned == "reports".to_owned() {
        Some(EncoderPreset::Reports)
    } else if owned == "slides".to_owned() {
        Some(EncoderPreset::Slides)
    } else if owned == "news".to_owned() {
        Some(EncoderPreset::News)
    } else if owned == "scans".to_owned() {
        Some(EncoderPreset::Scans)
    } else {
        None
    }
}

/// The default configuration of a preset.
pub fn default_config(p: EncoderPreset) -> (r: EncoderConfig)
    ensures
        r == preset_config(p),
        config_valid(r),
{
    let page_width: u32 = match p {
        EncoderPreset::Reports => 1024,
        EncoderPreset::Slides => 1920,
        EncoderPreset::News => 1100,
        EncoderPreset::Scans => 1400,
    };
    let page_height: u32 = match p {
        EncoderPreset::Reports => 1400,
        EncoderPreset::Slides => 1080,
        EncoderPreset::News => 1600,
        EncoderPreset::Scans => 2000,
    };
    let hyphenation = match p {
        EncoderPreset::Reports => HyphenationMode::Merge,
        EncoderPreset::Slides => HyphenationMode::Preserve,
        EncoderPreset::News => HyphenationMode::Merge,
        EncoderPreset::Scans => HyphenationMode::Preserve,
    };
    let table_tolerance: u32 = match p {
        EncoderPreset::Reports => 8,
        EncoderPreset::Slides => 12,
        EncoderPreset::News => 8,
        EncoderPreset::Scans => 16,
    };
    EncoderConfig {
        preset: p,
        page_width,
        page_height,
        budget: None,
        drop_footers: false,
        dedup_window: 5,
        hyphenation,
        table_tolerance,
        tuning: ImportanceTuning { heading_boost: 150, number_boost: 120, footer_penalty: 50, early_line_bonus: 20 },
        numguard: NumGuardConfig { sum_tol_permille: 5, outlier_factor: 100, drift_percent: 50 },
        tokenizer: TokenizerKind::Whitespace,
    }
}

/// Encoder provenance carried on every `Document`.
#[derive(Debug, Clone, Copy, PartialEq, Eq, Structural)]
pub struct Header {
    pub preset: EncoderPreset,
    pub budget: Option<u64>,
    pub dedup_window: u32,
    pub drop_footers: bool,
}

/// The header an encode call under `c` stamps on its output.
pub open spec fn header_of(c: EncoderConfig) -> Header {
    Header { preset: c.preset, budget: c.budget, dedup_window: c.dedup_window, drop_footers: c.drop_footers }
}

} // verus!
