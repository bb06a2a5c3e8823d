use three_dcf_core::config::EncoderPreset;
use three_dcf_core::document::CellType;
use three_dcf_core::{DcfError, Encoder, EncoderBuilder, ImportanceTuning, RawUnit};

fn unit(text: &str, x: u32, y: u32, w: u32, h: u32, z: u32) -> RawUnit {
    RawUnit { text: text.as_bytes().to_vec(), x, y, w, h, z }
}

fn body(text: &str, z: u32) -> RawUnit {
    unit(text, 100, 400, 300, 20, z)
}

fn footer(text: &str, z: u32) -> RawUnit {
    unit(text, 100, 1380, 300, 18, z)
}

#[test]
fn unknown_preset_is_configuration_error() {
    assert_eq!(Encoder::from_preset("nope").unwrap_err(), DcfError::ConfigurationError);
    assert!(Encoder::from_preset("reports").is_ok());
    assert!(Encoder::from_preset("slides").is_ok());
    assert!(Encoder::from_preset("news").is_ok());
    assert!(Encoder::from_preset("scans").is_ok());
}

#[test]
fn empty_input_is_unsupported() {
    let enc = Encoder::from_preset("reports").unwrap();
    let r = enc.encode(&Vec::new());
    assert_eq!(r.unwrap_err(), DcfError::UnsupportedInput);
}

#[test]
fn out_of_range_tuning_is_rejected_at_build() {
    let b = EncoderBuilder::new("reports").unwrap();
    let bad = b.importance_tuning(ImportanceTuning {
        heading_boost: 5000,
        number_boost: 120,
        footer_penalty: 50,
        early_line_bonus: 20,
    });
    assert_eq!(bad.build().unwrap_err(), DcfError::ConfigurationError);
    let good = EncoderBuilder::new("reports").unwrap();
    assert!(good.build().is_ok());
}

#[test]
fn encoding_is_deterministic() {
    let enc = Encoder::from_preset("reports").unwrap();
    let units = vec![
        body("alpha content here", 1),
        footer("confidential footer", 1),
        body("beta content with 42 numbers", 2),
        footer("confidential footer", 2),
    ];
    let (d1, m1) = enc.encode(&units).unwrap();
    let (d2, m2) = enc.encode(&units).unwrap();
    assert_eq!(d1.cells, d2.cells);
    assert_eq!(d1.pages, d2.pages);
    assert_eq!(d1.dict.len(), d2.dict.len());
    for (a, b) in d1.dict.iter().zip(d2.dict.iter()) {
        assert_eq!(a.key, b.key);
        assert_eq!(a.payload, b.payload);
    }
    assert_eq!(m1.cells_kept, m2.cells_kept);
    assert_eq!(m1.numguard_count, m2.numguard_count);
}

#[test]
fn every_cell_resolves_in_dictionary() {
    let enc = Encoder::from_preset("reports").unwrap();
    let units = vec![
        body("alpha content here", 1),
        footer("confidential footer", 1),
        body("beta content here", 2),
        footer("confidential footer", 2),
    ];
    let (doc, _) = enc.encode(&units).unwrap();
    for c in doc.cells.iter() {
        assert!(doc.resolve(c.code_id).is_some());
    }
}

#[test]
fn shared_footer_dedups_across_window() {
    // Pages 1 and 3 share an identical footer payload; window 5 and
    // footer dropping collapse them to one dictionary entry, and the
    // dedup ratio exceeds one.
    let enc = EncoderBuilder::new("reports")
        .unwrap()
        .dedup_window(5)
        .drop_footers(true)
        .build()
        .unwrap();
    let units = vec![
        body("alpha content here", 1),
        footer("confidential footer", 1),
        body("beta content here", 2),
        body("gamma content here", 3),
        footer("confidential footer", 3),
    ];
    let (doc, m) = enc.encode(&units).unwrap();
    assert_eq!(m.cells_total, 5);
    assert_eq!(m.cells_kept, 4);
    assert_eq!(m.dedup_hits, 1);
    assert_eq!(doc.dict_len(), 4);
    assert!(m.dedup_ratio_permille() > 1000);
    let footers: Vec<_> =
        doc.cells.iter().filter(|c| c.cell_type == CellType::Footer).collect();
    assert_eq!(footers.len(), 1);
    assert_eq!(footers[0].z, 1);
}

#[test]
fn repeat_outside_window_is_independent() {
    let enc = EncoderBuilder::new("reports")
        .unwrap()
        .dedup_window(5)
        .drop_footers(true)
        .build()
        .unwrap();
    let units = vec![
        body("alpha content here", 1),
        footer("confidential footer", 1),
        body("late content here", 9),
        footer("confidential footer", 9),
    ];
    let (doc, m) = enc.encode(&units).unwrap();
    // page 9 is more than 5 pages after page 1: no reuse, no drop
    assert_eq!(m.dedup_hits, 0);
    assert_eq!(m.cells_kept, 4);
    assert_eq!(m.dedup_ratio_permille(), 1000);
    // the dictionary is content-addressed: one entry per distinct payload
    assert_eq!(doc.dict_len(), 3);
}

#[test]
fn no_repeats_keeps_every_cell() {
    let enc = Encoder::from_preset("reports").unwrap();
    let units =
        vec![body("alpha content here", 1), body("beta content here", 1), body("gamma content here", 2)];
    let (_, m) = enc.encode(&units).unwrap();
    assert_eq!(m.cells_total, 3);
    assert_eq!(m.cells_kept, 3);
    assert_eq!(m.dedup_hits, 0);
    assert_eq!(m.dedup_ratio_permille(), 1000);
}

#[test]
fn budget_bound_is_respected() {
    let enc = EncoderBuilder::new("reports").unwrap().budget(Some(10)).build().unwrap();
    let units = vec![
        body("one two three four five six seven", 1),
        body("eight nine ten eleven twelve", 1),
        body("thirteen fourteen", 2),
        body("HEADLINE", 2),
    ];
    let (doc, m) = enc.encode(&units).unwrap();
    let mut total: u64 = 0;
    for c in doc.cells.iter() {
        let payload = doc.resolve(c.code_id).unwrap();
        total += three_dcf_core::estimate_tokens(payload, three_dcf_core::TokenizerKind::Whitespace);
    }
    assert!(total <= 10);
    assert!(m.cells_kept <= m.cells_total);
    // kept cells stay in original document order
    for w in doc.cells.windows(2) {
        assert!(w[0].z <= w[1].z);
    }
}

#[test]
fn identical_payloads_on_one_page_share_an_entry() {
    let enc = Encoder::from_preset("reports").unwrap();
    let units = vec![body("repeated line", 1), body("repeated line", 1)];
    let (doc, m) = enc.encode(&units).unwrap();
    // both cells stay (they are not footers) but share one dictionary entry
    assert_eq!(m.cells_kept, 2);
    assert_eq!(m.dedup_hits, 1);
    assert_eq!(doc.dict_len(), 1);
    assert_eq!(doc.cells[0].code_id, doc.cells[1].code_id);
}

#[test]
fn zero_budget_keeps_nothing_costly() {
    let enc = EncoderBuilder::new("reports").unwrap().budget(Some(0)).build().unwrap();
    let units = vec![body("some words here", 1)];
    let (doc, m) = enc.encode(&units).unwrap();
    assert_eq!(doc.cell_count(), 0);
    assert_eq!(m.cells_kept, 0);
    assert_eq!(m.cells_total, 1);
}

#[test]
fn hyphenation_mode_governs_normalization() {
    // the reports preset merges hyphenated line breaks
    let merging = Encoder::from_preset("reports").unwrap();
    let units = vec![body("foo-\nbar", 1)];
    let (doc, _) = merging.encode(&units).unwrap();
    assert_eq!(doc.resolve(doc.cells[0].code_id).unwrap(), &b"foobar".to_vec());
    // an explicit Preserve keeps the payload as delivered
    let keeping = EncoderBuilder::new("reports")
        .unwrap()
        .hyphenation(three_dcf_core::HyphenationMode::Preserve)
        .build()
        .unwrap();
    let (doc2, _) = keeping.encode(&units).unwrap();
    assert_eq!(doc2.resolve(doc2.cells[0].code_id).unwrap(), &b"foo-\nbar".to_vec());
    assert!(EncoderBuilder::new("bogus").is_err());
}

#[test]
fn pages_carry_preset_frame() {
    let enc = Encoder::from_preset("reports").unwrap();
    let units = vec![body("alpha content here", 1), body("beta content here", 3)];
    let (doc, m) = enc.encode(&units).unwrap();
    assert_eq!(m.pages, 2);
    assert_eq!(doc.pages.len(), 2);
    assert_eq!(doc.pages[0].z, 1);
    assert_eq!(doc.pages[1].z, 3);
    assert_eq!(doc.pages[0].width, 1024);
    assert_eq!(doc.pages[0].height, 1400);
    assert_eq!(doc.header.preset, EncoderPreset::Reports);
}
