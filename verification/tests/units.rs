use three_dcf_core::classify::classify_unit;
use three_dcf_core::config::{default_config, EncoderPreset, HyphenationMode};
use three_dcf_core::document::{CellRecord, CellType};
use three_dcf_core::normalize::normalize_payload;
use three_dcf_core::score::score_cell;
use three_dcf_core::trim::trim_cells;
use three_dcf_core::{
    estimate_tokens, hash_payload, DocumentRecord, ImportanceTuning, JsonlWriter, RawUnit,
    TokenizerKind,
};

fn unit(text: &str, x: u32, y: u32, w: u32, h: u32, z: u32) -> RawUnit {
    RawUnit { text: text.as_bytes().to_vec(), x, y, w, h, z }
}

#[test]
fn hashing_is_deterministic_and_content_addressed() {
    let a = hash_payload(&b"running footer".to_vec());
    let b = hash_payload(&b"running footer".to_vec());
    let c = hash_payload(&b"running footer!".to_vec());
    assert_eq!(a, b);
    assert_ne!(a, c);
}

#[test]
fn whitespace_estimator_counts_words() {
    assert_eq!(estimate_tokens(&b"hello world".to_vec(), TokenizerKind::Whitespace), 2);
    assert_eq!(estimate_tokens(&b"  spaced   out words ".to_vec(), TokenizerKind::Whitespace), 3);
    assert_eq!(estimate_tokens(&b"".to_vec(), TokenizerKind::Whitespace), 0);
}

#[test]
fn char_ratio_estimator_rounds_up() {
    assert_eq!(estimate_tokens(&b"123456789".to_vec(), TokenizerKind::CharRatio), 3);
    assert_eq!(estimate_tokens(&b"12345678".to_vec(), TokenizerKind::CharRatio), 2);
    assert_eq!(estimate_tokens(&b"".to_vec(), TokenizerKind::CharRatio), 0);
}

#[test]
fn hyphenated_line_breaks_merge() {
    let out = normalize_payload(&b"hy-\nphen and more-\ntext".to_vec(), HyphenationMode::Merge);
    assert_eq!(out, b"hyphen and moretext".to_vec());
    let kept =
        normalize_payload(&b"hy-\nphen".to_vec(), HyphenationMode::Preserve);
    assert_eq!(kept, b"hy-\nphen".to_vec());
}

#[test]
fn classifier_recognizes_the_variant_set() {
    let cfg = default_config(EncoderPreset::Reports);
    // two pipes: a grid-aligned table row
    assert_eq!(classify_unit(&unit("| a | b |", 100, 400, 300, 18, 1), &cfg), CellType::Table);
    // short all-caps line: a heading
    assert_eq!(classify_unit(&unit("SUMMARY", 100, 200, 300, 24, 1), &cfg), CellType::Heading);
    // trailing colon: a heading
    assert_eq!(classify_unit(&unit("Results:", 100, 200, 300, 20, 1), &cfg), CellType::Heading);
    // four leading spaces: code
    assert_eq!(classify_unit(&unit("    let x = 1;", 100, 400, 300, 18, 1), &cfg), CellType::Code);
    // a figure label: a caption
    assert_eq!(
        classify_unit(&unit("Figure 3 overview", 100, 400, 300, 18, 1), &cfg),
        CellType::Caption
    );
    // bottom margin band: a footer
    assert_eq!(
        classify_unit(&unit("company confidential", 100, 1380, 300, 18, 1), &cfg),
        CellType::Footer
    );
    // everything else: body text
    assert_eq!(
        classify_unit(&unit("plain paragraph text", 100, 400, 300, 18, 1), &cfg),
        CellType::Body
    );
}

#[test]
fn scorer_applies_the_documented_formula() {
    let tn = ImportanceTuning::default();
    // body, mid-page: 50 * (100 + 20*(1400-400)/1400)/100 = 50*114/100 = 57
    assert_eq!(score_cell(CellType::Body, 400, 1400, false, &tn), 57);
    // heading at the top: 80*150/100 = 120 -> *120/100 = 144 -> clamped
    assert_eq!(score_cell(CellType::Heading, 0, 1400, false, &tn), 100);
    // footer at the bottom: 20 * 100/100 = 20 -> *50/100 = 10
    assert_eq!(score_cell(CellType::Footer, 1400, 1400, false, &tn), 10);
    // numeric body cell gets the number boost: 50*120/100 = 60 -> *114/100 = 68
    assert_eq!(score_cell(CellType::Body, 400, 1400, true, &tn), 68);
}

#[test]
fn trimming_keeps_top_importance_in_original_order() {
    // budget 50 over (importance, cost) = (90,20),(10,20),(80,20):
    // the two highest-importance cells fit and keep document order.
    let mk = |id: u64, imp: u32| CellRecord {
        code_id: id,
        cell_type: CellType::Body,
        x: 0,
        y: 0,
        w: 10,
        h: 10,
        z: 1,
        importance: imp,
    };
    let cells = vec![mk(1, 90), mk(2, 10), mk(3, 80)];
    let costs = vec![20u64, 20, 20];
    let kept = trim_cells(&cells, &costs, 50);
    assert_eq!(kept.len(), 2);
    assert_eq!(kept[0].code_id, 1);
    assert_eq!(kept[0].importance, 90);
    assert_eq!(kept[1].code_id, 3);
    assert_eq!(kept[1].importance, 80);
}

#[test]
fn trimming_breaks_ties_toward_earlier_cells() {
    let mk = |id: u64, imp: u32| CellRecord {
        code_id: id,
        cell_type: CellType::Body,
        x: 0,
        y: 0,
        w: 10,
        h: 10,
        z: 1,
        importance: imp,
    };
    let cells = vec![mk(1, 70), mk(2, 70), mk(3, 70)];
    let costs = vec![20u64, 20, 20];
    let kept = trim_cells(&cells, &costs, 40);
    assert_eq!(kept.len(), 2);
    assert_eq!(kept[0].code_id, 1);
    assert_eq!(kept[1].code_id, 2);
}

#[test]
fn jsonl_writer_roundtrips_records() {
    let line = br#"{"doc_id":"doc_1","title":"Test","source_type":"files","source_format":"pdf","source_ref":"/tmp/input.pdf","tags":["tag1"]}"#;
    let mut writer = JsonlWriter::new(Vec::new());
    writer.write_line(line).unwrap();
    let buf = writer.into_inner();
    assert!(buf.ends_with(b"\n"));
    let parsed: serde_json::Value = serde_json::from_slice(&buf).unwrap();
    assert_eq!(parsed["doc_id"], "doc_1");
    assert_eq!(parsed["title"], "Test");
}

#[test]
fn jsonl_writer_multiple_records() {
    let mut writer = JsonlWriter::new(Vec::new());
    writer.write_line(br#"{"doc_id":"doc_1"}"#).unwrap();
    writer.write_line(br#"{"doc_id":"doc_2"}"#).unwrap();
    let buf = writer.into_inner();
    let lines: Vec<&str> = std::str::from_utf8(&buf).unwrap().lines().collect();
    assert_eq!(lines.len(), 2);
    assert!(lines[0].contains("doc_1"));
    assert!(lines[1].contains("doc_2"));
}

#[test]
fn jsonl_writer_refuses_embedded_newlines() {
    let mut writer = JsonlWriter::new(Vec::new());
    let r = writer.write_line(b"broken\nrecord");
    assert_eq!(r.unwrap_err(), three_dcf_core::DcfError::EncodingFailure);
    assert!(writer.flush().is_ok());
    assert!(writer.into_inner().is_empty());
}

#[test]
fn default_document_record_is_empty() {
    let r = DocumentRecord::default();
    assert!(r.doc_id.is_empty());
    assert!(r.title.is_none());
    assert!(r.tags.is_empty());
}

#[test]
fn error_descriptions_are_stable() {
    assert!(three_dcf_core::DcfError::UnsupportedInput.describe().contains("unsupported"));
    assert!(three_dcf_core::DcfError::ConfigurationError.describe().contains("configuration"));
    assert!(three_dcf_core::DcfError::EncodingFailure.describe().contains("invariant"));
}
