use three_dcf_core::numguard::{extract_tokens, NumGuardIssue, Severity};
use three_dcf_core::{Encoder, EncoderBuilder, RawUnit};

fn unit(text: &str, x: u32, y: u32, w: u32, h: u32, z: u32) -> RawUnit {
    RawUnit { text: text.as_bytes().to_vec(), x, y, w, h, z }
}

fn table_row(text: &str, row: u32, z: u32) -> RawUnit {
    unit(text, 100, 400 + 20 * row, 300, 18, z)
}

fn body(text: &str, z: u32) -> RawUnit {
    unit(text, 100, 400, 300, 20, z)
}

#[test]
fn matching_total_raises_no_alert() {
    let enc = Encoder::from_preset("reports").unwrap();
    let units = vec![
        table_row("| 10 |", 0, 1),
        table_row("| 20 |", 1, 1),
        table_row("| 30 |", 2, 1),
        table_row("| Total 60 |", 3, 1),
    ];
    let (_, m) = enc.encode(&units).unwrap();
    assert_eq!(m.numguard_count, 0);
    assert!(m.alerts.is_empty());
}

#[test]
fn mismatched_total_raises_one_medium_alert() {
    let enc = Encoder::from_preset("reports").unwrap();
    let units = vec![
        table_row("| 10 |", 0, 1),
        table_row("| 20 |", 1, 1),
        table_row("| 30 |", 2, 1),
        table_row("| Total 55 |", 3, 1),
    ];
    let (_, m) = enc.encode(&units).unwrap();
    assert_eq!(m.numguard_count, 1);
    let a = &m.alerts[0];
    assert_eq!(a.issue, NumGuardIssue::SumMismatch);
    assert_eq!(a.severity, Severity::Medium);
    assert_eq!(a.cell, 3);
    // the constituents sum to 60: that is the expected total; 55 is found
    assert_eq!(a.expected_c, 6000);
    assert_eq!(a.found_c, 5500);
}

#[test]
fn magnitude_outlier_is_flagged_low() {
    let enc = Encoder::from_preset("reports").unwrap();
    let units = vec![
        table_row("| 10 |", 0, 1),
        table_row("| 11 |", 1, 1),
        table_row("| 12 |", 2, 1),
        table_row("| 5000 |", 3, 1),
    ];
    let (_, m) = enc.encode(&units).unwrap();
    assert_eq!(m.numguard_count, 1);
    let a = &m.alerts[0];
    assert_eq!(a.issue, NumGuardIssue::MagnitudeOutlier);
    assert_eq!(a.severity, Severity::Low);
    assert_eq!(a.cell, 3);
    assert_eq!(a.expected_c, 1200);
    assert_eq!(a.found_c, 500000);
}

#[test]
fn label_drift_across_pages_is_flagged() {
    let enc = Encoder::from_preset("reports").unwrap();
    let units = vec![body("revenue 100", 1), body("revenue 250", 2)];
    let (_, m) = enc.encode(&units).unwrap();
    assert_eq!(m.numguard_count, 1);
    let a = &m.alerts[0];
    assert_eq!(a.issue, NumGuardIssue::CrossOccurrenceDrift);
    assert_eq!(a.severity, Severity::Medium);
    assert_eq!(a.cell, 0);
    assert_eq!(a.other_cell, 1);
    assert_eq!(a.expected_c, 10000);
    assert_eq!(a.found_c, 25000);
}

#[test]
fn close_values_do_not_drift() {
    let enc = Encoder::from_preset("reports").unwrap();
    let units = vec![body("revenue 100", 1), body("revenue 101", 2)];
    let (_, m) = enc.encode(&units).unwrap();
    assert_eq!(m.numguard_count, 0);
}

#[test]
fn numguard_never_mutates_cells() {
    let enc = EncoderBuilder::new("reports").unwrap().build().unwrap();
    let units = vec![
        table_row("| 10 |", 0, 1),
        table_row("| Total 55 |", 1, 1),
        body("revenue 100", 2),
        body("revenue 9999", 3),
    ];
    let (doc, m) = enc.encode(&units).unwrap();
    assert!(m.numguard_count > 0);
    // re-running the advisory pass changes nothing in the document
    let cells_before = doc.cells.clone();
    let guard = three_dcf_core::NumGuard::new(three_dcf_core::NumGuardConfig {
        sum_tol_permille: 5,
        outlier_factor: 100,
        drift_percent: 50,
    });
    let alerts = guard.run(&doc);
    assert_eq!(doc.cells, cells_before);
    assert_eq!(alerts.len(), m.numguard_count);
}

#[test]
fn alerts_survive_budget_trimming() {
    // NumGuard runs over the full deduplicated sequence before the
    // trimmer: an alert is kept even when the budget drops its cell.
    let enc = EncoderBuilder::new("reports").unwrap().budget(Some(3)).build().unwrap();
    let units = vec![table_row("| 10 |", 0, 1), table_row("| Total 55 |", 1, 1)];
    let (doc, m) = enc.encode(&units).unwrap();
    assert_eq!(m.cells_total, 2);
    assert!(m.cells_kept < 2);
    assert_eq!(m.numguard_count, 1);
    let a = &m.alerts[0];
    assert_eq!(a.issue, NumGuardIssue::SumMismatch);
    // the alert's index refers to the pre-trim sequence
    assert_eq!(a.cell, 1);
    assert_eq!(a.expected_c, 1000);
    assert_eq!(a.found_c, 5500);
    assert!(doc.cell_count() < 2);
}

#[test]
fn token_extraction_parses_decimals_and_percent() {
    let toks = extract_tokens(&b"price 12.5% and $30, code 7".to_vec());
    let vals: Vec<u64> = toks.iter().map(|t| t.value_c).collect();
    assert_eq!(vals, vec![1250, 3000, 700]);
}

#[test]
fn token_extraction_truncates_extra_fraction_digits() {
    let toks = extract_tokens(&b"12.345".to_vec());
    assert_eq!(toks.len(), 1);
    assert_eq!(toks[0].value_c, 1234);
    assert_eq!(toks[0].start, 0);
    assert_eq!(toks[0].end, 6);
}

#[test]
fn alert_describe_names_the_issue() {
    let enc = Encoder::from_preset("reports").unwrap();
    let units = vec![body("revenue 100", 1), body("revenue 250", 2)];
    let (_, m) = enc.encode(&units).unwrap();
    assert!(m.alerts[0].describe().contains("label"));
}
