use three_dcf_core::config::Header;
use three_dcf_core::document::{CellRecord, CellType, DictEntry, PageInfo};
use three_dcf_core::{hash_payload, ChunkConfig, ChunkMode, Chunker, Document, TokenizerKind};
use three_dcf_core::config::EncoderPreset;

/// A document of `n` body cells, each costing `words` whitespace tokens.
fn doc_with_costs(costs: &[u64]) -> Document {
    let mut cells = Vec::new();
    let mut dict = Vec::new();
    for (i, c) in costs.iter().enumerate() {
        let mut text: Vec<u8> = Vec::new();
        for w in 0..*c {
            if w > 0 {
                text.push(b' ');
            }
            text.extend_from_slice(format!("w{}x{}", i, w).as_bytes());
        }
        let key = hash_payload(&text);
        cells.push(CellRecord {
            code_id: key,
            cell_type: CellType::Body,
            x: 0,
            y: 100,
            w: 100,
            h: 20,
            z: 1,
            importance: 50,
        });
        dict.push(DictEntry { key, payload: text });
    }
    Document {
        header: Header {
            preset: EncoderPreset::Reports,
            budget: None,
            dedup_window: 5,
            drop_footers: false,
        },
        pages: vec![PageInfo { z: 1, width: 1024, height: 1400 }],
        cells,
        dict,
    }
}

#[test]
fn token_mode_respects_max_and_overlap() {
    // five cells of 40 tokens each, max 100, overlap 20
    let doc = doc_with_costs(&[40, 40, 40, 40, 40]);
    let chunker = Chunker::new(ChunkConfig {
        mode: ChunkMode::Tokens,
        cells_per_chunk: 0,
        overlap_cells: 0,
        max_tokens: 100,
        overlap_tokens: 20,
        tokenizer: TokenizerKind::Whitespace,
    });
    let chunks = chunker.chunk(&doc);
    let ranges: Vec<(usize, usize)> = chunks.iter().map(|c| (c.start, c.end)).collect();
    assert_eq!(ranges, vec![(0, 2), (1, 3), (2, 4), (3, 5)]);
    for c in chunks.iter() {
        assert!(c.token_count <= 100);
    }
    // consecutive chunks share one 40-token cell: at least 20 tokens of overlap
    for w in chunks.windows(2) {
        assert!(w[1].start < w[0].end);
    }
}

#[test]
fn token_mode_gives_oversized_cell_its_own_chunk() {
    let doc = doc_with_costs(&[10, 300, 10]);
    let chunker = Chunker::new(ChunkConfig {
        mode: ChunkMode::Tokens,
        cells_per_chunk: 0,
        overlap_cells: 0,
        max_tokens: 50,
        overlap_tokens: 0,
        tokenizer: TokenizerKind::Whitespace,
    });
    let chunks = chunker.chunk(&doc);
    let ranges: Vec<(usize, usize)> = chunks.iter().map(|c| (c.start, c.end)).collect();
    assert_eq!(ranges, vec![(0, 1), (1, 2), (2, 3)]);
}

#[test]
fn cells_mode_windows_with_overlap() {
    let doc = doc_with_costs(&[5, 5, 5, 5, 5]);
    let chunker = Chunker::new(ChunkConfig {
        mode: ChunkMode::Cells,
        cells_per_chunk: 2,
        overlap_cells: 1,
        max_tokens: 0,
        overlap_tokens: 0,
        tokenizer: TokenizerKind::Whitespace,
    });
    let chunks = chunker.chunk(&doc);
    let ranges: Vec<(usize, usize)> = chunks.iter().map(|c| (c.start, c.end)).collect();
    assert_eq!(ranges, vec![(0, 2), (1, 3), (2, 4), (3, 5)]);
    for (i, c) in chunks.iter().enumerate() {
        assert_eq!(c.id, i);
        assert_eq!(c.token_count, 5 * (c.end - c.start) as u64);
    }
}

#[test]
fn chunks_cover_every_cell_in_order() {
    for costs in [&[7u64, 3, 9, 1, 4, 4, 2][..], &[100, 1][..], &[2][..]] {
        let doc = doc_with_costs(costs);
        let chunker = Chunker::new(ChunkConfig {
            mode: ChunkMode::Tokens,
            cells_per_chunk: 0,
            overlap_cells: 0,
            max_tokens: 10,
            overlap_tokens: 3,
            tokenizer: TokenizerKind::Whitespace,
        });
        let chunks = chunker.chunk(&doc);
        let mut covered = vec![false; costs.len()];
        for c in chunks.iter() {
            for k in c.start..c.end {
                covered[k] = true;
            }
        }
        assert!(covered.iter().all(|x| *x));
        for w in chunks.windows(2) {
            assert!(w[0].start < w[1].start);
            assert!(w[1].start <= w[0].end);
        }
        assert_eq!(chunks.first().unwrap().start, 0);
        assert_eq!(chunks.last().unwrap().end, costs.len());
    }
}

#[test]
fn empty_document_yields_no_chunks() {
    let doc = doc_with_costs(&[]);
    let chunker = Chunker::new(ChunkConfig {
        mode: ChunkMode::Cells,
        cells_per_chunk: 3,
        overlap_cells: 0,
        max_tokens: 0,
        overlap_tokens: 0,
        tokenizer: TokenizerKind::Whitespace,
    });
    assert!(chunker.chunk(&doc).is_empty());
}
