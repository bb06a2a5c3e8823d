//! Core document-encoding library.
//!
//! Converts per-page raw content units into a normalized, cell-based
//! `Document`: cells are classified, scored for importance, deduplicated
//! across a sliding page window through a content-addressed dictionary,
//! checked for numeric consistency (advisory alerts only), and optionally
//! trimmed to a token budget. A separate chunker windows a finished
//! `Document` into overlapping, order-preserving chunks for retrieval.

pub mod chunk;
pub mod classify;
pub mod config;
pub mod dedup;
pub mod encoder;
pub mod document;
pub mod error;
pub mod hashing;
pub mod index;
pub mod normalize;
pub mod numguard;
pub mod score;
pub mod tokens;
pub mod trim;

pub use chunk::{ChunkConfig, ChunkMode, ChunkRecord, Chunker};
pub use classify::RawUnit;
pub use config::{
    EncoderConfig, EncoderPreset, Header, HyphenationMode, ImportanceTuning, NumGuardConfig,
};
pub use document::{CellRecord, CellType, Document, PageInfo};
pub use encoder::{Encoder, EncoderBuilder, Metrics};
pub use error::DcfError;
pub use hashing::{hash_payload, CodeHash};
pub use index::{DocumentRecord, JsonlWriter};
pub use numguard::{NumGuard, NumGuardAlert, NumGuardIssue, Severity};
pub use tokens::{estimate_tokens, TokenizerKind};

use vstd::prelude::*;

verus! {

} // verus!
