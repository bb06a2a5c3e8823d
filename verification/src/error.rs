//! Error taxonomy of the encoding core.

use vstd::prelude::*;

verus! {

/// Errors surfaced by the encoding core.
///
/// NumGuard findings are never errors: they are advisory data carried in
/// the metrics, and never abort an encode call.
#[derive(Debug, Clone, Copy, PartialEq, Eq, Structural)]
pub enum DcfError {
    /// The ingestion adapter produced no page units at all.
    UnsupportedInput,
    /// Unknown preset name, or tuning values outside their valid ranges;
    /// rejected at construction time, never reaches the pipeline.
    ConfigurationError,
    /// An internal invariant violation, e.g. a dictionary lookup miss.
    EncodingFailure,
}

impl DcfError {
    /// A short human-readable description of the error.
    pub fn describe(&self) -> String {
        match self {
            DcfError::UnsupportedInput => "unsupported input: no page units".to_owned(),
            DcfError::ConfigurationError => "invalid configuration".to_owned(),
            DcfError::EncodingFailure => "internal encoding invariant violated".to_owned(),
        }
    }
}

} // verus!
