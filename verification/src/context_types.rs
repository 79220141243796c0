//! Plain kinds shared by the context database: language-model errors, what
//! to do with a memory candidate, derivations of the compute sandbox, and
//! modalities of multimodal alignment.

use vstd::prelude::*;

verus! {

/// Why a language-model call failed.
#[derive(Debug, Clone, PartialEq, Eq)]
pub enum LlmError {
    Provider(String),
    Timeout,
    RateLimited,
}

/// What to do with an extracted memory candidate.
#[derive(Debug, Clone, Copy, PartialEq, Eq, Structural)]
pub enum CandidateAction {
    Skip,
    Create,
    Merge,
    Delete,
    /// Nothing to do.
    NoOp,
}

/// A derivation the compute sandbox runs over context data.
#[derive(Debug, Clone, PartialEq, Eq)]
pub enum WasmDerivation {
    /// Cluster analysis.
    Cluster { method: String, k: usize },
    /// Summary statistics.
    Stats,
    /// Trend detection.
    TrendDetection,
    /// A custom module.
    Custom { module_name: String },
}

/// A modality of multimodal content.
#[derive(Debug, Clone, Copy, PartialEq, Eq, Structural)]
pub enum Modality {
    Text,
    Image,
    Audio,
    Video,
}

impl LlmError {
    /// The error's message (its display form).
    pub fn message(&self) -> (r: String)
        ensures
            match self {
                LlmError::Provider(m) => r@ == "provider: "@ + m@,
                LlmError::Timeout => r@ == "timeout"@,
                LlmError::RateLimited => r@ == "rate limited"@,
            },
    {
        match self {
            LlmError::Provider(m) => crate::text::concat_str("provider: ", m.as_str()),
            LlmError::Timeout => "timeout".to_owned(),
            LlmError::RateLimited => "rate limited".to_owned(),
        }
    }
}

} // verus!
