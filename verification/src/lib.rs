//! LSP client for Kin graph enrichment.
//!
//! Consumes external LSP servers (rust-analyzer, pyright, tsserver, etc.)
//! to produce type-resolved relations that tree-sitter cannot provide.
//!
//! Everything that decides is here and proved: what is asked of a server and what
//! is made of its answers, which provider serves a language, what a run can be
//! cited for. Processes, pipes and clocks are the application's.

pub mod adapters;
pub mod answer_laws;
pub mod cache;
pub mod capability;
pub mod citation_laws;
pub mod client;
pub mod decimal;
pub mod discovery;
pub mod enrichment;
pub mod enrichment_proof;
pub mod entity_index;
pub mod error;
pub mod file_enrichment;
pub mod join_laws;
pub mod json;
pub mod lifecycle;
pub mod pass;
pub mod pass_laws;
pub mod probe_laws;
pub mod proof_json;
pub mod protocol;
pub mod provenance;
pub mod recorder_laws;
pub mod registry;
pub mod scan;
pub mod sorting;
pub mod text;
pub mod types;
pub mod wire_laws;

pub use enrichment::{EnrichmentResult, EntityIndex, EntityRef};
pub use enrichment_proof::{
    FileFailure, LanguageEnrichment, LspEnrichmentProof, ProofMode, ProofRecorder, ProofViolation,
};
pub use error::LspError;
pub use registry::{
    language_from_slug, stamp_lsp_provenance, BinaryFinder, LspCapability, LspProvenance,
    ProviderGap, ProviderGapReason, ProviderId, ProviderProbe, ProviderRegistry, RegistryConfig,
    RegistryConfigError, ResolvedProvider,
};
