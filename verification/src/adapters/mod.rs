//! Per-language LSP server adapters.
//!
//! Each adapter knows how to configure and start its language's LSP server,
//! and how to interpret server-specific behaviors or quirks.

use vstd::prelude::*;

use crate::json::Json;
use crate::types::LanguageId;

pub mod clangd;
pub mod go;
pub mod java;
pub mod python;
pub mod rust_analyzer;
pub mod typescript;

verus! {

/// Trait that each language adapter implements.
///
/// The generic framework handles JSON-RPC transport, message routing, and
/// enrichment conversion. Adapters handle the language-specific parts:
/// how to start the server, what initialization options to send, and
/// how to map language-specific features to graph operations.
pub trait LspAdapter: Send + Sync {
    /// Which language this adapter handles.
    fn language_id(&self) -> LanguageId;

    /// The command to start the LSP server (e.g., "rust-analyzer").
    fn server_command(&self) -> &'static str;

    /// Arguments to pass to the server command.
    fn server_args(&self) -> (r: Vec<String>)
        default_ensures
            r@.len() == 0,
    {
        Vec::new()
    }

    /// Language-specific initialization options to send in the
    /// `initializationOptions` field of the initialize request.
    fn initialization_options(&self, _workspace_root: &str) -> (r: Option<Json>)
        default_ensures
            r is None,
    {
        None
    }

    /// File extensions this adapter handles (e.g., ["rs"] for Rust).
    fn file_extensions(&self) -> &'static [&'static str];

    /// Whether this adapter needs the server to index the entire workspace
    /// before queries are meaningful (e.g., rust-analyzer needs cargo metadata).
    fn requires_workspace_indexing(&self) -> (r: bool)
        default_ensures
            r,
    {
        true
    }

    /// Estimated time in seconds for the server to index a typical workspace.
    /// Used for progress reporting, not as a hard timeout.
    fn estimated_index_time_secs(&self) -> (r: u32)
        default_ensures
            r == 30,
    {
        30
    }
}

/// What some texts say.
pub open spec fn texts_of(texts: &'static [&'static str]) -> Seq<Seq<char>> {
    Seq::new(texts@.len(), |i: int| texts@[i]@)
}

/// A list of one text.
pub(crate) fn one_text(s: &str) -> (r: Vec<String>)
    ensures
        r.deep_view() == seq![s@],
{
    let r = vec![s.to_owned()];
    assert(r.deep_view() =~= seq![s@]);
    r
}

} // verus!
