//! rust-analyzer LSP adapter.

use vstd::prelude::*;

use super::LspAdapter;
use crate::adapters;
use crate::json::{no_fields, with, Json, JsonView};
use crate::types::LanguageId;

verus! {

pub struct RustAnalyzerAdapter;

/// The initialization options that the server gets.
pub open spec fn options() -> JsonView {
    JsonView::Object(
        map![
            "cargo"@ => JsonView::Object(
                map![
                    "buildScripts"@ => JsonView::Object(
                        map![
                            "enable"@ => JsonView::Bool(false),
                        ],
                    ),
                    "sysroot"@ => JsonView::Text("discover"@),
                ],
            ),
            "procMacro"@ => JsonView::Object(
                map![
                    "enable"@ => JsonView::Bool(false),
                ],
            ),
            "checkOnSave"@ => JsonView::Bool(false),
            "diagnostics"@ => JsonView::Object(
                map![
                    "enable"@ => JsonView::Bool(false),
                ],
            ),
        ],
    )
}

impl LspAdapter for RustAnalyzerAdapter {
    fn language_id(&self) -> (r: LanguageId)
        ensures
            r == LanguageId::Rust,
    {
        LanguageId::Rust
    }

    fn server_command(&self) -> (r: &'static str)
        ensures
            r@ == "rust-analyzer"@,
    {
        "rust-analyzer"
    }

    fn file_extensions(&self) -> (r: &'static [&'static str])
        ensures
            adapters::texts_of(r) == seq!["rs"@],
    {
        let r: &'static [&'static str] = &["rs"];
        assert(adapters::texts_of(r) =~= seq!["rs"@]);
        r
    }

    fn initialization_options(&self, _workspace_root: &str) -> (r: Option<Json>)
        ensures
            r.deep_view() == Some(options()),
    {
        // Disable features we don't need to speed up indexing.
        let build_scripts = with(no_fields(), "enable", Json::Bool(false));
        let cargo = with(no_fields(), "buildScripts", Json::Object(build_scripts));
        let cargo = with(cargo, "sysroot", Json::Text("discover".to_owned()));
        let proc_macro = with(no_fields(), "enable", Json::Bool(false));
        let diagnostics = with(no_fields(), "enable", Json::Bool(false));
        let fields = with(no_fields(), "cargo", Json::Object(cargo));
        let fields = with(fields, "procMacro", Json::Object(proc_macro));
        let fields = with(fields, "checkOnSave", Json::Bool(false));
        let fields = with(fields, "diagnostics", Json::Object(diagnostics));
        Some(Json::Object(fields))
    }

    fn requires_workspace_indexing(&self) -> (r: bool)
        ensures
            r,
    {
        // rust-analyzer needs to load cargo metadata.
        true
    }

    fn estimated_index_time_secs(&self) -> (r: u32)
        ensures
            r == 30,
    {
        // Typical for medium Rust projects.
        30
    }
}

} // verus!
