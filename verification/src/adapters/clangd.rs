//! C/C++ LSP adapter (clangd).

use vstd::prelude::*;

use super::LspAdapter;
use crate::adapters;
use crate::json::{no_fields, with, Json, JsonView};
use crate::types::LanguageId;

verus! {

pub struct ClangdAdapter;

/// The initialization options that the server gets.
pub open spec fn options() -> JsonView {
    JsonView::Object(
        map![
            "clangd"@ => JsonView::Object(
                map![
                    "diagnostics"@ => JsonView::Object(
                        map![
                            "onOpen"@ => JsonView::Bool(false),
                            "onChange"@ => JsonView::Bool(false),
                            "onSave"@ => JsonView::Bool(false),
                        ],
                    ),
                ],
            ),
        ],
    )
}

impl LspAdapter for ClangdAdapter {
    fn language_id(&self) -> (r: LanguageId)
        ensures
            r == LanguageId::C,
    {
        // Covers both C and C++.
        LanguageId::C
    }

    fn server_command(&self) -> (r: &'static str)
        ensures
            r@ == "clangd"@,
    {
        "clangd"
    }

    fn file_extensions(&self) -> (r: &'static [&'static str])
        ensures
            adapters::texts_of(r) == seq!["c"@, "h"@, "cpp"@, "hpp"@, "cc"@, "cxx"@],
    {
        let r: &'static [&'static str] = &["c", "h", "cpp", "hpp", "cc", "cxx"];
        assert(adapters::texts_of(r) =~= seq!["c"@, "h"@, "cpp"@, "hpp"@, "cc"@, "cxx"@]);
        r
    }

    fn initialization_options(&self, _workspace_root: &str) -> (r: Option<Json>)
        ensures
            r.deep_view() == Some(options()),
    {
        let diagnostics = with(no_fields(), "onOpen", Json::Bool(false));
        let diagnostics = with(diagnostics, "onChange", Json::Bool(false));
        let diagnostics = with(diagnostics, "onSave", Json::Bool(false));
        let clangd = with(no_fields(), "diagnostics", Json::Object(diagnostics));
        let fields = with(no_fields(), "clangd", Json::Object(clangd));
        Some(Json::Object(fields))
    }

    fn requires_workspace_indexing(&self) -> (r: bool)
        ensures
            r,
    {
        // It needs compile_commands.json.
        true
    }

    fn estimated_index_time_secs(&self) -> (r: u32)
        ensures
            r == 20,
    {
        20
    }
}

} // verus!
