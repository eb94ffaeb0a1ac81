//! pyright LSP adapter for Python.

use vstd::prelude::*;

use super::LspAdapter;
use crate::adapters;
use crate::adapters::one_text;
use crate::json::{no_fields, with, Json, JsonView};
use crate::types::LanguageId;

verus! {

pub struct PyrightAdapter;

/// The initialization options that the server gets.
pub open spec fn options() -> JsonView {
    JsonView::Object(
        map![
            "pythonPath"@ => JsonView::Text("python3"@),
            "diagnosticMode"@ => JsonView::Text("off"@),
        ],
    )
}

impl LspAdapter for PyrightAdapter {
    fn language_id(&self) -> (r: LanguageId)
        ensures
            r == LanguageId::Python,
    {
        LanguageId::Python
    }

    fn server_command(&self) -> (r: &'static str)
        ensures
            r@ == "pyright-langserver"@,
    {
        "pyright-langserver"
    }

    fn server_args(&self) -> (r: Vec<String>)
        ensures
            r.deep_view() == seq!["--stdio"@],
    {
        one_text("--stdio")
    }

    fn file_extensions(&self) -> (r: &'static [&'static str])
        ensures
            adapters::texts_of(r) == seq!["py"@, "pyi"@],
    {
        let r: &'static [&'static str] = &["py", "pyi"];
        assert(adapters::texts_of(r) =~= seq!["py"@, "pyi"@]);
        r
    }

    fn initialization_options(&self, _workspace_root: &str) -> (r: Option<Json>)
        ensures
            r.deep_view() == Some(options()),
    {
        let fields = with(no_fields(), "pythonPath", Json::Text("python3".to_owned()));
        let fields = with(fields, "diagnosticMode", Json::Text("off".to_owned()));
        Some(Json::Object(fields))
    }

    fn requires_workspace_indexing(&self) -> (r: bool)
        ensures
            r,
    {
        true
    }

    fn estimated_index_time_secs(&self) -> (r: u32)
        ensures
            r == 15,
    {
        15
    }
}

} // verus!
