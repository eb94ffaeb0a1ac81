//! TypeScript/JavaScript LSP adapter (typescript-language-server or vtsls).

use vstd::prelude::*;

use super::LspAdapter;
use crate::adapters;
use crate::adapters::one_text;
use crate::json::{no_fields, with, Json, JsonView};
use crate::types::LanguageId;

verus! {

pub struct TypeScriptAdapter;

/// The initialization options that the server gets.
pub open spec fn options() -> JsonView {
    JsonView::Object(
        map![
            "preferences"@ => JsonView::Object(
                map![
                    "includeInlayParameterNameHints"@ => JsonView::Text("none"@),
                    "includeInlayPropertyDeclarationTypeHints"@ => JsonView::Bool(false),
                ],
            ),
        ],
    )
}

impl LspAdapter for TypeScriptAdapter {
    fn language_id(&self) -> (r: LanguageId)
        ensures
            r == LanguageId::TypeScript,
    {
        LanguageId::TypeScript
    }

    fn server_command(&self) -> (r: &'static str)
        ensures
            r@ == "typescript-language-server"@,
    {
        "typescript-language-server"
    }

    fn server_args(&self) -> (r: Vec<String>)
        ensures
            r.deep_view() == seq!["--stdio"@],
    {
        one_text("--stdio")
    }

    fn file_extensions(&self) -> (r: &'static [&'static str])
        ensures
            adapters::texts_of(r) == seq!["ts"@, "tsx"@, "js"@, "jsx"@],
    {
        let r: &'static [&'static str] = &["ts", "tsx", "js", "jsx"];
        assert(adapters::texts_of(r) =~= seq!["ts"@, "tsx"@, "js"@, "jsx"@]);
        r
    }

    fn initialization_options(&self, _workspace_root: &str) -> (r: Option<Json>)
        ensures
            r.deep_view() == Some(options()),
    {
        let preferences = with(no_fields(), "includeInlayParameterNameHints", Json::Text("none".to_owned()));
        let preferences = with(preferences, "includeInlayPropertyDeclarationTypeHints", Json::Bool(false));
        let fields = with(no_fields(), "preferences", Json::Object(preferences));
        Some(Json::Object(fields))
    }

    fn requires_workspace_indexing(&self) -> (r: bool)
        ensures
            r,
    {
        true
    }

    fn estimated_index_time_secs(&self) -> (r: u32)
        ensures
            r == 10,
    {
        10
    }
}

} // verus!
