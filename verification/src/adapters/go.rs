//! Go LSP adapter (gopls).

use vstd::prelude::*;

use super::LspAdapter;
use crate::adapters;
use crate::adapters::one_text;
use crate::json::{no_fields, with, Json, JsonView};
use crate::types::LanguageId;

verus! {

pub struct GoplsAdapter;

/// The initialization options that the server gets.
pub open spec fn options() -> JsonView {
    JsonView::Object(
        map![
            "analyses"@ => JsonView::Object(
                map![
                    "unusedparams"@ => JsonView::Bool(false),
                    "shadow"@ => JsonView::Bool(false),
                ],
            ),
            "diagnosticsDelay"@ => JsonView::Text("500ms"@),
        ],
    )
}

impl LspAdapter for GoplsAdapter {
    fn language_id(&self) -> (r: LanguageId)
        ensures
            r == LanguageId::Go,
    {
        LanguageId::Go
    }

    fn server_command(&self) -> (r: &'static str)
        ensures
            r@ == "gopls"@,
    {
        "gopls"
    }

    fn server_args(&self) -> (r: Vec<String>)
        ensures
            r.deep_view() == seq!["serve"@],
    {
        one_text("serve")
    }

    fn file_extensions(&self) -> (r: &'static [&'static str])
        ensures
            adapters::texts_of(r) == seq!["go"@],
    {
        let r: &'static [&'static str] = &["go"];
        assert(adapters::texts_of(r) =~= seq!["go"@]);
        r
    }

    fn initialization_options(&self, _workspace_root: &str) -> (r: Option<Json>)
        ensures
            r.deep_view() == Some(options()),
    {
        let analyses = with(no_fields(), "unusedparams", Json::Bool(false));
        let analyses = with(analyses, "shadow", Json::Bool(false));
        let fields = with(no_fields(), "analyses", Json::Object(analyses));
        let fields = with(fields, "diagnosticsDelay", Json::Text("500ms".to_owned()));
        Some(Json::Object(fields))
    }

    fn requires_workspace_indexing(&self) -> (r: bool)
        ensures
            r,
    {
        true
    }

    fn estimated_index_time_secs(&self) -> (r: u32)
        ensures
            r == 15,
    {
        15
    }
}

} // verus!
