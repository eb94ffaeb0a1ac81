//! Java LSP adapter (Eclipse JDT Language Server).

use vstd::prelude::*;

use super::LspAdapter;
use crate::adapters;
use crate::json::Json;
use crate::types::LanguageId;

verus! {

pub struct JdtlsAdapter;

impl LspAdapter for JdtlsAdapter {
    fn language_id(&self) -> (r: LanguageId)
        ensures
            r == LanguageId::Java,
    {
        LanguageId::Java
    }

    fn server_command(&self) -> (r: &'static str)
        ensures
            r@ == "jdtls"@,
    {
        "jdtls"
    }

    fn file_extensions(&self) -> (r: &'static [&'static str])
        ensures
            adapters::texts_of(r) == seq!["java"@],
    {
        let r: &'static [&'static str] = &["java"];
        assert(adapters::texts_of(r) =~= seq!["java"@]);
        r
    }

    fn initialization_options(&self, _workspace_root: &str) -> (r: Option<Json>)
        ensures
            r is None,
    {
        None  // jdtls uses workspace-level config

    }

    fn requires_workspace_indexing(&self) -> (r: bool)
        ensures
            r,
    {
        true
    }

    fn estimated_index_time_secs(&self) -> (r: u32)
        ensures
            r == 20,
    {
        20
    }
}

} // verus!
