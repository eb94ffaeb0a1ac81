//! Convert LSP responses into graph relations.
//!
//! The enrichment pipeline:
//! 1. For each entity in the graph, prepare a request about it
//! 2. Send to LSP server, get calls, supertypes, references or types
//! 3. Match the locations it answers against graph entities by file + position
//! 4. Produce Relations with RelationOrigin::Lsp
//!
//! This module holds the decisions that each step takes on its own. The
//! conversation with the server is in [`crate::pass`].

use vstd::prelude::*;

pub use crate::entity_index::{EntityIndex, EntityRef};
pub use crate::scan::member_expression_at;
pub use crate::types::deterministic_relation_id;
use crate::capability::LspCapability;
use crate::entity_index;
use crate::entity_index::{EntityView, FileView};
use crate::lifecycle;
use crate::lifecycle::LspServer;
use crate::pass;
use crate::pass::{Pass, PassView, Purpose, Scope, ScopeView, Task, TaskView};
use crate::protocol;
use crate::protocol::{
    join_path, path_to_uri, uri_to_path, CapabilitiesView, Location, LocationView, Range,
};
use crate::text;
use crate::text::{chars_of, ends_with, same, text_of};
use crate::types;
use crate::types::{
    EntityId, EvidenceView, FilePathId, GraphNodeId, Relation, RelationEvidence, RelationKind,
    RelationOrigin, RelationView, SourceSpan, SpanView,
};

verus! {

/// Result of enriching a single file via LSP.
#[derive(Debug)]
pub struct EnrichmentResult {
    /// New relations discovered by LSP (type-resolved calls, references, etc.)
    pub relations: Vec<Relation>,
    /// Entities that LSP couldn't resolve (for diagnostics).
    pub unresolved: Vec<String>,
    /// Number of call hierarchy items processed.
    pub items_processed: usize,
}

/// What an [`EnrichmentResult`] says.
pub struct EnrichmentResultView {
    pub relations: Seq<RelationView>,
    pub unresolved: Seq<Seq<char>>,
    pub items_processed: usize,
}

impl DeepView for EnrichmentResult {
    type V = EnrichmentResultView;

    open spec fn deep_view(&self) -> EnrichmentResultView {
        EnrichmentResultView {
            relations: self.relations.deep_view(),
            unresolved: self.unresolved.deep_view(),
            items_processed: self.items_processed,
        }
    }
}

impl Default for EnrichmentResult {
    fn default() -> (r: Self)
        ensures
            r.relations@.len() == 0,
            r.unresolved@.len() == 0,
            r.items_processed == 0,
    {
        EnrichmentResult { relations: Vec::new(), unresolved: Vec::new(), items_processed: 0 }
    }
}

// ── Evidence ────────────────────────────────────────────────────────────

/// Evidence that names the range of a file that the server was asked about.
pub open spec fn site_evidence(rule: Seq<char>, file: Seq<char>, range: Range) -> EvidenceView {
    EvidenceView {
        source_span: Some(
            SpanView {
                file,
                start_byte: 0,
                end_byte: 0,
                start_line: range.start.line,
                start_col: range.start.character,
                end_line: range.end.line,
                end_col: range.end.character,
            },
        ),
        parser_rule: Some(rule),
        occurrence_count: 1,
        ..types::empty_evidence()
    }
}

/// Evidence naming the position the server was asked about.
///
/// The call site, not the definition: the range at which the server itself
/// reported the reference. Lines are 0-based on both sides, matching LSP and
/// graph spans, and the display surfaces add one.
pub fn query_position_evidence(rule: &str, file: &str, range: &Range) -> (r: Vec<RelationEvidence>)
    ensures
        r.deep_view() == seq![site_evidence(rule@, file@, *range)],
{
    let evidence = RelationEvidence {
        source_span: Some(
            SourceSpan {
                file: FilePathId(file.to_owned()),
                start_byte: 0,
                end_byte: 0,
                start_line: range.start.line,
                start_col: range.start.character,
                end_line: range.end.line,
                end_col: range.end.character,
            },
        ),
        parser_rule: Some(rule.to_owned()),
        token: None,
        source_path: None,
        resolved_path: None,
        occurrence_count: 1,
        call_shape: None,
    };
    let r = vec![evidence];
    assert(r.deep_view() =~= seq![evidence.deep_view()]);
    r
}

/// A relation that a language server proved.
pub open spec fn lsp_relation(
    kind: RelationKind,
    src: EntityId,
    dst: EntityId,
    confidence: u8,
    evidence: Seq<EvidenceView>,
) -> RelationView {
    RelationView {
        id: types::relation_id(kind, src, dst),
        kind,
        src: GraphNodeId::Entity(src),
        dst: GraphNodeId::Entity(dst),
        confidence,
        origin: RelationOrigin::Lsp,
        created_in: None,
        import_source: None,
        evidence,
    }
}

/// Build a relation that a language server proved.
pub fn proven_relation(
    kind: RelationKind,
    src: EntityId,
    dst: EntityId,
    confidence: u8,
    evidence: Vec<RelationEvidence>,
) -> (r: Relation)
    ensures
        r.deep_view() == lsp_relation(kind, src, dst, confidence, evidence.deep_view()),
{
    Relation {
        id: deterministic_relation_id(kind, src, dst),
        kind,
        src: GraphNodeId::Entity(src),
        dst: GraphNodeId::Entity(dst),
        confidence,
        origin: RelationOrigin::Lsp,
        created_in: None,
        import_source: None,
        evidence,
    }
}

// ── Members on modules ──────────────────────────────────────────────────

/// Whether a location lies outside a file.
pub open spec fn lies_outside(location: LocationView, path: Seq<char>) -> bool {
    match protocol::path_of(location.uri) {
        Some(other) => !entity_index::paths_meet(other, path),
        None => false,
    }
}

/// Whether some location of a definition lies outside a file.
pub open spec fn names_a_module(definitions: Seq<LocationView>, path: Seq<char>) -> bool {
    exists|i: int| 0 <= i < definitions.len() && lies_outside(#[trigger] definitions[i], path)
}

/// Whether this receiver names a module rather than a value in this file.
///
/// The question is answered by where its definition lives, and it is the server
/// answering rather than this code guessing. A receiver whose definition is a
/// declaration in the file being enriched is a value in that file; one whose
/// definition is another file's module entry is a reference to that module.
pub fn receiver_names_a_module(definitions: &[Location], enriched_path: &str) -> (r: bool)
    ensures
        r == names_a_module(definitions.deep_view(), enriched_path@),
{
    let ghost views = definitions.deep_view();
    let mut i: usize = 0;
    while i < definitions.len()
        invariant
            i <= definitions@.len(),
            views == definitions.deep_view(),
            forall|k: int| 0 <= k < i ==> !lies_outside(#[trigger] views[k], enriched_path@),
        decreases definitions@.len() - i,
    {
        assert(views[i as int] == definitions@[i as int].deep_view());
        if let Some(path) = uri_to_path(definitions[i].uri.as_str()) {
            if !(ends_with(path.as_str(), enriched_path) || ends_with(
                enriched_path,
                path.as_str(),
            )) {
                assert(lies_outside(views[i as int], enriched_path@));
                return true;
            }
        }
        i += 1;
    }
    false
}

/// Whether two answers name the same place: the same line of the same document.
pub open spec fn is_same_place(left: LocationView, right: LocationView) -> bool {
    left.uri == right.uri && left.range.start.line == right.range.start.line
}

/// Whether two answers name the same place.
pub fn same_location(left: &Location, right: &Location) -> (r: bool)
    ensures
        r == is_same_place(left.deep_view(), right.deep_view()),
{
    same(left.uri.as_str(), right.uri.as_str()) && left.range.start.line == right.range.start.line
}

/// Whether two lists of answers have a place in common.
pub open spec fn share_a_place(left: Seq<LocationView>, right: Seq<LocationView>) -> bool {
    exists|i: int, j: int|
        0 <= i < left.len() && 0 <= j < right.len() && is_same_place(
            #[trigger] left[i],
            #[trigger] right[j],
        )
}

/// Whether two lists of answers have a place in common.
pub fn any_same_location(left: &Vec<Location>, right: &Vec<Location>) -> (r: bool)
    ensures
        r == share_a_place(left.deep_view(), right.deep_view()),
{
    let ghost a = left.deep_view();
    let ghost b = right.deep_view();
    let mut i: usize = 0;
    while i < left.len()
        invariant
            i <= left@.len(),
            a == left.deep_view(),
            b == right.deep_view(),
            forall|p: int, q: int|
                0 <= p < i && 0 <= q < b.len() ==> !is_same_place(#[trigger] a[p], #[trigger] b[q]),
        decreases left@.len() - i,
    {
        let mut j: usize = 0;
        while j < right.len()
            invariant
                i < left@.len(),
                j <= right@.len(),
                a == left.deep_view(),
                b == right.deep_view(),
                forall|p: int, q: int|
                    0 <= p < i && 0 <= q < b.len() ==> !is_same_place(
                        #[trigger] a[p],
                        #[trigger] b[q],
                    ),
                forall|q: int| 0 <= q < j ==> !is_same_place(a[i as int], #[trigger] b[q]),
            decreases right@.len() - j,
        {
            assert(a[i as int] == left@[i as int].deep_view());
            assert(b[j as int] == right@[j as int].deep_view());
            if same_location(&left[i], &right[j]) {
                return true;
            }
            j += 1;
        }
        i += 1;
    }
    false
}

// ── Languages of documents ──────────────────────────────────────────────

/// The place of the last dot before `n`, or -1.
pub open spec fn last_dot(path: Seq<char>, n: int) -> int
    decreases n,
{
    if n <= 0 {
        -1
    } else if path[n - 1] == '.' {
        n - 1
    } else {
        last_dot(path, n - 1)
    }
}

/// What stands after the last dot of a path, if it has one.
pub open spec fn extension(path: Seq<char>) -> Option<Seq<char>> {
    let dot = last_dot(path, path.len() as int);
    if dot < 0 {
        None
    } else {
        Some(path.skip(dot + 1))
    }
}

/// The LSP language id that a file extension names, if it is known.
pub open spec fn language_id_of(extension: Seq<char>) -> Option<Seq<char>> {
    if extension == "js"@ || extension == "mjs"@ || extension == "cjs"@ {
        Some("javascript"@)
    } else if extension == "jsx"@ {
        Some("javascriptreact"@)
    } else if extension == "ts"@ || extension == "mts"@ || extension == "cts"@ {
        Some("typescript"@)
    } else if extension == "tsx"@ {
        Some("typescriptreact"@)
    } else if extension == "py"@ || extension == "pyi"@ {
        Some("python"@)
    } else if extension == "rs"@ {
        Some("rust"@)
    } else if extension == "go"@ {
        Some("go"@)
    } else if extension == "java"@ {
        Some("java"@)
    } else if extension == "c"@ || extension == "h"@ {
        Some("c"@)
    } else if extension == "cc"@ || extension == "cpp"@ || extension == "cxx"@ || extension
        == "hpp"@ || extension == "hh"@ {
        Some("cpp"@)
    } else if extension == "rb"@ {
        Some("ruby"@)
    } else if extension == "php"@ {
        Some("php"@)
    } else if extension == "swift"@ {
        Some("swift"@)
    } else if extension == "kt"@ || extension == "kts"@ {
        Some("kotlin"@)
    } else if extension == "cs"@ {
        Some("csharp"@)
    } else {
        None
    }
}

/// The LSP language id of the document at a path, if it is known.
pub open spec fn document_language(path: Seq<char>) -> Option<Seq<char>> {
    match extension(path) {
        None => None,
        Some(extension) => language_id_of(extension),
    }
}

/// The LSP language id for a path, by extension.
///
/// `None` means this code cannot name the language, and the caller declines
/// rather than opening the document under a guess: a document opened as the
/// wrong language answers nothing, which is indistinguishable at the call site
/// from a document that was never opened, and only one of those is honest.
pub fn lsp_language_id(path: &str) -> (r: Option<&'static str>)
    ensures
        match r {
            Some(id) => document_language(path@) == Some(id@),
            None => document_language(path@) is None,
        },
{
    let chars = chars_of(path);
    let n: usize = chars.len();
    let mut i: usize = n;
    while i > 0 && chars[i - 1] != '.'
        invariant
            i <= n == chars@.len(),
            chars@ == path@,
            last_dot(path@, n as int) == last_dot(path@, i as int),
        decreases i,
    {
        i -= 1;
    }
    if i == 0 {
        return None;
    }
    let owned = text_of(&chars, i, n);
    assert(owned@ =~= path@.skip(i as int));
    let e = owned.as_str();
    if same(e, "js") || same(e, "mjs") || same(e, "cjs") {
        Some("javascript")
    } else if same(e, "jsx") {
        Some("javascriptreact")
    } else if same(e, "ts") || same(e, "mts") || same(e, "cts") {
        Some("typescript")
    } else if same(e, "tsx") {
        Some("typescriptreact")
    } else if same(e, "py") || same(e, "pyi") {
        Some("python")
    } else if same(e, "rs") {
        Some("rust")
    } else if same(e, "go") {
        Some("go")
    } else if same(e, "java") {
        Some("java")
    } else if same(e, "c") || same(e, "h") {
        Some("c")
    } else if same(e, "cc") || same(e, "cpp") || same(e, "cxx") || same(e, "hpp") || same(
        e,
        "hh",
    ) {
        Some("cpp")
    } else if same(e, "rb") {
        Some("ruby")
    } else if same(e, "php") {
        Some("php")
    } else if same(e, "swift") {
        Some("swift")
    } else if same(e, "kt") || same(e, "kts") {
        Some("kotlin")
    } else if same(e, "cs") {
        Some("csharp")
    } else {
        None
    }
}

// ── Passes over one entity ──────────────────────────────────────────────

/// What a pass over an entity is about.
pub open spec fn entity_scope(
    capabilities: CapabilitiesView,
    entity: EntityView,
    index: Seq<FileView>,
    root: Seq<char>,
) -> ScopeView {
    ScopeView {
        index,
        root,
        path: entity.file_path,
        uri: protocol::uri_of(protocol::path_in(root, entity.file_path)),
        purpose: Purpose::Types,
        definition: lifecycle::serves(capabilities, LspCapability::Definition),
        type_definition: lifecycle::serves(capabilities, LspCapability::TypeDefinition),
    }
}

fn scope_of_entity<'a>(
    server: &LspServer,
    entity: &EntityRef,
    index: &'a EntityIndex,
    workspace_root: &str,
) -> (r: Scope<'a>)
    ensures
        r.deep_view() == entity_scope(
            server.capabilities.deep_view(),
            entity.deep_view(),
            index@,
            workspace_root@,
        ),
{
    Scope {
        index,
        root: workspace_root.to_owned(),
        path: entity.file_path.clone(),
        uri: path_to_uri(join_path(workspace_root, entity.file_path.as_str()).as_str()),
        purpose: Purpose::Types,
        definition: server.has_definition(),
        type_definition: server.has_type_definition(),
    }
}

/// A pass over an entity that has one thing to do, or none.
pub open spec fn entity_pass(scope: ScopeView, task: TaskView, served: bool) -> PassView {
    pass::begun(
        scope,
        if served {
            seq![task]
        } else {
            Seq::empty()
        },
        0,
    )
}

fn begin_entity_pass<'a>(scope: Scope<'a>, task: Task, served: bool) -> (r: Pass<'a>)
    requires
        !(task is Candidate),
        !(task is Opening),
    ensures
        r.wf(),
        r.deep_view() == entity_pass(scope.deep_view(), task.deep_view(), served),
{
    let mut tasks: Vec<Task> = Vec::new();
    if served {
        tasks.push(task);
        assert(tasks.deep_view() =~= seq![task.deep_view()]);
    } else {
        assert(tasks.deep_view() =~= Seq::<TaskView>::empty());
    }
    Pass::begin(scope, tasks, 0)
}

/// Query outgoing calls from a specific entity and produce Relations.
pub fn enrich_entity_calls<'a>(
    server: &LspServer,
    caller: &EntityRef,
    index: &'a EntityIndex,
    workspace_root: &str,
) -> (r: Pass<'a>)
    ensures
        r.wf(),
        r.deep_view() == entity_pass(
            entity_scope(
                server.capabilities.deep_view(),
                caller.deep_view(),
                index@,
                workspace_root@,
            ),
            TaskView::Calls { caller: caller.deep_view() },
            lifecycle::serves(server.capabilities.deep_view(), LspCapability::CallHierarchy),
        ),
{
    let scope = scope_of_entity(server, caller, index, workspace_root);
    begin_entity_pass(scope, Task::Calls { caller: caller.clone() }, server.has_call_hierarchy())
}

/// Query type hierarchy supertypes for a method entity to detect Overrides
/// relations. If the method exists on a parent trait/type, emit an Overrides
/// relation. Only methods (names containing '.') are asked about, not standalone
/// functions.
pub fn enrich_entity_overrides<'a>(
    server: &LspServer,
    method: &EntityRef,
    index: &'a EntityIndex,
    workspace_root: &str,
) -> (r: Pass<'a>)
    ensures
        r.wf(),
        r.deep_view() == entity_pass(
            entity_scope(
                server.capabilities.deep_view(),
                method.deep_view(),
                index@,
                workspace_root@,
            ),
            TaskView::Overrides { method: method.deep_view() },
            lifecycle::serves(server.capabilities.deep_view(), LspCapability::TypeHierarchy)
                && method.name@.contains('.'),
        ),
{
    let scope = scope_of_entity(server, method, index, workspace_root);
    let chars = chars_of(method.name.as_str());
    let dot: usize = text::find(&chars, '.', 0);
    let is_method = dot < chars.len();
    proof {
        text::lemma_find_char(chars@, '.', 0);
        if method.name@.contains('.') {
            let i = choose|i: int| 0 <= i < chars@.len() && chars@[i] == '.';
            assert(chars@[i] == '.');
        }
    }
    begin_entity_pass(
        scope,
        Task::Overrides { method: method.clone() },
        server.has_type_hierarchy() && is_method,
    )
}

/// Query type definitions for entities referenced in a function's signature/body.
/// For each resolved type, find it in the graph index and emit UsesType
/// relations.
///
/// The text to take positions from, and the text of files that the server has to
/// hold besides the one being enriched, is graph-owned: it is asked for with
/// [`crate::pass::Action::Read`]. Without text for the entity's own file the pass
/// fails; without text for another file the member-on-module join declines
/// rather than binding.
pub fn enrich_entity_uses_type<'a>(
    server: &LspServer,
    entity: &EntityRef,
    index: &'a EntityIndex,
    workspace_root: &str,
) -> (r: Pass<'a>)
    ensures
        r.wf(),
        r.deep_view() == entity_pass(
            entity_scope(
                server.capabilities.deep_view(),
                entity.deep_view(),
                index@,
                workspace_root@,
            ),
            TaskView::Source { entity: entity.deep_view() },
            lifecycle::serves(server.capabilities.deep_view(), LspCapability::TypeDefinition),
        ),
{
    let scope = scope_of_entity(server, entity, index, workspace_root);
    begin_entity_pass(
        scope,
        Task::Source { entity: entity.clone() },
        server.has_type_definition(),
    )
}

/// Query textDocument/references for an entity to find all references to it.
/// Gives References relations from the referencing entity to this entity.
pub fn enrich_entity_references<'a>(
    server: &LspServer,
    entity: &EntityRef,
    index: &'a EntityIndex,
    workspace_root: &str,
) -> (r: Pass<'a>)
    ensures
        r.wf(),
        r.deep_view() == entity_pass(
            entity_scope(
                server.capabilities.deep_view(),
                entity.deep_view(),
                index@,
                workspace_root@,
            ),
            TaskView::References { entity: entity.deep_view() },
            lifecycle::serves(server.capabilities.deep_view(), LspCapability::References),
        ),
{
    let scope = scope_of_entity(server, entity, index, workspace_root);
    begin_entity_pass(
        scope,
        Task::References { entity: entity.clone() },
        server.has_references(),
    )
}

// ── What the languages of documents promise ─────────────────────────────

proof fn lemma_last_dot(path: Seq<char>, n: int)
    requires
        0 <= n <= path.len(),
    ensures
        -1 <= last_dot(path, n) < n,
        last_dot(path, n) >= 0 ==> path[last_dot(path, n)] == '.',
        forall|k: int| last_dot(path, n) < k < n ==> path[k] != '.',
    decreases n,
{
    if n > 0 && path[n - 1] != '.' {
        lemma_last_dot(path, n - 1);
    }
}

/// The language of a document is told by what stands behind the last dot of its path,
/// whatever stands before it. A path without a dot has none.
pub proof fn language_is_told_by_the_last_extension(front: Seq<char>, extension: Seq<char>)
    requires
        !extension.contains('.'),
    ensures
        document_language(front.push('.') + extension) == language_id_of(extension),
        document_language(extension) is None,
{
    let path = front.push('.') + extension;
    let n = path.len() as int;
    lemma_last_dot(path, n);
    assert(path[front.len() as int] == '.');
    let dot = last_dot(path, n);
    if dot > front.len() {
        assert(path[dot] == extension[dot - front.len() - 1]);
        assert(extension.contains('.'));
    }
    assert(path.skip(dot + 1) =~= extension);
    lemma_last_dot(extension, extension.len() as int);
    let other = last_dot(extension, extension.len() as int);
    if other >= 0 {
        assert(extension[other] == '.');
    }
}

} // verus!
