//! The conversation of an enrichment pass with a language server.
//!
//! A pass is an agenda of tasks. It says what it waits for ([`Pass::action`]),
//! is told what came of it ([`Pass::step`]), and says so again, until nothing is
//! left to do. Sending requests, looking up documents and closing them is the
//! application's; what is asked, in which order, and what is made of each answer
//! is decided here.

use vstd::prelude::*;

use crate::enrichment;
use crate::enrichment::{
    any_same_location, lsp_language_id, proven_relation, query_position_evidence,
    receiver_names_a_module,
};
use crate::entity_index;
use crate::entity_index::{EntityIndex, EntityRef, EntityView, FileView};
use crate::error::{LspError, LspErrorView};
use crate::json::{Json, JsonView};
use crate::protocol;
use crate::protocol::{
    join_path, path_to_uri, read_call_items, read_location_list, read_locations,
    read_outgoing_calls, read_type_items, references_params, uri_to_path,
    CallHierarchyItem, CallHierarchyOutgoingCall, CallHierarchyPrepareParams, CallView, ItemView, Location, LocationView, Position, Range,
    TextDocumentIdentifier, TextDocumentPositionParams, TypeHierarchyItem,
    TypeHierarchyPrepareParams,
};
use crate::scan;
use crate::scan::{member_in, positions_in};
use crate::text;
use crate::text::{contains, joined, lines, same};
use crate::types::{EntityId, Relation, RelationKind, RelationView};

verus! {

// ── What a pass found ───────────────────────────────────────────────────

/// What kind of place a relation comes from. Relations between the same two
/// entities count once per kind of place.
#[derive(Debug, Clone, Copy, PartialEq, Eq, Structural)]
pub enum Site {
    /// A type that is used.
    Type,
    /// A reference that the server listed.
    Reference,
    /// A member of a module.
    Member,
    /// A definition in the file itself.
    SameFile,
    /// A definition in another file.
    CrossFile,
}

/// What a pass found so far.
#[derive(Debug)]
pub struct Found {
    relations: Vec<Relation>,
    seen: Vec<(EntityId, EntityId, Site)>,
    resolved: usize,
}

/// What a [`Found`] says.
pub struct FoundView {
    pub relations: Seq<RelationView>,
    pub seen: Seq<(EntityId, EntityId, Site)>,
    pub resolved: usize,
}

impl DeepView for Found {
    type V = FoundView;

    closed spec fn deep_view(&self) -> FoundView {
        FoundView {
            relations: self.relations.deep_view(),
            seen: self.seen@,
            resolved: self.resolved,
        }
    }
}

/// Nothing found yet.
pub open spec fn nothing_found() -> FoundView {
    FoundView { relations: Seq::empty(), seen: Seq::empty(), resolved: 0 }
}

/// Whether a definition counts as resolved though its relation is known.
pub open spec fn counts_repeats(site: Site) -> bool {
    site == Site::SameFile || site == Site::CrossFile
}

/// One more, as far as it can be counted.
pub open spec fn one_more(n: usize) -> usize {
    if n < usize::MAX {
        (n + 1) as usize
    } else {
        n
    }
}

/// What is found with a relation between two entities added: not where they are
/// the same, and not where it is known from that kind of place.
pub open spec fn admitted(
    found: FoundView,
    src: EntityId,
    dst: EntityId,
    site: Site,
    relation: RelationView,
) -> FoundView {
    let key = (src, dst, site);
    if src == dst {
        found
    } else if found.seen.contains(key) {
        FoundView {
            resolved: if counts_repeats(site) {
                one_more(found.resolved)
            } else {
                found.resolved
            },
            ..found
        }
    } else {
        FoundView {
            relations: found.relations.push(relation),
            seen: found.seen.push(key),
            resolved: one_more(found.resolved),
        }
    }
}

/// What is found with relations added as they are.
pub open spec fn with_relations(found: FoundView, relations: Seq<RelationView>) -> FoundView {
    FoundView { relations: found.relations + relations, ..found }
}

impl Found {
    fn new() -> (r: Self)
        ensures
            r.deep_view() == nothing_found(),
    {
        let r = Found { relations: Vec::new(), seen: Vec::new(), resolved: 0 };
        assert(r.relations.deep_view() =~= Seq::<RelationView>::empty());
        r
    }

    /// Whether a relation is known from a kind of place.
    fn knows(&self, key: (EntityId, EntityId, Site)) -> (r: bool)
        ensures
            r == self.deep_view().seen.contains(key),
    {
        let mut i: usize = 0;
        while i < self.seen.len()
            invariant
                i <= self.seen@.len(),
                forall|k: int| 0 <= k < i ==> self.seen@[k] != key,
            decreases self.seen@.len() - i,
        {
            let other = self.seen[i];
            if other.0 == key.0 && other.1 == key.1 && other.2 == key.2 {
                return true;
            }
            i += 1;
        }
        false
    }

    /// Whether a relation between two entities is still to be added; if it is, it
    /// is marked as known, and what is resolved is counted.
    fn admits(&mut self, src: EntityId, dst: EntityId, site: Site) -> (r: bool)
        ensures
            final(self).deep_view().relations == old(self).deep_view().relations,
            r == (src != dst && !old(self).deep_view().seen.contains((src, dst, site))),
            forall|relation: RelationView|
                ({
                    let after = #[trigger] admitted(
                        old(self).deep_view(),
                        src,
                        dst,
                        site,
                        relation,
                    );
                    &&& final(self).deep_view().seen == after.seen
                    &&& final(self).deep_view().resolved == after.resolved
                    &&& after.relations == if r {
                        old(self).deep_view().relations.push(relation)
                    } else {
                        old(self).deep_view().relations
                    }
                }),
    {
        if src == dst {
            return false;
        }
        let known = self.knows((src, dst, site));
        let counts = match site {
            Site::SameFile => true,
            Site::CrossFile => true,
            _ => !known,
        };
        if counts && self.resolved < usize::MAX {
            self.resolved = self.resolved + 1;
        }
        if known {
            return false;
        }
        self.seen.push((src, dst, site));
        true
    }

    /// The relations, and how many definitions were resolved.
    pub fn into_parts(self) -> (r: (Vec<Relation>, usize))
        ensures
            r.0.deep_view() == self.deep_view().relations,
            r.1 == self.deep_view().resolved,
    {
        (self.relations, self.resolved)
    }

    /// Add a relation at the end.
    fn push(&mut self, relation: Relation)
        ensures
            final(self).deep_view() == (FoundView {
                relations: old(self).deep_view().relations.push(relation.deep_view()),
                ..old(self).deep_view()
            }),
    {
        let ghost before = self.relations.deep_view();
        self.relations.push(relation);
        assert(self.relations.deep_view() =~= before.push(relation.deep_view()));
    }
}

// ── What a pass is about ────────────────────────────────────────────────

/// What the positions of a file are asked about.
#[derive(Debug, Clone, Copy, PartialEq, Eq, Structural)]
pub enum Purpose {
    /// The types that an entity uses.
    Types,
    /// The definitions that a file refers to.
    Definitions,
}

/// What a pass is about, and what the server it talks to can do.
#[derive(Debug)]
pub struct Scope<'a> {
    pub index: &'a EntityIndex,
    /// The directory that paths of entities are seen from.
    pub root: String,
    /// The file being enriched, as entities name it.
    pub path: String,
    /// The document of that file.
    pub uri: String,
    pub purpose: Purpose,
    /// Whether the server answers `textDocument/definition`.
    pub definition: bool,
    /// Whether the server answers `textDocument/typeDefinition`.
    pub type_definition: bool,
}

/// What a [`Scope`] says.
pub struct ScopeView {
    pub index: Seq<FileView>,
    pub root: Seq<char>,
    pub path: Seq<char>,
    pub uri: Seq<char>,
    pub purpose: Purpose,
    pub definition: bool,
    pub type_definition: bool,
}

impl<'a> DeepView for Scope<'a> {
    type V = ScopeView;

    open spec fn deep_view(&self) -> ScopeView {
        ScopeView {
            index: self.index@,
            root: self.root@,
            path: self.path@,
            uri: self.uri@,
            purpose: self.purpose,
            definition: self.definition,
            type_definition: self.type_definition,
        }
    }
}

/// Something left to do, which waits for one answer.
#[derive(Debug)]
pub enum Task {
    /// Ask where the identifier at a position leads.
    Ordinary { source: EntityId, line: u32, col: u32 },
    /// Ask where a receiver is defined, to tell a module from a value.
    Receiver { source: EntityId, line: u32, col: u32, member_col: u32, member: String },
    /// Ask for the type of a receiver that names a module.
    Module { source: EntityId, line: u32, col: u32, member_col: u32, member: String },
    /// Ask where a member of a module is defined.
    Member {
        source: EntityId,
        line: u32,
        member_col: u32,
        member: String,
        modules: Vec<Location>,
    },
    /// Ask where an export of the member's name is defined, once the server
    /// holds its document.
    Candidate {
        source: EntityId,
        line: u32,
        member_col: u32,
        target: EntityRef,
        proven: Vec<Location>,
    },
    /// Hand the server the document of such an export.
    Opening {
        source: EntityId,
        line: u32,
        member_col: u32,
        target: EntityRef,
        proven: Vec<Location>,
        content: String,
    },
    /// Look up the text of an entity's own file.
    Source { entity: EntityRef },
    /// Ask for the call hierarchy item of an entity.
    Calls { caller: EntityRef },
    /// Ask what an entity calls.
    Outgoing { caller: EntityRef, item: CallHierarchyItem },
    /// Ask for the type hierarchy item of a method.
    Overrides { method: EntityRef },
    /// Ask for the supertypes of a method's item.
    Supertypes { method: EntityRef, subtype: TypeHierarchyItem },
    /// Ask what refers to an entity.
    References { entity: EntityRef },
}

/// What a [`Task`] says.
pub enum TaskView {
    Ordinary { source: EntityId, line: u32, col: u32 },
    Receiver { source: EntityId, line: u32, col: u32, member_col: u32, member: Seq<char> },
    Module { source: EntityId, line: u32, col: u32, member_col: u32, member: Seq<char> },
    Member {
        source: EntityId,
        line: u32,
        member_col: u32,
        member: Seq<char>,
        modules: Seq<LocationView>,
    },
    Candidate {
        source: EntityId,
        line: u32,
        member_col: u32,
        target: EntityView,
        proven: Seq<LocationView>,
    },
    Opening {
        source: EntityId,
        line: u32,
        member_col: u32,
        target: EntityView,
        proven: Seq<LocationView>,
        content: Seq<char>,
    },
    Source { entity: EntityView },
    Calls { caller: EntityView },
    Outgoing { caller: EntityView, item: ItemView },
    Overrides { method: EntityView },
    Supertypes { method: EntityView, subtype: ItemView },
    References { entity: EntityView },
}

impl DeepView for Task {
    type V = TaskView;

    open spec fn deep_view(&self) -> TaskView {
        match self {
            Task::Ordinary { source, line, col } => TaskView::Ordinary {
                source: *source,
                line: *line,
                col: *col,
            },
            Task::Receiver { source, line, col, member_col, member } => TaskView::Receiver {
                source: *source,
                line: *line,
                col: *col,
                member_col: *member_col,
                member: member@,
            },
            Task::Module { source, line, col, member_col, member } => TaskView::Module {
                source: *source,
                line: *line,
                col: *col,
                member_col: *member_col,
                member: member@,
            },
            Task::Member { source, line, member_col, member, modules } => TaskView::Member {
                source: *source,
                line: *line,
                member_col: *member_col,
                member: member@,
                modules: modules.deep_view(),
            },
            Task::Candidate { source, line, member_col, target, proven } => TaskView::Candidate {
                source: *source,
                line: *line,
                member_col: *member_col,
                target: target.deep_view(),
                proven: proven.deep_view(),
            },
            Task::Opening { source, line, member_col, target, proven, content } =>
                TaskView::Opening {
                    source: *source,
                    line: *line,
                    member_col: *member_col,
                    target: target.deep_view(),
                    proven: proven.deep_view(),
                    content: content@,
                },
            Task::Source { entity } => TaskView::Source { entity: entity.deep_view() },
            Task::Calls { caller } => TaskView::Calls { caller: caller.deep_view() },
            Task::Outgoing { caller, item } => TaskView::Outgoing {
                caller: caller.deep_view(),
                item: item.deep_view(),
            },
            Task::Overrides { method } => TaskView::Overrides { method: method.deep_view() },
            Task::Supertypes { method, subtype } => TaskView::Supertypes {
                method: method.deep_view(),
                subtype: subtype.deep_view(),
            },
            Task::References { entity } => TaskView::References { entity: entity.deep_view() },
        }
    }
}

// ── What a pass waits for ───────────────────────────────────────────────

/// What a pass waits for.
#[derive(Debug)]
pub enum Action {
    /// Send a request and hand back the reply. Where there is a limit, in
    /// seconds, the request is given up once it has passed.
    Request { method: &'static str, params: Json, limit: Option<u64> },
    /// Look up the graph-owned text of a path and hand it back.
    ///
    /// After graph truth exists, a pass does not get its answer from raw
    /// filesystem contents: the text comes from whoever holds repository
    /// authority, and where there is none, there is no text.
    Read { path: String },
    /// Hand the server a document and say whether it was sent.
    Open { uri: String, language_id: &'static str, content: String },
    /// Nothing: the pass is over.
    Finish,
}

/// What an [`Action`] says.
pub enum ActionView {
    Request { method: Seq<char>, params: JsonView, limit: Option<u64> },
    Read { path: Seq<char> },
    Open { uri: Seq<char>, language_id: Seq<char>, content: Seq<char> },
    Finish,
}

impl DeepView for Action {
    type V = ActionView;

    open spec fn deep_view(&self) -> ActionView {
        match self {
            Action::Request { method, params, limit } => ActionView::Request {
                method: method@,
                params: params@,
                limit: *limit,
            },
            Action::Read { path } => ActionView::Read { path: path@ },
            Action::Open { uri, language_id, content } => ActionView::Open {
                uri: uri@,
                language_id: language_id@,
                content: content@,
            },
            Action::Finish => ActionView::Finish,
        }
    }
}

/// What came of an action.
#[derive(Debug)]
pub enum Event {
    /// What the server replied to the request.
    Reply(Result<Json, LspError>),
    /// The request was given up when its limit had passed.
    Expired,
    /// The text of the path, if there is one.
    Text(Option<String>),
    /// Whether the document was sent.
    Opened(Result<(), LspError>),
}

/// What an [`Event`] says.
pub enum EventView {
    Reply(Result<JsonView, LspErrorView>),
    Expired,
    Text(Option<Seq<char>>),
    Opened(Result<(), LspErrorView>),
}

impl DeepView for Event {
    type V = EventView;

    open spec fn deep_view(&self) -> EventView {
        match self {
            Event::Reply(Ok(j)) => EventView::Reply(Ok(j@)),
            Event::Reply(Err(e)) => EventView::Reply(Err(e.deep_view())),
            Event::Expired => EventView::Expired,
            Event::Text(content) => EventView::Text(content.deep_view()),
            Event::Opened(Ok(_)) => EventView::Opened(Ok(())),
            Event::Opened(Err(e)) => EventView::Opened(Err(e.deep_view())),
        }
    }
}

/// Whether an event is one that can come of an action.
pub open spec fn fits(action: ActionView, event: EventView) -> bool {
    match action {
        ActionView::Request { limit, .. } => event is Reply || (event is Expired
            && limit is Some),
        ActionView::Read { .. } => event is Text,
        ActionView::Open { .. } => event is Opened,
        ActionView::Finish => false,
    }
}

/// A pass: what it is about, what is left to do (the next task last), what it
/// found, which documents it opened, why it failed if it did, and how many
/// positions it set out to ask about.
pub struct PassView {
    pub scope: ScopeView,
    pub agenda: Seq<TaskView>,
    pub found: FoundView,
    pub open: Seq<Seq<char>>,
    pub failure: Option<LspErrorView>,
    pub queried: usize,
}

/// The document of an entity's file.
pub open spec fn document_of(scope: ScopeView, entity: EntityView) -> Seq<char> {
    protocol::uri_of(protocol::path_in(scope.root, entity.file_path))
}

/// Whether the server holds the document of an entity's file: it is the file
/// being enriched, or the pass has opened it.
pub open spec fn is_held(pass: PassView, entity: EntityView) -> bool {
    entity.file_path == pass.scope.path || pass.open.contains(document_of(pass.scope, entity))
}

/// The request by which positions are asked about.
pub open spec fn question(purpose: Purpose) -> Seq<char> {
    match purpose {
        Purpose::Types => "textDocument/typeDefinition"@,
        Purpose::Definitions => "textDocument/definition"@,
    }
}

/// The request that a task makes.
pub open spec fn method_of(scope: ScopeView, task: TaskView) -> Seq<char> {
    match task {
        TaskView::Ordinary { .. } => question(scope.purpose),
        TaskView::Receiver { .. } => "textDocument/definition"@,
        TaskView::Module { .. } => "textDocument/typeDefinition"@,
        TaskView::Member { .. } => "textDocument/definition"@,
        TaskView::Candidate { .. } => "textDocument/definition"@,
        TaskView::Opening { .. } => "textDocument/didOpen"@,
        TaskView::Source { .. } => Seq::empty(),
        TaskView::Calls { .. } => "textDocument/prepareCallHierarchy"@,
        TaskView::Outgoing { .. } => "callHierarchy/outgoingCalls"@,
        TaskView::Overrides { .. } => "textDocument/prepareTypeHierarchy"@,
        TaskView::Supertypes { .. } => "typeHierarchy/supertypes"@,
        TaskView::References { .. } => "textDocument/references"@,
    }
}

/// The parameters of the request that a task makes.
pub open spec fn params_of(scope: ScopeView, task: TaskView) -> JsonView {
    match task {
        TaskView::Ordinary { line, col, .. } => protocol::place_json(
            scope.uri,
            Position { line, character: col },
        ),
        TaskView::Receiver { line, col, .. } => protocol::place_json(
            scope.uri,
            Position { line, character: col },
        ),
        TaskView::Module { line, col, .. } => protocol::place_json(
            scope.uri,
            Position { line, character: col },
        ),
        TaskView::Member { line, member_col, .. } => protocol::place_json(
            scope.uri,
            Position { line, character: member_col },
        ),
        TaskView::Candidate { target, .. } => protocol::place_json(
            document_of(scope, target),
            Position { line: target.name_line, character: target.name_col },
        ),
        TaskView::Opening { .. } => JsonView::Null,
        TaskView::Source { .. } => JsonView::Null,
        TaskView::Calls { caller } => protocol::place_json(
            document_of(scope, caller),
            Position { line: caller.name_line, character: caller.name_col },
        ),
        TaskView::Outgoing { item, .. } => protocol::about_item_json(item),
        TaskView::Overrides { method } => protocol::place_json(
            document_of(scope, method),
            Position { line: method.name_line, character: method.start_col },
        ),
        TaskView::Supertypes { subtype, .. } => protocol::about_item_json(subtype),
        TaskView::References { entity } => protocol::references_json(
            document_of(scope, entity),
            Position { line: entity.name_line, character: entity.name_col },
        ),
    }
}

/// How long the definition of an identifier is waited for in a pass over a file,
/// in seconds.
pub const DEFINITION_SECONDS: u64 = 2;

/// How long the reply to a task's request is waited for by the pass, in seconds.
/// Where an identifier of a file gets no answer in time, the pass goes on to the
/// next one.
pub open spec fn limit_of(scope: ScopeView, task: TaskView) -> Option<u64> {
    if task is Ordinary && scope.purpose == Purpose::Definitions {
        Some(DEFINITION_SECONDS)
    } else {
        None
    }
}

/// What a pass waits for: what its next task needs.
pub open spec fn action_of(pass: PassView) -> ActionView {
    if pass.agenda.len() == 0 {
        ActionView::Finish
    } else {
        let task = pass.agenda.last();
        match task {
            TaskView::Source { entity } => ActionView::Read { path: entity.file_path },
            TaskView::Candidate { target, .. } if !is_held(pass, target) => ActionView::Read {
                path: target.file_path,
            },
            TaskView::Opening { target, content, .. } => ActionView::Open {
                uri: document_of(pass.scope, target),
                language_id: enrichment::document_language(target.file_path)->0,
                content,
            },
            _ => ActionView::Request {
                method: method_of(pass.scope, task),
                params: params_of(pass.scope, task),
                limit: limit_of(pass.scope, task),
            },
        }
    }
}

// ── What is made of answers ─────────────────────────────────────────────

/// A position, as an empty range.
pub open spec fn point(line: u32, col: u32) -> Range {
    Range {
        start: Position { line, character: col },
        end: Position { line, character: col },
    }
}

/// What is found with a location that an identifier of `source` leads to.
pub open spec fn with_location(
    scope: ScopeView,
    found: FoundView,
    source: EntityId,
    line: u32,
    col: u32,
    location: LocationView,
) -> FoundView {
    match entity_index::entity_at(scope.index, location.uri, location.range.start.line) {
        None => found,
        Some(target) => match scope.purpose {
            Purpose::Types => admitted(
                found,
                source,
                target.id,
                Site::Type,
                enrichment::lsp_relation(
                    RelationKind::UsesType,
                    source,
                    target.id,
                    85,
                    seq![enrichment::site_evidence("lsp_references"@, scope.path, location.range)],
                ),
            ),
            Purpose::Definitions => admitted(
                found,
                source,
                target.id,
                if text::has_part(location.uri, scope.path) {
                    Site::SameFile
                } else {
                    Site::CrossFile
                },
                enrichment::lsp_relation(
                    RelationKind::References,
                    source,
                    target.id,
                    95,
                    seq![
                        enrichment::site_evidence("lsp_definition"@, scope.path, point(line, col)),
                    ],
                ),
            ),
        },
    }
}

/// What is found with the first `n` locations that an identifier leads to.
pub open spec fn with_locations(
    scope: ScopeView,
    found: FoundView,
    source: EntityId,
    line: u32,
    col: u32,
    locations: Seq<LocationView>,
    n: int,
) -> FoundView
    decreases n,
{
    if n <= 0 {
        found
    } else {
        with_location(
            scope,
            with_locations(scope, found, source, line, col, locations, n - 1),
            source,
            line,
            col,
            locations[n - 1],
        )
    }
}

/// What is found with a member of a module bound to an export.
pub open spec fn with_member(
    scope: ScopeView,
    found: FoundView,
    source: EntityId,
    line: u32,
    member_col: u32,
    target: EntityId,
) -> FoundView {
    let (kind, site) = match scope.purpose {
        Purpose::Types => (RelationKind::UsesType, Site::Type),
        Purpose::Definitions => (RelationKind::References, Site::Member),
    };
    admitted(
        found,
        source,
        target,
        site,
        enrichment::lsp_relation(
            kind,
            source,
            target,
            85,
            seq![
                enrichment::site_evidence(
                    "lsp_member_on_module"@,
                    scope.path,
                    point(line, member_col),
                ),
            ],
        ),
    )
}

/// Whether an entity can be an export that a member is bound to: it goes by the
/// member's name, and the server can be handed its document.
pub open spec fn can_export(scope: ScopeView, entity: EntityView, member: Seq<char>) -> bool {
    entity.name == member && (entity.file_path == scope.path || enrichment::document_language(
        entity.file_path,
    ) is Some)
}

/// The tasks for those of the first `n` entities of a file that can be an export
/// of the member's name.
pub open spec fn candidates_in(
    scope: ScopeView,
    source: EntityId,
    line: u32,
    member_col: u32,
    member: Seq<char>,
    proven: Seq<LocationView>,
    entities: Seq<EntityView>,
    n: int,
) -> Seq<TaskView>
    decreases n,
{
    if n <= 0 {
        Seq::empty()
    } else {
        let before = candidates_in(scope, source, line, member_col, member, proven, entities, n - 1);
        let target = entities[n - 1];
        if can_export(scope, target, member) {
            before.push(TaskView::Candidate { source, line, member_col, target, proven })
        } else {
            before
        }
    }
}

/// The entities of the file that a location lies in.
pub open spec fn entities_at(scope: ScopeView, location: LocationView) -> Seq<EntityView> {
    match protocol::path_of(location.uri) {
        Some(path) => entity_index::entries_for(scope.index, path),
        None => Seq::empty(),
    }
}

/// The tasks for the exports of the member's name in the first `n` modules.
pub open spec fn candidates_of(
    scope: ScopeView,
    source: EntityId,
    line: u32,
    member_col: u32,
    member: Seq<char>,
    proven: Seq<LocationView>,
    modules: Seq<LocationView>,
    n: int,
) -> Seq<TaskView>
    decreases n,
{
    if n <= 0 {
        Seq::empty()
    } else {
        let entities = entities_at(scope, modules[n - 1]);
        candidates_of(scope, source, line, member_col, member, proven, modules, n - 1)
            + candidates_in(
            scope,
            source,
            line,
            member_col,
            member,
            proven,
            entities,
            entities.len() as int,
        )
    }
}

/// The relations for those of the first `n` calls that lead to a known entity.
pub open spec fn call_relations(
    scope: ScopeView,
    caller: EntityView,
    calls: Seq<CallView>,
    n: int,
) -> Seq<RelationView>
    decreases n,
{
    if n <= 0 {
        Seq::empty()
    } else {
        let before = call_relations(scope, caller, calls, n - 1);
        let call = calls[n - 1];
        match entity_index::entity_at(
            scope.index,
            call.other.uri,
            call.other.selection_range.start.line,
        ) {
            Some(target) => before.push(
                enrichment::lsp_relation(
                    RelationKind::Calls,
                    caller.id,
                    target.id,
                    95,
                    if call.from_ranges.len() > 0 {
                        seq![
                            enrichment::site_evidence(
                                "lsp_call_hierarchy"@,
                                caller.file_path,
                                call.from_ranges[0],
                            ),
                        ]
                    } else {
                        Seq::empty()
                    },
                ),
            ),
            None => before,
        }
    }
}

/// The relations for those of the first `n` supertypes that are a known entity.
pub open spec fn override_relations(
    scope: ScopeView,
    method: EntityView,
    supertypes: Seq<ItemView>,
    n: int,
) -> Seq<RelationView>
    decreases n,
{
    if n <= 0 {
        Seq::empty()
    } else {
        let before = override_relations(scope, method, supertypes, n - 1);
        let item = supertypes[n - 1];
        match entity_index::entity_at(scope.index, item.uri, item.selection_range.start.line) {
            Some(target) => before.push(
                enrichment::lsp_relation(
                    RelationKind::Overrides,
                    method.id,
                    target.id,
                    90,
                    Seq::empty(),
                ),
            ),
            None => before,
        }
    }
}

/// What is found with the first `n` references to an entity.
pub open spec fn with_references(
    scope: ScopeView,
    found: FoundView,
    entity: EntityView,
    locations: Seq<LocationView>,
    n: int,
) -> FoundView
    decreases n,
{
    if n <= 0 {
        found
    } else {
        let before = with_references(scope, found, entity, locations, n - 1);
        let location = locations[n - 1];
        match entity_index::entity_at(scope.index, location.uri, location.range.start.line) {
            Some(referencing) => admitted(
                before,
                referencing.id,
                entity.id,
                Site::Reference,
                enrichment::lsp_relation(
                    RelationKind::References,
                    referencing.id,
                    entity.id,
                    95,
                    Seq::empty(),
                ),
            ),
            None => before,
        }
    }
}

/// What an answer leads to: further tasks, in order, and what is found. `None`
/// where the answer is of no shape that the request has.
pub open spec fn answered(
    scope: ScopeView,
    found: FoundView,
    task: TaskView,
    answer: JsonView,
) -> Option<(Seq<TaskView>, FoundView)> {
    match task {
        TaskView::Ordinary { source, line, col } => match protocol::locations_of(answer) {
            None => None,
            Some(locations) => Some(
                (
                    Seq::empty(),
                    with_locations(
                        scope,
                        found,
                        source,
                        line,
                        col,
                        locations,
                        locations.len() as int,
                    ),
                ),
            ),
        },
        TaskView::Receiver { source, line, col, member_col, member } =>
            match protocol::locations_of(answer) {
                None => None,
                Some(definitions) => Some(
                    (
                        if !enrichment::names_a_module(definitions, scope.path) {
                            seq![TaskView::Ordinary { source, line, col }]
                        } else if scope.type_definition {
                            seq![TaskView::Module { source, line, col, member_col, member }]
                        } else {
                            seq![
                                TaskView::Member {
                                    source,
                                    line,
                                    member_col,
                                    member,
                                    modules: Seq::empty(),
                                },
                            ]
                        },
                        found,
                    ),
                ),
            },
        TaskView::Module { source, line, col, member_col, member } =>
            match protocol::locations_of(answer) {
                None => None,
                Some(modules) => Some(
                    (
                        seq![TaskView::Member { source, line, member_col, member, modules }],
                        found,
                    ),
                ),
            },
        TaskView::Member { source, line, member_col, member, modules } =>
            match protocol::locations_of(answer) {
                None => None,
                Some(proven) => Some(
                    (
                        candidates_of(
                            scope,
                            source,
                            line,
                            member_col,
                            member,
                            proven,
                            modules,
                            modules.len() as int,
                        ),
                        found,
                    ),
                ),
            },
        TaskView::Candidate { source, line, member_col, target, proven } =>
            match protocol::locations_of(answer) {
                None => None,
                Some(definitions) => Some(
                    (
                        Seq::empty(),
                        if enrichment::share_a_place(definitions, proven) {
                            with_member(scope, found, source, line, member_col, target.id)
                        } else {
                            found
                        },
                    ),
                ),
            },
        TaskView::Opening { .. } => None,
        TaskView::Source { .. } => None,
        TaskView::Calls { caller } => match protocol::items_of(answer) {
            None => None,
            Some(items) => Some(
                (
                    if items.len() > 0 {
                        seq![TaskView::Outgoing { caller, item: items[0] }]
                    } else {
                        Seq::empty()
                    },
                    found,
                ),
            ),
        },
        TaskView::Outgoing { caller, .. } => match protocol::outgoing_calls_of(answer) {
            None => None,
            Some(calls) => Some(
                (
                    Seq::empty(),
                    with_relations(
                        found,
                        call_relations(scope, caller, calls, calls.len() as int),
                    ),
                ),
            ),
        },
        TaskView::Overrides { method } => match protocol::items_of(answer) {
            None => None,
            Some(items) => Some(
                (
                    if items.len() > 0 {
                        seq![TaskView::Supertypes { method, subtype: items[0] }]
                    } else {
                        Seq::empty()
                    },
                    found,
                ),
            ),
        },
        TaskView::Supertypes { method, .. } => match protocol::items_of(answer) {
            None => None,
            Some(supertypes) => Some(
                (
                    Seq::empty(),
                    with_relations(
                        found,
                        override_relations(scope, method, supertypes, supertypes.len() as int),
                    ),
                ),
            ),
        },
        TaskView::References { entity } => match protocol::location_list_of(answer) {
            None => None,
            Some(locations) => Some(
                (
                    Seq::empty(),
                    with_references(scope, found, entity, locations, locations.len() as int),
                ),
            ),
        },
    }
}

// ── Positions to ask about ──────────────────────────────────────────────

/// The task for the identifier at a column of a line. Where the server cannot
/// say where a receiver is defined, no receiver is taken for a module.
pub open spec fn probe_at(
    scope: ScopeView,
    source: EntityId,
    line: u32,
    chars: Seq<char>,
    col: u32,
) -> TaskView {
    match scan::member_opened(chars, col as int) {
        Some(m) if scope.definition => TaskView::Receiver {
            source,
            line,
            col,
            member_col: m.member_col,
            member: m.member,
        },
        _ => TaskView::Ordinary { source, line, col },
    }
}

/// The tasks for the identifiers of a line.
pub open spec fn probes_on(
    scope: ScopeView,
    source: EntityId,
    line: u32,
    chars: Seq<char>,
) -> Seq<TaskView> {
    scan::identifier_positions(chars).map_values(
        |col: u32| probe_at(scope, source, line, chars, col),
    )
}

/// The tasks for the identifiers of an entity's lines from `line` on, as far as
/// the file goes.
pub open spec fn probes_of_entity(
    scope: ScopeView,
    entity: EntityView,
    lines: Seq<Seq<char>>,
    line: int,
) -> Seq<TaskView>
    decreases lines.len() - line,
{
    if line < 0 || line >= lines.len() || line > entity.end_line {
        Seq::empty()
    } else {
        probes_on(scope, entity.id, line as u32, lines[line]) + probes_of_entity(
            scope,
            entity,
            lines,
            line + 1,
        )
    }
}

/// The tasks for the identifiers of the first `n` lines of a file. A line
/// outside every entity can give no relation, so nothing is asked about it.
pub open spec fn probes_of_file(scope: ScopeView, lines: Seq<Seq<char>>, n: int) -> Seq<TaskView>
    decreases n,
{
    if n <= 0 {
        Seq::empty()
    } else {
        let line = (n - 1) as u32;
        probes_of_file(scope, lines, n - 1) + match entity_index::entity_at(
            scope.index,
            scope.uri,
            line,
        ) {
            Some(source) => probes_on(scope, source.id, line, lines[n - 1]),
            None => Seq::empty(),
        }
    }
}

// ── One step ────────────────────────────────────────────────────────────

/// What is said where a file has no text to take positions from.
pub open spec fn no_source(path: Seq<char>) -> LspErrorView {
    LspErrorView::Protocol("no graph-owned text for "@ + path)
}

/// What is said of an answer that is of no shape that the request has.
pub open spec fn malformed(method: Seq<char>) -> LspErrorView {
    LspErrorView::Protocol("malformed answer to "@ + method)
}

/// A pass that failed: nothing is left to do.
pub open spec fn failed(pass: PassView, error: LspErrorView) -> PassView {
    PassView { agenda: Seq::empty(), failure: Some(error), ..pass }
}

/// A pass with its next task replaced by others, to be done in order.
pub open spec fn replaced(pass: PassView, tasks: Seq<TaskView>) -> PassView {
    PassView { agenda: pass.agenda.drop_last() + tasks.reverse(), ..pass }
}

/// A pass after the event that it waited for.
pub open spec fn stepped(pass: PassView, event: EventView) -> PassView {
    let task = pass.agenda.last();
    match event {
        EventView::Reply(Err(error)) => failed(pass, error),
        EventView::Reply(Ok(answer)) => match answered(pass.scope, pass.found, task, answer) {
            None => failed(pass, malformed(method_of(pass.scope, task))),
            Some((tasks, found)) => PassView { found, ..replaced(pass, tasks) },
        },
        EventView::Expired => replaced(pass, Seq::empty()),
        EventView::Opened(Err(error)) => failed(pass, error),
        EventView::Opened(Ok(_)) => match task {
            TaskView::Opening { source, line, member_col, target, proven, .. } => replaced(
                pass,
                seq![TaskView::Candidate { source, line, member_col, target, proven }],
            ),
            _ => pass,
        },
        EventView::Text(content) => match (task, content) {
            (TaskView::Source { entity }, None) => failed(pass, no_source(entity.file_path)),
            (TaskView::Source { entity }, Some(content)) => replaced(
                pass,
                probes_of_entity(
                    pass.scope,
                    entity,
                    text::lines_of(content),
                    entity.start_line as int,
                ),
            ),
            (TaskView::Candidate { .. }, None) => replaced(pass, Seq::empty()),
            (
                TaskView::Candidate { source, line, member_col, target, proven },
                Some(content),
            ) => PassView {
                open: pass.open.push(document_of(pass.scope, target)),
                ..replaced(
                    pass,
                    seq![
                        TaskView::Opening { source, line, member_col, target, proven, content },
                    ],
                )
            },
            _ => pass,
        },
    }
}

// ── Carrying it out ─────────────────────────────────────────────────────

fn point_range(line: u32, col: u32) -> (r: Range)
    ensures
        r == point(line, col),
{
    Range {
        start: Position { line, character: col },
        end: Position { line, character: col },
    }
}

fn add_location(
    scope: &Scope,
    found: &mut Found,
    source: EntityId,
    line: u32,
    col: u32,
    location: &Location,
)
    ensures
        final(found).deep_view() == with_location(
            scope.deep_view(),
            old(found).deep_view(),
            source,
            line,
            col,
            location.deep_view(),
        ),
{
    let target = match scope.index.find_at(
        location.uri.as_str(),
        location.range.start.line,
    ) {
        None => {
            return;
        },
        Some(target) => target.id,
    };
    match scope.purpose {
        Purpose::Types => {
            let ghost evidence = seq![
                enrichment::site_evidence("lsp_references"@, scope.path@, location.range),
            ];
            let ghost relation = enrichment::lsp_relation(
                RelationKind::UsesType,
                source,
                target,
                85,
                evidence,
            );
            let ghost after = admitted(found.deep_view(), source, target, Site::Type, relation);
            if found.admits(source, target, Site::Type) {
                let evidence = query_position_evidence(
                    "lsp_references",
                    scope.path.as_str(),
                    &location.range,
                );
                found.push(
                    proven_relation(RelationKind::UsesType, source, target, 85, evidence),
                );
            }
            assert(found.deep_view() == after);
        },
        Purpose::Definitions => {
            let site = if contains(location.uri.as_str(), scope.path.as_str()) {
                Site::SameFile
            } else {
                Site::CrossFile
            };
            let ghost evidence = seq![
                enrichment::site_evidence("lsp_definition"@, scope.path@, point(line, col)),
            ];
            let ghost relation = enrichment::lsp_relation(
                RelationKind::References,
                source,
                target,
                95,
                evidence,
            );
            let ghost after = admitted(found.deep_view(), source, target, site, relation);
            if found.admits(source, target, site) {
                let evidence = query_position_evidence(
                    "lsp_definition",
                    scope.path.as_str(),
                    &point_range(line, col),
                );
                found.push(
                    proven_relation(RelationKind::References, source, target, 95, evidence),
                );
            }
            assert(found.deep_view() == after);
        },
    }
}

fn add_locations(
    scope: &Scope,
    found: &mut Found,
    source: EntityId,
    line: u32,
    col: u32,
    locations: &Vec<Location>,
)
    ensures
        final(found).deep_view() == with_locations(
            scope.deep_view(),
            old(found).deep_view(),
            source,
            line,
            col,
            locations.deep_view(),
            locations@.len() as int,
        ),
{
    let ghost views = locations.deep_view();
    let mut i: usize = 0;
    while i < locations.len()
        invariant
            i <= locations@.len(),
            views == locations.deep_view(),
            found.deep_view() == with_locations(
                scope.deep_view(),
                old(found).deep_view(),
                source,
                line,
                col,
                views,
                i as int,
            ),
        decreases locations@.len() - i,
    {
        assert(views[i as int] == locations@[i as int].deep_view());
        add_location(scope, found, source, line, col, &locations[i]);
        i += 1;
    }
}

fn add_member(
    scope: &Scope,
    found: &mut Found,
    source: EntityId,
    line: u32,
    member_col: u32,
    target: EntityId,
)
    ensures
        final(found).deep_view() == with_member(
            scope.deep_view(),
            old(found).deep_view(),
            source,
            line,
            member_col,
            target,
        ),
{
    let (kind, site) = match scope.purpose {
        Purpose::Types => (RelationKind::UsesType, Site::Type),
        Purpose::Definitions => (RelationKind::References, Site::Member),
    };
    let ghost evidence = seq![
        enrichment::site_evidence("lsp_member_on_module"@, scope.path@, point(line, member_col)),
    ];
    let ghost relation = enrichment::lsp_relation(kind, source, target, 85, evidence);
    let ghost after = admitted(found.deep_view(), source, target, site, relation);
    if found.admits(source, target, site) {
        let evidence = query_position_evidence(
            "lsp_member_on_module",
            scope.path.as_str(),
            &point_range(line, member_col),
        );
        found.push(proven_relation(kind, source, target, 85, evidence));
    }
    assert(found.deep_view() == after);
}

fn add_calls(
    scope: &Scope,
    found: &mut Found,
    caller: &EntityRef,
    calls: &Vec<CallHierarchyOutgoingCall>,
)
    ensures
        final(found).deep_view() == with_relations(
            old(found).deep_view(),
            call_relations(
                scope.deep_view(),
                caller.deep_view(),
                calls.deep_view(),
                calls@.len() as int,
            ),
        ),
{
    let ghost views = calls.deep_view();
    let ghost before = found.deep_view();
    let mut i: usize = 0;
    assert(found.deep_view().relations =~= before.relations + call_relations(
        scope.deep_view(),
        caller.deep_view(),
        views,
        0,
    ));
    while i < calls.len()
        invariant
            i <= calls@.len(),
            views == calls.deep_view(),
            found.deep_view() == with_relations(
                before,
                call_relations(scope.deep_view(), caller.deep_view(), views, i as int),
            ),
        decreases calls@.len() - i,
    {
        let call = &calls[i];
        assert(views[i as int] == call.deep_view());
        let ghost done = call_relations(scope.deep_view(), caller.deep_view(), views, i as int);
        let line: u32 = call.to.selection_range.start.line;
        if let Some(target) = scope.index.find_at(call.to.uri.as_str(), line) {
            let evidence = if call.from_ranges.len() > 0 {
                query_position_evidence(
                    "lsp_call_hierarchy",
                    caller.file_path.as_str(),
                    &call.from_ranges[0],
                )
            } else {
                Vec::new()
            };
            assert(call.from_ranges@.len() == 0 ==> evidence.deep_view() =~= Seq::empty());
            let relation = proven_relation(
                RelationKind::Calls,
                caller.id,
                target.id,
                95,
                evidence,
            );
            found.push(relation);
            assert(found.deep_view().relations =~= before.relations + done.push(
                relation.deep_view(),
            ));
        }
        i += 1;
    }
}

fn add_overrides(
    scope: &Scope,
    found: &mut Found,
    method: &EntityRef,
    supertypes: &Vec<TypeHierarchyItem>,
)
    ensures
        final(found).deep_view() == with_relations(
            old(found).deep_view(),
            override_relations(
                scope.deep_view(),
                method.deep_view(),
                supertypes.deep_view(),
                supertypes@.len() as int,
            ),
        ),
{
    let ghost views = supertypes.deep_view();
    let ghost before = found.deep_view();
    let mut i: usize = 0;
    assert(found.deep_view().relations =~= before.relations + override_relations(
        scope.deep_view(),
        method.deep_view(),
        views,
        0,
    ));
    while i < supertypes.len()
        invariant
            i <= supertypes@.len(),
            views == supertypes.deep_view(),
            found.deep_view() == with_relations(
                before,
                override_relations(scope.deep_view(), method.deep_view(), views, i as int),
            ),
        decreases supertypes@.len() - i,
    {
        let item = &supertypes[i];
        assert(views[i as int] == item.deep_view());
        let ghost done = override_relations(
            scope.deep_view(),
            method.deep_view(),
            views,
            i as int,
        );
        let line: u32 = item.selection_range.start.line;
        if let Some(target) = scope.index.find_at(item.uri.as_str(), line) {
            let evidence = Vec::new();
            let relation = proven_relation(
                RelationKind::Overrides,
                method.id,
                target.id,
                90,
                evidence,
            );
            assert(evidence.deep_view() =~= Seq::empty());
            found.push(relation);
            assert(found.deep_view().relations =~= before.relations + done.push(
                relation.deep_view(),
            ));
        }
        i += 1;
    }
}

fn add_references(
    scope: &Scope,
    found: &mut Found,
    entity: &EntityRef,
    locations: &Vec<Location>,
)
    ensures
        final(found).deep_view() == with_references(
            scope.deep_view(),
            old(found).deep_view(),
            entity.deep_view(),
            locations.deep_view(),
            locations@.len() as int,
        ),
{
    let ghost views = locations.deep_view();
    let mut i: usize = 0;
    while i < locations.len()
        invariant
            i <= locations@.len(),
            views == locations.deep_view(),
            found.deep_view() == with_references(
                scope.deep_view(),
                old(found).deep_view(),
                entity.deep_view(),
                views,
                i as int,
            ),
        decreases locations@.len() - i,
    {
        let location = &locations[i];
        assert(views[i as int] == location.deep_view());
        let line: u32 = location.range.start.line;
        if let Some(referencing) = scope.index.find_at(location.uri.as_str(), line) {
            let src = referencing.id;
            let ghost relation = enrichment::lsp_relation(
                RelationKind::References,
                src,
                entity.id,
                95,
                Seq::empty(),
            );
            let ghost after = admitted(
                found.deep_view(),
                src,
                entity.id,
                Site::Reference,
                relation,
            );
            if found.admits(src, entity.id, Site::Reference) {
                let evidence = Vec::new();
                let relation = proven_relation(
                    RelationKind::References,
                    src,
                    entity.id,
                    95,
                    evidence,
                );
                assert(evidence.deep_view() =~= Seq::empty());
                found.push(relation);
            }
            assert(found.deep_view() == after);
        }
        i += 1;
    }
}

fn clone_locations(locations: &Vec<Location>) -> (r: Vec<Location>)
    ensures
        r.deep_view() == locations.deep_view(),
{
    let mut r: Vec<Location> = Vec::new();
    let mut i: usize = 0;
    while i < locations.len()
        invariant
            i <= locations@.len(),
            r@.len() == i,
            forall|k: int|
                0 <= k < i ==> (#[trigger] r@[k]).deep_view() == locations@[k].deep_view(),
        decreases locations@.len() - i,
    {
        r.push(locations[i].clone());
        i += 1;
    }
    assert(r.deep_view() =~= locations.deep_view());
    r
}

/// Add the tasks for the exports of the member's name in one module.
fn add_candidates_in(
    scope: &Scope,
    tasks: &mut Vec<Task>,
    source: EntityId,
    line: u32,
    member_col: u32,
    member: &str,
    proven: &Vec<Location>,
    entities: &Vec<&EntityRef>,
)
    ensures
        final(tasks).deep_view() == old(tasks).deep_view() + candidates_in(
            scope.deep_view(),
            source,
            line,
            member_col,
            member@,
            proven.deep_view(),
            entities.deep_view(),
            entities@.len() as int,
        ),
{
    let ghost views = entities.deep_view();
    let ghost before = tasks.deep_view();
    let mut i: usize = 0;
    assert(tasks.deep_view() =~= before + Seq::empty());
    while i < entities.len()
        invariant
            i <= entities@.len(),
            views == entities.deep_view(),
            tasks.deep_view() == before + candidates_in(
                scope.deep_view(),
                source,
                line,
                member_col,
                member@,
                proven.deep_view(),
                views,
                i as int,
            ),
        decreases entities@.len() - i,
    {
        let entity = entities[i];
        assert(views[i as int] == entity.deep_view());
        let ghost current = tasks.deep_view();
        if same(entity.name.as_str(), member) && (same(
            entity.file_path.as_str(),
            scope.path.as_str(),
        ) || lsp_language_id(entity.file_path.as_str()).is_some()) {
            let task = Task::Candidate {
                source,
                line,
                member_col,
                target: entity.clone(),
                proven: clone_locations(proven),
            };
            tasks.push(task);
            assert(tasks.deep_view() =~= current.push(task.deep_view()));
            assert(current.push(task.deep_view()) =~= before + candidates_in(
                scope.deep_view(),
                source,
                line,
                member_col,
                member@,
                proven.deep_view(),
                views,
                i + 1,
            ));
        }
        i += 1;
    }
}

/// The tasks for the exports of the member's name in some modules.
fn candidates(
    scope: &Scope,
    source: EntityId,
    line: u32,
    member_col: u32,
    member: &str,
    proven: &Vec<Location>,
    modules: &Vec<Location>,
) -> (r: Vec<Task>)
    ensures
        r.deep_view() == candidates_of(
            scope.deep_view(),
            source,
            line,
            member_col,
            member@,
            proven.deep_view(),
            modules.deep_view(),
            modules@.len() as int,
        ),
{
    let ghost views = modules.deep_view();
    let mut tasks: Vec<Task> = Vec::new();
    assert(tasks.deep_view() =~= Seq::<TaskView>::empty());
    let mut i: usize = 0;
    while i < modules.len()
        invariant
            i <= modules@.len(),
            views == modules.deep_view(),
            tasks.deep_view() == candidates_of(
                scope.deep_view(),
                source,
                line,
                member_col,
                member@,
                proven.deep_view(),
                views,
                i as int,
            ),
        decreases modules@.len() - i,
    {
        assert(views[i as int] == modules@[i as int].deep_view());
        let ghost current = tasks.deep_view();
        match uri_to_path(modules[i].uri.as_str()) {
            Some(path) => {
                let entities = scope.index.entities_in_file(path.as_str());
                add_candidates_in(
                    scope,
                    &mut tasks,
                    source,
                    line,
                    member_col,
                    member,
                    proven,
                    &entities,
                );
            },
            None => {
                assert(entities_at(scope.deep_view(), views[i as int]).len() == 0);
                assert(current + Seq::<TaskView>::empty() =~= current);
            },
        }
        i += 1;
    }
    tasks
}

/// Add the tasks for the identifiers of a line.
pub fn add_probes(
    scope: &Scope,
    tasks: &mut Vec<Task>,
    source: EntityId,
    line: u32,
    chars: &Vec<char>,
    positions: &Vec<u32>,
)
    requires
        positions@ == scan::identifier_positions(chars@),
    ensures
        final(tasks).deep_view() == old(tasks).deep_view() + probes_on(
            scope.deep_view(),
            source,
            line,
            chars@,
        ),
{
    let ghost all = probes_on(scope.deep_view(), source, line, chars@);
    let ghost before = tasks.deep_view();
    let mut i: usize = 0;
    assert(tasks.deep_view() =~= before + all.take(0));
    while i < positions.len()
        invariant
            i <= positions@.len(),
            positions@ == scan::identifier_positions(chars@),
            all == probes_on(scope.deep_view(), source, line, chars@),
            tasks.deep_view() == before + all.take(i as int),
        decreases positions@.len() - i,
    {
        let col: u32 = positions[i];
        let ghost current = tasks.deep_view();
        let opened = member_in(chars, col);
        let task = match opened {
            Some((_receiver, member_col, member)) if scope.definition => Task::Receiver {
                source,
                line,
                col,
                member_col,
                member,
            },
            _ => Task::Ordinary { source, line, col },
        };
        assert(task.deep_view() == all[i as int]);
        tasks.push(task);
        assert(tasks.deep_view() =~= current.push(all[i as int]));
        assert(all.take(i + 1) =~= all.take(i as int).push(all[i as int]));
        assert(tasks.deep_view() =~= before + all.take(i + 1));
        i += 1;
    }
    assert(all.take(i as int) =~= all);
}

/// The tasks for the identifiers of an entity's lines.
fn entity_probes(scope: &Scope, entity: &EntityRef, content: &str) -> (r: Vec<Task>)
    ensures
        r.deep_view() == probes_of_entity(
            scope.deep_view(),
            entity.deep_view(),
            text::lines_of(content@),
            entity.start_line as int,
        ),
{
    let all = lines(content);
    let ghost views = text::lines_of(content@);
    let ghost entity_view = entity.deep_view();
    assert(all@.map_values(|line: Vec<char>| line@) == views);
    let n: usize = all.len();
    let mut tasks: Vec<Task> = Vec::new();
    let mut i: usize = entity.start_line as usize;
    assert(tasks.deep_view() =~= Seq::<TaskView>::empty());
    assert(Seq::<TaskView>::empty() + probes_of_entity(
        scope.deep_view(),
        entity_view,
        views,
        i as int,
    ) =~= probes_of_entity(scope.deep_view(), entity_view, views, i as int));
    while i < n && i <= entity.end_line as usize
        invariant
            n == all@.len() == views.len(),
            all@.map_values(|line: Vec<char>| line@) == views,
            entity_view == entity.deep_view(),
            tasks.deep_view() + probes_of_entity(
                scope.deep_view(),
                entity_view,
                views,
                i as int,
            ) == probes_of_entity(
                scope.deep_view(),
                entity_view,
                views,
                entity.start_line as int,
            ),
        decreases n - i,
    {
        let chars = &all[i];
        assert(all@.map_values(|line: Vec<char>| line@)[i as int] == chars@);
        let ghost current = tasks.deep_view();
        let positions = positions_in(chars);
        add_probes(scope, &mut tasks, entity.id, i as u32, chars, &positions);
        assert(tasks.deep_view() + probes_of_entity(
            scope.deep_view(),
            entity_view,
            views,
            i + 1,
        ) =~= current + (probes_on(scope.deep_view(), entity.id, i as u32, chars@)
            + probes_of_entity(scope.deep_view(), entity_view, views, i + 1)));
        i += 1;
    }
    assert(tasks.deep_view() + Seq::<TaskView>::empty() =~= tasks.deep_view());
    tasks
}

/// An enrichment pass.
#[derive(Debug)]
pub struct Pass<'a> {
    scope: Scope<'a>,
    agenda: Vec<Task>,
    found: Found,
    open: Vec<String>,
    failure: Option<LspError>,
    queried: usize,
}

impl<'a> DeepView for Pass<'a> {
    type V = PassView;

    closed spec fn deep_view(&self) -> PassView {
        PassView {
            scope: self.scope.deep_view(),
            agenda: self.agenda.deep_view(),
            found: self.found.deep_view(),
            open: self.open.deep_view(),
            failure: self.failure.deep_view(),
            queried: self.queried,
        }
    }
}

/// Whether a task's document can be handed to the server where it has to be.
pub open spec fn is_openable(scope: ScopeView, task: TaskView) -> bool {
    match task {
        TaskView::Candidate { target, .. } => target.file_path == scope.path
            || enrichment::document_language(target.file_path) is Some,
        TaskView::Opening { target, .. } => enrichment::document_language(
            target.file_path,
        ) is Some,
        _ => true,
    }
}

/// Whether every document that a pass may have to open has a known language.
pub open spec fn is_well_formed(pass: PassView) -> bool {
    forall|i: int|
        0 <= i < pass.agenda.len() ==> is_openable(pass.scope, #[trigger] pass.agenda[i])
}

/// A pass that begins: nothing is found and nothing is open.
pub open spec fn begun(scope: ScopeView, tasks: Seq<TaskView>, queried: usize) -> PassView {
    PassView {
        scope,
        agenda: tasks.reverse(),
        found: nothing_found(),
        open: Seq::empty(),
        failure: None,
        queried,
    }
}

/// What a pass came to: what it found, or why it failed, and the documents it
/// opened.
pub struct Outcome {
    /// The documents to close.
    pub open: Vec<String>,
    /// What was found, with how many definitions were resolved and how many
    /// positions were set out to be asked about.
    pub result: Result<Found, LspError>,
    pub queried: usize,
}

/// Put tasks on an agenda, so that they are done in order, before the rest.
fn put(agenda: &mut Vec<Task>, tasks: Vec<Task>)
    ensures
        final(agenda).deep_view() == old(agenda).deep_view() + tasks.deep_view().reverse(),
{
    let ghost all = tasks.deep_view();
    let ghost before = agenda.deep_view();
    let mut tasks = tasks;
    assert(agenda.deep_view() =~= before + all.reverse().take(0));
    while tasks.len() > 0
        invariant
            tasks@.len() <= all.len(),
            tasks.deep_view() == all.take(tasks@.len() as int),
            agenda.deep_view() == before + all.reverse().take(all.len() - tasks@.len()),
        decreases tasks@.len(),
    {
        let ghost n = tasks@.len();
        let ghost left = tasks.deep_view();
        let ghost current = agenda.deep_view();
        if let Some(task) = tasks.pop() {
            assert(task.deep_view() == left[n - 1]);
            assert(task.deep_view() == all[n - 1]);
            assert(tasks.deep_view() =~= all.take(n - 1));
            agenda.push(task);
            assert(agenda.deep_view() =~= current.push(all[n - 1]));
            let ghost done = all.len() - n;
            assert(all.reverse()[done] == all[n - 1]);
            assert(all.reverse().take(done + 1) =~= all.reverse().take(done).push(all[n - 1]));
            assert(agenda.deep_view() =~= before + all.reverse().take(done + 1));
        }
    }
    assert(all.reverse().take(all.len() as int) =~= all.reverse());
}

fn entity_document(scope: &Scope, entity: &EntityRef) -> (r: String)
    ensures
        r@ == document_of(scope.deep_view(), entity.deep_view()),
{
    path_to_uri(join_path(scope.root.as_str(), entity.file_path.as_str()).as_str())
}

fn place(uri: &str, line: u32, character: u32) -> (r: Json)
    ensures
        r@ == protocol::place_json(uri@, Position { line, character }),
{
    let params = TextDocumentPositionParams {
        text_document: TextDocumentIdentifier { uri: uri.to_owned() },
        position: Position { line, character },
    };
    params.to_json()
}

impl<'a> Pass<'a> {
    /// Whether every document that the pass may have to open has a known
    /// language.
    pub open spec fn wf(&self) -> bool {
        is_well_formed(self.deep_view())
    }

    /// Begin a pass.
    pub fn begin(scope: Scope<'a>, tasks: Vec<Task>, queried: usize) -> (r: Self)
        requires
            forall|i: int|
                0 <= i < tasks@.len() ==> is_openable(
                    scope.deep_view(),
                    #[trigger] tasks.deep_view()[i],
                ),
        ensures
            r.wf(),
            r.deep_view() == begun(scope.deep_view(), tasks.deep_view(), queried),
    {
        let ghost views = tasks.deep_view();
        let mut agenda: Vec<Task> = Vec::new();
        assert(agenda.deep_view() =~= Seq::<TaskView>::empty());
        put(&mut agenda, tasks);
        let r = Pass {
            scope,
            agenda,
            found: Found::new(),
            open: Vec::new(),
            failure: None,
            queried,
        };
        assert(r.agenda.deep_view() =~= views.reverse());
        assert(r.open.deep_view() =~= Seq::<Seq<char>>::empty());
        assert forall|i: int| 0 <= i < r.deep_view().agenda.len() implies is_openable(
            scope.deep_view(),
            #[trigger] r.deep_view().agenda[i],
        ) by {
            assert(r.deep_view().agenda[i] == views[views.len() - 1 - i]);
        }
        r
    }

    /// Whether the server holds the document of an entity's file.
    fn holds(&self, entity: &EntityRef) -> (r: bool)
        ensures
            r == is_held(self.deep_view(), entity.deep_view()),
    {
        if same(entity.file_path.as_str(), self.scope.path.as_str()) {
            return true;
        }
        let uri = entity_document(&self.scope, entity);
        let ghost open = self.open.deep_view();
        let mut i: usize = 0;
        while i < self.open.len()
            invariant
                i <= self.open@.len(),
                open == self.open.deep_view(),
                uri@ == document_of(self.scope.deep_view(), entity.deep_view()),
                forall|k: int| 0 <= k < i ==> open[k] != uri@,
            decreases self.open@.len() - i,
        {
            assert(open[i as int] == self.open@[i as int]@);
            if same(self.open[i].as_str(), uri.as_str()) {
                return true;
            }
            i += 1;
        }
        false
    }

    /// What the pass waits for.
    pub fn action(&self) -> (r: Action)
        requires
            self.wf(),
        ensures
            r.deep_view() == action_of(self.deep_view()),
    {
        let n: usize = self.agenda.len();
        if n == 0 {
            return Action::Finish;
        }
        let task = &self.agenda[n - 1];
        let ghost view = self.deep_view();
        assert(view.agenda.last() == task.deep_view());
        assert(is_openable(view.scope, view.agenda[n - 1]));
        let scope = &self.scope;
        let uri = scope.uri.as_str();
        match task {
            Task::Ordinary { line, col, .. } => {
                let (method, limit) = match scope.purpose {
                    Purpose::Types => ("textDocument/typeDefinition", None),
                    Purpose::Definitions => ("textDocument/definition", Some(DEFINITION_SECONDS)),
                };
                Action::Request { method, params: place(uri, *line, *col), limit }
            },
            Task::Receiver { line, col, .. } => Action::Request {
                method: "textDocument/definition",
                params: place(uri, *line, *col),
                limit: None,
            },
            Task::Module { line, col, .. } => Action::Request {
                method: "textDocument/typeDefinition",
                params: place(uri, *line, *col),
                limit: None,
            },
            Task::Member { line, member_col, .. } => Action::Request {
                method: "textDocument/definition",
                params: place(uri, *line, *member_col),
                limit: None,
            },
            Task::Candidate { target, .. } => {
                if self.holds(target) {
                    let document = entity_document(scope, target);
                    Action::Request {
                        method: "textDocument/definition",
                        params: place(document.as_str(), target.name_line, target.name_col),
                        limit: None,
                    }
                } else {
                    Action::Read { path: target.file_path.clone() }
                }
            },
            Task::Opening { target, content, .. } => {
                match lsp_language_id(target.file_path.as_str()) {
                    Some(language_id) => Action::Open {
                        uri: entity_document(scope, target),
                        language_id,
                        content: content.clone(),
                    },
                    None => {
                        assert(false);
                        Action::Finish
                    },
                }
            },
            Task::Source { entity } => Action::Read { path: entity.file_path.clone() },
            Task::Calls { caller } => {
                let params = CallHierarchyPrepareParams {
                    text_document: TextDocumentIdentifier { uri: entity_document(scope, caller) },
                    position: Position { line: caller.name_line, character: caller.name_col },
                };
                Action::Request {
                    method: "textDocument/prepareCallHierarchy",
                    params: params.to_json(),
                    limit: None,
                }
            },
            Task::Outgoing { item, .. } => Action::Request {
                method: "callHierarchy/outgoingCalls",
                params: protocol::about_call_item(item),
                limit: None,
            },
            Task::Overrides { method } => {
                let params = TypeHierarchyPrepareParams {
                    text_document: TextDocumentIdentifier { uri: entity_document(scope, method) },
                    position: Position { line: method.name_line, character: method.start_col },
                };
                Action::Request {
                    method: "textDocument/prepareTypeHierarchy",
                    params: params.to_json(),
                    limit: None,
                }
            },
            Task::Supertypes { subtype, .. } => Action::Request {
                method: "typeHierarchy/supertypes",
                params: protocol::about_type_item(subtype),
                limit: None,
            },
            Task::References { entity } => {
                let document = entity_document(scope, entity);
                let position = Position {
                    line: entity.name_line,
                    character: entity.name_col,
                };
                Action::Request {
                    method: "textDocument/references",
                    params: references_params(document.as_str(), position),
                    limit: None,
                }
            },
        }
    }

    /// Give up: nothing is left to do.
    fn fail(&mut self, error: LspError)
        ensures
            final(self).deep_view() == (PassView {
                agenda: Seq::empty(),
                failure: Some(error.deep_view()),
                ..old(self).deep_view()
            }),
    {
        self.agenda = Vec::new();
        assert(self.agenda.deep_view() =~= Seq::<TaskView>::empty());
        self.failure = Some(error);
    }

    /// Put tasks before the rest.
    fn put(&mut self, tasks: Vec<Task>)
        ensures
            final(self).deep_view() == (PassView {
                agenda: old(self).deep_view().agenda + tasks.deep_view().reverse(),
                ..old(self).deep_view()
            }),
    {
        put(&mut self.agenda, tasks);
    }

    /// Put a task before the rest.
    fn put_one(&mut self, task: Task)
        ensures
            final(self).deep_view() == (PassView {
                agenda: old(self).deep_view().agenda + seq![task.deep_view()].reverse(),
                ..old(self).deep_view()
            }),
    {
        let ghost before = self.agenda.deep_view();
        self.agenda.push(task);
        assert(self.agenda.deep_view() =~= before + seq![task.deep_view()].reverse());
    }

    /// Take in the answer to a request.
    fn answer(&mut self, task: Task, answer: Json)
        requires
            !(task is Opening),
            !(task is Source),
        ensures
            match answered(
                old(self).deep_view().scope,
                old(self).deep_view().found,
                task.deep_view(),
                answer@,
            ) {
                None => final(self).deep_view() == failed(
                    old(self).deep_view(),
                    malformed(method_of(old(self).deep_view().scope, task.deep_view())),
                ),
                Some((tasks, found)) => final(self).deep_view() == (PassView {
                    agenda: old(self).deep_view().agenda + tasks.reverse(),
                    found,
                    ..old(self).deep_view()
                }),
            },
    {
        let ghost before = self.deep_view();
        assert(before.agenda + Seq::<TaskView>::empty().reverse() =~= before.agenda);
        match task {
            Task::Ordinary { source, line, col } => {
                match read_locations(&answer) {
                    None => {
                        let method = match self.scope.purpose {
                            Purpose::Types => "textDocument/typeDefinition",
                            Purpose::Definitions => "textDocument/definition",
                        };
                        self.fail_malformed(method);
                    },
                    Some(locations) => {
                        add_locations(
                            &self.scope,
                            &mut self.found,
                            source,
                            line,
                            col,
                            &locations,
                        );
                    },
                }
            },
            Task::Receiver { source, line, col, member_col, member } => {
                match read_locations(&answer) {
                    None => self.fail_malformed("textDocument/definition"),
                    Some(definitions) => {
                        let listed = definitions.as_slice();
                        assert(listed.deep_view() =~= definitions.deep_view());
                        let task = if !receiver_names_a_module(
                            listed,
                            self.scope.path.as_str(),
                        ) {
                            Task::Ordinary { source, line, col }
                        } else if self.scope.type_definition {
                            Task::Module { source, line, col, member_col, member }
                        } else {
                            let modules: Vec<Location> = Vec::new();
                            assert(modules.deep_view() =~= Seq::<LocationView>::empty());
                            Task::Member { source, line, member_col, member, modules }
                        };
                        self.put_one(task);
                    },
                }
            },
            Task::Module { source, line, col: _, member_col, member } => {
                match read_locations(&answer) {
                    None => self.fail_malformed("textDocument/typeDefinition"),
                    Some(modules) => {
                        self.put_one(Task::Member { source, line, member_col, member, modules });
                    },
                }
            },
            Task::Member { source, line, member_col, member, modules } => {
                match read_locations(&answer) {
                    None => self.fail_malformed("textDocument/definition"),
                    Some(proven) => {
                        let tasks = candidates(
                            &self.scope,
                            source,
                            line,
                            member_col,
                            member.as_str(),
                            &proven,
                            &modules,
                        );
                        self.put(tasks);
                    },
                }
            },
            Task::Candidate { source, line, member_col, target, proven } => {
                match read_locations(&answer) {
                    None => self.fail_malformed("textDocument/definition"),
                    Some(definitions) => {
                        if any_same_location(&definitions, &proven) {
                            add_member(
                                &self.scope,
                                &mut self.found,
                                source,
                                line,
                                member_col,
                                target.id,
                            );
                        }
                    },
                }
            },
            Task::Calls { caller } => {
                match read_call_items(&answer) {
                    None => self.fail_malformed("textDocument/prepareCallHierarchy"),
                    Some(items) => {
                        let ghost views = items.deep_view();
                        if items.len() > 0 {
                            assert(views[0] == items@[0].deep_view());
                            let mut items = items;
                            let item = items.remove(0);
                            self.put_one(Task::Outgoing { caller, item });
                        }
                    },
                }
            },
            Task::Outgoing { caller, item: _ } => {
                match read_outgoing_calls(&answer) {
                    None => self.fail_malformed("callHierarchy/outgoingCalls"),
                    Some(calls) => add_calls(&self.scope, &mut self.found, &caller, &calls),
                }
            },
            Task::Overrides { method } => {
                match read_type_items(&answer) {
                    None => self.fail_malformed("textDocument/prepareTypeHierarchy"),
                    Some(items) => {
                        let ghost views = items.deep_view();
                        if items.len() > 0 {
                            assert(views[0] == items@[0].deep_view());
                            let mut items = items;
                            let subtype = items.remove(0);
                            self.put_one(Task::Supertypes { method, subtype });
                        }
                    },
                }
            },
            Task::Supertypes { method, subtype: _ } => {
                match read_type_items(&answer) {
                    None => self.fail_malformed("typeHierarchy/supertypes"),
                    Some(supertypes) => {
                        add_overrides(&self.scope, &mut self.found, &method, &supertypes)
                    },
                }
            },
            Task::References { entity } => {
                match read_location_list(&answer) {
                    None => self.fail_malformed("textDocument/references"),
                    Some(locations) => {
                        add_references(&self.scope, &mut self.found, &entity, &locations)
                    },
                }
            },
            Task::Opening { .. } => {},
            Task::Source { .. } => {},
        }
    }

    /// Give up over an answer of no shape that the request has.
    fn fail_malformed(&mut self, method: &str)
        ensures
            final(self).deep_view() == failed(old(self).deep_view(), malformed(method@)),
    {
        self.fail(LspError::Protocol(joined("malformed answer to ", method)));
    }

    /// Take in what came of the action that the pass waited for.
    pub fn step(&mut self, event: Event)
        requires
            old(self).wf(),
            fits(action_of(old(self).deep_view()), event.deep_view()),
        ensures
            final(self).wf(),
            final(self).deep_view() == stepped(old(self).deep_view(), event.deep_view()),
    {
        let ghost before = self.deep_view();
        proof {
            step_keeps_well_formed(before, event.deep_view());
        }
        let task = match self.agenda.pop() {
            None => {
                return;
            },
            Some(task) => task,
        };
        assert(task.deep_view() == before.agenda.last());
        assert(self.agenda.deep_view() =~= before.agenda.drop_last());
        let ghost rest = self.deep_view();
        assert(rest == (PassView { agenda: before.agenda.drop_last(), ..before }));
        match event {
            Event::Reply(Err(error)) => self.fail(error),
            Event::Reply(Ok(answer)) => self.answer(task, answer),
            Event::Expired => {
                assert(rest.agenda + Seq::<TaskView>::empty().reverse() =~= rest.agenda);
            },
            Event::Opened(Err(error)) => self.fail(error),
            Event::Opened(Ok(_)) => {
                if let Task::Opening { source, line, member_col, target, proven, content: _ } =
                    task {
                    self.put_one(Task::Candidate { source, line, member_col, target, proven });
                }
            },
            Event::Text(content) => {
                match (task, content) {
                    (Task::Source { entity }, None) => {
                        let message = joined(
                            "no graph-owned text for ",
                            entity.file_path.as_str(),
                        );
                        self.fail(LspError::Protocol(message));
                    },
                    (Task::Source { entity }, Some(content)) => {
                        let tasks = entity_probes(&self.scope, &entity, content.as_str());
                        self.put(tasks);
                    },
                    (
                        Task::Candidate { source, line, member_col, target, proven },
                        Some(content),
                    ) => {
                        let uri = entity_document(&self.scope, &target);
                        let ghost open = self.open.deep_view();
                        self.open.push(uri);
                        assert(self.open.deep_view() =~= open.push(uri@));
                        self.put_one(
                            Task::Opening { source, line, member_col, target, proven, content },
                        );
                    },
                    _ => {
                        assert(rest.agenda + Seq::<TaskView>::empty().reverse() =~= rest.agenda);
                    },
                }
            },
        }
    }

    /// The documents that the pass has opened, to be closed when it is over or
    /// given up.
    pub fn open_documents(&self) -> (r: &Vec<String>)
        ensures
            r.deep_view() == self.deep_view().open,
    {
        &self.open
    }

    /// What the pass came to.
    pub fn finish(self) -> (r: Outcome)
        ensures
            r.open.deep_view() == self.deep_view().open,
            r.queried == self.deep_view().queried,
            match self.deep_view().failure {
                Some(error) => r.result is Err && r.result->Err_0.deep_view() == error,
                None => r.result is Ok && r.result->Ok_0.deep_view() == self.deep_view().found,
            },
    {
        let result = match self.failure {
            Some(error) => Err(error),
            None => Ok(self.found),
        };
        Outcome { open: self.open, result, queried: self.queried }
    }
}

// ── What every pass keeps ───────────────────────────────────────────────

proof fn lemma_candidates_in_openable(
    scope: ScopeView,
    source: EntityId,
    line: u32,
    member_col: u32,
    member: Seq<char>,
    proven: Seq<LocationView>,
    entities: Seq<EntityView>,
    n: int,
)
    requires
        0 <= n <= entities.len(),
    ensures
        forall|i: int|
            0 <= i < candidates_in(
                scope,
                source,
                line,
                member_col,
                member,
                proven,
                entities,
                n,
            ).len() ==> is_openable(
                scope,
                #[trigger] candidates_in(
                    scope,
                    source,
                    line,
                    member_col,
                    member,
                    proven,
                    entities,
                    n,
                )[i],
            ),
    decreases n,
{
    if n > 0 {
        lemma_candidates_in_openable(
            scope,
            source,
            line,
            member_col,
            member,
            proven,
            entities,
            n - 1,
        );
        let before = candidates_in(scope, source, line, member_col, member, proven, entities, n - 1);
        let all = candidates_in(scope, source, line, member_col, member, proven, entities, n);
        assert forall|i: int| 0 <= i < all.len() implies is_openable(scope, #[trigger] all[i]) by {
            if i < before.len() {
                assert(all[i] == before[i]);
            }
        }
    }
}

proof fn lemma_candidates_openable(
    scope: ScopeView,
    source: EntityId,
    line: u32,
    member_col: u32,
    member: Seq<char>,
    proven: Seq<LocationView>,
    modules: Seq<LocationView>,
    n: int,
)
    requires
        0 <= n <= modules.len(),
    ensures
        forall|i: int|
            0 <= i < candidates_of(
                scope,
                source,
                line,
                member_col,
                member,
                proven,
                modules,
                n,
            ).len() ==> is_openable(
                scope,
                #[trigger] candidates_of(
                    scope,
                    source,
                    line,
                    member_col,
                    member,
                    proven,
                    modules,
                    n,
                )[i],
            ),
    decreases n,
{
    if n > 0 {
        lemma_candidates_openable(
            scope,
            source,
            line,
            member_col,
            member,
            proven,
            modules,
            n - 1,
        );
        let entities = entities_at(scope, modules[n - 1]);
        lemma_candidates_in_openable(
            scope,
            source,
            line,
            member_col,
            member,
            proven,
            entities,
            entities.len() as int,
        );
        let before = candidates_of(scope, source, line, member_col, member, proven, modules, n - 1);
        let more = candidates_in(
            scope,
            source,
            line,
            member_col,
            member,
            proven,
            entities,
            entities.len() as int,
        );
        let all = candidates_of(scope, source, line, member_col, member, proven, modules, n);
        assert forall|i: int| 0 <= i < all.len() implies is_openable(scope, #[trigger] all[i]) by {
            if i < before.len() {
                assert(all[i] == before[i]);
            } else {
                assert(all[i] == more[i - before.len()]);
            }
        }
    }
}

proof fn lemma_probes_openable(
    scope: ScopeView,
    entity: EntityView,
    lines: Seq<Seq<char>>,
    line: int,
)
    ensures
        forall|i: int|
            0 <= i < probes_of_entity(scope, entity, lines, line).len() ==> is_openable(
                scope,
                #[trigger] probes_of_entity(scope, entity, lines, line)[i],
            ),
    decreases lines.len() - line,
{
    if 0 <= line < lines.len() && line <= entity.end_line {
        lemma_probes_openable(scope, entity, lines, line + 1);
        let first = probes_on(scope, entity.id, line as u32, lines[line]);
        let more = probes_of_entity(scope, entity, lines, line + 1);
        let all = probes_of_entity(scope, entity, lines, line);
        assert forall|i: int| 0 <= i < all.len() implies is_openable(scope, #[trigger] all[i]) by {
            if i < first.len() {
                assert(all[i] == first[i]);
            } else {
                assert(all[i] == more[i - first.len()]);
            }
        }
    }
}

/// Every step of a pass keeps it such that each document that it may have to
/// open has a known language.
pub proof fn step_keeps_well_formed(pass: PassView, event: EventView)
    requires
        is_well_formed(pass),
        fits(action_of(pass), event),
    ensures
        is_well_formed(stepped(pass, event)),
{
    let scope = pass.scope;
    let task = pass.agenda.last();
    let after = stepped(pass, event);
    assert(is_openable(scope, pass.agenda[pass.agenda.len() - 1]));
    match event {
        EventView::Reply(Ok(answer)) => {
            if let Some((tasks, found)) = answered(scope, pass.found, task, answer) {
                if let TaskView::Member { source, line, member_col, member, modules } = task {
                    let proven = protocol::locations_of(answer)->0;
                    lemma_candidates_openable(
                        scope,
                        source,
                        line,
                        member_col,
                        member,
                        proven,
                        modules,
                        modules.len() as int,
                    );
                }
                assert forall|i: int| 0 <= i < tasks.len() implies is_openable(
                    scope,
                    #[trigger] tasks[i],
                ) by {}
                lemma_replaced_openable(pass, tasks);
            }
        },
        EventView::Expired => {
            lemma_replaced_openable(pass, Seq::empty());
        },
        EventView::Opened(Ok(_)) => {
            if let TaskView::Opening { source, line, member_col, target, proven, .. } = task {
                lemma_replaced_openable(
                    pass,
                    seq![TaskView::Candidate { source, line, member_col, target, proven }],
                );
            }
        },
        EventView::Text(content) => {
            match (task, content) {
                (TaskView::Source { entity }, Some(content)) => {
                    let lines = text::lines_of(content);
                    lemma_probes_openable(scope, entity, lines, entity.start_line as int);
                    lemma_replaced_openable(
                        pass,
                        probes_of_entity(scope, entity, lines, entity.start_line as int),
                    );
                },
                (TaskView::Candidate { .. }, None) => {
                    lemma_replaced_openable(pass, Seq::empty());
                },
                (
                    TaskView::Candidate { source, line, member_col, target, proven },
                    Some(content),
                ) => {
                    lemma_replaced_openable(
                        pass,
                        seq![
                            TaskView::Opening {
                                source,
                                line,
                                member_col,
                                target,
                                proven,
                                content,
                            },
                        ],
                    );
                },
                _ => {},
            }
        },
        _ => {},
    }
}

proof fn lemma_replaced_openable(pass: PassView, tasks: Seq<TaskView>)
    requires
        is_well_formed(pass),
        pass.agenda.len() > 0,
        forall|i: int| 0 <= i < tasks.len() ==> is_openable(pass.scope, #[trigger] tasks[i]),
    ensures
        is_well_formed(replaced(pass, tasks)),
{
    let after = replaced(pass, tasks);
    let kept = pass.agenda.drop_last();
    assert forall|i: int| 0 <= i < after.agenda.len() implies is_openable(
        pass.scope,
        #[trigger] after.agenda[i],
    ) by {
        if i < kept.len() {
            assert(after.agenda[i] == pass.agenda[i]);
        } else {
            assert(after.agenda[i] == tasks[tasks.len() - 1 - (i - kept.len())]);
        }
    }
}

} // verus!
