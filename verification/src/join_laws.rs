//! How a member of a module is bound to the export it names, and what each task asks
//! the server for.

use vstd::prelude::*;

use crate::answer_laws;
use crate::capability;
use crate::capability::LspCapability;
use crate::enrichment;
use crate::entity_index;
use crate::entity_index::{EntityView, FileView};
use crate::json::JsonView;
use crate::lifecycle;
use crate::pass;
use crate::pass::{ActionView, EventView, PassView, Purpose, ScopeView, Site, TaskView};
use crate::protocol;
use crate::protocol::{CapabilitiesView, ItemView, LocationView};
use crate::types::EntityId;

verus! {

// ── Receivers ───────────────────────────────────────────────────────────

/// Whether a location lies in another file than the one at `path`: neither path is
/// a tail of the other.
pub open spec fn is_in_another_file(location: LocationView, path: Seq<char>) -> bool {
    protocol::path_of(location.uri) matches Some(other) && !other.is_suffix_of(path)
        && !path.is_suffix_of(other)
}

/// A receiver of which some definition lies in another file names a module: its type
/// is asked for where the server answers about types, and the member behind it is
/// asked about otherwise. One of which every definition lies in the file itself, or
/// that has none, is a value and is asked about like any identifier.
pub proof fn receiver_is_told_by_its_definitions(
    p: PassView,
    source: EntityId,
    line: u32,
    col: u32,
    member_col: u32,
    member: Seq<char>,
    answer: JsonView,
)
    requires
        p.agenda.len() > 0,
        p.agenda.last() == (TaskView::Receiver { source, line, col, member_col, member }),
        protocol::locations_of(answer) is Some,
    ensures
        ({
            let definitions = protocol::locations_of(answer)->0;
            let after = pass::stepped(p, EventView::Reply(Ok(answer)));
            let names_module = exists|i: int|
                0 <= i < definitions.len() && is_in_another_file(
                    #[trigger] definitions[i],
                    p.scope.path,
                );
            &&& after.found == p.found
            &&& after.open == p.open
            &&& after.failure == p.failure
            &&& after.agenda == p.agenda.drop_last().push(
                if !names_module {
                    TaskView::Ordinary { source, line, col }
                } else if p.scope.type_definition {
                    TaskView::Module { source, line, col, member_col, member }
                } else {
                    TaskView::Member { source, line, member_col, member, modules: Seq::empty() }
                },
            )
        }),
{
    let definitions = protocol::locations_of(answer)->0;
    let path = p.scope.path;
    assert forall|i: int| 0 <= i < definitions.len() implies is_in_another_file(
        #[trigger] definitions[i],
        path,
    ) == enrichment::lies_outside(definitions[i], path) by {}
    if enrichment::names_a_module(definitions, path) {
        let i = choose|i: int|
            0 <= i < definitions.len() && enrichment::lies_outside(
                #[trigger] definitions[i],
                path,
            );
        assert(is_in_another_file(definitions[i], path));
    } else {
        assert forall|i: int| 0 <= i < definitions.len() implies !is_in_another_file(
            #[trigger] definitions[i],
            path,
        ) by {
            assert(!enrichment::lies_outside(definitions[i], path));
        }
    }
    let after = pass::stepped(p, EventView::Reply(Ok(answer)));
    let (tasks, _found) = pass::answered(p.scope, p.found, p.agenda.last(), answer)->0;
    assert(tasks.len() == 1);
    assert(after.agenda =~= p.agenda.drop_last().push(tasks[0]));
}

/// The type of a receiver that names a module is where the module is: its member is
/// asked about next, with those places.
pub proof fn module_is_where_its_type_is(
    p: PassView,
    source: EntityId,
    line: u32,
    col: u32,
    member_col: u32,
    member: Seq<char>,
    answer: JsonView,
)
    requires
        p.agenda.len() > 0,
        p.agenda.last() == (TaskView::Module { source, line, col, member_col, member }),
        protocol::locations_of(answer) is Some,
    ensures
        ({
            let modules = protocol::locations_of(answer)->0;
            let after = pass::stepped(p, EventView::Reply(Ok(answer)));
            &&& after.agenda == p.agenda.drop_last().push(
                TaskView::Member { source, line, member_col, member, modules },
            )
            &&& after.found == p.found
            &&& after.open == p.open
            &&& after.failure == p.failure
        }),
{
    let modules = protocol::locations_of(answer)->0;
    let after = pass::stepped(p, EventView::Reply(Ok(answer)));
    assert(after.agenda =~= p.agenda.drop_last().push(
        TaskView::Member { source, line, member_col, member, modules },
    ));
}

// ── Exports ─────────────────────────────────────────────────────────────

/// Whether an entity can be the export of a name: it goes by that very name, and the
/// server holds its document or can be handed it under a known language.
pub open spec fn exports(path: Seq<char>, name: Seq<char>) -> spec_fn(EntityView) -> bool {
    |e: EntityView|
        e.name == name && (e.file_path == path || enrichment::document_language(
            e.file_path,
        ) is Some)
}

/// The entities of a module's file that can be the export of a name, in order.
pub open spec fn exports_of(
    index: Seq<FileView>,
    path: Seq<char>,
    name: Seq<char>,
    module: LocationView,
) -> Seq<EntityView> {
    match protocol::path_of(module.uri) {
        Some(file) => entity_index::entries_for(index, file).filter(exports(path, name)),
        None => Seq::empty(),
    }
}

/// The entities of the modules' files that can be the export of a name, module by
/// module.
pub open spec fn all_exports(
    index: Seq<FileView>,
    path: Seq<char>,
    name: Seq<char>,
    modules: Seq<LocationView>,
) -> Seq<EntityView> {
    modules.map_values(|module: LocationView| exports_of(index, path, name, module)).flatten()
}

proof fn lemma_candidates_in_module(
    scope: ScopeView,
    source: EntityId,
    line: u32,
    member_col: u32,
    member: Seq<char>,
    proven: Seq<LocationView>,
    entities: Seq<EntityView>,
    n: int,
)
    requires
        0 <= n <= entities.len(),
    ensures
        pass::candidates_in(scope, source, line, member_col, member, proven, entities, n)
            == entities.take(n).filter(exports(scope.path, member)).map_values(
            |target: EntityView| TaskView::Candidate { source, line, member_col, target, proven },
        ),
    decreases n,
{
    reveal(Seq::filter);
    let ask = |target: EntityView| TaskView::Candidate { source, line, member_col, target, proven };
    let keep = exports(scope.path, member);
    if n > 0 {
        lemma_candidates_in_module(
            scope,
            source,
            line,
            member_col,
            member,
            proven,
            entities,
            n - 1,
        );
        assert(entities.take(n).drop_last() =~= entities.take(n - 1));
        assert(entities.take(n).last() == entities[n - 1]);
        let before = entities.take(n - 1).filter(keep);
        assert(before.push(entities[n - 1]).map_values(ask) =~= before.map_values(ask).push(
            ask(entities[n - 1]),
        ));
    } else {
        assert(entities.take(n).filter(keep).map_values(ask) =~= Seq::empty());
    }
}

#[verifier::rlimit(50)]
proof fn lemma_candidates_in_modules(
    scope: ScopeView,
    source: EntityId,
    line: u32,
    member_col: u32,
    member: Seq<char>,
    proven: Seq<LocationView>,
    modules: Seq<LocationView>,
    n: int,
)
    requires
        0 <= n <= modules.len(),
    ensures
        pass::candidates_of(scope, source, line, member_col, member, proven, modules, n)
            == all_exports(scope.index, scope.path, member, modules.take(n)).map_values(
            |target: EntityView| TaskView::Candidate { source, line, member_col, target, proven },
        ),
    decreases n,
{
    let ask = |target: EntityView| TaskView::Candidate { source, line, member_col, target, proven };
    let each = |module: LocationView| exports_of(scope.index, scope.path, member, module);
    if n > 0 {
        lemma_candidates_in_modules(
            scope,
            source,
            line,
            member_col,
            member,
            proven,
            modules,
            n - 1,
        );
        let entities = pass::entities_at(scope, modules[n - 1]);
        lemma_candidates_in_module(
            scope,
            source,
            line,
            member_col,
            member,
            proven,
            entities,
            entities.len() as int,
        );
        assert(entities.take(entities.len() as int) =~= entities);
        let before = modules.take(n - 1).map_values(each);
        let last = each(modules[n - 1]);
        assert(last =~= entities.filter(exports(scope.path, member))) by {
            reveal(Seq::filter);
        }
        assert(modules.take(n).map_values(each) =~= before.push(last));
        before.lemma_flatten_push(last);
        assert((before.flatten() + last).map_values(ask) =~= before.flatten().map_values(ask)
            + last.map_values(ask));
    } else {
        assert(modules.take(n).map_values(each) =~= Seq::empty());
        assert(Seq::<EntityView>::empty().map_values(ask) =~= Seq::empty());
    }
}

/// Once it is known where a member is defined, every entity of its modules' files
/// that can be its export is tried, and no other, in order.
pub proof fn every_export_is_tried(
    p: PassView,
    source: EntityId,
    line: u32,
    member_col: u32,
    member: Seq<char>,
    modules: Seq<LocationView>,
    answer: JsonView,
)
    requires
        p.agenda.len() > 0,
        p.agenda.last() == (TaskView::Member { source, line, member_col, member, modules }),
        protocol::locations_of(answer) is Some,
    ensures
        ({
            let proven = protocol::locations_of(answer)->0;
            let tried = all_exports(p.scope.index, p.scope.path, member, modules);
            let after = pass::stepped(p, EventView::Reply(Ok(answer)));
            let left = p.agenda.len() - 1;
            &&& after.agenda.len() == left + tried.len()
            &&& after.agenda.take(left) == p.agenda.drop_last()
            &&& forall|i: int|
                0 <= i < tried.len() ==> after.agenda[after.agenda.len() - 1 - i] == (
                TaskView::Candidate {
                    source,
                    line,
                    member_col,
                    target: #[trigger] tried[i],
                    proven,
                })
            &&& after.found == p.found
            &&& after.open == p.open
            &&& after.failure == p.failure
        }),
{
    let proven = protocol::locations_of(answer)->0;
    let n = modules.len() as int;
    let tried = all_exports(p.scope.index, p.scope.path, member, modules);
    let tasks = pass::candidates_of(
        p.scope,
        source,
        line,
        member_col,
        member,
        proven,
        modules,
        n,
    );
    let after = pass::stepped(p, EventView::Reply(Ok(answer)));
    let left = p.agenda.len() - 1;
    lemma_candidates_in_modules(p.scope, source, line, member_col, member, proven, modules, n);
    assert(modules.take(n) =~= modules);
    assert(after.agenda =~= p.agenda.drop_last() + tasks.reverse());
    assert(after.agenda.take(left) =~= p.agenda.drop_last());
    assert forall|i: int| 0 <= i < tried.len() implies after.agenda[after.agenda.len() - 1 - i]
        == (TaskView::Candidate {
        source,
        line,
        member_col,
        target: #[trigger] tried[i],
        proven,
    }) by {
        assert(after.agenda[after.agenda.len() - 1 - i] == tasks.reverse()[tasks.len() - 1 - i]);
        assert(tasks.reverse()[tasks.len() - 1 - i] == tasks[i]);
    }
}

/// Whether two lists of locations name a line of a document in common.
pub open spec fn meet(a: Seq<LocationView>, b: Seq<LocationView>) -> bool {
    exists|i: int, j: int|
        {
            &&& 0 <= i < a.len()
            &&& 0 <= j < b.len()
            &&& (#[trigger] a[i]).uri == (#[trigger] b[j]).uri
            &&& a[i].range.start.line == b[j].range.start.line
        }
}

/// The kind of place that a member counts as.
pub open spec fn member_site(purpose: Purpose) -> Site {
    match purpose {
        Purpose::Types => Site::Type,
        Purpose::Definitions => Site::Member,
    }
}

/// A member is bound to an export where the two are defined at the same line of the
/// same document, and only there: the entity that it stands in gets an edge to the
/// export, resting on the member, unless it is the export or has that edge.
#[verifier::rlimit(50)]
pub proof fn proven_member_is_bound(
    p: PassView,
    source: EntityId,
    line: u32,
    member_col: u32,
    target: EntityView,
    proven: Seq<LocationView>,
    answer: JsonView,
)
    requires
        p.agenda.len() > 0,
        p.agenda.last() == (TaskView::Candidate { source, line, member_col, target, proven }),
        protocol::locations_of(answer) is Some,
    ensures
        ({
            let definitions = protocol::locations_of(answer)->0;
            let after = pass::stepped(p, EventView::Reply(Ok(answer)));
            let known = p.found.seen.contains(
                (source, target.id, member_site(p.scope.purpose)),
            );
            let relations = answer_laws::added(p, after);
            &&& answer_laws::is_done(p, after)
            &&& if meet(definitions, proven) && source != target.id && !known {
                &&& relations.len() == 1
                &&& answer_laws::is_edge(
                    relations[0],
                    answer_laws::sought(p.scope.purpose),
                    source,
                    target.id,
                )
                &&& relations[0].confidence == 85
                &&& answer_laws::rests_on_place(
                    relations[0],
                    "lsp_member_on_module"@,
                    p.scope.path,
                    line,
                    member_col,
                )
                &&& after.found.resolved == answer_laws::counted(p.found.resolved, 1)
            } else {
                after.found == p.found
            }
        }),
{
    let definitions = protocol::locations_of(answer)->0;
    let after = pass::stepped(p, EventView::Reply(Ok(answer)));
    assert(meet(definitions, proven) == enrichment::share_a_place(definitions, proven)) by {
        if meet(definitions, proven) {
            let (i, j) = choose|i: int, j: int|
                {
                    &&& 0 <= i < definitions.len()
                    &&& 0 <= j < proven.len()
                    &&& (#[trigger] definitions[i]).uri == (#[trigger] proven[j]).uri
                    &&& definitions[i].range.start.line == proven[j].range.start.line
                };
            assert(enrichment::is_same_place(definitions[i], proven[j]));
        }
        if enrichment::share_a_place(definitions, proven) {
            let (i, j) = choose|i: int, j: int|
                0 <= i < definitions.len() && 0 <= j < proven.len() && enrichment::is_same_place(
                    #[trigger] definitions[i],
                    #[trigger] proven[j],
                );
            assert(definitions[i].uri == proven[j].uri);
        }
    }
    assert(after.agenda =~= p.agenda.drop_last());
}

/// The document of an export that the server does not hold is looked up, handed to
/// it, and listed as open; then the server is asked where the export's name is
/// defined. Nothing else changes on the way.
#[verifier::rlimit(50)]
pub proof fn export_is_opened_before_it_is_asked_about(
    p: PassView,
    source: EntityId,
    line: u32,
    member_col: u32,
    target: EntityView,
    proven: Seq<LocationView>,
    content: Seq<char>,
)
    requires
        p.agenda.len() > 0,
        p.agenda.last() == (TaskView::Candidate { source, line, member_col, target, proven }),
        target.file_path != p.scope.path,
        !p.open.contains(
            protocol::uri_of(protocol::path_in(p.scope.root, target.file_path)),
        ),
        enrichment::document_language(target.file_path) is Some,
    ensures
        ({
            let uri = protocol::uri_of(protocol::path_in(p.scope.root, target.file_path));
            let opening = pass::stepped(p, EventView::Text(Some(content)));
            let held = pass::stepped(opening, EventView::Opened(Ok(())));
            &&& pass::action_of(p) == (ActionView::Read { path: target.file_path })
            &&& pass::action_of(opening) == (ActionView::Open {
                uri,
                language_id: enrichment::document_language(target.file_path)->0,
                content,
            })
            &&& opening.open == p.open.push(uri)
            &&& held == (PassView { open: p.open.push(uri), ..p })
            &&& pass::action_of(held) matches ActionView::Request { method, params, limit } && {
                &&& method == "textDocument/definition"@
                &&& names_place(params, uri, target.name_line, target.name_col)
                &&& limit is None
            }
        }),
{
    let uri = protocol::uri_of(protocol::path_in(p.scope.root, target.file_path));
    let opening = pass::stepped(p, EventView::Text(Some(content)));
    let held = pass::stepped(opening, EventView::Opened(Ok(())));
    let task = TaskView::Opening { source, line, member_col, target, proven, content };
    assert(opening.agenda =~= p.agenda.drop_last().push(task));
    assert(opening.agenda.drop_last() =~= p.agenda.drop_last());
    assert(held.agenda =~= p.agenda);
    assert(held.open[p.open.len() as int] == uri);
    lemma_place_is_named(
        uri,
        protocol::Position { line: target.name_line, character: target.name_col },
    );
}

// ── Requests ────────────────────────────────────────────────────────────

/// Whether a value is an object in which a name stands for a value.
pub open spec fn gives(j: JsonView, name: Seq<char>, value: JsonView) -> bool {
    j matches JsonView::Object(fields) && fields.dom().contains(name) && fields[name] == value
}

/// Whether parameters name a place in a document.
pub open spec fn names_place(params: JsonView, uri: Seq<char>, line: u32, col: u32) -> bool {
    &&& params matches JsonView::Object(fields) && {
        &&& fields.dom().contains("textDocument"@)
        &&& fields.dom().contains("position"@)
        &&& gives(fields["textDocument"@], "uri"@, JsonView::Text(uri))
        &&& gives(fields["position"@], "line"@, JsonView::Int(line as int))
        &&& gives(fields["position"@], "character"@, JsonView::Int(col as int))
    }
}

proof fn lemma_place_is_named(uri: Seq<char>, position: protocol::Position)
    ensures
        names_place(
            protocol::place_json(uri, position),
            uri,
            position.line,
            position.character,
        ),
        names_place(
            protocol::references_json(uri, position),
            uri,
            position.line,
            position.character,
        ),
        ({
            let params = protocol::references_json(uri, position);
            &&& params matches JsonView::Object(fields)
            &&& fields.dom().contains("context"@)
            &&& gives(fields["context"@], "includeDeclaration"@, JsonView::Bool(false))
        }),
{
    reveal_strlit("textDocument");
    reveal_strlit("position");
    reveal_strlit("context");
    reveal_strlit("line");
    reveal_strlit("character");
    assert("textDocument"@.len() == 12 && "position"@.len() == 8 && "context"@.len() == 7);
    assert("line"@.len() == 4 && "character"@.len() == 9);
}

/// What an identifier is asked: where it is defined, in a pass over a file, or where
/// its type is, in a pass over an entity, at its own place in the file being
/// enriched. Where it is a receiver, where it is defined.
pub proof fn identifier_is_asked_about_at_its_place(
    p: PassView,
    source: EntityId,
    line: u32,
    col: u32,
    member_col: u32,
    member: Seq<char>,
)
    requires
        p.agenda.len() > 0,
        p.agenda.last() == (TaskView::Ordinary { source, line, col }) || p.agenda.last() == (
        TaskView::Receiver { source, line, col, member_col, member }),
    ensures
        pass::action_of(p) matches ActionView::Request { method, params, limit } && {
            &&& names_place(params, p.scope.uri, line, col)
            &&& method == if p.agenda.last() is Ordinary && p.scope.purpose == Purpose::Types {
                "textDocument/typeDefinition"@
            } else {
                "textDocument/definition"@
            }
            &&& limit == if p.agenda.last() is Ordinary && p.scope.purpose
                == Purpose::Definitions {
                Some(2u64)
            } else {
                None
            }
        },
{
    lemma_place_is_named(p.scope.uri, protocol::Position { line, character: col });
}

/// What a module's receiver and its member are asked: where the type of the one is,
/// and where the other is defined, each at its own place.
pub proof fn member_is_asked_about_at_its_place(
    p: PassView,
    source: EntityId,
    line: u32,
    col: u32,
    member_col: u32,
    member: Seq<char>,
    modules: Seq<LocationView>,
)
    requires
        p.agenda.len() > 0,
        p.agenda.last() == (TaskView::Module { source, line, col, member_col, member })
            || p.agenda.last() == (TaskView::Member { source, line, member_col, member, modules }),
    ensures
        pass::action_of(p) matches ActionView::Request { method, params, limit } && {
            &&& limit is None
            &&& if p.agenda.last() is Module {
                &&& method == "textDocument/typeDefinition"@
                &&& names_place(params, p.scope.uri, line, col)
            } else {
                &&& method == "textDocument/definition"@
                &&& names_place(params, p.scope.uri, line, member_col)
            }
        },
{
    lemma_place_is_named(p.scope.uri, protocol::Position { line, character: col });
    lemma_place_is_named(p.scope.uri, protocol::Position { line, character: member_col });
}

/// What an entity is asked about its calls, its overrides and its references: at its
/// name, in the document of its file. A method's type hierarchy is asked for at the
/// column that it starts at. References are asked for without the declaration.
#[verifier::rlimit(50)]
pub proof fn entity_is_asked_about_in_its_file(p: PassView, entity: EntityView)
    requires
        p.agenda.len() > 0,
        p.agenda.last() == (TaskView::Calls { caller: entity }) || p.agenda.last() == (
        TaskView::Overrides { method: entity }) || p.agenda.last() == (TaskView::References {
            entity,
        }),
    ensures
        ({
            let uri = protocol::uri_of(protocol::path_in(p.scope.root, entity.file_path));
            pass::action_of(p) matches ActionView::Request { method, params, limit } && {
                &&& limit is None
                &&& if p.agenda.last() is Calls {
                    &&& method == "textDocument/prepareCallHierarchy"@
                    &&& names_place(params, uri, entity.name_line, entity.name_col)
                } else if p.agenda.last() is Overrides {
                    &&& method == "textDocument/prepareTypeHierarchy"@
                    &&& names_place(params, uri, entity.name_line, entity.start_col)
                } else {
                    &&& method == "textDocument/references"@
                    &&& names_place(params, uri, entity.name_line, entity.name_col)
                    &&& params matches JsonView::Object(fields)
                    &&& fields.dom().contains("context"@)
                    &&& gives(fields["context"@], "includeDeclaration"@, JsonView::Bool(false))
                }
            }
        }),
{
    let uri = protocol::uri_of(protocol::path_in(p.scope.root, entity.file_path));
    lemma_place_is_named(
        uri,
        protocol::Position { line: entity.name_line, character: entity.name_col },
    );
    lemma_place_is_named(
        uri,
        protocol::Position { line: entity.name_line, character: entity.start_col },
    );
}

/// The outgoing calls and the supertypes of an item are asked for with that item, as
/// the server named it.
pub proof fn item_is_asked_about_as_it_was_named(p: PassView, entity: EntityView, item: ItemView)
    requires
        p.agenda.len() > 0,
        p.agenda.last() == (TaskView::Outgoing { caller: entity, item }) || p.agenda.last() == (
        TaskView::Supertypes { method: entity, subtype: item }),
    ensures
        pass::action_of(p) matches ActionView::Request { method, params, limit } && {
            &&& limit is None
            &&& method == if p.agenda.last() is Outgoing {
                "callHierarchy/outgoingCalls"@
            } else {
                "typeHierarchy/supertypes"@
            }
            &&& params matches JsonView::Object(fields)
            &&& fields.dom().contains("item"@)
            &&& protocol::item_of(fields["item"@]) == Some(item)
        },
{
    protocol::item_reads_back(item);
}

/// The first item that the server prepares for an entity is the one that is asked
/// about, and where it prepares none, the entity is done.
pub proof fn first_prepared_item_is_asked_about(p: PassView, entity: EntityView, answer: JsonView)
    requires
        p.agenda.len() > 0,
        p.agenda.last() == (TaskView::Calls { caller: entity }) || p.agenda.last() == (
        TaskView::Overrides { method: entity }),
        protocol::items_of(answer) is Some,
    ensures
        ({
            let items = protocol::items_of(answer)->0;
            let after = pass::stepped(p, EventView::Reply(Ok(answer)));
            let rest = p.agenda.drop_last();
            &&& after.found == p.found
            &&& after.open == p.open
            &&& after.failure == p.failure
            &&& if items.len() == 0 {
                after.agenda == rest
            } else if p.agenda.last() is Calls {
                after.agenda == rest.push(TaskView::Outgoing { caller: entity, item: items[0] })
            } else {
                after.agenda == rest.push(
                    TaskView::Supertypes { method: entity, subtype: items[0] },
                )
            }
        }),
{
    let items = protocol::items_of(answer)->0;
    let after = pass::stepped(p, EventView::Reply(Ok(answer)));
    let rest = p.agenda.drop_last();
    if items.len() == 0 {
        assert(after.agenda =~= rest);
    } else if p.agenda.last() is Calls {
        assert(after.agenda =~= rest.push(TaskView::Outgoing { caller: entity, item: items[0] }));
    } else {
        assert(after.agenda =~= rest.push(
            TaskView::Supertypes { method: entity, subtype: items[0] },
        ));
    }
}

/// A pass over an entity looks things up in its index, sees its file from the root, and
/// knows of the server what it announced. It begins with its one task, and with nothing
/// found, opened or failed.
pub proof fn entity_pass_is_about_its_entity(
    capabilities: CapabilitiesView,
    entity: EntityView,
    index: Seq<FileView>,
    root: Seq<char>,
    task: TaskView,
)
    ensures
        ({
            let scope = enrichment::entity_scope(capabilities, entity, index, root);
            let p = enrichment::entity_pass(scope, task, true);
            &&& p.scope == scope
            &&& scope.index == index
            &&& scope.root == root
            &&& scope.path == entity.file_path
            &&& scope.uri == protocol::uri_of(protocol::path_in(root, entity.file_path))
            &&& scope.purpose == Purpose::Types
            &&& scope.definition <==> lifecycle::serves(capabilities, LspCapability::Definition)
            &&& scope.type_definition <==> lifecycle::serves(
                capabilities,
                LspCapability::TypeDefinition,
            )
            &&& p.agenda == seq![task]
            &&& p.found.relations.len() == 0
            &&& p.found.seen.len() == 0
            &&& p.open.len() == 0
            &&& p.failure is None
        }),
{
    let scope = enrichment::entity_scope(capabilities, entity, index, root);
    assert(enrichment::entity_pass(scope, task, true).agenda =~= seq![task]);
}

/// What a pass asks is what the capability it needs is exercised through: calls, type
/// hierarchies and references of an entity, and the definitions and types of an
/// identifier.
pub proof fn capability_is_exercised_through_its_method(p: PassView)
    requires
        p.agenda.len() > 0,
    ensures
        pass::action_of(p) matches ActionView::Request { method, .. } ==> {
            &&& p.agenda.last() is Calls ==> method == capability::capability_method(
                LspCapability::CallHierarchy,
            )
            &&& p.agenda.last() is Overrides ==> method == capability::capability_method(
                LspCapability::TypeHierarchy,
            )
            &&& p.agenda.last() is References ==> method == capability::capability_method(
                LspCapability::References,
            )
            &&& p.agenda.last() is Receiver || p.agenda.last() is Member
                || p.agenda.last() is Candidate ==> method == capability::capability_method(
                LspCapability::Definition,
            )
            &&& p.agenda.last() is Module ==> method == capability::capability_method(
                LspCapability::TypeDefinition,
            )
            &&& p.agenda.last() is Ordinary ==> method == capability::capability_method(
                match p.scope.purpose {
                    Purpose::Types => LspCapability::TypeDefinition,
                    Purpose::Definitions => LspCapability::Definition,
                },
            )
        },
{
}

} // verus!
