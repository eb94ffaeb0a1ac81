//! What every enrichment pass promises, whatever the server answers.

use vstd::prelude::*;

use crate::enrichment;
use crate::entity_index;
use crate::entity_index::{EntityView, FileView};
use crate::error::LspErrorView;
use crate::file_enrichment;
use crate::json::JsonView;
use crate::pass;
use crate::pass::{
    ActionView, EventView, FoundView, PassView, Purpose, ScopeView, Site, TaskView,
};
use crate::protocol;
use crate::protocol::{CallView, CapabilitiesView, ItemView, LocationView};
use crate::text;
use crate::types;
use crate::types::{EntityId, GraphNodeId, RelationKind, RelationOrigin, RelationView};

verus! {

// ── Relations ───────────────────────────────────────────────────────────

/// Whether a relation is one that a language server proved: it says so, and its
/// id is that of its edge.
pub open spec fn is_proven_edge(relation: RelationView) -> bool {
    &&& relation.origin == RelationOrigin::Lsp
    &&& relation.created_in is None
    &&& relation.import_source is None
    &&& relation.id == (match (relation.src, relation.dst) {
        (GraphNodeId::Entity(src), GraphNodeId::Entity(dst)) => types::relation_id(
            relation.kind,
            src,
            dst,
        ),
    })
}

/// Whether a relation is of a kind that counts once per kind of place. Calls and
/// overrides are kept as the server lists them.
pub open spec fn counts_once() -> spec_fn(RelationView) -> bool {
    |relation: RelationView|
        relation.kind != RelationKind::Calls && relation.kind != RelationKind::Overrides
}

/// The kind of the relations that come from a kind of place.
pub open spec fn kind_of_site(site: Site) -> RelationKind {
    if site == Site::Type {
        RelationKind::UsesType
    } else {
        RelationKind::References
    }
}

/// Whether a relation is the one that is known from a kind of place.
pub open spec fn stands_for(relation: RelationView, key: (EntityId, EntityId, Site)) -> bool {
    &&& relation.src == GraphNodeId::Entity(key.0)
    &&& relation.dst == GraphNodeId::Entity(key.1)
    &&& relation.kind == kind_of_site(key.2)
}

/// Whether every relation found is one that a server proved, and the relations
/// that count once are exactly those known, in order: each stands for another pair
/// of entities or another kind of place, and none leads from an entity to itself.
pub open spec fn is_sound(found: FoundView) -> bool {
    let once = found.relations.filter(counts_once());
    &&& forall|i: int|
        0 <= i < found.relations.len() ==> is_proven_edge(#[trigger] found.relations[i])
    &&& once.len() == found.seen.len()
    &&& forall|i: int| 0 <= i < once.len() ==> stands_for(#[trigger] once[i], found.seen[i])
    &&& found.seen.no_duplicates()
    &&& forall|i: int| 0 <= i < found.seen.len() ==> (#[trigger] found.seen[i]).0 != found.seen[i].1
}

/// A relation that counts once never leads from an entity to itself.
pub proof fn sound_relations_lead_elsewhere(found: FoundView, i: int)
    requires
        is_sound(found),
        0 <= i < found.relations.len(),
        counts_once()(found.relations[i]),
    ensures
        found.relations[i].src != found.relations[i].dst,
{
    let p = counts_once();
    let once = found.relations.filter(p);
    found.relations.lemma_filter_contains(p, i);
    let k = choose|k: int| 0 <= k < once.len() && once[k] == found.relations[i];
    assert(stands_for(once[k], found.seen[k]));
    assert(found.seen[k].0 != found.seen[k].1);
}

/// Places `i` and `j` of a list, where both are kept by a filter, are kept apart.
proof fn lemma_kept_apart(s: Seq<RelationView>, i: int, j: int)
    requires
        0 <= i < j < s.len(),
        counts_once()(s[i]),
        counts_once()(s[j]),
    ensures
        ({
            let once = s.filter(counts_once());
            exists|k: int, l: int|
                0 <= k < l < once.len() && #[trigger] once[k] == s[i] && #[trigger] once[l] == s[j]
        }),
{
    let p = counts_once();
    let head = s.take(j);
    let tail = s.skip(j);
    assert(s =~= head + tail);
    Seq::filter_distributes_over_add(head, tail, p);
    head.lemma_filter_contains(p, i);
    tail.lemma_filter_contains(p, 0);
    let a = head.filter(p);
    let b = tail.filter(p);
    assert(head[i] == s[i]);
    assert(tail[0] == s[j]);
    let k = choose|k: int| 0 <= k < a.len() && a[k] == s[i];
    let l = choose|l: int| 0 <= l < b.len() && b[l] == s[j];
    let once = s.filter(p);
    assert(once =~= a + b);
    assert(once[k] == s[i]);
    assert(once[a.len() + l] == s[j]);
}

/// A type that an entity uses is related to it once.
pub proof fn types_are_used_once(found: FoundView, i: int, j: int)
    requires
        is_sound(found),
        0 <= i < j < found.relations.len(),
        found.relations[i].kind == RelationKind::UsesType,
        found.relations[j].kind == RelationKind::UsesType,
    ensures
        found.relations[i].src != found.relations[j].src || found.relations[i].dst
            != found.relations[j].dst,
{
    lemma_kept_apart(found.relations, i, j);
    let once = found.relations.filter(counts_once());
    let (k, l) = choose|k: int, l: int|
        0 <= k < l < once.len() && #[trigger] once[k] == found.relations[i]
            && #[trigger] once[l] == found.relations[j];
    assert(stands_for(once[k], found.seen[k]));
    assert(stands_for(once[l], found.seen[l]));
    assert(found.seen[k] != found.seen[l]);
}

/// Relations that count once and are all known from one kind of place differ in
/// kind, source or destination.
pub proof fn one_kind_of_place_counts_once(found: FoundView, site: Site, i: int, j: int)
    requires
        is_sound(found),
        forall|k: int| 0 <= k < found.seen.len() ==> (#[trigger] found.seen[k]).2 == site,
        0 <= i < j < found.relations.len(),
        counts_once()(found.relations[i]),
        counts_once()(found.relations[j]),
    ensures
        found.relations[i].src != found.relations[j].src || found.relations[i].dst
            != found.relations[j].dst,
{
    lemma_kept_apart(found.relations, i, j);
    let once = found.relations.filter(counts_once());
    let (k, l) = choose|k: int, l: int|
        0 <= k < l < once.len() && #[trigger] once[k] == found.relations[i]
            && #[trigger] once[l] == found.relations[j];
    assert(stands_for(once[k], found.seen[k]));
    assert(stands_for(once[l], found.seen[l]));
    assert(found.seen[k] != found.seen[l]);
    assert(found.seen[k].2 == site && found.seen[l].2 == site);
}

proof fn lemma_admitted_is_sound(
    found: FoundView,
    src: EntityId,
    dst: EntityId,
    site: Site,
    relation: RelationView,
)
    requires
        is_sound(found),
        is_proven_edge(relation),
        stands_for(relation, (src, dst, site)),
    ensures
        is_sound(pass::admitted(found, src, dst, site, relation)),
{
    let key = (src, dst, site);
    let after = pass::admitted(found, src, dst, site, relation);
    if src != dst && !found.seen.contains(key) {
        let once = found.relations.filter(counts_once());
        assert(after.relations.filter(counts_once()) =~= once.push(relation)) by {
            reveal(Seq::filter);
            assert(after.relations.drop_last() =~= found.relations);
        }
        assert forall|i: int| 0 <= i < after.relations.len() implies is_proven_edge(
            #[trigger] after.relations[i],
        ) by {
            if i < found.relations.len() {
                assert(after.relations[i] == found.relations[i]);
            }
        }
        assert forall|i: int| 0 <= i < once.push(relation).len() implies stands_for(
            #[trigger] once.push(relation)[i],
            after.seen[i],
        ) by {
            if i < once.len() {
                assert(stands_for(once[i], found.seen[i]));
            }
        }
        assert forall|i: int, j: int|
            0 <= i < after.seen.len() && 0 <= j < after.seen.len() && i != j implies
            after.seen[i] != after.seen[j] by {
            if i == found.seen.len() {
                assert(found.seen.contains(after.seen[j]));
            } else if j == found.seen.len() {
                assert(found.seen.contains(after.seen[i]));
            }
        }
        assert forall|i: int| 0 <= i < after.seen.len() implies (#[trigger] after.seen[i]).0
            != after.seen[i].1 by {
            if i < found.seen.len() {
                assert(after.seen[i] == found.seen[i]);
            }
        }
    }
}

proof fn lemma_with_locations_is_sound(
    scope: ScopeView,
    found: FoundView,
    source: EntityId,
    line: u32,
    col: u32,
    locations: Seq<LocationView>,
    n: int,
)
    requires
        is_sound(found),
        0 <= n <= locations.len(),
    ensures
        is_sound(pass::with_locations(scope, found, source, line, col, locations, n)),
    decreases n,
{
    if n > 0 {
        lemma_with_locations_is_sound(scope, found, source, line, col, locations, n - 1);
        let before = pass::with_locations(scope, found, source, line, col, locations, n - 1);
        let location = locations[n - 1];
        if let Some(target) = entity_index::entity_at(
            scope.index,
            location.uri,
            location.range.start.line,
        ) {
            match scope.purpose {
                Purpose::Types => {
                    lemma_admitted_is_sound(
                        before,
                        source,
                        target.id,
                        Site::Type,
                        enrichment::lsp_relation(
                            RelationKind::UsesType,
                            source,
                            target.id,
                            85,
                            seq![
                                enrichment::site_evidence(
                                    "lsp_references"@,
                                    scope.path,
                                    location.range,
                                ),
                            ],
                        ),
                    );
                },
                Purpose::Definitions => {
                    lemma_admitted_is_sound(
                        before,
                        source,
                        target.id,
                        if text::has_part(location.uri, scope.path) {
                            Site::SameFile
                        } else {
                            Site::CrossFile
                        },
                        enrichment::lsp_relation(
                            RelationKind::References,
                            source,
                            target.id,
                            95,
                            seq![
                                enrichment::site_evidence(
                                    "lsp_definition"@,
                                    scope.path,
                                    pass::point(line, col),
                                ),
                            ],
                        ),
                    );
                },
            }
        }
    }
}

proof fn lemma_with_member_is_sound(
    scope: ScopeView,
    found: FoundView,
    source: EntityId,
    line: u32,
    member_col: u32,
    target: EntityId,
)
    requires
        is_sound(found),
    ensures
        is_sound(pass::with_member(scope, found, source, line, member_col, target)),
{
    let (kind, site) = match scope.purpose {
        Purpose::Types => (RelationKind::UsesType, Site::Type),
        Purpose::Definitions => (RelationKind::References, Site::Member),
    };
    lemma_admitted_is_sound(
        found,
        source,
        target,
        site,
        enrichment::lsp_relation(
            kind,
            source,
            target,
            85,
            seq![
                enrichment::site_evidence(
                    "lsp_member_on_module"@,
                    scope.path,
                    pass::point(line, member_col),
                ),
            ],
        ),
    );
}

proof fn lemma_with_references_is_sound(
    scope: ScopeView,
    found: FoundView,
    entity: EntityView,
    locations: Seq<LocationView>,
    n: int,
)
    requires
        is_sound(found),
        0 <= n <= locations.len(),
    ensures
        is_sound(pass::with_references(scope, found, entity, locations, n)),
    decreases n,
{
    if n > 0 {
        lemma_with_references_is_sound(scope, found, entity, locations, n - 1);
        let before = pass::with_references(scope, found, entity, locations, n - 1);
        let location = locations[n - 1];
        if let Some(referencing) = entity_index::entity_at(
            scope.index,
            location.uri,
            location.range.start.line,
        ) {
            lemma_admitted_is_sound(
                before,
                referencing.id,
                entity.id,
                Site::Reference,
                enrichment::lsp_relation(
                    RelationKind::References,
                    referencing.id,
                    entity.id,
                    95,
                    Seq::empty(),
                ),
            );
        }
    }
}

/// Whether a relation is one that a server proved and that is kept as the server
/// lists it.
spec fn is_listed_edge(relation: RelationView) -> bool {
    is_proven_edge(relation) && !counts_once()(relation)
}

proof fn lemma_call_relations_are_proven(
    scope: ScopeView,
    caller: EntityView,
    calls: Seq<CallView>,
    n: int,
)
    requires
        0 <= n <= calls.len(),
    ensures
        forall|i: int|
            0 <= i < pass::call_relations(scope, caller, calls, n).len() ==> is_listed_edge(
                #[trigger] pass::call_relations(scope, caller, calls, n)[i],
            ),
    decreases n,
{
    if n > 0 {
        lemma_call_relations_are_proven(scope, caller, calls, n - 1);
        let before = pass::call_relations(scope, caller, calls, n - 1);
        let all = pass::call_relations(scope, caller, calls, n);
        assert forall|i: int| 0 <= i < all.len() implies is_listed_edge(#[trigger] all[i]) by {
            if i < before.len() {
                assert(all[i] == before[i]);
            }
        }
    }
}

proof fn lemma_override_relations_are_proven(
    scope: ScopeView,
    method: EntityView,
    supertypes: Seq<ItemView>,
    n: int,
)
    requires
        0 <= n <= supertypes.len(),
    ensures
        forall|i: int|
            0 <= i < pass::override_relations(scope, method, supertypes, n).len()
                ==> is_listed_edge(
                #[trigger] pass::override_relations(scope, method, supertypes, n)[i],
            ),
    decreases n,
{
    if n > 0 {
        lemma_override_relations_are_proven(scope, method, supertypes, n - 1);
        let before = pass::override_relations(scope, method, supertypes, n - 1);
        let all = pass::override_relations(scope, method, supertypes, n);
        assert forall|i: int| 0 <= i < all.len() implies is_listed_edge(#[trigger] all[i]) by {
            if i < before.len() {
                assert(all[i] == before[i]);
            }
        }
    }
}

proof fn lemma_with_relations_is_sound(found: FoundView, relations: Seq<RelationView>)
    requires
        is_sound(found),
        forall|i: int| 0 <= i < relations.len() ==> is_listed_edge(#[trigger] relations[i]),
    ensures
        is_sound(pass::with_relations(found, relations)),
{
    let after = pass::with_relations(found, relations);
    let p = counts_once();
    Seq::filter_distributes_over_add(found.relations, relations, p);
    assert(relations.filter(p).len() == 0) by {
        if relations.filter(p).len() > 0 {
            let v = relations.filter(p)[0];
            relations.lemma_filter_pred(p, 0);
            relations.lemma_filter_contains_rev(p, v);
            let k = choose|k: int| 0 <= k < relations.len() && relations[k] == v;
            assert(is_listed_edge(relations[k]));
        }
    }
    assert(after.relations.filter(p) =~= found.relations.filter(p));
    assert forall|i: int| 0 <= i < after.relations.len() implies is_proven_edge(
        #[trigger] after.relations[i],
    ) by {
        if i < found.relations.len() {
            assert(after.relations[i] == found.relations[i]);
        } else {
            assert(after.relations[i] == relations[i - found.relations.len()]);
        }
    }
}

/// Whatever a server answers, a pass finds only relations that carry its proof:
/// each has the LSP origin and the id of its edge. Those that count once are there
/// once per kind of place, and none of them leads from an entity to itself.
pub proof fn step_keeps_relations_sound(p: PassView, event: EventView)
    requires
        is_sound(p.found),
        pass::fits(pass::action_of(p), event),
    ensures
        is_sound(pass::stepped(p, event).found),
{
    let scope = p.scope;
    if let EventView::Reply(Ok(answer)) = event {
        match p.agenda.last() {
            TaskView::Ordinary { source, line, col } => {
                if let Some(locations) = protocol::locations_of(answer) {
                    lemma_with_locations_is_sound(
                        scope,
                        p.found,
                        source,
                        line,
                        col,
                        locations,
                        locations.len() as int,
                    );
                }
            },
            TaskView::Candidate { source, line, member_col, target, .. } => {
                lemma_with_member_is_sound(scope, p.found, source, line, member_col, target.id);
            },
            TaskView::Outgoing { caller, .. } => {
                if let Some(calls) = protocol::outgoing_calls_of(answer) {
                    let n = calls.len() as int;
                    lemma_call_relations_are_proven(scope, caller, calls, n);
                    lemma_with_relations_is_sound(
                        p.found,
                        pass::call_relations(scope, caller, calls, n),
                    );
                }
            },
            TaskView::Supertypes { method, .. } => {
                if let Some(supertypes) = protocol::items_of(answer) {
                    let n = supertypes.len() as int;
                    lemma_override_relations_are_proven(scope, method, supertypes, n);
                    lemma_with_relations_is_sound(
                        p.found,
                        pass::override_relations(scope, method, supertypes, n),
                    );
                }
            },
            TaskView::References { entity } => {
                if let Some(locations) = protocol::location_list_of(answer) {
                    lemma_with_references_is_sound(
                        scope,
                        p.found,
                        entity,
                        locations,
                        locations.len() as int,
                    );
                }
            },
            _ => {},
        }
    }
}

/// A pass that begins has found nothing, so it is sound.
pub proof fn begun_is_sound(scope: ScopeView, tasks: Seq<TaskView>, queried: usize)
    ensures
        is_sound(pass::begun(scope, tasks, queried).found),
{
}

/// A member of a module is bound to an export only where the server proved, by
/// two answers of its own, that both resolve to the same place. Nothing is bound
/// on the name alone.
pub proof fn member_binding_needs_proof(p: PassView, event: EventView)
    requires
        pass::fits(pass::action_of(p), event),
        p.agenda.last() is Candidate,
        pass::stepped(p, event).found != p.found,
    ensures
        event matches EventView::Reply(Ok(answer)) && protocol::locations_of(answer) matches Some(
            definitions,
        ) && p.agenda.last() matches TaskView::Candidate { proven, .. }
            && enrichment::share_a_place(definitions, proven),
{
}

/// Where a receiver is defined decides what is asked next. One that names a module
/// is never asked about itself, so the module's own entity gets no relation from
/// it; one that is a value is asked about like any other identifier.
pub proof fn receiver_definition_decides(p: PassView, answer: JsonView)
    requires
        p.agenda.len() > 0,
        p.agenda.last() is Receiver,
        protocol::locations_of(answer) is Some,
    ensures
        ({
            let definitions = protocol::locations_of(answer)->0;
            let after = pass::stepped(p, EventView::Reply(Ok(answer)));
            &&& after.found == p.found
            &&& after.agenda.drop_last() == p.agenda.drop_last()
            &&& if enrichment::names_a_module(definitions, p.scope.path) {
                after.agenda.last() is Module || after.agenda.last() is Member
            } else {
                p.agenda.last() matches TaskView::Receiver { source, line, col, .. }
                    && after.agenda.last() == (TaskView::Ordinary { source, line, col })
            }
        }),
{
    let after = pass::stepped(p, EventView::Reply(Ok(answer)));
    let (tasks, _found) = pass::answered(p.scope, p.found, p.agenda.last(), answer)->0;
    assert(tasks.len() == 1);
    assert(tasks.reverse() =~= tasks);
    assert(after.agenda =~= p.agenda.drop_last().push(tasks[0]));
    assert(after.agenda.drop_last() =~= p.agenda.drop_last());
}

// ── Documents ───────────────────────────────────────────────────────────

/// A document is opened at most once: no pass ever opens one that it has open.
pub proof fn step_opens_each_document_once(p: PassView, event: EventView)
    requires
        p.open.no_duplicates(),
        pass::fits(pass::action_of(p), event),
    ensures
        pass::stepped(p, event).open.no_duplicates(),
{
    let after = pass::stepped(p, event);
    if let TaskView::Candidate { target, .. } = p.agenda.last() {
        if let EventView::Text(Some(content)) = event {
            let uri = pass::document_of(p.scope, target);
            assert(after.open == p.open.push(uri));
            assert(!p.open.contains(uri));
            assert forall|i: int, j: int|
                0 <= i < after.open.len() && 0 <= j < after.open.len() && i != j implies
                after.open[i] != after.open[j] by {
                if i == p.open.len() {
                    assert(p.open.contains(after.open[j]));
                } else if j == p.open.len() {
                    assert(p.open.contains(after.open[i]));
                }
            }
        }
    }
}

/// A pass keeps account of every document that it has the server open: what it
/// asks to open is listed before it is sent, and stays listed, so that giving the
/// pass up at any point closes it.
pub proof fn opened_documents_stay_listed(p: PassView, event: EventView, uri: Seq<char>)
    requires
        pass::fits(pass::action_of(p), event),
        p.open.contains(uri),
    ensures
        pass::stepped(p, event).open.contains(uri),
{
    let after = pass::stepped(p, event).open;
    let i = choose|i: int| 0 <= i < p.open.len() && p.open[i] == uri;
    assert(after[i] == uri);
}

/// Whether each document that waits to be sent is listed as open.
pub open spec fn openings_are_listed(p: PassView) -> bool {
    forall|i: int|
        0 <= i < p.agenda.len() ==> ((#[trigger] p.agenda[i]) matches TaskView::Opening {
            target,
            ..
        } ==> p.open.contains(pass::document_of(p.scope, target)))
}

/// Without graph-owned text for the file of an export, the join declines: nothing
/// is opened, nothing is bound, and the pass goes on.
pub proof fn missing_document_declines(p: PassView)
    requires
        p.agenda.len() > 0,
        p.agenda.last() is Candidate,
    ensures
        pass::stepped(p, EventView::Text(None)) == (PassView {
            agenda: p.agenda.drop_last(),
            ..p
        }),
{
    assert(p.agenda.drop_last() + Seq::<TaskView>::empty().reverse() =~= p.agenda.drop_last());
}

// ── Progress ────────────────────────────────────────────────────────────

/// How far a task is from being done.
pub open spec fn distance(p: PassView, task: TaskView) -> nat {
    match task {
        TaskView::Source { .. } => 8,
        TaskView::Receiver { .. } => 7,
        TaskView::Module { .. } => 6,
        TaskView::Member { .. } => 5,
        TaskView::Candidate { target, .. } => if pass::is_held(p, target) {
            2
        } else {
            4
        },
        TaskView::Opening { .. } => 3,
        TaskView::Calls { .. } => 2,
        TaskView::Overrides { .. } => 2,
        TaskView::Ordinary { .. } => 1,
        TaskView::Outgoing { .. } => 1,
        TaskView::Supertypes { .. } => 1,
        TaskView::References { .. } => 1,
    }
}

/// Whether every task of a list is a candidate.
spec fn all_candidates(tasks: Seq<TaskView>) -> bool {
    forall|i: int| 0 <= i < tasks.len() ==> (#[trigger] tasks[i]) is Candidate
}

/// Whether every task of a list asks about an identifier.
spec fn all_probes(tasks: Seq<TaskView>) -> bool {
    forall|i: int|
        0 <= i < tasks.len() ==> ((#[trigger] tasks[i]) is Ordinary || tasks[i] is Receiver)
}

proof fn lemma_candidates_in(
    scope: ScopeView,
    source: EntityId,
    line: u32,
    member_col: u32,
    member: Seq<char>,
    proven: Seq<LocationView>,
    entities: Seq<EntityView>,
    n: int,
)
    requires
        0 <= n <= entities.len(),
    ensures
        all_candidates(
            pass::candidates_in(
                scope,
                source,
                line,
                member_col,
                member,
                proven,
                entities,
                n,
            ),
        ),
    decreases n,
{
    if n > 0 {
        lemma_candidates_in(scope, source, line, member_col, member, proven, entities, n - 1);
    }
}

proof fn lemma_candidates_of(
    scope: ScopeView,
    source: EntityId,
    line: u32,
    member_col: u32,
    member: Seq<char>,
    proven: Seq<LocationView>,
    modules: Seq<LocationView>,
    n: int,
)
    requires
        0 <= n <= modules.len(),
    ensures
        all_candidates(
            pass::candidates_of(scope, source, line, member_col, member, proven, modules, n),
        ),
    decreases n,
{
    if n > 0 {
        lemma_candidates_of(scope, source, line, member_col, member, proven, modules, n - 1);
        let entities = pass::entities_at(scope, modules[n - 1]);
        lemma_candidates_in(
            scope,
            source,
            line,
            member_col,
            member,
            proven,
            entities,
            entities.len() as int,
        );
        let before = pass::candidates_of(
            scope,
            source,
            line,
            member_col,
            member,
            proven,
            modules,
            n - 1,
        );
        let more = pass::candidates_in(
            scope,
            source,
            line,
            member_col,
            member,
            proven,
            entities,
            entities.len() as int,
        );
        assert forall|i: int| 0 <= i < (before + more).len() implies (
        #[trigger] (before + more)[i]) is Candidate by {
            if i < before.len() {
                assert((before + more)[i] == before[i]);
            } else {
                assert((before + more)[i] == more[i - before.len()]);
            }
        }
    }
}

proof fn lemma_probes_of_entity(
    scope: ScopeView,
    entity: EntityView,
    lines: Seq<Seq<char>>,
    line: int,
)
    ensures
        all_probes(pass::probes_of_entity(scope, entity, lines, line)),
    decreases lines.len() - line,
{
    if 0 <= line < lines.len() && line <= entity.end_line {
        lemma_probes_of_entity(scope, entity, lines, line + 1);
        let first = pass::probes_on(scope, entity.id, line as u32, lines[line]);
        let more = pass::probes_of_entity(scope, entity, lines, line + 1);
        assert forall|i: int| 0 <= i < (first + more).len() implies ((
        #[trigger] (first + more)[i]) is Ordinary || (first + more)[i] is Receiver) by {
            if i < first.len() {
                assert((first + more)[i] == first[i]);
            } else {
                assert((first + more)[i] == more[i - first.len()]);
            }
        }
    }
}

/// Every step makes progress: the pass is over, or its next task has given way to
/// tasks that are closer to being done, while all the others stay. So a pass ends
/// whatever the server answers, as long as it answers.
pub proof fn step_makes_progress(p: PassView, event: EventView)
    requires
        openings_are_listed(p),
        pass::fits(pass::action_of(p), event),
    ensures
        openings_are_listed(pass::stepped(p, event)),
        ({
            let n = p.agenda.len() - 1;
            let after = pass::stepped(p, event);
            ||| pass::action_of(after) is Finish && after.failure is Some
            ||| {
                &&& after.agenda.len() >= n
                &&& after.agenda.take(n) == p.agenda.drop_last()
                &&& forall|i: int|
                    n <= i < after.agenda.len() ==> distance(after, #[trigger] after.agenda[i])
                        < distance(p, p.agenda.last())
            }
        }),
{
    let scope = p.scope;
    let task = p.agenda.last();
    let n = p.agenda.len() - 1;
    let after = pass::stepped(p, event);
    if after.failure is Some && after.agenda.len() == 0 {
    } else {
        let tasks = match event {
            EventView::Reply(Ok(answer)) => {
                let (tasks, _found) = pass::answered(scope, p.found, task, answer)->0;
                if let TaskView::Member { source, line, member_col, member, modules } = task {
                    lemma_candidates_of(
                        scope,
                        source,
                        line,
                        member_col,
                        member,
                        protocol::locations_of(answer)->0,
                        modules,
                        modules.len() as int,
                    );
                }
                tasks
            },
            EventView::Opened(_) => {
                if let TaskView::Opening { source, line, member_col, target, proven, .. } = task {
                    seq![TaskView::Candidate { source, line, member_col, target, proven }]
                } else {
                    Seq::empty()
                }
            },
            EventView::Text(content) => {
                match (task, content) {
                    (TaskView::Source { entity }, Some(content)) => {
                        let lines = text::lines_of(content);
                        lemma_probes_of_entity(scope, entity, lines, entity.start_line as int);
                        pass::probes_of_entity(scope, entity, lines, entity.start_line as int)
                    },
                    (
                        TaskView::Candidate { source, line, member_col, target, proven },
                        Some(content),
                    ) => seq![
                        TaskView::Opening { source, line, member_col, target, proven, content },
                    ],
                    _ => Seq::empty(),
                }
            },
            _ => Seq::empty(),
        };
        assert(after.agenda =~= p.agenda.drop_last() + tasks.reverse());
        assert(after.agenda.take(n) =~= p.agenda.drop_last());
        assert(task == p.agenda[n]);
        assert forall|i: int| 0 <= i < after.agenda.len() implies ((
        #[trigger] after.agenda[i]) matches TaskView::Opening { target, .. }
            ==> after.open.contains(pass::document_of(after.scope, target))) by {
            if i < n {
                assert(after.agenda[i] == p.agenda[i]);
                if let TaskView::Opening { target, .. } = p.agenda[i] {
                    opened_documents_stay_listed(
                        p,
                        event,
                        pass::document_of(p.scope, target),
                    );
                }
            } else {
                let k = tasks.len() - 1 - (i - n);
                assert(after.agenda[i] == tasks[k]);
                if let TaskView::Opening { target, .. } = tasks[k] {
                    assert(after.open.last() == pass::document_of(p.scope, target));
                }
            }
        }
        assert forall|i: int| n <= i < after.agenda.len() implies distance(
            after,
            #[trigger] after.agenda[i],
        ) < distance(p, task) by {
            let k = tasks.len() - 1 - (i - n);
            assert(after.agenda[i] == tasks[k]);
        }
    }
}

// ── Requests ────────────────────────────────────────────────────────────

/// Whether the server answers the requests that a task leads to about positions.
pub open spec fn is_answerable(scope: ScopeView, task: TaskView) -> bool {
    match task {
        TaskView::Ordinary { .. } => match scope.purpose {
            Purpose::Types => scope.type_definition,
            Purpose::Definitions => scope.definition,
        },
        TaskView::Source { .. } => scope.type_definition && scope.purpose == Purpose::Types,
        TaskView::Receiver { .. } => scope.definition && is_answerable_purpose(scope),
        TaskView::Module { .. } => scope.definition && scope.type_definition,
        TaskView::Member { .. } => scope.definition,
        TaskView::Candidate { .. } => scope.definition,
        TaskView::Opening { .. } => scope.definition,
        _ => true,
    }
}

/// Whether the server answers the request that a pass is for.
pub open spec fn is_answerable_purpose(scope: ScopeView) -> bool {
    match scope.purpose {
        Purpose::Types => scope.type_definition,
        Purpose::Definitions => scope.definition,
    }
}

/// Whether a pass asks nothing that the server does not answer.
pub open spec fn asks_what_is_served(p: PassView) -> bool {
    forall|i: int| 0 <= i < p.agenda.len() ==> is_answerable(p.scope, #[trigger] p.agenda[i])
}

proof fn lemma_replaced_served(p: PassView, tasks: Seq<TaskView>)
    requires
        asks_what_is_served(p),
        p.agenda.len() > 0,
        forall|i: int| 0 <= i < tasks.len() ==> is_answerable(p.scope, #[trigger] tasks[i]),
    ensures
        asks_what_is_served(pass::replaced(p, tasks)),
{
    let after = pass::replaced(p, tasks);
    let kept = p.agenda.drop_last();
    assert forall|i: int| 0 <= i < after.agenda.len() implies is_answerable(
        p.scope,
        #[trigger] after.agenda[i],
    ) by {
        if i < kept.len() {
            assert(after.agenda[i] == p.agenda[i]);
        } else {
            assert(after.agenda[i] == tasks[tasks.len() - 1 - (i - kept.len())]);
        }
    }
}

proof fn lemma_probes_served(
    scope: ScopeView,
    entity: EntityView,
    lines: Seq<Seq<char>>,
    line: int,
)
    requires
        is_answerable_purpose(scope),
    ensures
        forall|i: int|
            0 <= i < pass::probes_of_entity(scope, entity, lines, line).len() ==> is_answerable(
                scope,
                #[trigger] pass::probes_of_entity(scope, entity, lines, line)[i],
            ),
    decreases lines.len() - line,
{
    if 0 <= line < lines.len() && line <= entity.end_line {
        lemma_probes_served(scope, entity, lines, line + 1);
        let first = pass::probes_on(scope, entity.id, line as u32, lines[line]);
        let more = pass::probes_of_entity(scope, entity, lines, line + 1);
        let all = pass::probes_of_entity(scope, entity, lines, line);
        assert forall|i: int| 0 <= i < all.len() implies is_answerable(
            scope,
            #[trigger] all[i],
        ) by {
            if i < first.len() {
                assert(all[i] == first[i]);
            } else {
                assert(all[i] == more[i - first.len()]);
            }
        }
    }
}

/// A pass that asks nothing about positions that the server does not answer never
/// comes to do so: a capability that is disabled on its own is not queried.
pub proof fn step_asks_what_is_served(p: PassView, event: EventView)
    requires
        asks_what_is_served(p),
        pass::fits(pass::action_of(p), event),
    ensures
        asks_what_is_served(pass::stepped(p, event)),
{
    let scope = p.scope;
    let task = p.agenda.last();
    assert(is_answerable(scope, p.agenda[p.agenda.len() - 1]));
    match event {
        EventView::Reply(Ok(answer)) => {
            if let Some((tasks, found)) = pass::answered(scope, p.found, task, answer) {
                if let TaskView::Member { source, line, member_col, member, modules } = task {
                    lemma_candidates_of(
                        scope,
                        source,
                        line,
                        member_col,
                        member,
                        protocol::locations_of(answer)->0,
                        modules,
                        modules.len() as int,
                    );
                }
                assert forall|i: int| 0 <= i < tasks.len() implies is_answerable(
                    scope,
                    #[trigger] tasks[i],
                ) by {}
                lemma_replaced_served(p, tasks);
            }
        },
        EventView::Expired => {
            lemma_replaced_served(p, Seq::empty());
        },
        EventView::Opened(Ok(_)) => {
            if let TaskView::Opening { source, line, member_col, target, proven, .. } = task {
                lemma_replaced_served(
                    p,
                    seq![TaskView::Candidate { source, line, member_col, target, proven }],
                );
            }
        },
        EventView::Text(content) => {
            match (task, content) {
                (TaskView::Source { entity }, Some(content)) => {
                    let lines = text::lines_of(content);
                    lemma_probes_served(scope, entity, lines, entity.start_line as int);
                    lemma_replaced_served(
                        p,
                        pass::probes_of_entity(scope, entity, lines, entity.start_line as int),
                    );
                },
                (TaskView::Candidate { .. }, None) => {
                    lemma_replaced_served(p, Seq::empty());
                },
                (
                    TaskView::Candidate { source, line, member_col, target, proven },
                    Some(content),
                ) => {
                    lemma_replaced_served(
                        p,
                        seq![
                            TaskView::Opening {
                                source,
                                line,
                                member_col,
                                target,
                                proven,
                                content,
                            },
                        ],
                    );
                },
                _ => {},
            }
        },
        _ => {},
    }
}

/// A pass over an entity asks only what the server answers from the start.
pub proof fn entity_pass_asks_what_is_served(scope: ScopeView, entity: EntityView, served: bool)
    requires
        scope.purpose == Purpose::Types,
        served ==> scope.type_definition,
    ensures
        asks_what_is_served(
            enrichment::entity_pass(scope, TaskView::Source { entity }, served),
        ),
{
}

/// A pass about what the server does not serve is over at once: nothing is asked,
/// nothing is found, and nothing has failed.
pub proof fn unserved_pass_is_over(scope: ScopeView, task: TaskView)
    ensures
        ({
            let p = enrichment::entity_pass(scope, task, false);
            &&& pass::action_of(p) is Finish
            &&& p.found == pass::nothing_found()
            &&& p.failure is None
            &&& p.open.len() == 0
        }),
{
}

/// An error that the server replies is what the pass fails with: it is never
/// taken for an answer that found nothing.
pub proof fn reply_error_is_kept(p: PassView, error: LspErrorView)
    requires
        pass::action_of(p) is Request,
    ensures
        pass::action_of(pass::stepped(p, EventView::Reply(Err(error)))) is Finish,
        pass::stepped(p, EventView::Reply(Err(error))).failure == Some(error),
        pass::stepped(p, EventView::Reply(Err(error))).open == p.open,
{
}

/// Only an identifier of a file is waited for no longer than a while. One that is
/// given up leads to nothing, and leaves the rest of the pass as it was.
pub proof fn expired_probe_is_skipped(p: PassView)
    requires
        pass::fits(pass::action_of(p), EventView::Expired),
    ensures
        p.agenda.last() is Ordinary,
        p.scope.purpose == Purpose::Definitions,
        pass::stepped(p, EventView::Expired) == (PassView {
            agenda: p.agenda.drop_last(),
            ..p
        }),
{
    assert(p.agenda.drop_last() + Seq::<TaskView>::empty().reverse() =~= p.agenda.drop_last());
}

/// An answer of no shape that the request has fails the pass too.
pub proof fn malformed_reply_fails(p: PassView, answer: JsonView)
    requires
        pass::action_of(p) is Request,
        pass::answered(p.scope, p.found, p.agenda.last(), answer) is None,
    ensures
        pass::action_of(pass::stepped(p, EventView::Reply(Ok(answer)))) is Finish,
        pass::stepped(p, EventView::Reply(Ok(answer))).failure is Some,
{
}

// ── Whole passes ────────────────────────────────────────────────────────

/// A pass over an entity's calls asks for its item, and, where the server has
/// one, for the calls of that item; it finds a relation for each call that leads
/// to a known entity.
#[verifier::rlimit(50)]
pub proof fn calls_pass_answers(
    scope: ScopeView,
    caller: EntityView,
    prepared: JsonView,
    outgoing: JsonView,
)
    requires
        protocol::items_of(prepared) is Some,
        protocol::outgoing_calls_of(outgoing) is Some,
    ensures
        ({
            let items = protocol::items_of(prepared)->0;
            let calls = protocol::outgoing_calls_of(outgoing)->0;
            let start = enrichment::entity_pass(scope, TaskView::Calls { caller }, true);
            let middle = pass::stepped(start, EventView::Reply(Ok(prepared)));
            let end = pass::stepped(middle, EventView::Reply(Ok(outgoing)));
            if items.len() == 0 {
                &&& pass::action_of(middle) is Finish
                &&& middle.failure is None
                &&& middle.found == pass::nothing_found()
            } else {
                &&& pass::action_of(middle) == ActionView::Request {
                    method: "callHierarchy/outgoingCalls"@,
                    params: protocol::about_item_json(items[0]),
                    limit: None,
                }
                &&& pass::action_of(end) is Finish
                &&& end.failure is None
                &&& end.found.relations == pass::call_relations(
                    scope,
                    caller,
                    calls,
                    calls.len() as int,
                )
            }
        }),
{
    let items = protocol::items_of(prepared)->0;
    let calls = protocol::outgoing_calls_of(outgoing)->0;
    let start = enrichment::entity_pass(scope, TaskView::Calls { caller }, true);
    assert(start.agenda =~= seq![TaskView::Calls { caller }]);
    let middle = pass::stepped(start, EventView::Reply(Ok(prepared)));
    if items.len() == 0 {
        assert(middle.agenda =~= Seq::<TaskView>::empty());
    } else {
        let next = TaskView::Outgoing { caller, item: items[0] };
        assert(middle.agenda =~= seq![next]);
        let end = pass::stepped(middle, EventView::Reply(Ok(outgoing)));
        assert(end.agenda =~= Seq::<TaskView>::empty());
        let found = pass::call_relations(scope, caller, calls, calls.len() as int);
        assert(end.found.relations =~= found);
    }
}

/// A pass over a method's overrides asks for its item, and, where the server has
/// one, for the supertypes of that item; it finds a relation for each supertype
/// that is a known entity.
#[verifier::rlimit(50)]
pub proof fn overrides_pass_answers(
    scope: ScopeView,
    method: EntityView,
    prepared: JsonView,
    answer: JsonView,
)
    requires
        protocol::items_of(prepared) is Some,
        protocol::items_of(answer) is Some,
    ensures
        ({
            let items = protocol::items_of(prepared)->0;
            let supertypes = protocol::items_of(answer)->0;
            let start = enrichment::entity_pass(scope, TaskView::Overrides { method }, true);
            let middle = pass::stepped(start, EventView::Reply(Ok(prepared)));
            let end = pass::stepped(middle, EventView::Reply(Ok(answer)));
            if items.len() == 0 {
                &&& pass::action_of(middle) is Finish
                &&& middle.failure is None
                &&& middle.found == pass::nothing_found()
            } else {
                &&& pass::action_of(middle) == ActionView::Request {
                    method: "typeHierarchy/supertypes"@,
                    params: protocol::about_item_json(items[0]),
                    limit: None,
                }
                &&& pass::action_of(end) is Finish
                &&& end.failure is None
                &&& end.found.relations == pass::override_relations(
                    scope,
                    method,
                    supertypes,
                    supertypes.len() as int,
                )
            }
        }),
{
    let items = protocol::items_of(prepared)->0;
    let supertypes = protocol::items_of(answer)->0;
    let start = enrichment::entity_pass(scope, TaskView::Overrides { method }, true);
    assert(start.agenda =~= seq![TaskView::Overrides { method }]);
    let middle = pass::stepped(start, EventView::Reply(Ok(prepared)));
    if items.len() == 0 {
        assert(middle.agenda =~= Seq::<TaskView>::empty());
    } else {
        let next = TaskView::Supertypes { method, subtype: items[0] };
        assert(middle.agenda =~= seq![next]);
        let end = pass::stepped(middle, EventView::Reply(Ok(answer)));
        assert(end.agenda =~= Seq::<TaskView>::empty());
        let found = pass::override_relations(scope, method, supertypes, supertypes.len() as int);
        assert(end.found.relations =~= found);
    }
}

/// A pass over the references to an entity asks once, and finds a relation from
/// each known entity that refers to it, once.
pub proof fn references_pass_answers(scope: ScopeView, entity: EntityView, answer: JsonView)
    requires
        protocol::location_list_of(answer) is Some,
    ensures
        ({
            let locations = protocol::location_list_of(answer)->0;
            let start = enrichment::entity_pass(scope, TaskView::References { entity }, true);
            let end = pass::stepped(start, EventView::Reply(Ok(answer)));
            &&& pass::action_of(end) is Finish
            &&& end.failure is None
            &&& end.found == pass::with_references(
                scope,
                pass::nothing_found(),
                entity,
                locations,
                locations.len() as int,
            )
        }),
{
    let start = enrichment::entity_pass(scope, TaskView::References { entity }, true);
    assert(start.agenda =~= seq![TaskView::References { entity }]);
    let end = pass::stepped(start, EventView::Reply(Ok(answer)));
    assert(end.agenda =~= Seq::<TaskView>::empty());
}

proof fn lemma_references_are_one_kind(
    scope: ScopeView,
    entity: EntityView,
    locations: Seq<LocationView>,
    n: int,
)
    requires
        0 <= n <= locations.len(),
    ensures
        ({
            let found = pass::with_references(scope, pass::nothing_found(), entity, locations, n);
            &&& forall|k: int|
                0 <= k < found.seen.len() ==> (#[trigger] found.seen[k]).2 == Site::Reference
            &&& forall|i: int|
                0 <= i < found.relations.len() ==> (#[trigger] found.relations[i]).kind
                    == RelationKind::References
        }),
    decreases n,
{
    if n > 0 {
        lemma_references_are_one_kind(scope, entity, locations, n - 1);
    }
}

/// What refers to an entity is related to it once.
pub proof fn references_are_found_once(
    scope: ScopeView,
    entity: EntityView,
    locations: Seq<LocationView>,
    i: int,
    j: int,
)
    requires
        0 <= i < j < pass::with_references(
            scope,
            pass::nothing_found(),
            entity,
            locations,
            locations.len() as int,
        ).relations.len(),
    ensures
        ({
            let found = pass::with_references(
                scope,
                pass::nothing_found(),
                entity,
                locations,
                locations.len() as int,
            ).relations;
            found[i].src != found[j].src || found[i].dst != found[j].dst
        }),
{
    let n = locations.len() as int;
    let found = pass::with_references(scope, pass::nothing_found(), entity, locations, n);
    begun_is_sound(scope, Seq::empty(), 0);
    lemma_with_references_is_sound(scope, pass::nothing_found(), entity, locations, n);
    lemma_references_are_one_kind(scope, entity, locations, n);
    one_kind_of_place_counts_once(found, Site::Reference, i, j);
}

/// Without graph-owned text for the entity's own file, a pass over the types that
/// it uses fails before anything is asked.
pub proof fn missing_source_is_a_gap(scope: ScopeView, entity: EntityView)
    ensures
        ({
            let start = enrichment::entity_pass(scope, TaskView::Source { entity }, true);
            let end = pass::stepped(start, EventView::Text(None));
            &&& pass::action_of(start) == ActionView::Read { path: entity.file_path }
            &&& pass::action_of(end) is Finish
            &&& end.failure == Some(pass::no_source(entity.file_path))
        }),
{
    let start = enrichment::entity_pass(scope, TaskView::Source { entity }, true);
    assert(start.agenda =~= seq![TaskView::Source { entity }]);
}

/// A pass over a file asks only what the server answers. Where it does not answer
/// about definitions, no position is asked about, and the calls of the file's
/// entities still are.
pub proof fn file_pass_asks_what_is_served(
    p: PassView,
    capabilities: CapabilitiesView,
    file_path: Seq<char>,
    content: Seq<char>,
    index: Seq<FileView>,
    root: Seq<char>,
)
    requires
        file_enrichment::is_file_pass(p, capabilities, file_path, content, index, root),
    ensures
        asks_what_is_served(p),
        !p.scope.definition ==> {
            &&& p.queried == 0
            &&& forall|i: int| 0 <= i < p.agenda.len() ==> (#[trigger] p.agenda[i]) is Calls
        },
{
    let scope = file_enrichment::file_scope(capabilities, file_path, index, root);
    let tasks = file_enrichment::file_tasks(scope, capabilities, content);
    let lines = text::lines_of(content);
    let probes = if scope.definition {
        pass::probes_of_file(scope, lines, lines.len() as int)
    } else {
        Seq::empty()
    };
    if scope.definition {
        lemma_file_probes(scope, lines, lines.len() as int);
    }
    assert forall|i: int| 0 <= i < p.agenda.len() implies is_answerable(
        scope,
        #[trigger] p.agenda[i],
    ) && (!scope.definition ==> p.agenda[i] is Calls) by {
        let k = tasks.len() - 1 - i;
        assert(p.agenda[i] == tasks[k]);
        if k < probes.len() {
            assert(tasks[k] == probes[k]);
        } else {
            let callers = entity_index::entries_for(scope.index, scope.path);
            assert(tasks[k] == file_enrichment::calls_of(callers)[k - probes.len()]);
        }
    }
}

proof fn lemma_file_probes(scope: ScopeView, lines: Seq<Seq<char>>, n: int)
    requires
        0 <= n <= lines.len(),
        scope.definition,
        scope.purpose == Purpose::Definitions,
    ensures
        forall|i: int|
            0 <= i < pass::probes_of_file(scope, lines, n).len() ==> is_answerable(
                scope,
                #[trigger] pass::probes_of_file(scope, lines, n)[i],
            ),
    decreases n,
{
    if n > 0 {
        lemma_file_probes(scope, lines, n - 1);
        let before = pass::probes_of_file(scope, lines, n - 1);
        let all = pass::probes_of_file(scope, lines, n);
        assert forall|i: int| 0 <= i < all.len() implies is_answerable(
            scope,
            #[trigger] all[i],
        ) by {
            if i < before.len() {
                assert(all[i] == before[i]);
            } else {
                let line = (n - 1) as u32;
                let source = entity_index::entity_at(scope.index, scope.uri, line)->0;
                assert(all[i] == pass::probes_on(scope, source.id, line, lines[n - 1])[i
                    - before.len()]);
            }
        }
    }
}

} // verus!
