//! What the answers of a server lead to: which relations each of them gives, one by
//! one, and that none is left out.

use vstd::prelude::*;

use crate::enrichment;
use crate::entity_index;
use crate::entity_index::{EntityView, FileView};
use crate::json::JsonView;
use crate::pass;
use crate::pass::{EventView, FoundView, PassView, Purpose, ScopeView, Site, TaskView};
use crate::pass_laws;
use crate::protocol;
use crate::protocol::{CallView, ItemView, LocationView, Position, Range};
use crate::text;
use crate::types;
use crate::types::{
    EntityId, EvidenceView, GraphNodeId, RelationKind, RelationOrigin, RelationView,
};

verus! {

// ── Edges ───────────────────────────────────────────────────────────────

/// Whether a relation is the edge of a kind from one entity to another that a
/// language server vouches for.
pub open spec fn is_edge(
    relation: RelationView,
    kind: RelationKind,
    src: EntityId,
    dst: EntityId,
) -> bool {
    &&& relation.kind == kind
    &&& relation.src == GraphNodeId::Entity(src)
    &&& relation.dst == GraphNodeId::Entity(dst)
    &&& relation.origin == RelationOrigin::Lsp
    &&& relation.id == types::relation_id(kind, src, dst)
    &&& relation.created_in is None
    &&& relation.import_source is None
}

/// Whether a relation rests on one range of a file, found by a rule.
pub open spec fn rests_on(
    relation: RelationView,
    rule: Seq<char>,
    file: Seq<char>,
    range: Range,
) -> bool {
    &&& relation.evidence.len() == 1
    &&& relation.evidence[0].parser_rule == Some(rule)
    &&& relation.evidence[0].occurrence_count == 1
    &&& relation.evidence[0].source_span matches Some(span) && {
        &&& span.file == file
        &&& span.start_line == range.start.line
        &&& span.start_col == range.start.character
        &&& span.end_line == range.end.line
        &&& span.end_col == range.end.character
    }
}

/// Whether a relation rests on one place of a file, found by a rule.
pub open spec fn rests_on_place(
    relation: RelationView,
    rule: Seq<char>,
    file: Seq<char>,
    line: u32,
    col: u32,
) -> bool {
    rests_on(
        relation,
        rule,
        file,
        Range {
            start: Position { line, character: col },
            end: Position { line, character: col },
        },
    )
}

/// The relations that a step adds, in order.
pub open spec fn added(before: PassView, after: PassView) -> Seq<RelationView> {
    after.found.relations.skip(before.found.relations.len() as int)
}

/// Whether a step does its task and nothing else: the other tasks stay, nothing
/// fails, nothing is opened, and every relation found before stays where it is.
pub open spec fn is_done(before: PassView, after: PassView) -> bool {
    &&& after.scope == before.scope
    &&& after.agenda == before.agenda.drop_last()
    &&& after.open == before.open
    &&& after.failure == before.failure
    &&& after.queried == before.queried
    &&& before.found.relations.is_prefix_of(after.found.relations)
}

// ── Calls ───────────────────────────────────────────────────────────────

/// The entity that a call leads to, if it is known: the one at the line of the
/// callee's name.
pub open spec fn callee(index: Seq<FileView>, call: CallView) -> Option<EntityView> {
    entity_index::entity_at(index, call.other.uri, call.other.selection_range.start.line)
}

/// Whether a call leads to a known entity.
pub open spec fn calls_known(index: Seq<FileView>) -> spec_fn(CallView) -> bool {
    |call: CallView| callee(index, call) is Some
}

/// Whether a relation is what a call of `caller` gives: an edge to the entity that
/// it leads to, resting on the first place where the call is made.
pub open spec fn is_call_edge(
    relation: RelationView,
    index: Seq<FileView>,
    caller: EntityView,
    call: CallView,
) -> bool {
    &&& callee(index, call) matches Some(target)
    &&& is_edge(relation, RelationKind::Calls, caller.id, target.id)
    &&& relation.confidence == 95
    &&& if call.from_ranges.len() == 0 {
        relation.evidence.len() == 0
    } else {
        rests_on(relation, "lsp_call_hierarchy"@, caller.file_path, call.from_ranges[0])
    }
}

proof fn lemma_call_edges(scope: ScopeView, caller: EntityView, calls: Seq<CallView>, n: int)
    requires
        0 <= n <= calls.len(),
    ensures
        ({
            let known = calls.take(n).filter(calls_known(scope.index));
            let relations = pass::call_relations(scope, caller, calls, n);
            &&& relations.len() == known.len()
            &&& forall|k: int|
                0 <= k < known.len() ==> is_call_edge(
                    #[trigger] relations[k],
                    scope.index,
                    caller,
                    known[k],
                )
        }),
    decreases n,
{
    reveal(Seq::filter);
    if n > 0 {
        lemma_call_edges(scope, caller, calls, n - 1);
        assert(calls.take(n).drop_last() =~= calls.take(n - 1));
        assert(calls.take(n).last() == calls[n - 1]);
    }
}

/// Every outgoing call that leads to a known entity gives one Calls edge from the
/// caller to it, wherever that entity lives, in the order of the answer; and there
/// are no other edges.
pub proof fn every_known_call_is_an_edge(
    p: PassView,
    caller: EntityView,
    item: ItemView,
    answer: JsonView,
)
    requires
        p.agenda.len() > 0,
        p.agenda.last() == (TaskView::Outgoing { caller, item }),
        protocol::outgoing_calls_of(answer) is Some,
    ensures
        ({
            let index = p.scope.index;
            let known = protocol::outgoing_calls_of(answer)->0.filter(calls_known(index));
            let after = pass::stepped(p, EventView::Reply(Ok(answer)));
            &&& is_done(p, after)
            &&& added(p, after).len() == known.len()
            &&& forall|k: int|
                0 <= k < known.len() ==> is_call_edge(
                    #[trigger] added(p, after)[k],
                    index,
                    caller,
                    known[k],
                )
        }),
{
    let calls = protocol::outgoing_calls_of(answer)->0;
    let n = calls.len() as int;
    let relations = pass::call_relations(p.scope, caller, calls, n);
    let after = pass::stepped(p, EventView::Reply(Ok(answer)));
    lemma_call_edges(p.scope, caller, calls, n);
    assert(calls.take(n) =~= calls);
    assert(after.agenda =~= p.agenda.drop_last());
    assert(after.found.relations =~= p.found.relations + relations);
    assert(added(p, after) =~= relations);
}

/// No call is lost: an outgoing call that leads to a known entity has its edge.
pub proof fn known_call_is_found(
    p: PassView,
    caller: EntityView,
    item: ItemView,
    answer: JsonView,
    i: int,
)
    requires
        p.agenda.len() > 0,
        p.agenda.last() == (TaskView::Outgoing { caller, item }),
        protocol::outgoing_calls_of(answer) is Some,
        0 <= i < protocol::outgoing_calls_of(answer)->0.len(),
        callee(p.scope.index, protocol::outgoing_calls_of(answer)->0[i]) is Some,
    ensures
        exists|k: int|
            0 <= k < pass::stepped(p, EventView::Reply(Ok(answer))).found.relations.len()
                && is_call_edge(
                #[trigger] pass::stepped(p, EventView::Reply(Ok(answer))).found.relations[k],
                p.scope.index,
                caller,
                protocol::outgoing_calls_of(answer)->0[i],
            ),
{
    let index = p.scope.index;
    let calls = protocol::outgoing_calls_of(answer)->0;
    let after = pass::stepped(p, EventView::Reply(Ok(answer)));
    let known = calls.filter(calls_known(index));
    every_known_call_is_an_edge(p, caller, item, answer);
    calls.lemma_filter_contains(calls_known(index), i);
    let k = choose|k: int| 0 <= k < known.len() && known[k] == calls[i];
    let before = p.found.relations.len() as int;
    assert(is_call_edge(added(p, after)[k], index, caller, known[k]));
    assert(after.found.relations[before + k] == added(p, after)[k]);
}

// ── Overrides ───────────────────────────────────────────────────────────

/// The entity that a supertype's item is, if it is known: the one at the line of
/// the item's name.
pub open spec fn overridden(index: Seq<FileView>, item: ItemView) -> Option<EntityView> {
    entity_index::entity_at(index, item.uri, item.selection_range.start.line)
}

/// Whether a supertype's item is a known entity.
pub open spec fn overrides_known(index: Seq<FileView>) -> spec_fn(ItemView) -> bool {
    |item: ItemView| overridden(index, item) is Some
}

/// Whether a relation is what a supertype of a method gives.
pub open spec fn is_override_edge(
    relation: RelationView,
    index: Seq<FileView>,
    method: EntityView,
    item: ItemView,
) -> bool {
    &&& overridden(index, item) matches Some(target)
    &&& is_edge(relation, RelationKind::Overrides, method.id, target.id)
    &&& relation.confidence == 90
    &&& relation.evidence.len() == 0
}

proof fn lemma_override_edges(
    scope: ScopeView,
    method: EntityView,
    supertypes: Seq<ItemView>,
    n: int,
)
    requires
        0 <= n <= supertypes.len(),
    ensures
        ({
            let known = supertypes.take(n).filter(overrides_known(scope.index));
            let relations = pass::override_relations(scope, method, supertypes, n);
            &&& relations.len() == known.len()
            &&& forall|k: int|
                0 <= k < known.len() ==> is_override_edge(
                    #[trigger] relations[k],
                    scope.index,
                    method,
                    known[k],
                )
        }),
    decreases n,
{
    reveal(Seq::filter);
    if n > 0 {
        lemma_override_edges(scope, method, supertypes, n - 1);
        assert(supertypes.take(n).drop_last() =~= supertypes.take(n - 1));
        assert(supertypes.take(n).last() == supertypes[n - 1]);
    }
}

/// Every supertype that is a known entity gives one Overrides edge from the method
/// to it, in whatever file it lives, in the order of the answer; and there are no
/// other edges.
pub proof fn every_known_supertype_is_an_edge(
    p: PassView,
    method: EntityView,
    subtype: ItemView,
    answer: JsonView,
)
    requires
        p.agenda.len() > 0,
        p.agenda.last() == (TaskView::Supertypes { method, subtype }),
        protocol::items_of(answer) is Some,
    ensures
        ({
            let index = p.scope.index;
            let known = protocol::items_of(answer)->0.filter(overrides_known(index));
            let after = pass::stepped(p, EventView::Reply(Ok(answer)));
            &&& is_done(p, after)
            &&& added(p, after).len() == known.len()
            &&& forall|k: int|
                0 <= k < known.len() ==> is_override_edge(
                    #[trigger] added(p, after)[k],
                    index,
                    method,
                    known[k],
                )
        }),
{
    let supertypes = protocol::items_of(answer)->0;
    let n = supertypes.len() as int;
    let relations = pass::override_relations(p.scope, method, supertypes, n);
    let after = pass::stepped(p, EventView::Reply(Ok(answer)));
    lemma_override_edges(p.scope, method, supertypes, n);
    assert(supertypes.take(n) =~= supertypes);
    assert(after.agenda =~= p.agenda.drop_last());
    assert(after.found.relations =~= p.found.relations + relations);
    assert(added(p, after) =~= relations);
}

/// No supertype is lost: one that is a known entity has its edge.
pub proof fn known_supertype_is_found(
    p: PassView,
    method: EntityView,
    subtype: ItemView,
    answer: JsonView,
    i: int,
)
    requires
        p.agenda.len() > 0,
        p.agenda.last() == (TaskView::Supertypes { method, subtype }),
        protocol::items_of(answer) is Some,
        0 <= i < protocol::items_of(answer)->0.len(),
        overridden(p.scope.index, protocol::items_of(answer)->0[i]) is Some,
    ensures
        exists|k: int|
            0 <= k < pass::stepped(p, EventView::Reply(Ok(answer))).found.relations.len()
                && is_override_edge(
                #[trigger] pass::stepped(p, EventView::Reply(Ok(answer))).found.relations[k],
                p.scope.index,
                method,
                protocol::items_of(answer)->0[i],
            ),
{
    let index = p.scope.index;
    let supertypes = protocol::items_of(answer)->0;
    let after = pass::stepped(p, EventView::Reply(Ok(answer)));
    let known = supertypes.filter(overrides_known(index));
    every_known_supertype_is_an_edge(p, method, subtype, answer);
    supertypes.lemma_filter_contains(overrides_known(index), i);
    let k = choose|k: int| 0 <= k < known.len() && known[k] == supertypes[i];
    let before = p.found.relations.len() as int;
    assert(is_override_edge(added(p, after)[k], index, method, known[k]));
    assert(after.found.relations[before + k] == added(p, after)[k]);
}

// ── Relations that count once ───────────────────────────────────────────

/// A relation that is offered: its two entities, the kind of place it comes from,
/// and the relation itself.
struct Offer {
    src: EntityId,
    dst: EntityId,
    site: Site,
    relation: RelationView,
}

spec fn key_of(offer: Offer) -> (EntityId, EntityId, Site) {
    (offer.src, offer.dst, offer.site)
}

/// What is found with the first `n` offers.
spec fn with_offers(found: FoundView, offers: Seq<Option<Offer>>, n: int) -> FoundView
    decreases n,
{
    if n <= 0 {
        found
    } else {
        let before = with_offers(found, offers, n - 1);
        match offers[n - 1] {
            Some(o) => pass::admitted(before, o.src, o.dst, o.site, o.relation),
            None => before,
        }
    }
}

/// Whether an offer leads from one entity to another.
spec fn leads_on(offers: Seq<Option<Offer>>, i: int) -> bool {
    offers[i] matches Some(o) && o.src != o.dst
}

spec fn has_key(offers: Seq<Option<Offer>>, i: int, key: (EntityId, EntityId, Site)) -> bool {
    leads_on(offers, i) && key_of(offers[i]->0) == key
}

/// Whether an offer is the first of its entities and its kind of place.
spec fn is_first(found: FoundView, offers: Seq<Option<Offer>>) -> spec_fn(int) -> bool {
    |i: int|
        {
            &&& leads_on(offers, i)
            &&& !found.seen.contains(key_of(offers[i]->0))
            &&& forall|j: int| 0 <= j < i ==> !#[trigger] has_key(offers, j, key_of(offers[i]->0))
        }
}

spec fn is_counted(found: FoundView, offers: Seq<Option<Offer>>) -> spec_fn(int) -> bool {
    |i: int|
        leads_on(offers, i) && (pass::counts_repeats(offers[i]->0.site) || is_first(found, offers)(
            i,
        ))
}

/// The numbers below `n`, in order.
pub open spec fn below(n: nat) -> Seq<int> {
    Seq::new(n, |i: int| i)
}

/// A sum, as far as it can be counted.
pub open spec fn counted(start: usize, more: nat) -> usize {
    if start + more <= usize::MAX {
        (start + more) as usize
    } else {
        usize::MAX
    }
}

proof fn lemma_below(n: int)
    requires
        n > 0,
    ensures
        below(n as nat).drop_last() == below((n - 1) as nat),
        below(n as nat).last() == n - 1,
{
    assert(below(n as nat).drop_last() =~= below((n - 1) as nat));
}

#[verifier::rlimit(50)]
proof fn lemma_with_offers(found: FoundView, offers: Seq<Option<Offer>>, n: int)
    requires
        0 <= n <= offers.len(),
    ensures
        ({
            let after = with_offers(found, offers, n);
            let firsts = below(n as nat).filter(is_first(found, offers));
            let old = found.relations.len();
            &&& found.relations.is_prefix_of(after.relations)
            &&& after.relations.len() == old + firsts.len()
            &&& forall|k: int|
                0 <= k < firsts.len() ==> 0 <= #[trigger] firsts[k] < n && is_first(found, offers)(
                    firsts[k],
                ) && after.relations[old + k] == offers[firsts[k]]->0.relation
            &&& forall|key: (EntityId, EntityId, Site)| #[trigger]
                after.seen.contains(key) <==> (found.seen.contains(key) || exists|j: int|
                    0 <= j < n && #[trigger] has_key(offers, j, key))
            &&& after.resolved == counted(
                found.resolved,
                below(n as nat).filter(is_counted(found, offers)).len(),
            )
        }),
    decreases n,
{
    reveal(Seq::filter);
    if n > 0 {
        lemma_with_offers(found, offers, n - 1);
        lemma_below(n);
        let before = with_offers(found, offers, n - 1);
        let after = with_offers(found, offers, n);
        let firsts = below((n - 1) as nat).filter(is_first(found, offers));
        let now = below(n as nat).filter(is_first(found, offers));
        let old = found.relations.len();
        if leads_on(offers, n - 1) {
            let o = offers[n - 1]->0;
            let key = key_of(o);
            assert(has_key(offers, n - 1, key));
            assert(is_first(found, offers)(n - 1) <==> !before.seen.contains(key)) by {
                if before.seen.contains(key) && !found.seen.contains(key) {
                    let j = choose|j: int| 0 <= j < n - 1 && #[trigger] has_key(offers, j, key);
                    assert(has_key(offers, j, key));
                }
            }
            assert forall|other: (EntityId, EntityId, Site)| #[trigger]
                after.seen.contains(other) <==> (found.seen.contains(other) || exists|j: int|
                    0 <= j < n && #[trigger] has_key(offers, j, other)) by {
                if before.seen.contains(key) {
                    assert(after.seen == before.seen);
                } else {
                    assert(after.seen == before.seen.push(key));
                    if after.seen.contains(other) && other != key {
                        let i = choose|i: int| 0 <= i < after.seen.len() && after.seen[i] == other;
                        assert(before.seen[i] == other);
                    }
                    if before.seen.contains(other) {
                        let i = choose|i: int|
                            0 <= i < before.seen.len() && before.seen[i] == other;
                        assert(after.seen[i] == other);
                    }
                    assert(after.seen[before.seen.len() as int] == key);
                }
                if after.seen.contains(other) && !found.seen.contains(other) && other != key {
                    assert(before.seen.contains(other));
                    let j = choose|j: int| 0 <= j < n - 1 && #[trigger] has_key(offers, j, other);
                    assert(has_key(offers, j, other));
                }
                if exists|j: int| 0 <= j < n && #[trigger] has_key(offers, j, other) {
                    let j = choose|j: int| 0 <= j < n && #[trigger] has_key(offers, j, other);
                    if j < n - 1 {
                        assert(before.seen.contains(other));
                    } else {
                        assert(other == key);
                    }
                }
            }
        } else {
            assert(after == before);
            assert forall|other: (EntityId, EntityId, Site)| #[trigger]
                after.seen.contains(other) <==> (found.seen.contains(other) || exists|j: int|
                    0 <= j < n && #[trigger] has_key(offers, j, other)) by {
                if exists|j: int| 0 <= j < n && #[trigger] has_key(offers, j, other) {
                    let j = choose|j: int| 0 <= j < n && #[trigger] has_key(offers, j, other);
                    assert(j < n - 1);
                    assert(before.seen.contains(other));
                }
                if before.seen.contains(other) && !found.seen.contains(other) {
                    let j = choose|j: int| 0 <= j < n - 1 && #[trigger] has_key(offers, j, other);
                    assert(has_key(offers, j, other));
                }
            }
        }
        assert forall|k: int| 0 <= k < now.len() implies 0 <= #[trigger] now[k] < n && is_first(
            found,
            offers,
        )(now[k]) && after.relations[old + k] == offers[now[k]]->0.relation by {
            if k < firsts.len() {
                assert(now[k] == firsts[k]);
                assert(before.relations[old + k] == offers[firsts[k]]->0.relation);
            }
        }
    }
}

/// An offer that leads from one entity to another is among the relations found.
#[verifier::rlimit(50)]
proof fn lemma_offer_is_found(found: FoundView, offers: Seq<Option<Offer>>, i: int)
    requires
        pass_laws::is_sound(found),
        0 <= i < offers.len(),
        leads_on(offers, i),
        forall|j: int|
            0 <= j < offers.len() && leads_on(offers, j) ==> pass_laws::stands_for(
                (#[trigger] offers[j])->0.relation,
                key_of(offers[j]->0),
            ),
    ensures
        exists|k: int|
            0 <= k < with_offers(found, offers, offers.len() as int).relations.len()
                && pass_laws::stands_for(
                #[trigger] with_offers(found, offers, offers.len() as int).relations[k],
                key_of(offers[i]->0),
            ),
    decreases i,
{
    let n = offers.len() as int;
    let after = with_offers(found, offers, n);
    let key = key_of(offers[i]->0);
    lemma_with_offers(found, offers, n);
    if found.seen.contains(key) {
        let once = found.relations.filter(pass_laws::counts_once());
        let s = choose|s: int| 0 <= s < found.seen.len() && found.seen[s] == key;
        assert(pass_laws::stands_for(once[s], found.seen[s]));
        found.relations.lemma_filter_contains_rev(pass_laws::counts_once(), once[s]);
        let k = choose|k: int| 0 <= k < found.relations.len() && found.relations[k] == once[s];
        assert(after.relations[k] == found.relations[k]);
    } else if exists|j: int| 0 <= j < i && #[trigger] has_key(offers, j, key) {
        let j = choose|j: int| 0 <= j < i && #[trigger] has_key(offers, j, key);
        lemma_offer_is_found(found, offers, j);
    } else {
        assert(is_first(found, offers)(i));
        assert(below(n as nat)[i] == i);
        below(n as nat).lemma_filter_contains(is_first(found, offers), i);
        let firsts = below(n as nat).filter(is_first(found, offers));
        let k = choose|k: int| 0 <= k < firsts.len() && firsts[k] == i;
        assert(pass_laws::stands_for(offers[i]->0.relation, key));
        assert(after.relations[found.relations.len() + k] == offers[firsts[k]]->0.relation);
    }
}

/// Two tests that agree on the numbers below `n` keep the same ones.
proof fn lemma_same_kept(n: nat, a: spec_fn(int) -> bool, b: spec_fn(int) -> bool)
    requires
        forall|i: int| 0 <= i < n ==> #[trigger] a(i) == b(i),
    ensures
        below(n).filter(a) == below(n).filter(b),
    decreases n,
{
    reveal(Seq::filter);
    if n > 0 {
        lemma_below(n as int);
        lemma_same_kept((n - 1) as nat, a, b);
        assert(a(n - 1) == b(n - 1));
    }
}

// ── References ──────────────────────────────────────────────────────────

/// The entity that a location lies in, if one is known there.
pub open spec fn entity_of(index: Seq<FileView>, location: LocationView) -> Option<EntityView> {
    entity_index::entity_at(index, location.uri, location.range.start.line)
}

/// Whether a location lies in a known entity other than `id`.
pub open spec fn lies_elsewhere(
    index: Seq<FileView>,
    id: EntityId,
    location: LocationView,
) -> bool {
    entity_of(index, location) matches Some(e) && e.id != id
}

/// Whether the location `i` is the first one that lies in its entity, which is not
/// known to refer to the one asked about.
pub open spec fn is_new_referrer(
    p: PassView,
    id: EntityId,
    locations: Seq<LocationView>,
) -> spec_fn(int) -> bool {
    |i: int|
        {
            let src = entity_of(p.scope.index, locations[i])->0.id;
            &&& lies_elsewhere(p.scope.index, id, locations[i])
            &&& !p.found.seen.contains((src, id, Site::Reference))
            &&& forall|j: int|
                0 <= j < i && lies_elsewhere(p.scope.index, id, #[trigger] locations[j])
                    ==> entity_of(p.scope.index, locations[j])->0.id != src
        }
}

spec fn reference_offer(
    scope: ScopeView,
    entity: EntityView,
    location: LocationView,
) -> Option<Offer> {
    match entity_of(scope.index, location) {
        Some(e) => Some(
            Offer {
                src: e.id,
                dst: entity.id,
                site: Site::Reference,
                relation: enrichment::lsp_relation(
                    RelationKind::References,
                    e.id,
                    entity.id,
                    95,
                    Seq::empty(),
                ),
            },
        ),
        None => None,
    }
}

spec fn reference_offers(
    scope: ScopeView,
    entity: EntityView,
    locations: Seq<LocationView>,
) -> Seq<Option<Offer>> {
    Seq::new(locations.len(), |i: int| reference_offer(scope, entity, locations[i]))
}

proof fn lemma_references_are_offers(
    scope: ScopeView,
    found: FoundView,
    entity: EntityView,
    locations: Seq<LocationView>,
    n: int,
)
    requires
        0 <= n <= locations.len(),
    ensures
        pass::with_references(scope, found, entity, locations, n) == with_offers(
            found,
            reference_offers(scope, entity, locations),
            n,
        ),
    decreases n,
{
    if n > 0 {
        lemma_references_are_offers(scope, found, entity, locations, n - 1);
    }
}

/// Whether a relation is what a location that refers to an entity gives.
pub open spec fn is_reference_edge(
    relation: RelationView,
    index: Seq<FileView>,
    id: EntityId,
    location: LocationView,
) -> bool {
    &&& entity_of(index, location) matches Some(e)
    &&& is_edge(relation, RelationKind::References, e.id, id)
    &&& relation.confidence == 95
    &&& relation.evidence.len() == 0
}

/// Every location that the server lists and that lies in a known entity gives a
/// References edge from that entity to the one asked about: one for each such
/// entity, in the order in which they first come up, and none from the entity to
/// itself. There are no other edges.
#[verifier::rlimit(50)]
pub proof fn every_referrer_is_an_edge(
    p: PassView,
    entity: EntityView,
    answer: JsonView,
)
    requires
        p.agenda.len() > 0,
        p.agenda.last() == (TaskView::References { entity }),
        protocol::location_list_of(answer) is Some,
    ensures
        ({
            let locations = protocol::location_list_of(answer)->0;
            let firsts = below(locations.len()).filter(is_new_referrer(p, entity.id, locations));
            let after = pass::stepped(p, EventView::Reply(Ok(answer)));
            &&& is_done(p, after)
            &&& added(p, after).len() == firsts.len()
            &&& forall|k: int|
                0 <= k < firsts.len() ==> is_reference_edge(
                    #[trigger] added(p, after)[k],
                    p.scope.index,
                    entity.id,
                    locations[firsts[k]],
                )
        }),
{
    let locations = protocol::location_list_of(answer)->0;
    let n = locations.len();
    let offers = reference_offers(p.scope, entity, locations);
    let after = pass::stepped(p, EventView::Reply(Ok(answer)));
    lemma_references_are_offers(p.scope, p.found, entity, locations, n as int);
    lemma_with_offers(p.found, offers, n as int);
    let new = is_new_referrer(p, entity.id, locations);
    let first = is_first(p.found, offers);
    assert forall|i: int| 0 <= i < n implies #[trigger] first(i) == new(i) by {
        if lies_elsewhere(p.scope.index, entity.id, locations[i]) {
            let key = key_of(offers[i]->0);
            assert forall|j: int| 0 <= j < i implies has_key(offers, j, key) == (lies_elsewhere(
                p.scope.index,
                entity.id,
                locations[j],
            ) && entity_of(p.scope.index, locations[j])->0.id == key.0) by {}
            if new(i) {
                assert forall|j: int| 0 <= j < i implies !#[trigger] has_key(offers, j, key) by {
                    assert(locations[j] == locations[j]);
                }
            }
            if first(i) {
                assert forall|j: int|
                    0 <= j < i && lies_elsewhere(
                        p.scope.index,
                        entity.id,
                        #[trigger] locations[j],
                    ) implies entity_of(p.scope.index, locations[j])->0.id != key.0 by {
                    assert(!has_key(offers, j, key));
                }
            }
        }
    }
    lemma_same_kept(n, first, new);
    assert(after.agenda =~= p.agenda.drop_last());
    let firsts = below(n).filter(new);
    let old = p.found.relations.len();
    assert forall|k: int| 0 <= k < firsts.len() implies is_reference_edge(
        #[trigger] added(p, after)[k],
        p.scope.index,
        entity.id,
        locations[firsts[k]],
    ) by {
        assert(added(p, after)[k] == after.found.relations[old + k]);
        assert(0 <= firsts[k] < n);
        assert(offers[firsts[k]] == reference_offer(p.scope, entity, locations[firsts[k]]));
    }
}

/// No referrer is lost: a location that lies in a known entity other than the one
/// asked about has an edge from that entity.
pub proof fn referrer_is_found(p: PassView, entity: EntityView, answer: JsonView, i: int)
    requires
        pass_laws::is_sound(p.found),
        p.agenda.len() > 0,
        p.agenda.last() == (TaskView::References { entity }),
        protocol::location_list_of(answer) is Some,
        0 <= i < protocol::location_list_of(answer)->0.len(),
        lies_elsewhere(p.scope.index, entity.id, protocol::location_list_of(answer)->0[i]),
    ensures
        exists|k: int|
            0 <= k < pass::stepped(p, EventView::Reply(Ok(answer))).found.relations.len()
                && is_edge(
                #[trigger] pass::stepped(p, EventView::Reply(Ok(answer))).found.relations[k],
                RelationKind::References,
                entity_of(p.scope.index, protocol::location_list_of(answer)->0[i])->0.id,
                entity.id,
            ),
{
    let locations = protocol::location_list_of(answer)->0;
    let n = locations.len() as int;
    let offers = reference_offers(p.scope, entity, locations);
    let after = pass::stepped(p, EventView::Reply(Ok(answer)));
    lemma_references_are_offers(p.scope, p.found, entity, locations, n);
    assert(pass::fits(pass::action_of(p), EventView::Reply(Ok(answer))));
    pass_laws::step_keeps_relations_sound(p, EventView::Reply(Ok(answer)));
    lemma_offer_is_found(p.found, offers, i);
    let k = choose|k: int|
        0 <= k < with_offers(p.found, offers, n).relations.len() && pass_laws::stands_for(
            #[trigger] with_offers(p.found, offers, n).relations[k],
            key_of(offers[i]->0),
        );
    assert(after.found.relations[k] == with_offers(p.found, offers, n).relations[k]);
    assert(pass_laws::is_proven_edge(after.found.relations[k]));
}

// ── Definitions and types ───────────────────────────────────────────────

/// Whether the location `i` is the first that leads from `source` to its entity
/// from within the file being enriched, or from without, and that edge is not known.
pub open spec fn is_new_definition(
    p: PassView,
    source: EntityId,
    locations: Seq<LocationView>,
) -> spec_fn(int) -> bool {
    |i: int|
        {
            let dst = entity_of(p.scope.index, locations[i])->0.id;
            let inside = text::has_part(locations[i].uri, p.scope.path);
            &&& lies_elsewhere(p.scope.index, source, locations[i])
            &&& !p.found.seen.contains(
                (source, dst, if inside { Site::SameFile } else { Site::CrossFile }),
            )
            &&& forall|j: int|
                0 <= j < i && lies_elsewhere(p.scope.index, source, #[trigger] locations[j])
                    && text::has_part(locations[j].uri, p.scope.path) == inside
                    ==> entity_of(p.scope.index, locations[j])->0.id != dst
        }
}

/// Whether the location `i` is the first that leads from `source` to its entity,
/// which it is not known to use.
pub open spec fn is_new_type(
    p: PassView,
    source: EntityId,
    locations: Seq<LocationView>,
) -> spec_fn(int) -> bool {
    |i: int|
        {
            let dst = entity_of(p.scope.index, locations[i])->0.id;
            &&& lies_elsewhere(p.scope.index, source, locations[i])
            &&& !p.found.seen.contains((source, dst, Site::Type))
            &&& forall|j: int|
                0 <= j < i && lies_elsewhere(p.scope.index, source, #[trigger] locations[j])
                    ==> entity_of(p.scope.index, locations[j])->0.id != dst
        }
}

/// Whether a location leads from `source` to another known entity.
pub open spec fn resolves(index: Seq<FileView>, source: EntityId) -> spec_fn(LocationView) -> bool {
    |location: LocationView| lies_elsewhere(index, source, location)
}

spec fn location_offer(
    scope: ScopeView,
    source: EntityId,
    line: u32,
    col: u32,
    location: LocationView,
) -> Option<Offer> {
    match entity_of(scope.index, location) {
        Some(e) => Some(
            match scope.purpose {
                Purpose::Types => Offer {
                    src: source,
                    dst: e.id,
                    site: Site::Type,
                    relation: enrichment::lsp_relation(
                        RelationKind::UsesType,
                        source,
                        e.id,
                        85,
                        seq![
                            enrichment::site_evidence(
                                "lsp_references"@,
                                scope.path,
                                location.range,
                            ),
                        ],
                    ),
                },
                Purpose::Definitions => Offer {
                    src: source,
                    dst: e.id,
                    site: if text::has_part(location.uri, scope.path) {
                        Site::SameFile
                    } else {
                        Site::CrossFile
                    },
                    relation: enrichment::lsp_relation(
                        RelationKind::References,
                        source,
                        e.id,
                        95,
                        seq![
                            enrichment::site_evidence(
                                "lsp_definition"@,
                                scope.path,
                                pass::point(line, col),
                            ),
                        ],
                    ),
                },
            },
        ),
        None => None,
    }
}

spec fn location_offers(
    scope: ScopeView,
    source: EntityId,
    line: u32,
    col: u32,
    locations: Seq<LocationView>,
) -> Seq<Option<Offer>> {
    Seq::new(
        locations.len(),
        |i: int| location_offer(scope, source, line, col, locations[i]),
    )
}

proof fn lemma_locations_are_offers(
    scope: ScopeView,
    found: FoundView,
    source: EntityId,
    line: u32,
    col: u32,
    locations: Seq<LocationView>,
    n: int,
)
    requires
        0 <= n <= locations.len(),
    ensures
        pass::with_locations(scope, found, source, line, col, locations, n) == with_offers(
            found,
            location_offers(scope, source, line, col, locations),
            n,
        ),
    decreases n,
{
    if n > 0 {
        lemma_locations_are_offers(scope, found, source, line, col, locations, n - 1);
    }
}

/// As many of the first `n` locations resolve as there are numbers of such.
proof fn lemma_resolved(
    index: Seq<FileView>,
    source: EntityId,
    locations: Seq<LocationView>,
    test: spec_fn(int) -> bool,
    n: int,
)
    requires
        0 <= n <= locations.len(),
        forall|i: int|
            0 <= i < locations.len() ==> #[trigger] test(i) == lies_elsewhere(
                index,
                source,
                locations[i],
            ),
    ensures
        below(n as nat).filter(test).len() == locations.take(n).filter(
            resolves(index, source),
        ).len(),
    decreases n,
{
    reveal(Seq::filter);
    if n > 0 {
        lemma_resolved(index, source, locations, test, n - 1);
        lemma_below(n);
        assert(locations.take(n).drop_last() =~= locations.take(n - 1));
        assert(locations.take(n).last() == locations[n - 1]);
        assert(test(n - 1) == lies_elsewhere(index, source, locations[n - 1]));
    }
}

/// Whether a relation is what a location that an identifier is defined at gives.
pub open spec fn is_definition_edge(
    relation: RelationView,
    scope: ScopeView,
    source: EntityId,
    line: u32,
    col: u32,
    location: LocationView,
) -> bool {
    &&& entity_of(scope.index, location) matches Some(e)
    &&& is_edge(relation, RelationKind::References, source, e.id)
    &&& relation.confidence == 95
    &&& rests_on_place(relation, "lsp_definition"@, scope.path, line, col)
}

/// Every definition of an identifier that lands on a known entity other than the
/// one the identifier stands in gives a References edge to it, whether it lies in
/// the file being enriched or in another: one for each entity and side of that
/// line, in the order of the answer. Each such definition counts as resolved. There
/// are no other edges.
#[verifier::rlimit(50)]
pub proof fn every_definition_is_an_edge(
    p: PassView,
    source: EntityId,
    line: u32,
    col: u32,
    answer: JsonView,
)
    requires
        p.agenda.len() > 0,
        p.agenda.last() == (TaskView::Ordinary { source, line, col }),
        p.scope.purpose == Purpose::Definitions,
        protocol::locations_of(answer) is Some,
    ensures
        ({
            let locations = protocol::locations_of(answer)->0;
            let firsts = below(locations.len()).filter(is_new_definition(p, source, locations));
            let after = pass::stepped(p, EventView::Reply(Ok(answer)));
            &&& is_done(p, after)
            &&& added(p, after).len() == firsts.len()
            &&& forall|k: int|
                0 <= k < firsts.len() ==> is_definition_edge(
                    #[trigger] added(p, after)[k],
                    p.scope,
                    source,
                    line,
                    col,
                    locations[firsts[k]],
                )
            &&& after.found.resolved == counted(
                p.found.resolved,
                locations.filter(resolves(p.scope.index, source)).len(),
            )
        }),
{
    let index = p.scope.index;
    let locations = protocol::locations_of(answer)->0;
    let n = locations.len();
    let offers = location_offers(p.scope, source, line, col, locations);
    let after = pass::stepped(p, EventView::Reply(Ok(answer)));
    lemma_locations_are_offers(p.scope, p.found, source, line, col, locations, n as int);
    lemma_with_offers(p.found, offers, n as int);
    let new = is_new_definition(p, source, locations);
    let first = is_first(p.found, offers);
    assert forall|i: int| 0 <= i < n implies #[trigger] first(i) == new(i) by {
        if lies_elsewhere(index, source, locations[i]) {
            let key = key_of(offers[i]->0);
            if new(i) {
                assert forall|j: int| 0 <= j < i implies !#[trigger] has_key(offers, j, key) by {
                    assert(locations[j] == locations[j]);
                }
            }
            if first(i) {
                let inside = text::has_part(locations[i].uri, p.scope.path);
                assert forall|j: int|
                    0 <= j < i && lies_elsewhere(index, source, #[trigger] locations[j])
                        && text::has_part(locations[j].uri, p.scope.path) == inside implies
                    entity_of(index, locations[j])->0.id != key.1 by {
                    assert(!has_key(offers, j, key));
                }
            }
        }
    }
    lemma_same_kept(n, first, new);
    let test = is_counted(p.found, offers);
    assert forall|i: int| 0 <= i < locations.len() implies #[trigger] test(i) == lies_elsewhere(
        index,
        source,
        locations[i],
    ) by {}
    lemma_resolved(index, source, locations, test, n as int);
    assert(locations.take(n as int) =~= locations);
    assert(after.agenda =~= p.agenda.drop_last());
    let firsts = below(n).filter(new);
    let old = p.found.relations.len();
    assert forall|k: int| 0 <= k < firsts.len() implies is_definition_edge(
        #[trigger] added(p, after)[k],
        p.scope,
        source,
        line,
        col,
        locations[firsts[k]],
    ) by {
        assert(added(p, after)[k] == after.found.relations[old + k]);
        assert(0 <= firsts[k] < n);
        assert(offers[firsts[k]] == location_offer(
            p.scope,
            source,
            line,
            col,
            locations[firsts[k]],
        ));
    }
}

/// Whether a relation is what a location that an identifier's type is defined at
/// gives.
pub open spec fn is_type_edge(
    relation: RelationView,
    scope: ScopeView,
    source: EntityId,
    location: LocationView,
) -> bool {
    &&& entity_of(scope.index, location) matches Some(e)
    &&& is_edge(relation, RelationKind::UsesType, source, e.id)
    &&& relation.confidence == 85
    &&& rests_on(relation, "lsp_references"@, scope.path, location.range)
}

/// Every type of an identifier that lands on a known entity other than the one the
/// identifier stands in gives a UsesType edge to it, once, in the order of the
/// answer. There are no other edges.
#[verifier::rlimit(50)]
pub proof fn every_type_is_an_edge(
    p: PassView,
    source: EntityId,
    line: u32,
    col: u32,
    answer: JsonView,
)
    requires
        p.agenda.len() > 0,
        p.agenda.last() == (TaskView::Ordinary { source, line, col }),
        p.scope.purpose == Purpose::Types,
        protocol::locations_of(answer) is Some,
    ensures
        ({
            let locations = protocol::locations_of(answer)->0;
            let firsts = below(locations.len()).filter(is_new_type(p, source, locations));
            let after = pass::stepped(p, EventView::Reply(Ok(answer)));
            &&& is_done(p, after)
            &&& added(p, after).len() == firsts.len()
            &&& forall|k: int|
                0 <= k < firsts.len() ==> is_type_edge(
                    #[trigger] added(p, after)[k],
                    p.scope,
                    source,
                    locations[firsts[k]],
                )
        }),
{
    let index = p.scope.index;
    let locations = protocol::locations_of(answer)->0;
    let n = locations.len();
    let offers = location_offers(p.scope, source, line, col, locations);
    let after = pass::stepped(p, EventView::Reply(Ok(answer)));
    lemma_locations_are_offers(p.scope, p.found, source, line, col, locations, n as int);
    lemma_with_offers(p.found, offers, n as int);
    let new = is_new_type(p, source, locations);
    let first = is_first(p.found, offers);
    assert forall|i: int| 0 <= i < n implies #[trigger] first(i) == new(i) by {
        if lies_elsewhere(index, source, locations[i]) {
            let key = key_of(offers[i]->0);
            if new(i) {
                assert forall|j: int| 0 <= j < i implies !#[trigger] has_key(offers, j, key) by {
                    assert(locations[j] == locations[j]);
                }
            }
            if first(i) {
                assert forall|j: int|
                    0 <= j < i && lies_elsewhere(index, source, #[trigger] locations[j]) implies
                    entity_of(index, locations[j])->0.id != key.1 by {
                    assert(!has_key(offers, j, key));
                }
            }
        }
    }
    lemma_same_kept(n, first, new);
    assert(after.agenda =~= p.agenda.drop_last());
    let firsts = below(n).filter(new);
    let old = p.found.relations.len();
    assert forall|k: int| 0 <= k < firsts.len() implies is_type_edge(
        #[trigger] added(p, after)[k],
        p.scope,
        source,
        locations[firsts[k]],
    ) by {
        assert(added(p, after)[k] == after.found.relations[old + k]);
        assert(0 <= firsts[k] < n);
        assert(offers[firsts[k]] == location_offer(
            p.scope,
            source,
            line,
            col,
            locations[firsts[k]],
        ));
    }
}

/// The kind of the relations that a pass over positions is for.
pub open spec fn sought(purpose: Purpose) -> RelationKind {
    match purpose {
        Purpose::Types => RelationKind::UsesType,
        Purpose::Definitions => RelationKind::References,
    }
}

/// No location is lost: one that lies in a known entity other than the source, in
/// whatever document, has an edge from the source to that entity.
pub proof fn location_is_found(
    p: PassView,
    source: EntityId,
    line: u32,
    col: u32,
    answer: JsonView,
    i: int,
)
    requires
        pass_laws::is_sound(p.found),
        p.agenda.len() > 0,
        p.agenda.last() == (TaskView::Ordinary { source, line, col }),
        protocol::locations_of(answer) is Some,
        0 <= i < protocol::locations_of(answer)->0.len(),
        lies_elsewhere(p.scope.index, source, protocol::locations_of(answer)->0[i]),
    ensures
        exists|k: int|
            0 <= k < pass::stepped(p, EventView::Reply(Ok(answer))).found.relations.len()
                && is_edge(
                #[trigger] pass::stepped(p, EventView::Reply(Ok(answer))).found.relations[k],
                sought(p.scope.purpose),
                source,
                entity_of(p.scope.index, protocol::locations_of(answer)->0[i])->0.id,
            ),
{
    let locations = protocol::locations_of(answer)->0;
    let n = locations.len() as int;
    let offers = location_offers(p.scope, source, line, col, locations);
    let after = pass::stepped(p, EventView::Reply(Ok(answer)));
    lemma_locations_are_offers(p.scope, p.found, source, line, col, locations, n);
    assert(pass::fits(pass::action_of(p), EventView::Reply(Ok(answer))));
    pass_laws::step_keeps_relations_sound(p, EventView::Reply(Ok(answer)));
    lemma_offer_is_found(p.found, offers, i);
    let k = choose|k: int|
        0 <= k < with_offers(p.found, offers, n).relations.len() && pass_laws::stands_for(
            #[trigger] with_offers(p.found, offers, n).relations[k],
            key_of(offers[i]->0),
        );
    assert(after.found.relations[k] == with_offers(p.found, offers, n).relations[k]);
    assert(pass_laws::is_proven_edge(after.found.relations[k]));
}

} // verus!
