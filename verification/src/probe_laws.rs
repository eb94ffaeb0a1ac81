//! What a pass asks about: every identifier that it is to ask about, each once, and
//! nothing else.

use vstd::prelude::*;

use crate::entity_index;
use crate::entity_index::{EntityView, FileView};
use crate::file_enrichment;
use crate::lifecycle;
use crate::pass;
use crate::pass::{EventView, PassView, Purpose, ScopeView, TaskView};
use crate::protocol;
use crate::protocol::CapabilitiesView;
use crate::registry::LspCapability;
use crate::scan;
use crate::text;
use crate::types::EntityId;

verus! {

/// The line and the column that a task asks about.
pub open spec fn place_of(task: TaskView) -> (int, int) {
    match task {
        TaskView::Ordinary { line, col, .. } => (line as int, col as int),
        TaskView::Receiver { line, col, .. } => (line as int, col as int),
        _ => (-1, -1),
    }
}

/// Whether a place comes before another in a text.
pub open spec fn comes_before(a: (int, int), b: (int, int)) -> bool {
    a.0 < b.0 || (a.0 == b.0 && a.1 < b.1)
}

/// Whether a task asks about the identifier at a column of a line, on behalf of an
/// entity: as a receiver where it opens a member expression and the server can say
/// where it is defined, and by itself otherwise.
pub open spec fn asks_about(
    task: TaskView,
    definition: bool,
    source: EntityId,
    line: int,
    chars: Seq<char>,
    col: int,
) -> bool {
    let opened = scan::member_opened(chars, col);
    match task {
        TaskView::Ordinary { source: s, line: l, col: c } => {
            &&& s == source
            &&& l == line
            &&& c == col
            &&& !(definition && opened is Some)
        },
        TaskView::Receiver { source: s, line: l, col: c, member_col, member } => {
            &&& s == source
            &&& l == line
            &&& c == col
            &&& definition
            &&& opened matches Some(m) && m.member_col == member_col && m.member == member
        },
        _ => false,
    }
}

/// Whether some tasks ask about the identifiers of the lines from `from` up to `to`
/// on behalf of the entity that each line belongs to: about every one of them, about
/// nothing else, and in the order of the text. Nothing is asked about a line that
/// belongs to no entity.
pub open spec fn ask_exactly(
    tasks: Seq<TaskView>,
    definition: bool,
    owner: spec_fn(int) -> Option<EntityId>,
    lines: Seq<Seq<char>>,
    from: int,
    to: int,
) -> bool {
    &&& forall|k: int|
        0 <= k < tasks.len() ==> {
            let (line, col) = place_of(#[trigger] tasks[k]);
            &&& from <= line < to
            &&& owner(line) is Some
            &&& scan::identifier_positions(lines[line]).contains(col as u32)
            &&& asks_about(tasks[k], definition, owner(line)->0, line, lines[line], col)
        }
    &&& forall|line: int, col: u32|
        from <= line < to && owner(line) is Some && #[trigger] scan::identifier_positions(
            lines[line],
        ).contains(col) ==> exists|k: int|
            0 <= k < tasks.len() && place_of(#[trigger] tasks[k]) == (line, col as int)
    &&& forall|k: int, l: int|
        0 <= k < l < tasks.len() ==> comes_before(
            place_of(#[trigger] tasks[k]),
            place_of(#[trigger] tasks[l]),
        )
}

/// Whether every line has columns that can be counted.
pub open spec fn are_countable(lines: Seq<Seq<char>>) -> bool {
    forall|i: int| 0 <= i < lines.len() ==> (#[trigger] lines[i]).len() <= u32::MAX
}

proof fn lemma_asked_on_line(
    scope: ScopeView,
    owner: spec_fn(int) -> Option<EntityId>,
    lines: Seq<Seq<char>>,
    line: int,
)
    requires
        0 <= line < lines.len(),
        line <= u32::MAX,
        are_countable(lines),
        owner(line) is Some,
    ensures
        ask_exactly(
            pass::probes_on(scope, owner(line)->0, line as u32, lines[line]),
            scope.definition,
            owner,
            lines,
            line,
            line + 1,
        ),
{
    let source = owner(line)->0;
    let chars = lines[line];
    let positions = scan::identifier_positions(chars);
    let tasks = pass::probes_on(scope, source, line as u32, chars);
    scan::positions_are_identifier_starts(chars);
    assert forall|k: int| 0 <= k < tasks.len() implies {
        let (l, col) = place_of(#[trigger] tasks[k]);
        &&& l == line
        &&& col == positions[k]
        &&& positions.contains(col as u32)
        &&& asks_about(tasks[k], scope.definition, source, line, chars, col)
    } by {
        assert(tasks[k] == pass::probe_at(scope, source, line as u32, chars, positions[k]));
        assert(positions.contains(positions[k]));
    }
    assert forall|l: int, col: u32|
        line <= l < line + 1 && owner(l) is Some && #[trigger] scan::identifier_positions(
            lines[l],
        ).contains(col) implies exists|k: int|
        0 <= k < tasks.len() && place_of(#[trigger] tasks[k]) == (l, col as int) by {
        let k = choose|k: int| 0 <= k < positions.len() && positions[k] == col;
        assert(place_of(tasks[k]) == (l, col as int));
    }
    assert forall|k: int, l: int| 0 <= k < l < tasks.len() implies comes_before(
        place_of(#[trigger] tasks[k]),
        place_of(#[trigger] tasks[l]),
    ) by {
        assert(positions[k] < positions[l]);
    }
}

#[verifier::rlimit(50)]
proof fn lemma_asked_in_a_row(
    a: Seq<TaskView>,
    b: Seq<TaskView>,
    definition: bool,
    owner: spec_fn(int) -> Option<EntityId>,
    lines: Seq<Seq<char>>,
    from: int,
    mid: int,
    to: int,
)
    requires
        from <= mid <= to,
        ask_exactly(a, definition, owner, lines, from, mid),
        ask_exactly(b, definition, owner, lines, mid, to),
    ensures
        ask_exactly(a + b, definition, owner, lines, from, to),
{
    let all = a + b;
    assert forall|k: int| 0 <= k < all.len() implies {
        let (line, col) = place_of(#[trigger] all[k]);
        &&& from <= line < to
        &&& owner(line) is Some
        &&& scan::identifier_positions(lines[line]).contains(col as u32)
        &&& asks_about(all[k], definition, owner(line)->0, line, lines[line], col)
    } by {
        if k < a.len() {
            assert(all[k] == a[k]);
        } else {
            assert(all[k] == b[k - a.len()]);
        }
    }
    assert forall|line: int, col: u32|
        from <= line < to && owner(line) is Some && #[trigger] scan::identifier_positions(
            lines[line],
        ).contains(col) implies exists|k: int|
        0 <= k < all.len() && place_of(#[trigger] all[k]) == (line, col as int) by {
        if line < mid {
            let k = choose|k: int|
                0 <= k < a.len() && place_of(#[trigger] a[k]) == (line, col as int);
            assert(all[k] == a[k]);
        } else {
            let k = choose|k: int|
                0 <= k < b.len() && place_of(#[trigger] b[k]) == (line, col as int);
            assert(all[a.len() + k] == b[k]);
        }
    }
    assert forall|k: int, l: int| 0 <= k < l < all.len() implies comes_before(
        place_of(#[trigger] all[k]),
        place_of(#[trigger] all[l]),
    ) by {
        if l < a.len() {
            assert(all[k] == a[k] && all[l] == a[l]);
        } else if k >= a.len() {
            assert(all[k] == b[k - a.len()] && all[l] == b[l - a.len()]);
        } else {
            assert(all[k] == a[k] && all[l] == b[l - a.len()]);
        }
    }
}

// ── One entity ──────────────────────────────────────────────────────────

/// Every line within an entity's span belongs to it.
pub open spec fn owned_by(entity: EntityView) -> spec_fn(int) -> Option<EntityId> {
    |line: int|
        if entity.start_line <= line <= entity.end_line {
            Some(entity.id)
        } else {
            None
        }
}

proof fn lemma_entity_is_asked(
    scope: ScopeView,
    entity: EntityView,
    lines: Seq<Seq<char>>,
    line: int,
)
    requires
        entity.start_line <= line,
        are_countable(lines),
    ensures
        ask_exactly(
            pass::probes_of_entity(scope, entity, lines, line),
            scope.definition,
            owned_by(entity),
            lines,
            line,
            if line <= lines.len() { lines.len() as int } else { line },
        ),
    decreases lines.len() - line,
{
    if line < lines.len() && line <= entity.end_line {
        lemma_entity_is_asked(scope, entity, lines, line + 1);
        lemma_asked_on_line(scope, owned_by(entity), lines, line);
        lemma_asked_in_a_row(
            pass::probes_on(scope, entity.id, line as u32, lines[line]),
            pass::probes_of_entity(scope, entity, lines, line + 1),
            scope.definition,
            owned_by(entity),
            lines,
            line,
            line + 1,
            lines.len() as int,
        );
    }
}

/// Once the text of an entity's file is there, every identifier on every line of the
/// entity's span, as far as the file goes, is asked about, and nothing outside it, in
/// the order of the text, before anything else.
pub proof fn every_identifier_of_an_entity_is_asked_about(
    p: PassView,
    entity: EntityView,
    content: Seq<char>,
)
    requires
        p.agenda.len() > 0,
        p.agenda.last() == (TaskView::Source { entity }),
        are_countable(text::lines_of(content)),
    ensures
        ({
            let after = pass::stepped(p, EventView::Text(Some(content)));
            let left = p.agenda.len() - 1;
            let lines = text::lines_of(content);
            &&& after.agenda.len() >= left
            &&& after.agenda.take(left) == p.agenda.drop_last()
            &&& ask_exactly(
                after.agenda.skip(left).reverse(),
                p.scope.definition,
                owned_by(entity),
                lines,
                0,
                lines.len() as int,
            )
            &&& after.found == p.found
            &&& after.failure == p.failure
            &&& after.open == p.open
            &&& after.scope == p.scope
        }),
{
    let after = pass::stepped(p, EventView::Text(Some(content)));
    let left = p.agenda.len() - 1;
    let lines = text::lines_of(content);
    let start = entity.start_line as int;
    let tasks = pass::probes_of_entity(p.scope, entity, lines, start);
    lemma_entity_is_asked(p.scope, entity, lines, start);
    assert(after.agenda =~= p.agenda.drop_last() + tasks.reverse());
    assert(after.agenda.take(left) =~= p.agenda.drop_last());
    assert(after.agenda.skip(left) =~= tasks.reverse());
    assert(after.agenda.skip(left).reverse() =~= tasks);
    if start > lines.len() {
        assert(tasks.len() == 0);
    }
}

// ── A whole file ────────────────────────────────────────────────────────

/// A line of a document belongs to the entity at it.
pub open spec fn owned_in(index: Seq<FileView>, uri: Seq<char>) -> spec_fn(int) -> Option<EntityId> {
    |line: int|
        match entity_index::entity_at(index, uri, line as u32) {
            Some(entity) => Some(entity.id),
            None => None,
        }
}

proof fn lemma_file_is_asked(scope: ScopeView, lines: Seq<Seq<char>>, n: int)
    requires
        0 <= n <= lines.len() <= u32::MAX,
        are_countable(lines),
    ensures
        ask_exactly(
            pass::probes_of_file(scope, lines, n),
            scope.definition,
            owned_in(scope.index, scope.uri),
            lines,
            0,
            n,
        ),
    decreases n,
{
    if n > 0 {
        let owner = owned_in(scope.index, scope.uri);
        let line = n - 1;
        let before = pass::probes_of_file(scope, lines, line);
        lemma_file_is_asked(scope, lines, line);
        if owner(line) is Some {
            lemma_asked_on_line(scope, owner, lines, line);
            lemma_asked_in_a_row(
                before,
                pass::probes_on(scope, owner(line)->0, line as u32, lines[line]),
                scope.definition,
                owner,
                lines,
                0,
                line,
                n,
            );
        } else {
            assert(pass::probes_of_file(scope, lines, n) =~= before);
        }
    }
}

/// All the identifiers of a text, line by line.
pub open spec fn all_identifiers(lines: Seq<Seq<char>>) -> Seq<u32> {
    lines.map_values(|line: Seq<char>| scan::identifier_positions(line)).flatten()
}

proof fn lemma_all_identifiers(lines: Seq<Seq<char>>, n: int)
    requires
        0 <= n <= lines.len(),
    ensures
        file_enrichment::positions_in_lines(lines, n) == all_identifiers(lines.take(n)).len(),
    decreases n,
{
    let each = |line: Seq<char>| scan::identifier_positions(line);
    if n > 0 {
        lemma_all_identifiers(lines, n - 1);
        let before = lines.take(n - 1).map_values(each);
        let last = scan::identifier_positions(lines[n - 1]);
        assert(lines.take(n).map_values(each) =~= before.push(last));
        before.lemma_flatten_push(last);
    } else {
        assert(lines.take(n).map_values(each) =~= Seq::empty());
    }
}

/// A pass over a file asks about every identifier of the file that stands in a known
/// entity, on behalf of that entity, in the order of the text, and about no other;
/// then about the calls of each entity of the file, in order. Each of the two is left
/// out where the server does not answer about it. The positions it counts are all the
/// identifiers of the file.
#[verifier::rlimit(50)]
pub proof fn every_identifier_of_a_file_is_asked_about(
    p: PassView,
    capabilities: CapabilitiesView,
    file_path: Seq<char>,
    content: Seq<char>,
    index: Seq<FileView>,
    root: Seq<char>,
)
    requires
        file_enrichment::is_file_pass(p, capabilities, file_path, content, index, root),
        text::lines_of(content).len() <= u32::MAX,
        are_countable(text::lines_of(content)),
    ensures
        ({
            let lines = text::lines_of(content);
            let entities = entity_index::entries_for(index, protocol::path_from(root, file_path));
            let definition = lifecycle::serves(capabilities, LspCapability::Definition);
            let calls = lifecycle::serves(capabilities, LspCapability::CallHierarchy);
            let asked = p.agenda.reverse();
            let n = if calls { asked.len() - entities.len() } else { asked.len() as int };
            &&& 0 <= n
            &&& definition ==> ask_exactly(
                asked.take(n),
                true,
                owned_in(index, protocol::uri_of(file_path)),
                lines,
                0,
                lines.len() as int,
            )
            &&& !definition ==> n == 0
            &&& calls ==> forall|i: int|
                0 <= i < entities.len() ==> #[trigger] asked[n + i] == (TaskView::Calls {
                    caller: entities[i],
                })
            &&& p.queried == if definition {
                all_identifiers(lines).len()
            } else {
                0
            }
            &&& p.scope.purpose == Purpose::Definitions
            &&& p.scope.index == index
            &&& p.scope.path == protocol::path_from(root, file_path)
            &&& p.scope.uri == protocol::uri_of(file_path)
            &&& p.found.relations.len() == 0
            &&& p.found.resolved == 0
            &&& p.open.len() == 0
            &&& p.failure is None
        }),
{
    let scope = file_enrichment::file_scope(capabilities, file_path, index, root);
    let tasks = file_enrichment::file_tasks(scope, capabilities, content);
    let lines = text::lines_of(content);
    let entities = entity_index::entries_for(index, protocol::path_from(root, file_path));
    let asked = p.agenda.reverse();
    assert(asked =~= tasks);
    let probes = if scope.definition {
        pass::probes_of_file(scope, lines, lines.len() as int)
    } else {
        Seq::empty()
    };
    let calls = if lifecycle::serves(capabilities, LspCapability::CallHierarchy) {
        file_enrichment::calls_of(entities)
    } else {
        Seq::empty()
    };
    assert(tasks == probes + calls);
    let n = probes.len() as int;
    assert(asked.take(n) =~= probes);
    lemma_file_is_asked(scope, lines, lines.len() as int);
    lemma_all_identifiers(lines, lines.len() as int);
    assert(lines.take(lines.len() as int) =~= lines);
    assert forall|i: int| 0 <= i < calls.len() implies #[trigger] asked[n + i]
        == (TaskView::Calls { caller: entities[i] }) by {
        assert(asked[n + i] == calls[i]);
    }
}

} // verus!
