//! File-level LSP enrichment: extracts maximum relationships from a single file.
//!
//! Strategy: query textDocument/definition at every identifier position in the file.
//! Each resolved definition creates a relationship from the containing entity
//! to the target entity. This captures ALL references: function calls, type usage,
//! field access, method calls, trait references, imports: everything the type
//! system can resolve.
//!
//! This file-level pass captures references by querying every identifier and
//! then supplements them with call-hierarchy relations for every entity in the
//! file. That keeps the sweep broad while still emitting `Calls` edges.

use vstd::prelude::*;

use crate::capability::LspCapability;
use crate::entity_index;
use crate::entity_index::{EntityIndex, EntityRef, EntityView, FileView};
use crate::error::LspError;
use crate::lifecycle;
use crate::lifecycle::LspServer;
use crate::pass;
use crate::pass::{
    add_probes, Outcome, Pass, PassView, Purpose, Scope, ScopeView, Task, TaskView,
};
use crate::protocol;
use crate::protocol::{path_to_uri, relative_path, CapabilitiesView};
use crate::scan;
pub use crate::scan::identifier_positions_in_line;
use crate::scan::positions_in;
use crate::text;
use crate::text::lines;
use crate::types::Relation;

verus! {

/// Result of enriching a single file.
#[derive(Debug)]
pub struct FileEnrichmentResult {
    pub relations: Vec<Relation>,
    pub definitions_resolved: usize,
    pub positions_queried: usize,
}

impl Default for FileEnrichmentResult {
    fn default() -> (r: Self)
        ensures
            r.relations@.len() == 0,
            r.definitions_resolved == 0,
            r.positions_queried == 0,
    {
        FileEnrichmentResult {
            relations: Vec::new(),
            definitions_resolved: 0,
            positions_queried: 0,
        }
    }
}

/// What a pass over a file is about.
pub open spec fn file_scope(
    capabilities: CapabilitiesView,
    file_path: Seq<char>,
    index: Seq<FileView>,
    root: Seq<char>,
) -> ScopeView {
    ScopeView {
        index,
        root,
        path: protocol::path_from(root, file_path),
        uri: protocol::uri_of(file_path),
        purpose: Purpose::Definitions,
        definition: lifecycle::serves(capabilities, LspCapability::Definition),
        type_definition: lifecycle::serves(capabilities, LspCapability::TypeDefinition),
    }
}

/// The identifiers of the first `n` lines of a file.
pub open spec fn positions_in_lines(lines: Seq<Seq<char>>, n: int) -> nat
    decreases n,
{
    if n <= 0 {
        0
    } else {
        positions_in_lines(lines, n - 1) + scan::identifier_positions(lines[n - 1]).len()
    }
}

/// The tasks that ask what some entities call.
pub open spec fn calls_of(entities: Seq<EntityView>) -> Seq<TaskView> {
    entities.map_values(|caller: EntityView| TaskView::Calls { caller })
}

/// The tasks of a pass over a file: its identifiers, then the calls of its
/// entities, each where the server answers about them.
pub open spec fn file_tasks(
    scope: ScopeView,
    capabilities: CapabilitiesView,
    content: Seq<char>,
) -> Seq<TaskView> {
    let lines = text::lines_of(content);
    (if scope.definition {
        pass::probes_of_file(scope, lines, lines.len() as int)
    } else {
        Seq::empty()
    }) + (if lifecycle::serves(capabilities, LspCapability::CallHierarchy) {
        calls_of(entity_index::entries_for(scope.index, scope.path))
    } else {
        Seq::empty()
    })
}

/// How many positions a pass over a file sets out to ask about: the identifiers
/// of the file, where the server answers about them.
pub open spec fn file_positions(scope: ScopeView, content: Seq<char>) -> nat {
    let lines = text::lines_of(content);
    if scope.definition {
        positions_in_lines(lines, lines.len() as int)
    } else {
        0
    }
}

/// A pass over a file that begins.
pub open spec fn is_file_pass(
    pass: PassView,
    capabilities: CapabilitiesView,
    file_path: Seq<char>,
    content: Seq<char>,
    index: Seq<FileView>,
    root: Seq<char>,
) -> bool {
    let scope = file_scope(capabilities, file_path, index, root);
    &&& pass.queried == file_positions(scope, content)
    &&& pass == pass::begun(scope, file_tasks(scope, capabilities, content), pass.queried)
}

/// The characters of the first `n` lines.
spec fn lines_len(lines: Seq<Seq<char>>, n: int) -> nat
    decreases n,
{
    if n <= 0 {
        0
    } else {
        lines_len(lines, n - 1) + lines[n - 1].len()
    }
}

proof fn lemma_identifiers_fit(line: Seq<char>, n: int)
    requires
        0 <= n <= line.len(),
    ensures
        scan::identifiers_before(line, n).len() <= n,
    decreases n,
{
    if n > 0 {
        lemma_identifiers_fit(line, n - 1);
    }
}

proof fn lemma_positions_fit(lines: Seq<Seq<char>>, n: int)
    requires
        0 <= n <= lines.len(),
    ensures
        positions_in_lines(lines, n) <= lines_len(lines, n),
    decreases n,
{
    if n > 0 {
        lemma_positions_fit(lines, n - 1);
        lemma_identifiers_fit(lines[n - 1], lines[n - 1].len() as int);
    }
}

proof fn lemma_lines_len_add(a: Seq<Seq<char>>, b: Seq<Seq<char>>, n: int)
    requires
        0 <= n <= b.len(),
    ensures
        lines_len(a + b, a.len() + n) == lines_len(a, a.len() as int) + lines_len(b, n),
    decreases n,
{
    if n > 0 {
        lemma_lines_len_add(a, b, n - 1);
    } else {
        lemma_lines_len_prefix(a, b, a.len() as int);
    }
}

proof fn lemma_lines_len_prefix(a: Seq<Seq<char>>, b: Seq<Seq<char>>, n: int)
    requires
        0 <= n <= a.len(),
    ensures
        lines_len(a + b, n) == lines_len(a, n),
    decreases n,
{
    if n > 0 {
        lemma_lines_len_prefix(a, b, n - 1);
    }
}

proof fn lemma_lines_fit(s: Seq<char>, from: int)
    requires
        0 <= from <= s.len(),
    ensures
        lines_len(text::lines_from(s, from), text::lines_from(s, from).len() as int) <= s.len()
            - from,
    decreases s.len() - from,
{
    text::lemma_find_char(s, '\n', from);
    let end = text::find_char(s, '\n', from);
    if from < s.len() {
        if end >= s.len() {
            let one = seq![s.subrange(from, s.len() as int)];
            assert(text::lines_from(s, from) == one);
            assert(lines_len(one, 1) == lines_len(one, 0) + one[0].len());
        } else {
            lemma_lines_fit(s, end + 1);
            let one = seq![text::without_return(s.subrange(from, end))];
            let rest = text::lines_from(s, end + 1);
            lemma_lines_len_add(one, rest, rest.len() as int);
            assert(lines_len(one, 1) == lines_len(one, 0) + one[0].len());
        }
    }
}

/// Add the tasks for the identifiers of a file, and count them.
fn add_file_probes(scope: &Scope, tasks: &mut Vec<Task>, content: &str) -> (r: usize)
    ensures
        r == positions_in_lines(
            text::lines_of(content@),
            text::lines_of(content@).len() as int,
        ),
        final(tasks).deep_view() == old(tasks).deep_view() + pass::probes_of_file(
            scope.deep_view(),
            text::lines_of(content@),
            text::lines_of(content@).len() as int,
        ),
{
    let all = lines(content);
    let ghost views = text::lines_of(content@);
    let ghost before = tasks.deep_view();
    assert(all@.map_values(|line: Vec<char>| line@) == views);
    proof {
        lemma_lines_fit(content@, 0);
    }
    let n: usize = all.len();
    let mut queried: usize = 0;
    let mut i: usize = 0;
    assert(tasks.deep_view() =~= before + Seq::empty());
    while i < n
        invariant
            i <= n == all@.len() == views.len(),
            all@.map_values(|line: Vec<char>| line@) == views,
            lines_len(views, n as int) <= usize::MAX,
            queried == positions_in_lines(views, i as int),
            tasks.deep_view() == before + pass::probes_of_file(
                scope.deep_view(),
                views,
                i as int,
            ),
        decreases n - i,
    {
        let chars = &all[i];
        assert(all@.map_values(|line: Vec<char>| line@)[i as int] == chars@);
        let positions = positions_in(chars);
        proof {
            lemma_positions_fit(views, i + 1);
            lemma_lines_len_grows(views, i + 1, n as int);
        }
        queried += positions.len();
        let line: u32 = i as u32;
        let ghost current = tasks.deep_view();
        match scope.index.find_at(scope.uri.as_str(), line) {
            Some(source) => {
                let id = source.id;
                add_probes(scope, tasks, id, line, chars, &positions);
                assert(tasks.deep_view() =~= before + pass::probes_of_file(
                    scope.deep_view(),
                    views,
                    i + 1,
                ));
            },
            None => {
                assert(tasks.deep_view() =~= before + pass::probes_of_file(
                    scope.deep_view(),
                    views,
                    i + 1,
                ));
            },
        }
        i += 1;
    }
    queried
}

proof fn lemma_lines_len_grows(lines: Seq<Seq<char>>, n: int, m: int)
    requires
        0 <= n <= m,
    ensures
        lines_len(lines, n) <= lines_len(lines, m),
    decreases m - n,
{
    if n < m {
        lemma_lines_len_grows(lines, n, m - 1);
    }
}

/// Add the tasks that ask what some entities call.
fn add_calls_of(tasks: &mut Vec<Task>, entities: &Vec<&EntityRef>)
    ensures
        final(tasks).deep_view() == old(tasks).deep_view() + calls_of(entities.deep_view()),
{
    let ghost all = calls_of(entities.deep_view());
    let ghost before = tasks.deep_view();
    let mut i: usize = 0;
    assert(tasks.deep_view() =~= before + all.take(0));
    while i < entities.len()
        invariant
            i <= entities@.len(),
            all == calls_of(entities.deep_view()),
            tasks.deep_view() == before + all.take(i as int),
        decreases entities@.len() - i,
    {
        let ghost current = tasks.deep_view();
        let task = Task::Calls { caller: entities[i].clone() };
        assert(all[i as int] == task.deep_view()) by {
            assert(entities.deep_view()[i as int] == entities@[i as int].deep_view());
        }
        tasks.push(task);
        assert(tasks.deep_view() =~= current.push(all[i as int]));
        assert(all.take(i + 1) =~= all.take(i as int).push(all[i as int]));
        assert(tasks.deep_view() =~= before + all.take(i + 1));
        i += 1;
    }
    assert(all.take(i as int) =~= all);
}

/// Enrich a file by querying textDocument/definition at every identifier position.
///
/// This is the maximum-extraction approach: for each line in the file, find
/// identifier-like tokens and query where they resolve to. Each resolution
/// that lands on a known graph entity becomes a relation.
///
/// The relation source depends only on the line (never the column), and every
/// relation requires one. Lines outside any known entity span can therefore never
/// contribute a relation, so nothing is asked about their identifiers.
pub fn enrich_file_definitions<'a>(
    server: &LspServer,
    file_path: &str,
    file_content: &str,
    entity_index: &'a EntityIndex,
    workspace_root: &str,
) -> (r: Pass<'a>)
    ensures
        r.wf(),
        is_file_pass(
            r.deep_view(),
            server.capabilities.deep_view(),
            file_path@,
            file_content@,
            entity_index@,
            workspace_root@,
        ),
{
    let scope = Scope {
        index: entity_index,
        root: workspace_root.to_owned(),
        path: relative_path(workspace_root, file_path),
        uri: path_to_uri(file_path),
        purpose: Purpose::Definitions,
        definition: server.has_definition(),
        type_definition: server.has_type_definition(),
    };
    let ghost view = scope.deep_view();
    let mut tasks: Vec<Task> = Vec::new();
    let mut queried: usize = 0;
    assert(tasks.deep_view() =~= Seq::<TaskView>::empty());
    if scope.definition {
        queried = add_file_probes(&scope, &mut tasks, file_content);
    }
    let ghost probes = tasks.deep_view();
    if server.has_call_hierarchy() {
        let entities = entity_index.entities_in_file(scope.path.as_str());
        add_calls_of(&mut tasks, &entities);
    }
    assert(tasks.deep_view() =~= file_tasks(
        view,
        server.capabilities.deep_view(),
        file_content@,
    ));
    proof {
        let lines = text::lines_of(file_content@);
        lemma_file_probes_openable(view, lines, lines.len() as int);
        assert forall|i: int| 0 <= i < tasks@.len() implies pass::is_openable(
            view,
            #[trigger] tasks.deep_view()[i],
        ) by {
            let all = file_tasks(view, server.capabilities.deep_view(), file_content@);
            let probes = if view.definition {
                pass::probes_of_file(view, lines, lines.len() as int)
            } else {
                Seq::empty()
            };
            if i < probes.len() {
                assert(all[i] == probes[i]);
            } else {
                assert(all[i] == calls_of(
                    entity_index::entries_for(view.index, view.path),
                )[i - probes.len()]);
            }
        }
    }
    Pass::begin(scope, tasks, queried)
}

proof fn lemma_file_probes_openable(scope: ScopeView, lines: Seq<Seq<char>>, n: int)
    requires
        0 <= n <= lines.len(),
    ensures
        forall|i: int|
            0 <= i < pass::probes_of_file(scope, lines, n).len() ==> pass::is_openable(
                scope,
                #[trigger] pass::probes_of_file(scope, lines, n)[i],
            ),
    decreases n,
{
    if n > 0 {
        lemma_file_probes_openable(scope, lines, n - 1);
        let before = pass::probes_of_file(scope, lines, n - 1);
        let all = pass::probes_of_file(scope, lines, n);
        assert forall|i: int| 0 <= i < all.len() implies pass::is_openable(
            scope,
            #[trigger] all[i],
        ) by {
            if i < before.len() {
                assert(all[i] == before[i]);
            } else {
                let line = (n - 1) as u32;
                let source = entity_index::entity_at(scope.index, scope.uri, line)->0;
                assert(all[i] == pass::probes_on(scope, source.id, line, lines[n - 1])[i
                    - before.len()]);
            }
        }
    }
}

/// The result of a pass over a file, or why it failed.
pub fn file_result(outcome: Outcome) -> (r: Result<FileEnrichmentResult, LspError>)
    ensures
        match outcome.result {
            Ok(found) => r is Ok && r->Ok_0.relations.deep_view() == found.deep_view().relations
                && r->Ok_0.definitions_resolved == found.deep_view().resolved
                && r->Ok_0.positions_queried == outcome.queried,
            Err(error) => r is Err && r->Err_0.deep_view() == error.deep_view(),
        },
{
    match outcome.result {
        Ok(found) => {
            let (relations, definitions_resolved) = found.into_parts();
            Ok(
                FileEnrichmentResult {
                    relations,
                    definitions_resolved,
                    positions_queried: outcome.queried,
                },
            )
        },
        Err(error) => Err(error),
    }
}

} // verus!
