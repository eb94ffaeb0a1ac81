//! Spatial index: given a file and a line, find the matching graph entity.

use vstd::prelude::*;

use crate::protocol;
use crate::protocol::uri_to_path;
use crate::sorting;
use crate::sorting::{stable_sort, Ranked};
use crate::text::{ends_with, joined, same};
use crate::types::EntityId;

verus! {

/// Lightweight entity reference for matching LSP locations to graph entities.
#[derive(Debug, PartialEq, Eq)]
pub struct EntityRef {
    pub id: EntityId,
    pub name: String,
    pub file_path: String,
    pub start_line: u32,
    pub start_col: u32,
    pub end_line: u32,
    /// Position of the entity NAME (not declaration start).
    /// LSP prepareCallHierarchy needs cursor on the name, not the fn keyword.
    pub name_line: u32,
    pub name_col: u32,
}

/// What an [`EntityRef`] says.
pub struct EntityView {
    pub id: EntityId,
    pub name: Seq<char>,
    pub file_path: Seq<char>,
    pub start_line: u32,
    pub start_col: u32,
    pub end_line: u32,
    pub name_line: u32,
    pub name_col: u32,
}

impl DeepView for EntityRef {
    type V = EntityView;

    open spec fn deep_view(&self) -> EntityView {
        EntityView {
            id: self.id,
            name: self.name@,
            file_path: self.file_path@,
            start_line: self.start_line,
            start_col: self.start_col,
            end_line: self.end_line,
            name_line: self.name_line,
            name_col: self.name_col,
        }
    }
}

impl Clone for EntityRef {
    fn clone(&self) -> (r: Self)
        ensures
            r.deep_view() == self.deep_view(),
    {
        EntityRef {
            id: self.id,
            name: self.name.clone(),
            file_path: self.file_path.clone(),
            start_line: self.start_line,
            start_col: self.start_col,
            end_line: self.end_line,
            name_line: self.name_line,
            name_col: self.name_col,
        }
    }
}

impl Ranked for EntityRef {
    open spec fn rank(v: EntityView) -> int {
        v.start_line as int
    }

    fn rank_of(&self) -> (r: u64) {
        self.start_line as u64
    }
}

/// The entities of a file, sorted by start line.
#[derive(Debug)]
struct FileEntities {
    path: String,
    entities: Vec<EntityRef>,
}

/// What an index holds of one file.
pub struct FileView {
    pub path: Seq<char>,
    pub entities: Seq<EntityView>,
}

impl DeepView for FileEntities {
    type V = FileView;

    closed spec fn deep_view(&self) -> FileView {
        FileView { path: self.path@, entities: self.entities.deep_view() }
    }
}

/// Spatial index: given a file URI and line number, find the matching entity.
#[derive(Debug)]
pub struct EntityIndex {
    /// The files in the order they first came up.
    files: Vec<FileEntities>,
}

impl View for EntityIndex {
    type V = Seq<FileView>;

    closed spec fn view(&self) -> Seq<FileView> {
        self.files.deep_view()
    }
}

/// Whether an entity lives in a file.
pub open spec fn lives_in(path: Seq<char>) -> spec_fn(EntityView) -> bool {
    |e: EntityView| e.file_path == path
}

/// The file paths of the first `n` entities, each once, as they first come up.
pub open spec fn file_paths(entities: Seq<EntityView>, n: int) -> Seq<Seq<char>>
    decreases n,
{
    if n <= 0 {
        Seq::empty()
    } else {
        let before = file_paths(entities, n - 1);
        let path = entities[n - 1].file_path;
        if before.contains(path) {
            before
        } else {
            before.push(path)
        }
    }
}

/// Whether an index holds some entities: file by file as the files first come
/// up, each file's entities sorted by start line.
pub open spec fn is_index_of(index: Seq<FileView>, entities: Seq<EntityView>) -> bool {
    let paths = file_paths(entities, entities.len() as int);
    &&& index.len() == paths.len()
    &&& forall|i: int|
        0 <= i < index.len() ==> {
            &&& (#[trigger] index[i]).path == paths[i]
            &&& sorting::is_stable_sort::<EntityRef>(
                entities.filter(lives_in(paths[i])),
                index[i].entities,
            )
        }
}

/// The first file of an index with a path, or the number of files.
pub open spec fn file_at(index: Seq<FileView>, path: Seq<char>, from: int) -> int
    decreases index.len() - from,
{
    if from < 0 || from >= index.len() {
        index.len() as int
    } else if index[from].path == path {
        from
    } else {
        file_at(index, path, from + 1)
    }
}

/// Whether one path is a tail of the other.
pub open spec fn paths_meet(a: Seq<char>, b: Seq<char>) -> bool {
    a.is_suffix_of(b) || b.is_suffix_of(a)
}

/// The first file of an index whose path meets a path, or the number of files.
pub open spec fn meeting_file_at(index: Seq<FileView>, path: Seq<char>, from: int) -> int
    decreases index.len() - from,
{
    if from < 0 || from >= index.len() {
        index.len() as int
    } else if paths_meet(index[from].path, path) {
        from
    } else {
        meeting_file_at(index, path, from + 1)
    }
}

/// The entities that an index holds for a path: those of the file with that very
/// path, or else of the first file whose path meets it.
pub open spec fn entries_for(index: Seq<FileView>, path: Seq<char>) -> Seq<EntityView> {
    let exact = file_at(index, path, 0);
    let meeting = meeting_file_at(index, path, 0);
    if exact < index.len() {
        index[exact].entities
    } else if meeting < index.len() {
        index[meeting].entities
    } else {
        Seq::empty()
    }
}

/// Whether an entity's span holds a line.
pub open spec fn spans(e: EntityView, line: u32) -> bool {
    e.start_line <= line <= e.end_line
}

/// Whether a span is nested deeper than another: it is smaller, or as large and
/// starts later.
pub open spec fn is_inside(a: EntityView, b: EntityView) -> bool {
    let a_size = a.end_line - a.start_line;
    let b_size = b.end_line - b.start_line;
    a_size < b_size || (a_size == b_size && a.start_line > b.start_line)
}

/// The innermost of the first `n` entities whose span holds a line, the first of
/// those that are equally deep.
pub open spec fn innermost(entities: Seq<EntityView>, line: u32, n: int) -> Option<EntityView>
    decreases n,
{
    if n <= 0 {
        None
    } else {
        let e = entities[n - 1];
        match innermost(entities, line, n - 1) {
            None => if spans(e, line) {
                Some(e)
            } else {
                None
            },
            Some(best) => if spans(e, line) && is_inside(e, best) {
                Some(e)
            } else {
                Some(best)
            },
        }
    }
}

/// The entity at a line of the document with a URI.
pub open spec fn entity_at(index: Seq<FileView>, uri: Seq<char>, line: u32) -> Option<EntityView> {
    match protocol::path_of(uri) {
        None => None,
        Some(path) => {
            let entities = entries_for(index, path);
            innermost(entities, line, entities.len() as int)
        },
    }
}

/// Whether an entity goes by a name: its own, or the last part of its own.
pub open spec fn goes_by(e: EntityView, name: Seq<char>) -> bool {
    e.name == name || ("."@ + name).is_suffix_of(e.name)
}

/// The first of some entities from `from` on that goes by a name.
pub open spec fn first_named(
    entities: Seq<EntityView>,
    name: Seq<char>,
    from: int,
) -> Option<EntityView>
    decreases entities.len() - from,
{
    if from < 0 || from >= entities.len() {
        None
    } else if goes_by(entities[from], name) {
        Some(entities[from])
    } else {
        first_named(entities, name, from + 1)
    }
}

/// The first entity of the files from `from` on that goes by a name.
pub open spec fn named_entity(index: Seq<FileView>, name: Seq<char>, from: int) -> Option<
    EntityView,
>
    decreases index.len() - from,
{
    if from < 0 || from >= index.len() {
        None
    } else {
        match first_named(index[from].entities, name, 0) {
            Some(e) => Some(e),
            None => named_entity(index, name, from + 1),
        }
    }
}

impl EntityIndex {
    /// Build an index from entity refs.
    pub fn new(entities: Vec<EntityRef>) -> (r: Self)
        ensures
            is_index_of(r@, entities.deep_view()),
    {
        let ghost views = entities.deep_view();
        let mut files: Vec<FileEntities> = Vec::new();
        let mut n: usize = 0;
        while n < entities.len()
            invariant
                n <= entities@.len(),
                views == entities.deep_view(),
                files@.len() == file_paths(views, n as int).len(),
                forall|i: int|
                    0 <= i < files@.len() ==> {
                        &&& (#[trigger] files@[i]).path@ == file_paths(views, n as int)[i]
                        &&& files@[i].entities.deep_view() == views.take(n as int).filter(
                            lives_in(files@[i].path@),
                        )
                    },
            decreases entities@.len() - n,
        {
            let entity = entities[n].clone();
            let ghost e = entity.deep_view();
            assert(e == views[n as int]);
            proof {
                lemma_filter_next(views, n as int);
            }
            let ghost before = files@;
            let ghost paths = file_paths(views, n as int);
            let k: usize = files.len();
            let mut i: usize = 0;
            while i < k && !same(files[i].path.as_str(), entity.file_path.as_str())
                invariant
                    i <= k == files@.len(),
                    files@ == before,
                    entity.deep_view() == e,
                    forall|j: int| 0 <= j < i ==> (#[trigger] files@[j]).path@ != e.file_path,
                decreases k - i,
            {
                i += 1;
            }
            if i < k {
                assert(paths[i as int] == e.file_path);
                assert(paths.contains(e.file_path));
                let ghost old_entities = files@[i as int].entities.deep_view();
                files[i].entities.push(entity);
                assert(files@[i as int].entities.deep_view() =~= old_entities.push(e));
            } else {
                assert(!paths.contains(e.file_path)) by {
                    if paths.contains(e.file_path) {
                        let j = choose|j: int| 0 <= j < paths.len() && paths[j] == e.file_path;
                        assert(files@[j].path@ == e.file_path);
                    }
                }
                let path = entity.file_path.clone();
                let one = vec![entity];
                assert(one.deep_view() =~= seq![e]);
                proof {
                    lemma_new_file_is_empty(views, n as int);
                }
                files.push(FileEntities { path, entities: one });
                assert(files@[k as int].entities.deep_view() =~= views.take(n + 1).filter(
                    lives_in(e.file_path),
                ));
            }
            proof {
                let after = file_paths(views, n + 1);
                assert forall|j: int| 0 <= j < files@.len() implies {
                    &&& (#[trigger] files@[j]).path@ == after[j]
                    &&& files@[j].entities.deep_view() == views.take(n + 1).filter(
                        lives_in(files@[j].path@),
                    )
                } by {
                    if j < before.len() {
                        assert(before[j].path@ == paths[j]);
                        if j != i {
                            assert(paths[j] != e.file_path) by {
                                if paths[j] == e.file_path {
                                    lemma_file_paths_distinct(views, n as int);
                                }
                            }
                        }
                    }
                }
            }
            n += 1;
        }
        assert(views.take(n as int) =~= views);
        let m: usize = files.len();
        let mut i: usize = 0;
        while i < m
            invariant
                i <= m == files@.len(),
                n == views.len(),
                m == file_paths(views, n as int).len(),
                forall|j: int|
                    0 <= j < m ==> (#[trigger] files@[j]).path@ == file_paths(views, n as int)[j],
                forall|j: int|
                    0 <= j < i ==> sorting::is_stable_sort::<EntityRef>(
                        views.filter(lives_in(file_paths(views, n as int)[j])),
                        (#[trigger] files@[j]).entities.deep_view(),
                    ),
                forall|j: int|
                    i <= j < m ==> (#[trigger] files@[j]).entities.deep_view() == views.filter(
                        lives_in(file_paths(views, n as int)[j]),
                    ),
            decreases m - i,
        {
            stable_sort(&mut files[i].entities);
            i += 1;
        }
        let r = EntityIndex { files };
        assert forall|j: int| 0 <= j < r@.len() implies {
            &&& (#[trigger] r@[j]).path == file_paths(views, n as int)[j]
            &&& sorting::is_stable_sort::<EntityRef>(
                views.filter(lives_in(file_paths(views, n as int)[j])),
                r@[j].entities,
            )
        } by {
            assert(r@[j] == files@[j].deep_view());
        }
        r
    }
}

/// One more entity joins those of its file and no other.
proof fn lemma_filter_next(views: Seq<EntityView>, n: int)
    requires
        0 <= n < views.len(),
    ensures
        forall|path: Seq<char>|
            #[trigger] views.take(n + 1).filter(lives_in(path)) == if views[n].file_path == path {
                views.take(n).filter(lives_in(path)).push(views[n])
            } else {
                views.take(n).filter(lives_in(path))
            },
{
    reveal(Seq::filter);
    assert(views.take(n + 1).drop_last() =~= views.take(n));
    assert(views.take(n + 1).last() == views[n]);
}

proof fn lemma_file_paths_hold(views: Seq<EntityView>, n: int, i: int)
    requires
        0 <= i < n <= views.len(),
    ensures
        file_paths(views, n).contains(views[i].file_path),
    decreases n,
{
    let before = file_paths(views, n - 1);
    let path = views[n - 1].file_path;
    if i < n - 1 {
        lemma_file_paths_hold(views, n - 1, i);
        if !before.contains(path) {
            let k = choose|k: int| 0 <= k < before.len() && before[k] == views[i].file_path;
            assert(before.push(path)[k] == views[i].file_path);
        }
    } else if !before.contains(path) {
        assert(before.push(path)[before.len() as int] == path);
    }
}

proof fn lemma_file_paths_distinct(views: Seq<EntityView>, n: int)
    requires
        0 <= n <= views.len(),
    ensures
        file_paths(views, n).no_duplicates(),
    decreases n,
{
    if n > 0 {
        lemma_file_paths_distinct(views, n - 1);
    }
}

/// A file that has not come up has no entities yet.
proof fn lemma_new_file_is_empty(views: Seq<EntityView>, n: int)
    requires
        0 <= n < views.len(),
        !file_paths(views, n).contains(views[n].file_path),
    ensures
        views.take(n).filter(lives_in(views[n].file_path)) == Seq::<EntityView>::empty(),
{
    let p = lives_in(views[n].file_path);
    let kept = views.take(n).filter(p);
    if kept.len() > 0 {
        views.take(n).lemma_filter_pred(p, 0);
        views.take(n).lemma_filter_contains_rev(p, kept[0]);
        let i = choose|i: int| 0 <= i < views.take(n).len() && views.take(n)[i] == kept[0];
        lemma_file_paths_hold(views, n, i);
    }
    assert(kept =~= Seq::<EntityView>::empty());
}

impl EntityIndex {
    /// The entities known for a path.
    fn entries_for_path(&self, path: &str) -> (r: Option<&Vec<EntityRef>>)
        ensures
            match r {
                Some(entities) => entities.deep_view() == entries_for(self@, path@),
                None => entries_for(self@, path@).len() == 0,
            },
    {
        let ghost files = self@;
        let n: usize = self.files.len();
        let mut i: usize = 0;
        while i < n
            invariant
                i <= n == self.files@.len(),
                files == self@,
                file_at(files, path@, 0) == file_at(files, path@, i as int),
            decreases n - i,
        {
            assert(files[i as int] == self.files@[i as int].deep_view());
            if same(self.files[i].path.as_str(), path) {
                return Some(&self.files[i].entities);
            }
            i += 1;
        }
        let mut j: usize = 0;
        while j < n
            invariant
                j <= n == self.files@.len(),
                files == self@,
                file_at(files, path@, 0) == n,
                meeting_file_at(files, path@, 0) == meeting_file_at(files, path@, j as int),
            decreases n - j,
        {
            assert(files[j as int] == self.files@[j as int].deep_view());
            let known = self.files[j].path.as_str();
            if ends_with(path, known) || ends_with(known, path) {
                return Some(&self.files[j].entities);
            }
            j += 1;
        }
        None
    }

    /// Find the entity at the given file URI and position.
    ///
    /// Returns the INNERMOST entity whose span contains the line: the method
    /// rather than the class that holds it, and the class rather than the module
    /// that holds them both. A module entity carries a whole-file span, so the
    /// first containing span would be the module for every position in the file.
    ///
    /// Line bases: LSP positions are 0-based, and graph spans are 0-based too,
    /// so no conversion happens here.
    pub fn find_at(&self, uri: &str, line: u32) -> (r: Option<&EntityRef>)
        ensures
            r.deep_view() == entity_at(self@, uri@, line),
    {
        let path = match uri_to_path(uri) {
            None => {
                return None;
            },
            Some(path) => path,
        };
        let entities = match self.entries_for_path(path.as_str()) {
            None => {
                return None;
            },
            Some(entities) => entities,
        };
        let ghost views = entities.deep_view();
        let mut best: Option<&EntityRef> = None;
        let mut i: usize = 0;
        while i < entities.len()
            invariant
                i <= entities@.len(),
                views == entities.deep_view(),
                best.deep_view() == innermost(views, line, i as int),
                best is Some ==> spans(best->0.deep_view(), line),
            decreases entities@.len() - i,
        {
            let e = &entities[i];
            assert(views[i as int] == e.deep_view());
            if e.start_line <= line && line <= e.end_line {
                match best {
                    None => {
                        best = Some(e);
                    },
                    Some(b) => {
                        let size: u32 = e.end_line - e.start_line;
                        let best_size: u32 = b.end_line - b.start_line;
                        if size < best_size || (size == best_size && e.start_line > b.start_line) {
                            best = Some(e);
                        }
                    },
                }
            }
            i += 1;
        }
        best
    }

    /// Return every entity known to live in a file path.
    pub fn entities_in_file(&self, file_path: &str) -> (r: Vec<&EntityRef>)
        ensures
            r.deep_view() == entries_for(self@, file_path@),
    {
        let mut found: Vec<&EntityRef> = Vec::new();
        match self.entries_for_path(file_path) {
            None => {
                assert(found.deep_view() =~= entries_for(self@, file_path@));
                found
            },
            Some(entities) => {
                let mut i: usize = 0;
                while i < entities.len()
                    invariant
                        i <= entities@.len(),
                        found@.len() == i,
                        forall|k: int|
                            0 <= k < i ==> (#[trigger] found@[k]).deep_view()
                                == entities@[k].deep_view(),
                    decreases entities@.len() - i,
                {
                    found.push(&entities[i]);
                    i += 1;
                }
                assert(found.deep_view() =~= entities.deep_view());
                found
            },
        }
    }

    /// Find entity by name match (fallback when position doesn't match).
    pub fn find_by_name(&self, name: &str) -> (r: Option<&EntityRef>)
        ensures
            r.deep_view() == named_entity(self@, name@, 0),
    {
        let suffix = joined(".", name);
        let ghost files = self@;
        let mut i: usize = 0;
        while i < self.files.len()
            invariant
                i <= self.files@.len(),
                files == self@,
                suffix@ == "."@ + name@,
                named_entity(files, name@, 0) == named_entity(files, name@, i as int),
            decreases self.files@.len() - i,
        {
            let entities = &self.files[i].entities;
            let ghost views = entities.deep_view();
            assert(files[i as int] == self.files@[i as int].deep_view());
            let mut j: usize = 0;
            while j < entities.len()
                invariant
                    j <= entities@.len(),
                    i < files.len(),
                    files == self@,
                    suffix@ == "."@ + name@,
                    named_entity(files, name@, 0) == named_entity(files, name@, i as int),
                    views == entities.deep_view(),
                    files[i as int].entities == views,
                    first_named(views, name@, 0) == first_named(views, name@, j as int),
                decreases entities@.len() - j,
            {
                assert(views[j as int] == entities@[j as int].deep_view());
                let own = entities[j].name.as_str();
                if same(own, name) || ends_with(own, suffix.as_str()) {
                    return Some(&entities[j]);
                }
                j += 1;
            }
            i += 1;
        }
        None
    }
}

// ── What a lookup promises ──────────────────────────────────────────────

/// The entity found for a line is an innermost one: its span holds the line, and
/// no known span that holds the line is nested deeper. Nothing is found exactly
/// where no span holds the line.
pub proof fn innermost_is_deepest(entities: Seq<EntityView>, line: u32, n: int)
    requires
        0 <= n <= entities.len(),
    ensures
        match innermost(entities, line, n) {
            Some(e) => {
                &&& spans(e, line)
                &&& exists|i: int| 0 <= i < n && #[trigger] entities[i] == e
                &&& forall|i: int|
                    0 <= i < n && spans(#[trigger] entities[i], line) ==> !is_inside(
                        entities[i],
                        e,
                    )
            },
            None => forall|i: int| 0 <= i < n ==> !spans(#[trigger] entities[i], line),
        },
    decreases n,
{
    if n > 0 {
        innermost_is_deepest(entities, line, n - 1);
        let e = entities[n - 1];
        match innermost(entities, line, n - 1) {
            None => {
                if spans(e, line) {
                    assert(entities[n - 1] == e);
                }
            },
            Some(best) => {
                let i = choose|i: int| 0 <= i < n - 1 && #[trigger] entities[i] == best;
                assert(entities[i] == best);
                assert(entities[n - 1] == e);
            },
        }
    }
}

/// A line is looked up to nothing exactly where it is outside every known span,
/// so nothing is lost by asking no server about such a line.
pub proof fn no_entity_outside_spans(index: Seq<FileView>, uri: Seq<char>, line: u32)
    requires
        protocol::path_of(uri) is Some,
    ensures
        entity_at(index, uri, line) is None <==> forall|i: int|
            0 <= i < entries_for(index, protocol::path_of(uri)->0).len() ==> !spans(
                #[trigger] entries_for(index, protocol::path_of(uri)->0)[i],
                line,
            ),
{
    let entities = entries_for(index, protocol::path_of(uri)->0);
    innermost_is_deepest(entities, line, entities.len() as int);
    if let Some(e) = entity_at(index, uri, line) {
        let i = choose|i: int| 0 <= i < entities.len() && #[trigger] entities[i] == e;
        assert(spans(entities[i], line));
    }
}

proof fn lemma_file_at(index: Seq<FileView>, path: Seq<char>, from: int)
    requires
        0 <= from <= index.len(),
    ensures
        from <= file_at(index, path, from) <= index.len(),
        file_at(index, path, from) < index.len() ==> index[file_at(index, path, from)].path
            == path,
        forall|k: int| from <= k < file_at(index, path, from) ==> (#[trigger] index[k]).path
            != path,
    decreases index.len() - from,
{
    if from < index.len() && index[from].path != path {
        lemma_file_at(index, path, from + 1);
    }
}

/// Every entity that went into an index is listed under its file, and only
/// entities of that file are.
pub proof fn index_lists_by_file(
    index: Seq<FileView>,
    entities: Seq<EntityView>,
    e: EntityView,
)
    requires
        is_index_of(index, entities),
        entities.contains(e),
    ensures
        entries_for(index, e.file_path).contains(e),
        forall|other: EntityView| #[trigger]
            entries_for(index, e.file_path).contains(other) ==> other.file_path == e.file_path
                && entities.contains(other),
{
    let n = entities.len() as int;
    let path = e.file_path;
    let paths = file_paths(entities, n);
    let i = choose|i: int| 0 <= i < n && entities[i] == e;
    lemma_file_paths_hold(entities, n, i);
    let j = choose|j: int| 0 <= j < paths.len() && paths[j] == path;
    assert(index[j].path == path);
    lemma_file_at(index, path, 0);
    let at = file_at(index, path, 0);
    assert(index[at].path == paths[at]);
    let own = entities.filter(lives_in(path));
    entities.lemma_filter_contains(lives_in(path), i);
    sorting::stable_sort_keeps_values::<EntityRef>(own, index[at].entities, e);
    assert forall|other: EntityView| #[trigger]
        entries_for(index, path).contains(other) implies other.file_path == path
        && entities.contains(other) by {
        sorting::stable_sort_keeps_values::<EntityRef>(own, index[at].entities, other);
        let k = choose|k: int| 0 <= k < own.len() && own[k] == other;
        entities.lemma_filter_pred(lives_in(path), k);
        entities.lemma_filter_contains_rev(lives_in(path), other);
    }
}

proof fn lemma_innermost_place(entities: Seq<EntityView>, line: u32, n: int) -> (at: int)
    requires
        0 <= n <= entities.len(),
        innermost(entities, line, n) is Some,
    ensures
        0 <= at < n,
        entities[at] == innermost(entities, line, n)->0,
        spans(entities[at], line),
        forall|j: int|
            0 <= j < at && spans(#[trigger] entities[j], line) ==> is_inside(
                entities[at],
                entities[j],
            ),
        forall|j: int|
            at < j < n && spans(#[trigger] entities[j], line) ==> !is_inside(
                entities[j],
                entities[at],
            ),
    decreases n,
{
    innermost_is_deepest(entities, line, n - 1);
    let e = entities[n - 1];
    if innermost(entities, line, n - 1) is Some {
        let before = lemma_innermost_place(entities, line, n - 1);
        if spans(e, line) && is_inside(e, entities[before]) {
            n - 1
        } else {
            before
        }
    } else {
        n - 1
    }
}

/// How many lines a span has beyond its first.
pub open spec fn depth_of(e: EntityView) -> int {
    e.end_line - e.start_line
}

/// The entity at a line of a document is the one of its file with the smallest span
/// that holds the line; of several that are as small, the one that starts last, and
/// of those, the one that is listed first. There is none exactly where no span of the
/// file holds the line, or the document is no file.
#[verifier::rlimit(50)]
pub proof fn line_is_looked_up_to_its_innermost_entity(
    index: Seq<FileView>,
    uri: Seq<char>,
    line: u32,
)
    ensures
        match protocol::path_of(uri) {
            None => entity_at(index, uri, line) is None,
            Some(path) => {
                let entities = entries_for(index, path);
                match entity_at(index, uri, line) {
                    Some(e) => exists|i: int|
                        {
                            &&& 0 <= i < entities.len()
                            &&& #[trigger] entities[i] == e
                            &&& e.start_line <= line <= e.end_line
                            &&& forall|j: int|
                                0 <= j < entities.len() && (#[trigger] entities[j]).start_line
                                    <= line <= entities[j].end_line ==> {
                                    ||| depth_of(e) < depth_of(entities[j])
                                    ||| depth_of(e) == depth_of(entities[j]) && e.start_line
                                        > entities[j].start_line
                                    ||| depth_of(e) == depth_of(entities[j]) && e.start_line
                                        == entities[j].start_line && i <= j
                                }
                        },
                    None => forall|j: int|
                        0 <= j < entities.len() ==> !((#[trigger] entities[j]).start_line <= line
                            <= entities[j].end_line),
                }
            },
        },
{
    if let Some(path) = protocol::path_of(uri) {
        let entities = entries_for(index, path);
        let n = entities.len() as int;
        innermost_is_deepest(entities, line, n);
        if entity_at(index, uri, line) is Some {
            let at = lemma_innermost_place(entities, line, n);
            assert(entities[at] == entity_at(index, uri, line)->0);
            assert forall|j: int|
                0 <= j < entities.len() && (#[trigger] entities[j]).start_line <= line
                    <= entities[j].end_line implies {
                ||| depth_of(entities[at]) < depth_of(entities[j])
                ||| depth_of(entities[at]) == depth_of(entities[j]) && entities[at].start_line
                    > entities[j].start_line
                ||| depth_of(entities[at]) == depth_of(entities[j]) && entities[at].start_line
                    == entities[j].start_line && at <= j
            } by {
                assert(spans(entities[j], line));
            }
        } else {
            assert forall|j: int| 0 <= j < entities.len() implies !((
            #[trigger] entities[j]).start_line <= line <= entities[j].end_line) by {
                assert(!spans(entities[j], line));
            }
        }
    }
}

proof fn lemma_meeting_file_at(index: Seq<FileView>, path: Seq<char>, from: int)
    requires
        0 <= from <= index.len(),
    ensures
        from <= meeting_file_at(index, path, from) <= index.len(),
        meeting_file_at(index, path, from) < index.len() ==> paths_meet(
            index[meeting_file_at(index, path, from)].path,
            path,
        ),
        forall|k: int|
            from <= k < meeting_file_at(index, path, from) ==> !paths_meet(
                (#[trigger] index[k]).path,
                path,
            ),
    decreases index.len() - from,
{
    if from < index.len() && !paths_meet(index[from].path, path) {
        lemma_meeting_file_at(index, path, from + 1);
    }
}

/// A path is looked up to the file with that very path, where there is one; else to
/// the first file such that one of the two paths is a tail of the other; and to
/// nothing where there is none of either. `k` is the file that is looked for.
pub proof fn path_is_looked_up_to_its_file(index: Seq<FileView>, path: Seq<char>, k: int)
    ensures
        0 <= k < index.len() && index[k].path == path && (forall|i: int|
            0 <= i < k ==> (#[trigger] index[i]).path != path) ==> entries_for(index, path)
            == index[k].entities,
        0 <= k < index.len() && (index[k].path.is_suffix_of(path) || path.is_suffix_of(
            index[k].path,
        )) && (forall|i: int| 0 <= i < index.len() ==> (#[trigger] index[i]).path != path) && (
        forall|i: int|
            0 <= i < k ==> !(#[trigger] index[i]).path.is_suffix_of(path) && !path.is_suffix_of(
                index[i].path,
            )) ==> entries_for(index, path) == index[k].entities,
        (forall|i: int|
            0 <= i < index.len() ==> !(#[trigger] index[i]).path.is_suffix_of(path)
                && !path.is_suffix_of(index[i].path)) ==> entries_for(index, path).len() == 0,
{
    lemma_file_at(index, path, 0);
    lemma_meeting_file_at(index, path, 0);
    let exact = file_at(index, path, 0);
    let meeting = meeting_file_at(index, path, 0);
    if exact < index.len() {
        assert(index[exact].path == path);
        assert(index[exact].path.is_suffix_of(path)) by {
            assert(path =~= path.subrange(path.len() - path.len(), path.len() as int));
        }
    }
    if meeting < index.len() {
        assert(paths_meet(index[meeting].path, path));
    }
}

proof fn lemma_first_named(entities: Seq<EntityView>, name: Seq<char>, from: int)
    requires
        0 <= from <= entities.len(),
    ensures
        match first_named(entities, name, from) {
            Some(e) => exists|i: int|
                from <= i < entities.len() && #[trigger] entities[i] == e && goes_by(e, name) && (
                forall|j: int| from <= j < i ==> !goes_by(#[trigger] entities[j], name)),
            None => forall|j: int|
                from <= j < entities.len() ==> !goes_by(#[trigger] entities[j], name),
        },
    decreases entities.len() - from,
{
    if from < entities.len() {
        if goes_by(entities[from], name) {
            assert(entities[from] == first_named(entities, name, from)->0);
        } else {
            lemma_first_named(entities, name, from + 1);
            if let Some(e) = first_named(entities, name, from + 1) {
                let i = choose|i: int|
                    from + 1 <= i < entities.len() && #[trigger] entities[i] == e && goes_by(
                        e,
                        name,
                    ) && (forall|j: int|
                        from + 1 <= j < i ==> !goes_by(#[trigger] entities[j], name));
                assert(entities[i] == e);
            }
        }
    }
}

/// Whether an entity's name is a name, or ends with a dot and that name.
pub open spec fn has_name(e: EntityView, name: Seq<char>) -> bool {
    e.name == name || (e.name.len() > name.len() && e.name.skip(e.name.len() - name.len()) == name
        && e.name[e.name.len() - name.len() - 1] == '.')
}

proof fn lemma_has_name(e: EntityView, name: Seq<char>)
    ensures
        goes_by(e, name) == has_name(e, name),
{
    reveal_strlit(".");
    let part = "."@ + name;
    let at = e.name.len() - name.len();
    if part.is_suffix_of(e.name) {
        assert(part == e.name.subrange(e.name.len() - part.len(), e.name.len() as int));
        assert(e.name[at - 1] == part[0]);
        assert(e.name.skip(at) =~= name) by {
            assert forall|i: int| 0 <= i < name.len() implies e.name.skip(at)[i] == name[i] by {
                assert(e.name[at - 1 + 1 + i] == part[1 + i]);
            }
        }
    }
    if has_name(e, name) && e.name != name {
        assert(e.name.subrange(at - 1, e.name.len() as int) =~= part) by {
            assert forall|i: int| 1 <= i < part.len() implies e.name[at - 1 + i] == part[i] by {
                assert(e.name.skip(at)[i - 1] == name[i - 1]);
            }
        }
    }
}

proof fn lemma_named_entity(index: Seq<FileView>, name: Seq<char>, from: int)
    requires
        0 <= from <= index.len(),
    ensures
        match named_entity(index, name, from) {
            Some(e) => exists|f: int|
                {
                    &&& from <= f < index.len()
                    &&& first_named((#[trigger] index[f]).entities, name, 0) == Some(e)
                    &&& forall|g: int|
                        from <= g < f ==> first_named((#[trigger] index[g]).entities, name, 0)
                            is None
                },
            None => forall|g: int|
                from <= g < index.len() ==> first_named((#[trigger] index[g]).entities, name, 0)
                    is None,
        },
    decreases index.len() - from,
{
    if from < index.len() {
        if first_named(index[from].entities, name, 0) is None {
            lemma_named_entity(index, name, from + 1);
            if let Some(e) = named_entity(index, name, from + 1) {
                let f = choose|f: int|
                    {
                        &&& from + 1 <= f < index.len()
                        &&& first_named((#[trigger] index[f]).entities, name, 0) == Some(e)
                        &&& forall|g: int|
                            from + 1 <= g < f ==> first_named(
                                (#[trigger] index[g]).entities,
                                name,
                                0,
                            ) is None
                    };
                assert(first_named(index[f].entities, name, 0) == Some(e));
            }
        } else {
            assert(first_named(index[from].entities, name, 0) is Some);
        }
    }
}

/// A name is looked up to the first entity that has it, file by file: one that is
/// named so, or whose name ends with a dot and the name. There is none exactly where
/// no entity has it.
#[verifier::rlimit(50)]
pub proof fn name_is_looked_up_to_its_first_entity(index: Seq<FileView>, name: Seq<char>)
    ensures
        match named_entity(index, name, 0) {
            Some(e) => exists|f: int, i: int|
                {
                    &&& 0 <= f < index.len()
                    &&& 0 <= i < index[f].entities.len()
                    &&& #[trigger] index[f].entities[i] == e
                    &&& has_name(e, name)
                    &&& forall|g: int, j: int|
                        0 <= g <= f && 0 <= j < index[g].entities.len() && (g < f || j < i)
                            ==> !has_name(#[trigger] index[g].entities[j], name)
                },
            None => forall|g: int, j: int|
                0 <= g < index.len() && 0 <= j < index[g].entities.len() ==> !has_name(
                    #[trigger] index[g].entities[j],
                    name,
                ),
        },
{
    assert forall|e: EntityView| #[trigger] has_name(e, name) == goes_by(e, name) by {
        lemma_has_name(e, name);
    }
    lemma_named_entity(index, name, 0);
    assert forall|g: int, j: int|
        0 <= g < index.len() && 0 <= j < index[g].entities.len() && first_named(
            index[g].entities,
            name,
            0,
        ) is None implies !has_name(#[trigger] index[g].entities[j], name) by {
        lemma_first_named(index[g].entities, name, 0);
        assert(!goes_by(index[g].entities[j], name));
    }
    if let Some(e) = named_entity(index, name, 0) {
        let f = choose|f: int|
            {
                &&& 0 <= f < index.len()
                &&& first_named((#[trigger] index[f]).entities, name, 0) == Some(e)
                &&& forall|g: int|
                    0 <= g < f ==> first_named((#[trigger] index[g]).entities, name, 0) is None
            };
        let entities = index[f].entities;
        lemma_first_named(entities, name, 0);
        let i = choose|i: int|
            0 <= i < entities.len() && #[trigger] entities[i] == e && goes_by(e, name) && (forall|
                j: int,
            |
                0 <= j < i ==> !goes_by(#[trigger] entities[j], name));
        assert(index[f].entities[i] == e);
        assert(has_name(e, name));
        assert forall|g: int, j: int|
            0 <= g <= f && 0 <= j < index[g].entities.len() && (g < f || j < i) implies !has_name(
            #[trigger] index[g].entities[j],
            name,
        ) by {
            if g < f {
                assert(first_named(index[g].entities, name, 0) is None);
            } else {
                assert(!goes_by(entities[j], name));
            }
        }
    } else {
        assert forall|g: int, j: int|
            0 <= g < index.len() && 0 <= j < index[g].entities.len() implies !has_name(
            #[trigger] index[g].entities[j],
            name,
        ) by {
            assert(first_named(index[g].entities, name, 0) is None);
        }
    }
}

/// The entities of each file of an index are listed by the line they start at, the ones
/// that start at the same line in the order in which they were given; the files in the
/// order in which they first came up, each once.
pub proof fn index_is_listed_by_line(
    index: Seq<FileView>,
    entities: Seq<EntityView>,
    f: int,
    i: int,
    j: int,
)
    requires
        is_index_of(index, entities),
        0 <= f < index.len(),
        0 <= i < j < index[f].entities.len(),
    ensures
        index[f].entities[i].start_line <= index[f].entities[j].start_line,
        index[f].entities[i].file_path == index[f].path,
        forall|g: int| 0 <= g < index.len() && g != f ==> (#[trigger] index[g]).path
            != index[f].path,
{
    let n = entities.len() as int;
    let paths = file_paths(entities, n);
    let path = paths[f];
    assert(index[f].path == path);
    let own = entities.filter(lives_in(path));
    let e = index[f].entities[i];
    assert(index[f].entities.contains(e));
    sorting::stable_sort_keeps_values::<EntityRef>(own, index[f].entities, e);
    let k = choose|k: int| 0 <= k < own.len() && own[k] == e;
    entities.lemma_filter_pred(lives_in(path), k);
    lemma_file_paths_distinct(entities, n);
    assert forall|g: int| 0 <= g < index.len() && g != f implies (#[trigger] index[g]).path
        != index[f].path by {
        assert(index[g].path == paths[g]);
    }
}

} // verus!
