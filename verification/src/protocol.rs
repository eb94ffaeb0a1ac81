//! LSP protocol types: the subset Kin needs for graph enrichment.
//!
//! Only the types needed for initialize, textDocument/definition,
//! textDocument/references, call hierarchy and type hierarchy. Each type that is
//! sent has an encoding into [`Json`], each one that is received a decoding from
//! it.

use vstd::prelude::*;

use crate::json;
use crate::json::{no_fields, with, Json, JsonView};
use crate::text;
use crate::text::{joined, strip_prefix};

verus! {

// ── Positions ───────────────────────────────────────────────────────────

/// A place in a text: a line and a character in it, both from 0.
#[derive(Debug, Clone, Copy, PartialEq, Eq, Structural)]
pub struct Position {
    pub line: u32,
    pub character: u32,
}

/// The places from `start` up to `end`.
#[derive(Debug, Clone, Copy, PartialEq, Eq, Structural)]
pub struct Range {
    pub start: Position,
    pub end: Position,
}

/// A range in a document.
#[derive(Debug, PartialEq, Eq)]
pub struct Location {
    pub uri: String,
    pub range: Range,
}

/// What a [`Location`] says.
pub struct LocationView {
    pub uri: Seq<char>,
    pub range: Range,
}

impl DeepView for Location {
    type V = LocationView;

    open spec fn deep_view(&self) -> LocationView {
        LocationView { uri: self.uri@, range: self.range }
    }
}

impl Clone for Location {
    fn clone(&self) -> (r: Self)
        ensures
            r.deep_view() == self.deep_view(),
    {
        Location { uri: self.uri.clone(), range: self.range }
    }
}

// ── Reading JSON ────────────────────────────────────────────────────────

/// What a value gives for the fields of a record: an object by their names, an
/// array by their positions, `None` for a field it does not give. A value of
/// another kind, or an array with more elements than fields, is no record.
pub open spec fn slots(j: JsonView, names: Seq<Seq<char>>) -> Option<Seq<Option<JsonView>>> {
    match j {
        JsonView::Object(_) => Some(
            Seq::new(names.len(), |i: int| json::member(j, names[i])),
        ),
        JsonView::Array(a) => if a.len() > names.len() {
            None
        } else {
            Some(
                Seq::new(
                    names.len(),
                    |i: int|
                        if i < a.len() {
                            Some(a[i])
                        } else {
                            None
                        },
                ),
            )
        },
        _ => None,
    }
}

/// The field at a place of a record.
pub open spec fn slot(j: JsonView, names: Seq<Seq<char>>, i: int) -> Option<JsonView> {
    match slots(j, names) {
        Some(s) => s[i],
        None => None,
    }
}

/// Whether a value is a record with these fields.
pub(crate) fn is_record(j: &Json, n: usize) -> (r: bool)
    ensures
        forall|names: Seq<Seq<char>>|
            names.len() == n ==> (#[trigger] slots(j@, names) is Some <==> r),
{
    match j {
        Json::Object(_) => true,
        Json::Array(a) => a.len() <= n,
        _ => false,
    }
}

/// What a value gives for the field of a record with the name `name` at place
/// `at`.
pub(crate) fn field<'a>(j: &'a Json, n: usize, at: usize, name: &str) -> (r: Option<&'a Json>)
    requires
        at < n,
    ensures
        forall|names: Seq<Seq<char>>|
            names.len() == n && names[at as int] == name@ ==> r.deep_view() == #[trigger] slot(
                j@,
                names,
                at as int,
            ),
{
    match j {
        Json::Object(_) => j.get(name),
        Json::Array(a) => if a.len() <= n && at < a.len() {
            Some(&a[at])
        } else {
            None
        },
        _ => None,
    }
}

/// The small natural number that a value is, if it is one.
pub open spec fn u32_of(j: Option<JsonView>) -> Option<u32> {
    match j {
        Some(JsonView::Int(i)) => if 0 <= i <= u32::MAX {
            Some(i as u32)
        } else {
            None
        },
        _ => None,
    }
}

fn read_u32(j: Option<&Json>) -> (r: Option<u32>)
    ensures
        r == u32_of(j.deep_view()),
{
    match j {
        Some(j) => match j.integer() {
            Some(i) => if 0 <= i && i <= u32::MAX as i128 {
                Some(i as u32)
            } else {
                None
            },
            None => None,
        },
        None => None,
    }
}

/// The text that a value is, if it is one.
pub open spec fn string_of(j: Option<JsonView>) -> Option<Seq<char>> {
    match j {
        Some(JsonView::Text(s)) => Some(s),
        _ => None,
    }
}

pub(crate) fn read_string(j: Option<&Json>) -> (r: Option<String>)
    ensures
        r.deep_view() == string_of(j.deep_view()),
{
    match j {
        Some(Json::Text(s)) => Some(s.clone()),
        _ => None,
    }
}

/// The position that a value is, if it is one.
pub open spec fn position_of(j: Option<JsonView>) -> Option<Position> {
    match j {
        None => None,
        Some(j) => {
            let names = seq!["line"@, "character"@];
            match (u32_of(slot(j, names, 0)), u32_of(slot(j, names, 1))) {
                (Some(line), Some(character)) => Some(Position { line, character }),
                _ => None,
            }
        },
    }
}

fn read_position(j: Option<&Json>) -> (r: Option<Position>)
    ensures
        r == position_of(j.deep_view()),
{
    match j {
        None => None,
        Some(j) => {
            let ghost names = seq!["line"@, "character"@];
            let line = read_u32(field(j, 2, 0, "line"));
            let character = read_u32(field(j, 2, 1, "character"));
            assert(line == u32_of(slot(j@, names, 0)));
            assert(character == u32_of(slot(j@, names, 1)));
            match (line, character) {
                (Some(line), Some(character)) => Some(Position { line, character }),
                _ => None,
            }
        },
    }
}

/// The range that a value is, if it is one.
pub open spec fn range_of(j: Option<JsonView>) -> Option<Range> {
    match j {
        None => None,
        Some(j) => {
            let names = seq!["start"@, "end"@];
            match (position_of(slot(j, names, 0)), position_of(slot(j, names, 1))) {
                (Some(start), Some(end)) => Some(Range { start, end }),
                _ => None,
            }
        },
    }
}

fn read_range(j: Option<&Json>) -> (r: Option<Range>)
    ensures
        r == range_of(j.deep_view()),
{
    match j {
        None => None,
        Some(j) => {
            let ghost names = seq!["start"@, "end"@];
            let start = read_position(field(j, 2, 0, "start"));
            let end = read_position(field(j, 2, 1, "end"));
            assert(start == position_of(slot(j@, names, 0)));
            assert(end == position_of(slot(j@, names, 1)));
            match (start, end) {
                (Some(start), Some(end)) => Some(Range { start, end }),
                _ => None,
            }
        },
    }
}

/// The location that a value is under the given field names, if it is one.
pub open spec fn location_under(j: JsonView, uri: Seq<char>, range: Seq<char>) -> Option<
    LocationView,
> {
    let names = seq![uri, range];
    match (string_of(slot(j, names, 0)), range_of(slot(j, names, 1))) {
        (Some(uri), Some(range)) => Some(LocationView { uri, range }),
        _ => None,
    }
}

/// The location that a value is, if it is one.
pub open spec fn location_of(j: JsonView) -> Option<LocationView> {
    location_under(j, "uri"@, "range"@)
}

fn read_location_under(j: &Json, uri: &str, range: &str) -> (r: Option<Location>)
    ensures
        r.deep_view() == location_under(j@, uri@, range@),
{
    let ghost names = seq![uri@, range@];
    let place = read_string(field(j, 2, 0, uri));
    let span = read_range(field(j, 2, 1, range));
    assert(place.deep_view() == string_of(slot(j@, names, 0)));
    assert(span == range_of(slot(j@, names, 1)));
    match (place, span) {
        (Some(uri), Some(range)) => Some(Location { uri, range }),
        _ => None,
    }
}

/// The locations that some values are under the given field names, if each is
/// one.
pub open spec fn locations_under(
    list: Seq<JsonView>,
    uri: Seq<char>,
    range: Seq<char>,
) -> Option<Seq<LocationView>> {
    if forall|i: int| 0 <= i < list.len() ==> location_under(#[trigger] list[i], uri, range) is Some {
        Some(Seq::new(list.len(), |i: int| location_under(list[i], uri, range)->0))
    } else {
        None
    }
}

/// What an array says, element by element.
pub open spec fn elements(list: Seq<Json>) -> Seq<JsonView> {
    Seq::new(list.len(), |i: int| list[i]@)
}

fn read_locations_under(list: &Vec<Json>, uri: &str, range: &str) -> (r: Option<Vec<Location>>)
    ensures
        r.deep_view() == locations_under(elements(list@), uri@, range@),
{
    let ghost views = elements(list@);
    let mut found: Vec<Location> = Vec::new();
    let mut i: usize = 0;
    while i < list.len()
        invariant
            i <= list@.len(),
            views == elements(list@),
            found@.len() == i,
            forall|k: int|
                0 <= k < i ==> location_under(#[trigger] views[k], uri@, range@) == Some(
                    found@[k].deep_view(),
                ),
        decreases list@.len() - i,
    {
        assert(views[i as int] == list@[i as int]@);
        match read_location_under(&list[i], uri, range) {
            Some(location) => found.push(location),
            None => {
                assert(location_under(views[i as int], uri@, range@) is None);
                return None;
            },
        }
        i += 1;
    }
    assert(found.deep_view() =~= Seq::new(
        views.len(),
        |i: int| location_under(views[i], uri@, range@)->0,
    ));
    Some(found)
}

/// The locations that an answer names: none for `null`, one location, a list of
/// locations, or the targets of a list of location links. `None` where the
/// answer is of no such shape.
pub open spec fn locations_of(j: JsonView) -> Option<Seq<LocationView>> {
    match j {
        JsonView::Null => Some(Seq::empty()),
        JsonView::Array(list) => match locations_under(list, "uri"@, "range"@) {
            Some(locations) => Some(locations),
            None => match locations_under(list, "targetUri"@, "targetSelectionRange"@) {
                Some(locations) => Some(locations),
                None => match location_of(j) {
                    Some(location) => Some(seq![location]),
                    None => None,
                },
            },
        },
        _ => match location_of(j) {
            Some(location) => Some(seq![location]),
            None => None,
        },
    }
}

/// The locations that an answer names.
pub fn read_locations(j: &Json) -> (r: Option<Vec<Location>>)
    ensures
        r.deep_view() == locations_of(j@),
{
    match j {
        Json::Null => {
            let none: Vec<Location> = Vec::new();
            assert(none.deep_view() =~= Seq::<LocationView>::empty());
            return Some(none);
        },
        Json::Array(list) => {
            assert(j@ == JsonView::Array(elements(list@))) by {
                assert(elements(list@) =~= j@->Array_0);
            }
            if let Some(locations) = read_locations_under(list, "uri", "range") {
                return Some(locations);
            }
            if let Some(locations) = read_locations_under(
                list,
                "targetUri",
                "targetSelectionRange",
            ) {
                return Some(locations);
            }
        },
        _ => {},
    }
    match read_location_under(j, "uri", "range") {
        Some(location) => {
            let one = vec![location];
            assert(one.deep_view() =~= seq![location.deep_view()]);
            Some(one)
        },
        None => None,
    }
}

/// The locations of a list answer: none for `null`, or a list of locations.
pub open spec fn location_list_of(j: JsonView) -> Option<Seq<LocationView>> {
    match j {
        JsonView::Null => Some(Seq::empty()),
        JsonView::Array(list) => locations_under(list, "uri"@, "range"@),
        _ => None,
    }
}

/// The locations of a list answer.
pub fn read_location_list(j: &Json) -> (r: Option<Vec<Location>>)
    ensures
        r.deep_view() == location_list_of(j@),
{
    match j {
        Json::Null => {
            let none: Vec<Location> = Vec::new();
            assert(none.deep_view() =~= Seq::<LocationView>::empty());
            Some(none)
        },
        Json::Array(list) => {
            assert(elements(list@) =~= j@->Array_0);
            read_locations_under(list, "uri", "range")
        },
        _ => None,
    }
}

// ── Writing JSON ────────────────────────────────────────────────────────

/// A position, encoded.
pub open spec fn position_json(position: Position) -> JsonView {
    JsonView::Object(
        map![
            "line"@ => JsonView::Int(position.line as int),
            "character"@ => JsonView::Int(position.character as int),
        ],
    )
}

impl Position {
    /// The position, encoded.
    pub fn to_json(&self) -> (r: Json)
        ensures
            r@ == position_json(*self),
    {
        let fields = with(no_fields(), "line", Json::Int(self.line as i64));
        let fields = with(fields, "character", Json::Int(self.character as i64));
        Json::Object(fields)
    }
}

/// A range, encoded.
pub open spec fn range_json(range: Range) -> JsonView {
    JsonView::Object(
        map!["start"@ => position_json(range.start), "end"@ => position_json(range.end)],
    )
}

impl Range {
    /// The range, encoded.
    pub fn to_json(&self) -> (r: Json)
        ensures
            r@ == range_json(*self),
    {
        let fields = with(no_fields(), "start", self.start.to_json());
        let fields = with(fields, "end", self.end.to_json());
        Json::Object(fields)
    }
}

/// A document, by its URI.
#[derive(Debug, PartialEq, Eq)]
pub struct TextDocumentIdentifier {
    pub uri: String,
}

/// A document identifier, encoded.
pub open spec fn document_json(uri: Seq<char>) -> JsonView {
    JsonView::Object(map!["uri"@ => JsonView::Text(uri)])
}

impl TextDocumentIdentifier {
    /// The identifier, encoded.
    pub fn to_json(&self) -> (r: Json)
        ensures
            r@ == document_json(self.uri@),
    {
        Json::Object(with(no_fields(), "uri", Json::Text(self.uri.clone())))
    }
}

/// A place in a document.
#[derive(Debug, PartialEq, Eq)]
pub struct TextDocumentPositionParams {
    pub text_document: TextDocumentIdentifier,
    pub position: Position,
}

/// Parameters that name a place in a document, encoded.
pub open spec fn place_json(uri: Seq<char>, position: Position) -> JsonView {
    JsonView::Object(
        map!["textDocument"@ => document_json(uri), "position"@ => position_json(position)],
    )
}

impl TextDocumentPositionParams {
    /// The parameters, encoded.
    pub fn to_json(&self) -> (r: Json)
        ensures
            r@ == place_json(self.text_document.uri@, self.position),
    {
        let fields = with(no_fields(), "textDocument", self.text_document.to_json());
        let fields = with(fields, "position", self.position.to_json());
        Json::Object(fields)
    }
}

/// The parameters of `textDocument/references`, without the declaration itself.
pub open spec fn references_json(uri: Seq<char>, position: Position) -> JsonView {
    JsonView::Object(
        map![
            "textDocument"@ => document_json(uri),
            "position"@ => position_json(position),
            "context"@ => JsonView::Object(map!["includeDeclaration"@ => JsonView::Bool(false)]),
        ],
    )
}

/// The parameters of `textDocument/references`, encoded.
pub fn references_params(uri: &str, position: Position) -> (r: Json)
    ensures
        r@ == references_json(uri@, position),
{
    let document = TextDocumentIdentifier { uri: uri.to_owned() };
    let context = Json::Object(with(no_fields(), "includeDeclaration", Json::Bool(false)));
    let fields = with(no_fields(), "textDocument", document.to_json());
    let fields = with(fields, "position", position.to_json());
    let fields = with(fields, "context", context);
    Json::Object(fields)
}

/// The parameters of `textDocument/didOpen`: a document's first version.
pub open spec fn did_open_json(
    uri: Seq<char>,
    language_id: Seq<char>,
    content: Seq<char>,
) -> JsonView {
    JsonView::Object(
        map![
            "textDocument"@ => JsonView::Object(
                map![
                    "uri"@ => JsonView::Text(uri),
                    "languageId"@ => JsonView::Text(language_id),
                    "version"@ => JsonView::Int(1),
                    "text"@ => JsonView::Text(content),
                ],
            ),
        ],
    )
}

/// The parameters of `textDocument/didOpen`, encoded.
pub fn did_open_params(uri: &str, language_id: &str, content: &str) -> (r: Json)
    ensures
        r@ == did_open_json(uri@, language_id@, content@),
{
    let fields = with(no_fields(), "uri", Json::Text(uri.to_owned()));
    let fields = with(fields, "languageId", Json::Text(language_id.to_owned()));
    let fields = with(fields, "version", Json::Int(1));
    let fields = with(fields, "text", Json::Text(content.to_owned()));
    Json::Object(with(no_fields(), "textDocument", Json::Object(fields)))
}

/// The parameters of `textDocument/didClose`.
pub open spec fn did_close_json(uri: Seq<char>) -> JsonView {
    JsonView::Object(map!["textDocument"@ => document_json(uri)])
}

/// The parameters of `textDocument/didClose`, encoded.
pub fn did_close_params(uri: &str) -> (r: Json)
    ensures
        r@ == did_close_json(uri@),
{
    let document = TextDocumentIdentifier { uri: uri.to_owned() };
    Json::Object(with(no_fields(), "textDocument", document.to_json()))
}

// ── Hierarchies ─────────────────────────────────────────────────────────

/// The parameters of `textDocument/prepareCallHierarchy`.
#[derive(Debug, PartialEq, Eq)]
pub struct CallHierarchyPrepareParams {
    pub text_document: TextDocumentIdentifier,
    pub position: Position,
}

impl CallHierarchyPrepareParams {
    /// The parameters, encoded.
    pub fn to_json(&self) -> (r: Json)
        ensures
            r@ == place_json(self.text_document.uri@, self.position),
    {
        let fields = with(no_fields(), "textDocument", self.text_document.to_json());
        let fields = with(fields, "position", self.position.to_json());
        Json::Object(fields)
    }
}

/// The parameters of `textDocument/prepareTypeHierarchy`.
#[derive(Debug, PartialEq, Eq)]
pub struct TypeHierarchyPrepareParams {
    pub text_document: TextDocumentIdentifier,
    pub position: Position,
}

impl TypeHierarchyPrepareParams {
    /// The parameters, encoded.
    pub fn to_json(&self) -> (r: Json)
        ensures
            r@ == place_json(self.text_document.uri@, self.position),
    {
        let fields = with(no_fields(), "textDocument", self.text_document.to_json());
        let fields = with(fields, "position", self.position.to_json());
        Json::Object(fields)
    }
}

/// An item of a call hierarchy.
#[derive(Debug, PartialEq, Eq)]
pub struct CallHierarchyItem {
    pub name: String,
    /// The kind of symbol.
    pub kind: u32,
    pub uri: String,
    pub range: Range,
    pub selection_range: Range,
    pub detail: Option<String>,
}

/// An item of a type hierarchy.
#[derive(Debug, PartialEq, Eq)]
pub struct TypeHierarchyItem {
    pub name: String,
    /// The kind of symbol.
    pub kind: u32,
    pub uri: String,
    pub range: Range,
    pub selection_range: Range,
    pub detail: Option<String>,
}

/// What a [`CallHierarchyItem`] or a [`TypeHierarchyItem`] says.
pub struct ItemView {
    pub name: Seq<char>,
    pub kind: u32,
    pub uri: Seq<char>,
    pub range: Range,
    pub selection_range: Range,
    pub detail: Option<Seq<char>>,
}

impl DeepView for CallHierarchyItem {
    type V = ItemView;

    open spec fn deep_view(&self) -> ItemView {
        ItemView {
            name: self.name@,
            kind: self.kind,
            uri: self.uri@,
            range: self.range,
            selection_range: self.selection_range,
            detail: self.detail.deep_view(),
        }
    }
}

impl DeepView for TypeHierarchyItem {
    type V = ItemView;

    open spec fn deep_view(&self) -> ItemView {
        ItemView {
            name: self.name@,
            kind: self.kind,
            uri: self.uri@,
            range: self.range,
            selection_range: self.selection_range,
            detail: self.detail.deep_view(),
        }
    }
}

/// An optional text, encoded: `null` for none.
pub open spec fn optional_text_json(value: Option<Seq<char>>) -> JsonView {
    match value {
        Some(s) => JsonView::Text(s),
        None => JsonView::Null,
    }
}

/// A hierarchy item, encoded.
pub open spec fn item_json(item: ItemView) -> JsonView {
    JsonView::Object(
        map![
            "name"@ => JsonView::Text(item.name),
            "kind"@ => JsonView::Int(item.kind as int),
            "uri"@ => JsonView::Text(item.uri),
            "range"@ => range_json(item.range),
            "selectionRange"@ => range_json(item.selection_range),
            "detail"@ => optional_text_json(item.detail),
        ],
    )
}

fn write_optional_text(value: &Option<String>) -> (r: Json)
    ensures
        r@ == optional_text_json(value.deep_view()),
{
    match value {
        Some(s) => Json::Text(s.clone()),
        None => Json::Null,
    }
}

impl CallHierarchyItem {
    /// The item, encoded.
    pub fn to_json(&self) -> (r: Json)
        ensures
            r@ == item_json(self.deep_view()),
    {
        let fields = with(no_fields(), "name", Json::Text(self.name.clone()));
        let fields = with(fields, "kind", Json::Int(self.kind as i64));
        let fields = with(fields, "uri", Json::Text(self.uri.clone()));
        let fields = with(fields, "range", self.range.to_json());
        let fields = with(fields, "selectionRange", self.selection_range.to_json());
        let fields = with(fields, "detail", write_optional_text(&self.detail));
        Json::Object(fields)
    }
}

impl TypeHierarchyItem {
    /// The item, encoded.
    pub fn to_json(&self) -> (r: Json)
        ensures
            r@ == item_json(self.deep_view()),
    {
        let fields = with(no_fields(), "name", Json::Text(self.name.clone()));
        let fields = with(fields, "kind", Json::Int(self.kind as i64));
        let fields = with(fields, "uri", Json::Text(self.uri.clone()));
        let fields = with(fields, "range", self.range.to_json());
        let fields = with(fields, "selectionRange", self.selection_range.to_json());
        let fields = with(fields, "detail", write_optional_text(&self.detail));
        Json::Object(fields)
    }
}

/// The optional text that a field is: none where it is absent or `null`.
/// `None` where it is something else.
pub open spec fn optional_text_of(j: Option<JsonView>) -> Option<Option<Seq<char>>> {
    match j {
        None => Some(None),
        Some(JsonView::Null) => Some(None),
        Some(JsonView::Text(s)) => Some(Some(s)),
        _ => None,
    }
}

fn read_optional_text(j: Option<&Json>) -> (r: Option<Option<String>>)
    ensures
        r.deep_view() == optional_text_of(j.deep_view()),
{
    match j {
        None => Some(None),
        Some(Json::Null) => Some(None),
        Some(Json::Text(s)) => Some(Some(s.clone())),
        _ => None,
    }
}

/// The names of a hierarchy item's fields.
pub open spec fn item_names() -> Seq<Seq<char>> {
    seq!["name"@, "kind"@, "uri"@, "range"@, "selectionRange"@, "detail"@]
}

/// The hierarchy item that a value is, if it is one.
pub open spec fn item_of(j: JsonView) -> Option<ItemView> {
    let names = item_names();
    match (
        string_of(slot(j, names, 0)),
        u32_of(slot(j, names, 1)),
        string_of(slot(j, names, 2)),
        range_of(slot(j, names, 3)),
        range_of(slot(j, names, 4)),
        optional_text_of(slot(j, names, 5)),
    ) {
        (
            Some(name),
            Some(kind),
            Some(uri),
            Some(range),
            Some(selection_range),
            Some(detail),
        ) => Some(ItemView { name, kind, uri, range, selection_range, detail }),
        _ => None,
    }
}

fn read_call_item(j: &Json) -> (r: Option<CallHierarchyItem>)
    ensures
        r.deep_view() == item_of(j@),
{
    let ghost names = item_names();
    let name = read_string(field(j, 6, 0, "name"));
    let kind = read_u32(field(j, 6, 1, "kind"));
    let uri = read_string(field(j, 6, 2, "uri"));
    let range = read_range(field(j, 6, 3, "range"));
    let selection_range = read_range(field(j, 6, 4, "selectionRange"));
    let detail = read_optional_text(field(j, 6, 5, "detail"));
    assert(name.deep_view() == string_of(slot(j@, names, 0)));
    assert(kind == u32_of(slot(j@, names, 1)));
    assert(uri.deep_view() == string_of(slot(j@, names, 2)));
    assert(range == range_of(slot(j@, names, 3)));
    assert(selection_range == range_of(slot(j@, names, 4)));
    assert(detail.deep_view() == optional_text_of(slot(j@, names, 5)));
    match (name, kind, uri, range, selection_range, detail) {
        (
            Some(name),
            Some(kind),
            Some(uri),
            Some(range),
            Some(selection_range),
            Some(detail),
        ) => Some(CallHierarchyItem { name, kind, uri, range, selection_range, detail }),
        _ => None,
    }
}

fn read_type_item(j: &Json) -> (r: Option<TypeHierarchyItem>)
    ensures
        r.deep_view() == item_of(j@),
{
    match read_call_item(j) {
        Some(item) => Some(
            TypeHierarchyItem {
                name: item.name,
                kind: item.kind,
                uri: item.uri,
                range: item.range,
                selection_range: item.selection_range,
                detail: item.detail,
            },
        ),
        None => None,
    }
}

/// The items of a hierarchy answer: none for `null`, or a list of them.
pub open spec fn items_of(j: JsonView) -> Option<Seq<ItemView>> {
    match j {
        JsonView::Null => Some(Seq::empty()),
        JsonView::Array(list) => if forall|i: int|
            0 <= i < list.len() ==> item_of(#[trigger] list[i]) is Some {
            Some(Seq::new(list.len(), |i: int| item_of(list[i])->0))
        } else {
            None
        },
        _ => None,
    }
}

/// The items of a hierarchy answer.
pub fn read_call_items(j: &Json) -> (r: Option<Vec<CallHierarchyItem>>)
    ensures
        r.deep_view() == items_of(j@),
{
    match j {
        Json::Null => {
            let none: Vec<CallHierarchyItem> = Vec::new();
            assert(none.deep_view() =~= Seq::<ItemView>::empty());
            Some(none)
        },
        Json::Array(list) => {
            let ghost views = elements(list@);
            assert(views =~= j@->Array_0);
            let mut found: Vec<CallHierarchyItem> = Vec::new();
            let mut i: usize = 0;
            while i < list.len()
                invariant
                    i <= list@.len(),
                    views == elements(list@),
                    j@ == JsonView::Array(views),
                    found@.len() == i,
                    forall|k: int|
                        0 <= k < i ==> item_of(#[trigger] views[k]) == Some(
                            found@[k].deep_view(),
                        ),
                decreases list@.len() - i,
            {
                assert(views[i as int] == list@[i as int]@);
                match read_call_item(&list[i]) {
                    Some(one) => found.push(one),
                    None => {
                        assert(item_of(views[i as int]) is None);
                        return None;
                    },
                }
                i += 1;
            }
            assert(found.deep_view() =~= Seq::new(
                views.len(),
                |i: int| item_of(views[i])->0,
            ));
            Some(found)
        },
        _ => None,
    }
}

/// The items of a type hierarchy answer.
pub fn read_type_items(j: &Json) -> (r: Option<Vec<TypeHierarchyItem>>)
    ensures
        r.deep_view() == items_of(j@),
{
    match j {
        Json::Null => {
            let none: Vec<TypeHierarchyItem> = Vec::new();
            assert(none.deep_view() =~= Seq::<ItemView>::empty());
            Some(none)
        },
        Json::Array(list) => {
            let ghost views = elements(list@);
            assert(views =~= j@->Array_0);
            let mut found: Vec<TypeHierarchyItem> = Vec::new();
            let mut i: usize = 0;
            while i < list.len()
                invariant
                    i <= list@.len(),
                    views == elements(list@),
                    j@ == JsonView::Array(views),
                    found@.len() == i,
                    forall|k: int|
                        0 <= k < i ==> item_of(#[trigger] views[k]) == Some(
                            found@[k].deep_view(),
                        ),
                decreases list@.len() - i,
            {
                assert(views[i as int] == list@[i as int]@);
                match read_type_item(&list[i]) {
                    Some(one) => found.push(one),
                    None => {
                        assert(item_of(views[i as int]) is None);
                        return None;
                    },
                }
                i += 1;
            }
            assert(found.deep_view() =~= Seq::new(views.len(), |i: int| item_of(views[i])->0));
            Some(found)
        },
        _ => None,
    }
}

/// The parameters of a request about a hierarchy item.
pub open spec fn about_item_json(item: ItemView) -> JsonView {
    JsonView::Object(map!["item"@ => item_json(item)])
}

/// The parameters of `callHierarchy/incomingCalls`.
#[derive(Debug, PartialEq, Eq)]
pub struct CallHierarchyIncomingCallsParams {
    pub item: CallHierarchyItem,
}

impl CallHierarchyIncomingCallsParams {
    /// The parameters, encoded.
    pub fn to_json(&self) -> (r: Json)
        ensures
            r@ == about_item_json(self.item.deep_view()),
    {
        about_call_item(&self.item)
    }
}

/// The parameters of `callHierarchy/outgoingCalls`.
#[derive(Debug, PartialEq, Eq)]
pub struct CallHierarchyOutgoingCallsParams {
    pub item: CallHierarchyItem,
}

impl CallHierarchyOutgoingCallsParams {
    /// The parameters, encoded.
    pub fn to_json(&self) -> (r: Json)
        ensures
            r@ == about_item_json(self.item.deep_view()),
    {
        about_call_item(&self.item)
    }
}

/// The parameters of a request about a call hierarchy item, encoded.
pub fn about_call_item(item: &CallHierarchyItem) -> (r: Json)
    ensures
        r@ == about_item_json(item.deep_view()),
{
    Json::Object(with(no_fields(), "item", item.to_json()))
}

/// The parameters of a request about a type hierarchy item, encoded.
pub fn about_type_item(item: &TypeHierarchyItem) -> (r: Json)
    ensures
        r@ == about_item_json(item.deep_view()),
{
    Json::Object(with(no_fields(), "item", item.to_json()))
}

/// The parameters of `typeHierarchy/supertypes`.
#[derive(Debug, PartialEq, Eq)]
pub struct TypeHierarchySupertypesParams {
    pub item: TypeHierarchyItem,
}

impl TypeHierarchySupertypesParams {
    /// The parameters, encoded.
    pub fn to_json(&self) -> (r: Json)
        ensures
            r@ == about_item_json(self.item.deep_view()),
    {
        about_type_item(&self.item)
    }
}

/// A call into an item, with where it is made.
#[derive(Debug, PartialEq, Eq)]
pub struct CallHierarchyIncomingCall {
    pub from: CallHierarchyItem,
    pub from_ranges: Vec<Range>,
}

/// A call out of an item, with where it is made.
#[derive(Debug, PartialEq, Eq)]
pub struct CallHierarchyOutgoingCall {
    pub to: CallHierarchyItem,
    pub from_ranges: Vec<Range>,
}

/// What a [`CallHierarchyIncomingCall`] or a [`CallHierarchyOutgoingCall`] says.
pub struct CallView {
    pub other: ItemView,
    pub from_ranges: Seq<Range>,
}

impl DeepView for CallHierarchyIncomingCall {
    type V = CallView;

    open spec fn deep_view(&self) -> CallView {
        CallView { other: self.from.deep_view(), from_ranges: self.from_ranges@ }
    }
}

impl DeepView for CallHierarchyOutgoingCall {
    type V = CallView;

    open spec fn deep_view(&self) -> CallView {
        CallView { other: self.to.deep_view(), from_ranges: self.from_ranges@ }
    }
}

/// The ranges that a value lists, if it lists ranges.
pub open spec fn ranges_of(j: Option<JsonView>) -> Option<Seq<Range>> {
    match j {
        Some(JsonView::Array(list)) => if forall|i: int|
            0 <= i < list.len() ==> range_of(Some(#[trigger] list[i])) is Some {
            Some(Seq::new(list.len(), |i: int| range_of(Some(list[i]))->0))
        } else {
            None
        },
        _ => None,
    }
}

fn read_ranges(j: Option<&Json>) -> (r: Option<Vec<Range>>)
    ensures
        match r {
            Some(ranges) => ranges_of(j.deep_view()) == Some(ranges@),
            None => ranges_of(j.deep_view()) is None,
        },
{
    match j {
        Some(Json::Array(list)) => {
            let ghost views = elements(list@);
            assert(views =~= j->0@->Array_0);
            let mut found: Vec<Range> = Vec::new();
            let mut i: usize = 0;
            while i < list.len()
                invariant
                    i <= list@.len(),
                    views == elements(list@),
                    j.deep_view() == Some(JsonView::Array(views)),
                    found@.len() == i,
                    forall|k: int|
                        0 <= k < i ==> range_of(Some(#[trigger] views[k])) == Some(found@[k]),
                decreases list@.len() - i,
            {
                assert(views[i as int] == list@[i as int]@);
                match read_range(Some(&list[i])) {
                    Some(one) => found.push(one),
                    None => {
                        assert(range_of(Some(views[i as int])) is None);
                        return None;
                    },
                }
                i += 1;
            }
            assert(found@ =~= Seq::new(views.len(), |i: int| range_of(Some(views[i]))->0));
            Some(found)
        },
        _ => None,
    }
}

/// The call that a value is, with the other end under a given name.
pub open spec fn call_of(j: JsonView, other: Seq<char>) -> Option<CallView> {
    let names = seq![other, "fromRanges"@];
    match (slot(j, names, 0), ranges_of(slot(j, names, 1))) {
        (Some(item), Some(from_ranges)) => match item_of(item) {
            Some(other) => Some(CallView { other, from_ranges }),
            None => None,
        },
        _ => None,
    }
}

/// The outgoing call that a value is, if it is one.
pub open spec fn outgoing_call_of(j: JsonView) -> Option<CallView> {
    call_of(j, "to"@)
}

fn read_outgoing_call(j: &Json) -> (r: Option<CallHierarchyOutgoingCall>)
    ensures
        r.deep_view() == outgoing_call_of(j@),
{
    let ghost names = seq!["to"@, "fromRanges"@];
    let item = field(j, 2, 0, "to");
    let ranges = read_ranges(field(j, 2, 1, "fromRanges"));
    assert(item.deep_view() == slot(j@, names, 0));
    assert(slot(j@, names, 1) == slot(j@, names, 1));
    match (item, ranges) {
        (Some(item), Some(from_ranges)) => match read_call_item(item) {
            Some(to) => Some(CallHierarchyOutgoingCall { to, from_ranges }),
            None => None,
        },
        _ => None,
    }
}

/// The calls of an outgoing-calls answer: none for `null`, or a list of them.
pub open spec fn outgoing_calls_of(j: JsonView) -> Option<Seq<CallView>> {
    match j {
        JsonView::Null => Some(Seq::empty()),
        JsonView::Array(list) => if forall|i: int|
            0 <= i < list.len() ==> outgoing_call_of(#[trigger] list[i]) is Some {
            Some(Seq::new(list.len(), |i: int| outgoing_call_of(list[i])->0))
        } else {
            None
        },
        _ => None,
    }
}

/// The calls of an outgoing-calls answer.
pub fn read_outgoing_calls(j: &Json) -> (r: Option<Vec<CallHierarchyOutgoingCall>>)
    ensures
        r.deep_view() == outgoing_calls_of(j@),
{
    match j {
        Json::Null => {
            let none: Vec<CallHierarchyOutgoingCall> = Vec::new();
            assert(none.deep_view() =~= Seq::<CallView>::empty());
            Some(none)
        },
        Json::Array(list) => {
            let ghost views = elements(list@);
            assert(views =~= j@->Array_0);
            let mut found: Vec<CallHierarchyOutgoingCall> = Vec::new();
            let mut i: usize = 0;
            while i < list.len()
                invariant
                    i <= list@.len(),
                    views == elements(list@),
                    j@ == JsonView::Array(views),
                    found@.len() == i,
                    forall|k: int|
                        0 <= k < i ==> outgoing_call_of(#[trigger] views[k]) == Some(
                            found@[k].deep_view(),
                        ),
                decreases list@.len() - i,
            {
                assert(views[i as int] == list@[i as int]@);
                match read_outgoing_call(&list[i]) {
                    Some(one) => found.push(one),
                    None => {
                        assert(outgoing_call_of(views[i as int]) is None);
                        return None;
                    },
                }
                i += 1;
            }
            assert(found.deep_view() =~= Seq::new(
                views.len(),
                |i: int| outgoing_call_of(views[i])->0,
            ));
            Some(found)
        },
        _ => None,
    }
}

// ── Initialize ──────────────────────────────────────────────────────────

/// The parameters of `initialize`.
#[derive(Debug)]
pub struct InitializeParams {
    pub process_id: Option<u32>,
    pub root_uri: Option<String>,
    pub capabilities: ClientCapabilities,
    pub initialization_options: Option<Json>,
}

/// What a client can do.
#[derive(Debug)]
pub struct ClientCapabilities {
    pub text_document: Option<TextDocumentClientCapabilities>,
}

/// What a client can do with documents.
#[derive(Debug)]
pub struct TextDocumentClientCapabilities {
    pub call_hierarchy: Option<Json>,
    pub definition: Option<Json>,
    pub references: Option<Json>,
    pub type_hierarchy: Option<Json>,
    pub type_definition: Option<Json>,
}

/// An optional value, encoded: `null` for none.
pub open spec fn optional_json(value: Option<JsonView>) -> JsonView {
    match value {
        Some(j) => j,
        None => JsonView::Null,
    }
}

fn write_optional(value: &Option<Json>) -> (r: Json)
    ensures
        r@ == optional_json(value.deep_view()),
{
    match value {
        Some(j) => j.clone(),
        None => Json::Null,
    }
}

/// What a client can do with documents, encoded.
pub open spec fn document_capabilities_json(c: TextDocumentClientCapabilities) -> JsonView {
    JsonView::Object(
        map![
            "callHierarchy"@ => optional_json(c.call_hierarchy.deep_view()),
            "definition"@ => optional_json(c.definition.deep_view()),
            "references"@ => optional_json(c.references.deep_view()),
            "typeHierarchy"@ => optional_json(c.type_hierarchy.deep_view()),
            "typeDefinition"@ => optional_json(c.type_definition.deep_view()),
        ],
    )
}

impl TextDocumentClientCapabilities {
    /// The capabilities, encoded.
    pub fn to_json(&self) -> (r: Json)
        ensures
            r@ == document_capabilities_json(*self),
    {
        let fields = with(no_fields(), "callHierarchy", write_optional(&self.call_hierarchy));
        let fields = with(fields, "definition", write_optional(&self.definition));
        let fields = with(fields, "references", write_optional(&self.references));
        let fields = with(fields, "typeHierarchy", write_optional(&self.type_hierarchy));
        let fields = with(fields, "typeDefinition", write_optional(&self.type_definition));
        Json::Object(fields)
    }
}

/// What a client can do, encoded.
pub open spec fn client_capabilities_json(c: ClientCapabilities) -> JsonView {
    JsonView::Object(
        map![
            "textDocument"@ => match c.text_document {
                Some(d) => document_capabilities_json(d),
                None => JsonView::Null,
            },
        ],
    )
}

impl ClientCapabilities {
    /// The capabilities, encoded.
    pub fn to_json(&self) -> (r: Json)
        ensures
            r@ == client_capabilities_json(*self),
    {
        let document = match &self.text_document {
            Some(d) => d.to_json(),
            None => Json::Null,
        };
        Json::Object(with(no_fields(), "textDocument", document))
    }
}

/// The parameters of `initialize`, encoded. Initialization options are left out
/// where there are none.
pub open spec fn initialize_json(params: InitializeParams) -> JsonView {
    let base = map![
        "processId"@ => match params.process_id {
            Some(id) => JsonView::Int(id as int),
            None => JsonView::Null,
        },
        "rootUri"@ => optional_text_json(params.root_uri.deep_view()),
        "capabilities"@ => client_capabilities_json(params.capabilities),
    ];
    JsonView::Object(
        match params.initialization_options {
            Some(options) => base.insert("initializationOptions"@, options@),
            None => base,
        },
    )
}

impl InitializeParams {
    /// The parameters, encoded.
    pub fn to_json(&self) -> (r: Json)
        ensures
            r@ == initialize_json(*self),
    {
        let process = match self.process_id {
            Some(id) => Json::Int(id as i64),
            None => Json::Null,
        };
        let fields = with(no_fields(), "processId", process);
        let fields = with(fields, "rootUri", write_optional_text(&self.root_uri));
        let fields = with(fields, "capabilities", self.capabilities.to_json());
        let fields = match &self.initialization_options {
            Some(options) => with(fields, "initializationOptions", options.clone()),
            None => fields,
        };
        Json::Object(fields)
    }
}

/// What `initialize` answers.
#[derive(Debug)]
pub struct InitializeResult {
    pub capabilities: ServerCapabilities,
}

/// What a server can do, as it said in the handshake.
#[derive(Debug)]
pub struct ServerCapabilities {
    pub call_hierarchy_provider: Option<Json>,
    pub definition_provider: Option<Json>,
    pub references_provider: Option<Json>,
    pub type_hierarchy_provider: Option<Json>,
    pub type_definition_provider: Option<Json>,
}

/// What a [`ServerCapabilities`] says.
pub struct CapabilitiesView {
    pub call_hierarchy_provider: Option<JsonView>,
    pub definition_provider: Option<JsonView>,
    pub references_provider: Option<JsonView>,
    pub type_hierarchy_provider: Option<JsonView>,
    pub type_definition_provider: Option<JsonView>,
}

impl DeepView for ServerCapabilities {
    type V = CapabilitiesView;

    open spec fn deep_view(&self) -> CapabilitiesView {
        CapabilitiesView {
            call_hierarchy_provider: self.call_hierarchy_provider.deep_view(),
            definition_provider: self.definition_provider.deep_view(),
            references_provider: self.references_provider.deep_view(),
            type_hierarchy_provider: self.type_hierarchy_provider.deep_view(),
            type_definition_provider: self.type_definition_provider.deep_view(),
        }
    }
}

/// A server that can do nothing.
pub open spec fn no_capabilities() -> CapabilitiesView {
    CapabilitiesView {
        call_hierarchy_provider: None,
        definition_provider: None,
        references_provider: None,
        type_hierarchy_provider: None,
        type_definition_provider: None,
    }
}

impl Default for ServerCapabilities {
    fn default() -> (r: Self)
        ensures
            r.deep_view() == no_capabilities(),
    {
        ServerCapabilities {
            call_hierarchy_provider: None,
            definition_provider: None,
            references_provider: None,
            type_hierarchy_provider: None,
            type_definition_provider: None,
        }
    }
}

/// The names of a server's capabilities.
pub open spec fn provider_names() -> Seq<Seq<char>> {
    seq![
        "callHierarchyProvider"@,
        "definitionProvider"@,
        "referencesProvider"@,
        "typeHierarchyProvider"@,
        "typeDefinitionProvider"@,
    ]
}

/// What an optional field holds: nothing where it is absent or `null`.
pub open spec fn given(j: Option<JsonView>) -> Option<JsonView> {
    match j {
        None => None,
        Some(JsonView::Null) => None,
        Some(j) => Some(j),
    }
}

fn read_given(j: Option<&Json>) -> (r: Option<Json>)
    ensures
        r.deep_view() == given(j.deep_view()),
{
    match j {
        None => None,
        Some(Json::Null) => None,
        Some(j) => Some(j.clone()),
    }
}

/// The capabilities that the answer to `initialize` gives. An answer that is no
/// such record gives none.
pub open spec fn capabilities_of(answer: JsonView) -> CapabilitiesView {
    match slot(answer, seq!["capabilities"@], 0) {
        None => no_capabilities(),
        Some(j) => {
            let names = provider_names();
            if slots(j, names) is None {
                no_capabilities()
            } else {
                CapabilitiesView {
                    call_hierarchy_provider: given(slot(j, names, 0)),
                    definition_provider: given(slot(j, names, 1)),
                    references_provider: given(slot(j, names, 2)),
                    type_hierarchy_provider: given(slot(j, names, 3)),
                    type_definition_provider: given(slot(j, names, 4)),
                }
            }
        },
    }
}

impl InitializeResult {
    /// Read the answer to `initialize`. An answer that is no such record counts
    /// as one of a server that can do nothing.
    pub fn from_answer(answer: &Json) -> (r: Self)
        ensures
            r.capabilities.deep_view() == capabilities_of(answer@),
    {
        let ghost outer = seq!["capabilities"@];
        let ghost names = provider_names();
        let capabilities = field(answer, 1, 0, "capabilities");
        assert(capabilities.deep_view() == slot(answer@, outer, 0));
        match capabilities {
            None => InitializeResult { capabilities: ServerCapabilities::default() },
            Some(j) => {
                let record = is_record(j, 5);
                assert(slots(j@, names) is Some <==> record);
                if !record {
                    return InitializeResult { capabilities: ServerCapabilities::default() };
                }
                let calls = field(j, 5, 0, "callHierarchyProvider");
                let definition = field(j, 5, 1, "definitionProvider");
                let references = field(j, 5, 2, "referencesProvider");
                let supertypes = field(j, 5, 3, "typeHierarchyProvider");
                let type_definition = field(j, 5, 4, "typeDefinitionProvider");
                assert(calls.deep_view() == slot(j@, names, 0));
                assert(definition.deep_view() == slot(j@, names, 1));
                assert(references.deep_view() == slot(j@, names, 2));
                assert(supertypes.deep_view() == slot(j@, names, 3));
                assert(type_definition.deep_view() == slot(j@, names, 4));
                InitializeResult {
                    capabilities: ServerCapabilities {
                        call_hierarchy_provider: read_given(calls),
                        definition_provider: read_given(definition),
                        references_provider: read_given(references),
                        type_hierarchy_provider: read_given(supertypes),
                        type_definition_provider: read_given(type_definition),
                    },
                }
            },
        }
    }
}

/// A feature that is not registered dynamically.
pub open spec fn static_feature() -> JsonView {
    JsonView::Object(map!["dynamicRegistration"@ => JsonView::Bool(false)])
}

fn static_feature_json() -> (r: Json)
    ensures
        r@ == static_feature(),
{
    Json::Object(with(no_fields(), "dynamicRegistration", Json::Bool(false)))
}

/// The standard client capabilities, encoded.
pub open spec fn kin_capabilities_json() -> JsonView {
    JsonView::Object(
        map![
            "textDocument"@ => JsonView::Object(
                map![
                    "callHierarchy"@ => static_feature(),
                    "definition"@ => JsonView::Object(
                        map![
                            "dynamicRegistration"@ => JsonView::Bool(false),
                            "linkSupport"@ => JsonView::Bool(false),
                        ],
                    ),
                    "references"@ => static_feature(),
                    "typeHierarchy"@ => static_feature(),
                    "typeDefinition"@ => static_feature(),
                ],
            ),
        ],
    )
}

/// Build standard client capabilities requesting the features Kin needs.
pub fn kin_capabilities() -> (r: ClientCapabilities)
    ensures
        client_capabilities_json(r) == kin_capabilities_json(),
{
    let definition = with(no_fields(), "dynamicRegistration", Json::Bool(false));
    let definition = with(definition, "linkSupport", Json::Bool(false));
    ClientCapabilities {
        text_document: Some(
            TextDocumentClientCapabilities {
                call_hierarchy: Some(static_feature_json()),
                definition: Some(Json::Object(definition)),
                references: Some(static_feature_json()),
                type_hierarchy: Some(static_feature_json()),
                type_definition: Some(static_feature_json()),
            },
        ),
    }
}

// ── Paths ───────────────────────────────────────────────────────────────

/// The `file://` URI of a path.
pub open spec fn uri_of(path: Seq<char>) -> Seq<char> {
    "file://"@ + path
}

/// Convert a file path to a file:// URI.
pub fn path_to_uri(path: &str) -> (r: String)
    ensures
        r@ == uri_of(path@),
{
    joined("file://", path)
}

/// The path that a `file://` URI names, or `None` for another URI.
pub open spec fn path_of(uri: Seq<char>) -> Option<Seq<char>> {
    text::after_prefix(uri, "file://"@)
}

/// Extract a file path from a file:// URI.
pub fn uri_to_path(uri: &str) -> (r: Option<String>)
    ensures
        r.deep_view() == path_of(uri@),
{
    strip_prefix(uri, "file://")
}

/// A path's URI names the path.
pub proof fn path_uri_reads_back(path: Seq<char>)
    ensures
        path_of(uri_of(path)) == Some(path),
{
    reveal_strlit("file://");
    assert("file://"@.is_prefix_of(uri_of(path)));
    assert(uri_of(path).skip("file://"@.len() as int) =~= path);
}

/// A path seen from a directory: an absolute path stands as it is.
pub open spec fn path_in(root: Seq<char>, path: Seq<char>) -> Seq<char> {
    if path.len() > 0 && path[0] == '/' {
        path
    } else if root.len() == 0 || root.last() == '/' {
        root + path
    } else {
        root + "/"@ + path
    }
}

/// Join a path to the directory it is seen from.
pub fn join_path(root: &str, path: &str) -> (r: String)
    ensures
        r@ == path_in(root@, path@),
{
    proof {
        reveal_strlit("/");
    }
    if text::starts_with(path, "/") {
        assert(path@[0] == '/') by {
            assert("/"@.is_prefix_of(path@));
            assert(path@.subrange(0, 1)[0] == "/"@[0]);
        }
        path.to_owned()
    } else {
        assert(!(path@.len() > 0 && path@[0] == '/')) by {
            if path@.len() > 0 && path@[0] == '/' {
                assert(path@.subrange(0, 1) =~= "/"@);
            }
        }
        let root_chars = text::chars_of(root);
        let n: usize = root_chars.len();
        if n == 0 || root_chars[n - 1] == '/' {
            joined(root, path)
        } else {
            joined(root, "/").concat(path)
        }
    }
}

/// Where the parts of a path stand, from `from` on: what is between slashes.
/// Between two slashes in a row, and behind one at the end, there is no part, and
/// a single dot is none.
pub open spec fn parts_from(path: Seq<char>, from: int) -> Seq<(int, int)>
    decreases path.len() - from,
{
    if from < 0 || from > path.len() {
        Seq::empty()
    } else {
        let end = text::find_char(path, '/', from);
        let rest = if from <= end < path.len() {
            parts_from(path, end + 1)
        } else {
            Seq::empty()
        };
        if is_part(path, from, end) {
            seq![(from, end)] + rest
        } else {
            rest
        }
    }
}

/// Whether what stands between two places is a part of a path: not nothing, and
/// not a single dot.
pub open spec fn is_part(path: Seq<char>, from: int, end: int) -> bool {
    from < end && !(end == from + 1 && path[from] == '.')
}

/// Whether a path begins with a component of one character: the root directory,
/// or a dot that stands for the current directory.
pub open spec fn has_start(path: Seq<char>) -> bool {
    path.len() > 0 && (path[0] == '/' || (path[0] == '.' && (path.len() == 1 || path[1] == '/')))
}

/// Where the components of a path stand.
pub open spec fn component_places(path: Seq<char>) -> Seq<(int, int)> {
    if has_start(path) {
        seq![(0int, 1int)] + parts_from(path, 1)
    } else {
        parts_from(path, 0)
    }
}

/// What stands at a place of a path.
pub open spec fn text_at(path: Seq<char>) -> spec_fn((int, int)) -> Seq<char> {
    |place: (int, int)| path.subrange(place.0, place.1)
}

/// The components of a path: the root directory or the current one, where the path
/// begins with it, then the parts between slashes. Repeated slashes, slashes at the
/// end and dots between them make no difference.
pub open spec fn components(path: Seq<char>) -> Seq<Seq<char>> {
    component_places(path).map_values(text_at(path))
}

/// A path as it is seen from a directory: where the path's components begin with
/// the directory's, what comes after those, from its first component to its last;
/// otherwise the whole path.
pub open spec fn path_from(root: Seq<char>, path: Seq<char>) -> Seq<char> {
    let places = component_places(path);
    let n = components(root).len();
    if !components(root).is_prefix_of(components(path)) {
        path
    } else if n == places.len() {
        Seq::empty()
    } else {
        path.subrange(places[n as int].0, places.last().1)
    }
}

/// Whether places follow each other inside a text, from `from` on.
spec fn are_in_order(places: Seq<(int, int)>, from: int, len: int) -> bool {
    &&& forall|k: int|
        0 <= k < places.len() ==> from <= (#[trigger] places[k]).0 < places[k].1 <= len
    &&& forall|k: int, l: int|
        0 <= k < l < places.len() ==> (#[trigger] places[k]).1 <= (#[trigger] places[l]).0
}

proof fn lemma_parts_in_order(path: Seq<char>, from: int)
    requires
        0 <= from <= path.len(),
    ensures
        are_in_order(parts_from(path, from), from, path.len() as int),
    decreases path.len() - from,
{
    text::lemma_find_char(path, '/', from);
    let end = text::find_char(path, '/', from);
    let all = parts_from(path, from);
    let rest = if end < path.len() {
        parts_from(path, end + 1)
    } else {
        Seq::empty()
    };
    if end < path.len() {
        lemma_parts_in_order(path, end + 1);
    }
    if is_part(path, from, end) {
        assert(all == seq![(from, end)] + rest);
        assert forall|k: int| 0 <= k < all.len() implies from <= (#[trigger] all[k]).0 < all[k].1
            <= path.len() by {
            if k > 0 {
                assert(all[k] == rest[k - 1]);
            }
        }
        assert forall|k: int, l: int| 0 <= k < l < all.len() implies (#[trigger] all[k]).1 <= (
        #[trigger] all[l]).0 by {
            assert(all[l] == rest[l - 1]);
            if k > 0 {
                assert(all[k] == rest[k - 1]);
            }
        }
    }
}

proof fn lemma_places_in_order(path: Seq<char>)
    ensures
        are_in_order(component_places(path), 0, path.len() as int),
{
    let all = component_places(path);
    if has_start(path) {
        lemma_parts_in_order(path, 1);
        let rest = parts_from(path, 1);
        assert forall|k: int| 0 <= k < all.len() implies 0 <= (#[trigger] all[k]).0 < all[k].1
            <= path.len() by {
            if k > 0 {
                assert(all[k] == rest[k - 1]);
            }
        }
        assert forall|k: int, l: int| 0 <= k < l < all.len() implies (#[trigger] all[k]).1 <= (
        #[trigger] all[l]).0 by {
            assert(all[l] == rest[l - 1]);
            if k > 0 {
                assert(all[k] == rest[k - 1]);
            }
        }
    } else {
        lemma_parts_in_order(path, 0);
    }
}

/// The places of a path's components, in views.
spec fn places_view(places: Seq<(usize, usize)>) -> Seq<(int, int)> {
    places.map_values(|place: (usize, usize)| (place.0 as int, place.1 as int))
}

/// Whether a component stands at a place of a path.
spec fn stands_at(path: Seq<char>, place: (usize, usize), component: Seq<char>) -> bool {
    place.0 < place.1 <= path.len() && component == path.subrange(place.0 as int, place.1 as int)
}

/// Whether the components of a path stand at some places.
spec fn are_components(path: Seq<char>, places: Seq<(usize, usize)>) -> bool {
    &&& places_view(places) == component_places(path)
    &&& places.len() == components(path).len()
    &&& forall|k: int|
        0 <= k < places.len() ==> stands_at(path, #[trigger] places[k], components(path)[k])
}

proof fn lemma_are_components(path: Seq<char>, places: Seq<(usize, usize)>)
    requires
        places_view(places) == component_places(path),
    ensures
        are_components(path, places),
{
    lemma_places_in_order(path);
    assert forall|k: int| 0 <= k < places.len() implies stands_at(
        path,
        #[trigger] places[k],
        components(path)[k],
    ) by {
        assert(component_places(path)[k] == places_view(places)[k]);
    }
}

/// Find where the components of a path stand.
fn find_components(path: &Vec<char>) -> (r: Vec<(usize, usize)>)
    ensures
        are_components(path@, r@),
{
    let n: usize = path.len();
    let mut places: Vec<(usize, usize)> = Vec::new();
    let start = n > 0 && (path[0] == '/' || (path[0] == '.' && (n == 1 || path[1] == '/')));
    let mut from: usize = 0;
    if start {
        places.push((0, 1));
        from = 1;
    }
    assert(places_view(places@) + parts_from(path@, from as int) =~= component_places(path@));
    loop
        invariant
            from <= n == path@.len(),
            places_view(places@) + parts_from(path@, from as int) == component_places(path@),
        decreases n - from,
    {
        let ghost before = places_view(places@);
        let end: usize = text::find(path, '/', from);
        if from < end && !(end == from + 1 && path[from] == '.') {
            places.push((from, end));
            assert(places_view(places@) =~= before.push((from as int, end as int)));
        }
        if end >= n {
            proof {
                assert(places_view(places@) =~= before + parts_from(path@, from as int));
                lemma_are_components(path@, places@);
            }
            return places;
        }
        assert(before + parts_from(path@, from as int) =~= places_view(places@) + parts_from(
            path@,
            end + 1,
        ));
        from = end + 1;
    }
}

/// Whether the same text stands at two places.
fn same_text(
    a: &Vec<char>,
    at: (usize, usize),
    b: &Vec<char>,
    place: (usize, usize),
) -> (r: bool)
    requires
        at.0 <= at.1 <= a@.len(),
        place.0 <= place.1 <= b@.len(),
    ensures
        r == (a@.subrange(at.0 as int, at.1 as int) == b@.subrange(
            place.0 as int,
            place.1 as int,
        )),
{
    text::same(
        text::text_of(a, at.0, at.1).as_str(),
        text::text_of(b, place.0, place.1).as_str(),
    )
}

/// Take a directory's components off a path.
pub fn relative_path(root: &str, path: &str) -> (r: String)
    ensures
        r@ == path_from(root@, path@),
{
    let base = text::chars_of(root);
    let whole = text::chars_of(path);
    let off = find_components(&base);
    let places = find_components(&whole);
    let n: usize = off.len();
    if n > places.len() {
        return path.to_owned();
    }
    let mut k: usize = 0;
    while k < n
        invariant
            k <= n == off@.len() <= places@.len(),
            base@ == root@,
            whole@ == path@,
            are_components(root@, off@),
            are_components(path@, places@),
            forall|l: int| 0 <= l < k ==> components(root@)[l] == components(path@)[l],
        decreases n - k,
    {
        assert(stands_at(root@, off@[k as int], components(root@)[k as int]));
        assert(stands_at(path@, places@[k as int], components(path@)[k as int]));
        if !same_text(&base, off[k], &whole, places[k]) {
            assert(components(path@).subrange(0, n as int)[k as int] != components(
                root@,
            )[k as int]);
            return path.to_owned();
        }
        k += 1;
    }
    assert(components(path@).subrange(0, n as int) =~= components(root@));
    if n == places.len() {
        return String::new();
    }
    let last: usize = places.len() - 1;
    proof {
        lemma_places_in_order(path@);
        assert(component_places(path@)[n as int] == places_view(places@)[n as int]);
        assert(component_places(path@)[last as int] == places_view(places@)[last as int]);
        assert(stands_at(path@, places@[last as int], components(path@)[last as int]));
    }
    text::text_of(&whole, places[n].0, places[last].1)
}

/// A place, further back.
spec fn further(by: int) -> spec_fn((int, int)) -> (int, int) {
    |place: (int, int)| (place.0 + by, place.1 + by)
}

proof fn lemma_parts_behind(front: Seq<char>, path: Seq<char>, from: int)
    requires
        0 <= from <= path.len(),
    ensures
        parts_from(front + path, front.len() + from) == parts_from(path, from).map_values(
            further(front.len() as int),
        ),
    decreases path.len() - from,
{
    let by = front.len() as int;
    let whole = front + path;
    let end = text::find_char(path, '/', from);
    text::lemma_find_char(path, '/', from);
    assert forall|k: int| by + from <= k < by + end implies whole[k] != '/' by {
        assert(whole[k] == path[k - by]);
    }
    text::lemma_find_char_at(whole, '/', by + from, by + end);
    if end < path.len() {
        lemma_parts_behind(front, path, end + 1);
    }
    assert(is_part(whole, by + from, by + end) == is_part(path, from, end));
    assert(parts_from(whole, by + from) =~= parts_from(path, from).map_values(further(by)));
}

proof fn lemma_parts_joined(front: Seq<char>, path: Seq<char>, from: int)
    requires
        0 <= from <= front.len(),
    ensures
        parts_from(front + seq!['/'] + path, from) == parts_from(front, from) + parts_from(
            path,
            0,
        ).map_values(further(front.len() as int + 1)),
    decreases front.len() - from,
{
    let whole = front + seq!['/'] + path;
    let end = text::find_char(front, '/', from);
    let behind = parts_from(path, 0).map_values(further(front.len() as int + 1));
    text::lemma_find_char(front, '/', from);
    assert forall|k: int| from <= k < end implies whole[k] != '/' by {
        assert(whole[k] == front[k]);
    }
    assert(whole[end] == '/');
    text::lemma_find_char_at(whole, '/', from, end);
    assert(is_part(whole, from, end) == is_part(front, from, end));
    if end < front.len() {
        lemma_parts_joined(front, path, end + 1);
    } else {
        lemma_parts_behind(front + seq!['/'], path, 0);
    }
    assert(parts_from(whole, from) =~= parts_from(front, from) + behind);
}

proof fn lemma_no_parts()
    ensures
        parts_from(Seq::<char>::empty(), 0).len() == 0,
{
    text::lemma_find_char(Seq::<char>::empty(), '/', 0);
}

proof fn lemma_first_place(path: Seq<char>)
    requires
        path.len() > 0,
    ensures
        component_places(path).len() > 0,
        component_places(path)[0].0 == 0,
{
    if !has_start(path) {
        text::lemma_find_char(path, '/', 0);
        let end = text::find_char(path, '/', 0);
        assert(end > 0);
        assert(is_part(path, 0, end));
    }
}

/// What joining puts behind a directory: its components, then those of the path.
proof fn lemma_joined_places(root: Seq<char>, path: Seq<char>) -> (by: int)
    requires
        root.len() > 0,
        !has_start(path),
    ensures
        path_in(root, path).len() == by + path.len(),
        path_in(root, path).subrange(by, by + path.len()) == path,
        root.is_prefix_of(path_in(root, path)),
        component_places(path_in(root, path)) == component_places(root) + component_places(
            path,
        ).map_values(further(by)),
{
    reveal_strlit("/");
    let front = if root.last() == '/' {
        root.drop_last()
    } else {
        root
    };
    let whole = path_in(root, path);
    let by: int = front.len() as int + 1;
    lemma_no_parts();
    assert(whole =~= front + seq!['/'] + path);
    assert(root.is_prefix_of(whole)) by {
        assert(whole.subrange(0, root.len() as int) =~= root);
    }
    assert(whole.subrange(by, by + path.len()) =~= path);
    assert(parts_from(Seq::<char>::empty(), 0).map_values(further(by)) =~= Seq::empty());
    if front.len() == 0 {
        assert(root =~= seq!['/']);
        lemma_parts_behind(seq!['/'], path, 0);
        assert(whole =~= seq!['/'] + path);
        lemma_parts_behind(seq!['/'], Seq::empty(), 0);
        assert(seq!['/'] + Seq::<char>::empty() =~= root);
        assert(component_places(whole) =~= component_places(root) + component_places(
            path,
        ).map_values(further(by)));
    } else {
        let from: int = if has_start(root) {
            1
        } else {
            0
        };
        assert(root[0] == whole[0] && root[0] == front[0]);
        if front.len() > 1 {
            assert(root[1] == whole[1]);
        } else {
            assert(whole[1] == '/');
        }
        assert(has_start(whole) == has_start(root));
        lemma_parts_joined(front, path, from);
        if root.last() == '/' {
            lemma_parts_joined(front, Seq::empty(), from);
            assert(front + seq!['/'] + Seq::<char>::empty() =~= root);
        }
        assert(parts_from(root, from) =~= parts_from(front, from));
        assert(component_places(whole) =~= component_places(root) + component_places(
            path,
        ).map_values(further(by)));
    }
    by
}

/// A path joined to a directory is seen from it as it was, if it is a relative path
/// that begins and ends with a part: not with a slash, and not with a dot alone.
pub proof fn joined_path_reads_back(root: Seq<char>, path: Seq<char>)
    requires
        path.len() > 0 ==> path[0] != '/' && component_places(path).last().1 == path.len(),
        has_start(path) ==> root.len() == 0,
    ensures
        path_from(root, path_in(root, path)) == path,
{
    let whole = path_in(root, path);
    let places = component_places(whole);
    lemma_no_parts();
    if path.len() > 0 {
        lemma_first_place(path);
    } else {
        assert(path =~= Seq::empty());
    }
    if root.len() == 0 {
        assert(root =~= Seq::empty());
        assert(whole =~= path);
        assert(components(root).len() == 0);
        assert(components(whole).subrange(0, 0) =~= components(root));
        if path.len() > 0 {
            assert(path.subrange(0, path.len() as int) =~= path);
        }
    } else {
        let by = lemma_joined_places(root, path);
        let n = component_places(root).len() as int;
        lemma_places_in_order(root);
        assert forall|k: int| 0 <= k < n implies #[trigger] components(root)[k] == components(
            whole,
        )[k] by {
            let place = component_places(root)[k];
            assert(places[k] == place);
            assert(root =~= whole.subrange(0, root.len() as int));
            assert(root.subrange(place.0, place.1) =~= whole.subrange(place.0, place.1));
        }
        assert(components(whole).subrange(0, n) =~= components(root));
        if path.len() > 0 {
            let m = component_places(path).len() as int;
            assert(places[n] == further(by)(component_places(path)[0]));
            assert(places[n + m - 1] == further(by)(component_places(path)[m - 1]));
        }
    }
}

// ── Reading back ────────────────────────────────────────────────────────

/// A position that is encoded reads back.
pub proof fn position_reads_back(position: Position)
    ensures
        position_of(Some(position_json(position))) == Some(position),
{
    reveal_strlit("line");
    reveal_strlit("character");
    assert("line"@.len() != "character"@.len());
    let j = position_json(position);
    let names = seq!["line"@, "character"@];
    assert(slot(j, names, 0) == Some(JsonView::Int(position.line as int)));
    assert(slot(j, names, 1) == Some(JsonView::Int(position.character as int)));
}

/// A range that is encoded reads back.
pub proof fn range_reads_back(range: Range)
    ensures
        range_of(Some(range_json(range))) == Some(range),
{
    reveal_strlit("start");
    reveal_strlit("end");
    assert("start"@.len() != "end"@.len());
    position_reads_back(range.start);
    position_reads_back(range.end);
    let j = range_json(range);
    let names = seq!["start"@, "end"@];
    assert(slot(j, names, 0) == Some(position_json(range.start)));
    assert(slot(j, names, 1) == Some(position_json(range.end)));
}

/// A hierarchy item that is encoded reads back, so the item a server is asked
/// about is the one it named.
pub proof fn item_reads_back(item: ItemView)
    ensures
        item_of(item_json(item)) == Some(item),
{
    reveal_strlit("name");
    reveal_strlit("kind");
    reveal_strlit("uri");
    reveal_strlit("range");
    reveal_strlit("selectionRange");
    reveal_strlit("detail");
    assert("name"@[0] != "kind"@[0]);
    assert("name"@.len() == 4 && "kind"@.len() == 4 && "uri"@.len() == 3);
    assert("range"@.len() == 5 && "selectionRange"@.len() == 14 && "detail"@.len() == 6);
    range_reads_back(item.range);
    range_reads_back(item.selection_range);
    let j = item_json(item);
    let names = item_names();
    assert(slot(j, names, 0) == Some(JsonView::Text(item.name)));
    assert(slot(j, names, 1) == Some(JsonView::Int(item.kind as int)));
    assert(slot(j, names, 2) == Some(JsonView::Text(item.uri)));
    assert(slot(j, names, 3) == Some(range_json(item.range)));
    assert(slot(j, names, 4) == Some(range_json(item.selection_range)));
    assert(slot(j, names, 5) == Some(optional_text_json(item.detail)));
}

/// An absolute path stands as it is; any other is put behind the directory, with one
/// slash between the two.
pub proof fn paths_are_joined_by_one_slash(root: Seq<char>, path: Seq<char>)
    ensures
        path.len() > 0 && path[0] == '/' ==> path_in(root, path) == path,
        (path.len() == 0 || path[0] != '/') && root.len() > 0 && root.last() == '/' ==> path_in(
            root,
            path,
        ) == root + path,
        (path.len() == 0 || path[0] != '/') && root.len() > 0 && root.last() != '/' ==> path_in(
            root,
            path,
        ) == root.push('/') + path,
        (path.len() == 0 || path[0] != '/') && root.len() == 0 ==> path_in(root, path) == path,
{
    reveal_strlit("/");
    assert(root + "/"@ =~= root.push('/'));
    assert(Seq::<char>::empty() + path =~= path);
    if root.len() == 0 {
        assert(root + path =~= path);
    }
}

/// A path that is not in a directory is seen from it as it is: its components do not
/// begin with the directory's.
pub proof fn path_elsewhere_stays(root: Seq<char>, path: Seq<char>, k: int)
    requires
        0 <= k < components(root).len(),
        k >= components(path).len() || components(path)[k] != components(root)[k],
    ensures
        path_from(root, path) == path,
{
    if components(root).is_prefix_of(components(path)) {
        assert(components(root) == components(path).subrange(0, components(root).len() as int));
        assert(components(path)[k] == components(root)[k]);
    }
}

/// A URI that does not begin with `file://` names no path; one that does names what
/// stands behind that.
pub proof fn only_file_uris_name_paths(uri: Seq<char>)
    ensures
        match path_of(uri) {
            Some(path) => uri == "file://"@ + path,
            None => !"file://"@.is_prefix_of(uri),
        },
{
    if "file://"@.is_prefix_of(uri) {
        assert(uri =~= "file://"@ + uri.skip("file://"@.len() as int));
    }
}

} // verus!
