//! What the messages of a server are read as, whatever else they hold.

use vstd::prelude::*;

use crate::capability::LspCapability;
use crate::client;
use crate::client::OutboundView;
use crate::error;
use crate::error::LspErrorView;
use crate::json;
use crate::json::JsonView;
use crate::lifecycle;
use crate::protocol;
use crate::protocol::{CallView, ItemView, LocationView, Position, Range};
use crate::registry::{GapReasonView, ResolvedView};

verus! {

/// Whether a value is an object that holds a value under a name.
pub open spec fn holds(j: JsonView, name: Seq<char>) -> bool {
    j matches JsonView::Object(fields) && fields.dom().contains(name)
}

/// What an object holds under a name.
pub open spec fn at(j: JsonView, name: Seq<char>) -> JsonView {
    j->Object_0[name]
}

/// Whether a value says a position: an object with a line and a character.
pub open spec fn says_position(j: JsonView, position: Position) -> bool {
    &&& holds(j, "line"@)
    &&& holds(j, "character"@)
    &&& at(j, "line"@) == JsonView::Int(position.line as int)
    &&& at(j, "character"@) == JsonView::Int(position.character as int)
}

/// Whether a value says a range: an object with a start and an end.
pub open spec fn says_range(j: JsonView, range: Range) -> bool {
    &&& holds(j, "start"@)
    &&& holds(j, "end"@)
    &&& says_position(at(j, "start"@), range.start)
    &&& says_position(at(j, "end"@), range.end)
}

/// Whether a value says a location.
pub open spec fn says_location(j: JsonView, location: LocationView) -> bool {
    &&& holds(j, "uri"@)
    &&& holds(j, "range"@)
    &&& at(j, "uri"@) == JsonView::Text(location.uri)
    &&& says_range(at(j, "range"@), location.range)
}

/// Whether a value is a link to a location: it says the location's document and the
/// range of the name in it, and is no location itself.
pub open spec fn links_to(j: JsonView, location: LocationView) -> bool {
    &&& holds(j, "targetUri"@)
    &&& holds(j, "targetSelectionRange"@)
    &&& at(j, "targetUri"@) == JsonView::Text(location.uri)
    &&& says_range(at(j, "targetSelectionRange"@), location.range)
    &&& !holds(j, "uri"@)
}

/// Whether a value says an item of a hierarchy.
pub open spec fn says_item(j: JsonView, item: ItemView) -> bool {
    &&& holds(j, "name"@) && at(j, "name"@) == JsonView::Text(item.name)
    &&& holds(j, "kind"@) && at(j, "kind"@) == JsonView::Int(item.kind as int)
    &&& holds(j, "uri"@) && at(j, "uri"@) == JsonView::Text(item.uri)
    &&& holds(j, "range"@) && says_range(at(j, "range"@), item.range)
    &&& holds(j, "selectionRange"@) && says_range(at(j, "selectionRange"@), item.selection_range)
    &&& match item.detail {
        Some(detail) => holds(j, "detail"@) && at(j, "detail"@) == JsonView::Text(detail),
        None => holds(j, "detail"@) ==> at(j, "detail"@) == JsonView::Null,
    }
}

/// Whether a value says an outgoing call: what is called, and where.
pub open spec fn says_call(j: JsonView, call: CallView) -> bool {
    &&& holds(j, "to"@) && says_item(at(j, "to"@), call.other)
    &&& holds(j, "fromRanges"@)
    &&& at(j, "fromRanges"@) matches JsonView::Array(ranges) && {
        &&& ranges.len() == call.from_ranges.len()
        &&& forall|i: int|
            0 <= i < ranges.len() ==> says_range(#[trigger] ranges[i], call.from_ranges[i])
    }
}

proof fn lemma_slot(j: JsonView, names: Seq<Seq<char>>, i: int)
    requires
        j is Object,
        0 <= i < names.len(),
    ensures
        protocol::slot(j, names, i) == if holds(j, names[i]) {
            Some(at(j, names[i]))
        } else {
            None
        },
{
}

proof fn lemma_position(j: JsonView, position: Position)
    requires
        says_position(j, position),
    ensures
        protocol::position_of(Some(j)) == Some(position),
{
    let names = seq!["line"@, "character"@];
    lemma_slot(j, names, 0);
    lemma_slot(j, names, 1);
}

proof fn lemma_range(j: JsonView, range: Range)
    requires
        says_range(j, range),
    ensures
        protocol::range_of(Some(j)) == Some(range),
{
    let names = seq!["start"@, "end"@];
    lemma_slot(j, names, 0);
    lemma_slot(j, names, 1);
    lemma_position(at(j, "start"@), range.start);
    lemma_position(at(j, "end"@), range.end);
}

proof fn lemma_location(j: JsonView, location: LocationView)
    requires
        says_location(j, location),
    ensures
        protocol::location_of(j) == Some(location),
{
    let names = seq!["uri"@, "range"@];
    lemma_slot(j, names, 0);
    lemma_slot(j, names, 1);
    lemma_range(at(j, "range"@), location.range);
}

proof fn lemma_link(j: JsonView, location: LocationView)
    requires
        links_to(j, location),
    ensures
        protocol::location_under(j, "targetUri"@, "targetSelectionRange"@) == Some(location),
        protocol::location_of(j) is None,
{
    let names = seq!["targetUri"@, "targetSelectionRange"@];
    lemma_slot(j, names, 0);
    lemma_slot(j, names, 1);
    lemma_range(at(j, "targetSelectionRange"@), location.range);
    lemma_slot(j, seq!["uri"@, "range"@], 0);
}

proof fn lemma_item(j: JsonView, item: ItemView)
    requires
        says_item(j, item),
    ensures
        protocol::item_of(j) == Some(item),
{
    let names = protocol::item_names();
    lemma_slot(j, names, 0);
    lemma_slot(j, names, 1);
    lemma_slot(j, names, 2);
    lemma_slot(j, names, 3);
    lemma_slot(j, names, 4);
    lemma_slot(j, names, 5);
    lemma_range(at(j, "range"@), item.range);
    lemma_range(at(j, "selectionRange"@), item.selection_range);
}

/// One location, a list of locations, and a list of links are read as the locations
/// that they say, each of them, in order; `null` is read as none.
pub proof fn locations_are_read(
    answer: JsonView,
    list: Seq<JsonView>,
    locations: Seq<LocationView>,
)
    ensures
        protocol::locations_of(JsonView::Null) == Some(Seq::<LocationView>::empty()),
        protocol::location_list_of(JsonView::Null) == Some(Seq::<LocationView>::empty()),
        locations.len() == 1 && says_location(answer, locations[0]) ==> protocol::locations_of(
            answer,
        ) == Some(locations),
        list.len() == locations.len() && (forall|i: int|
            0 <= i < list.len() ==> says_location(#[trigger] list[i], locations[i]))
            ==> protocol::locations_of(JsonView::Array(list)) == Some(locations)
            && protocol::location_list_of(JsonView::Array(list)) == Some(locations),
        list.len() == locations.len() && (forall|i: int|
            0 <= i < list.len() ==> links_to(#[trigger] list[i], locations[i]))
            ==> protocol::locations_of(JsonView::Array(list)) == Some(locations),
{
    if locations.len() == 1 && says_location(answer, locations[0]) {
        lemma_location(answer, locations[0]);
        assert(seq![locations[0]] =~= locations);
    }
    if list.len() == locations.len() && (forall|i: int|
        0 <= i < list.len() ==> says_location(#[trigger] list[i], locations[i])) {
        assert forall|i: int| 0 <= i < list.len() implies protocol::location_under(
            #[trigger] list[i],
            "uri"@,
            "range"@,
        ) == Some(locations[i]) by {
            lemma_location(list[i], locations[i]);
        }
        assert(protocol::locations_under(list, "uri"@, "range"@)->0 =~= locations);
    }
    if list.len() == locations.len() && (forall|i: int|
        0 <= i < list.len() ==> links_to(#[trigger] list[i], locations[i])) {
        assert forall|i: int| 0 <= i < list.len() implies protocol::location_under(
            #[trigger] list[i],
            "targetUri"@,
            "targetSelectionRange"@,
        ) == Some(locations[i]) && protocol::location_under(list[i], "uri"@, "range"@) is None by {
            lemma_link(list[i], locations[i]);
        }
        if list.len() > 0 {
            assert(protocol::location_under(list[0], "uri"@, "range"@) is None);
        } else {
            assert(protocol::locations_under(list, "uri"@, "range"@)->0 =~= locations);
        }
        assert(protocol::locations_under(list, "targetUri"@, "targetSelectionRange"@)->0
            =~= locations);
    }
}

/// A list of items is read as the items that it says, each of them, in order; `null`
/// is read as none.
pub proof fn items_are_read(list: Seq<JsonView>, items: Seq<ItemView>)
    requires
        list.len() == items.len(),
        forall|i: int| 0 <= i < list.len() ==> says_item(#[trigger] list[i], items[i]),
    ensures
        protocol::items_of(JsonView::Array(list)) == Some(items),
        protocol::items_of(JsonView::Null) == Some(Seq::<ItemView>::empty()),
{
    assert forall|i: int| 0 <= i < list.len() implies protocol::item_of(#[trigger] list[i])
        == Some(items[i]) by {
        lemma_item(list[i], items[i]);
    }
    assert(protocol::items_of(JsonView::Array(list))->0 =~= items);
}

/// A list of outgoing calls is read as the calls that it says, each of them with all
/// its places, in order; `null` is read as none.
pub proof fn calls_are_read(list: Seq<JsonView>, calls: Seq<CallView>)
    requires
        list.len() == calls.len(),
        forall|i: int| 0 <= i < list.len() ==> says_call(#[trigger] list[i], calls[i]),
    ensures
        protocol::outgoing_calls_of(JsonView::Array(list)) == Some(calls),
        protocol::outgoing_calls_of(JsonView::Null) == Some(Seq::<CallView>::empty()),
{
    assert forall|i: int| 0 <= i < list.len() implies protocol::outgoing_call_of(#[trigger] list[i])
        == Some(calls[i]) by {
        let j = list[i];
        let call = calls[i];
        assert(says_call(j, call));
        let names = seq!["to"@, "fromRanges"@];
        lemma_slot(j, names, 0);
        lemma_slot(j, names, 1);
        lemma_item(at(j, "to"@), call.other);
        let ranges = at(j, "fromRanges"@)->Array_0;
        assert forall|k: int| 0 <= k < ranges.len() implies protocol::range_of(
            Some(#[trigger] ranges[k]),
        ) == Some(call.from_ranges[k]) by {
            lemma_range(ranges[k], call.from_ranges[k]);
        }
        assert(protocol::ranges_of(Some(JsonView::Array(ranges)))->0 =~= call.from_ranges);
    }
    assert(protocol::outgoing_calls_of(JsonView::Array(list))->0 =~= calls);
}

/// A list answer with an element that is no record is refused as a whole: nothing of it
/// is taken for an answer.
pub proof fn lists_are_refused_whole(list: Seq<JsonView>, i: int)
    requires
        0 <= i < list.len(),
        !(list[i] is Object),
        !(list[i] is Array),
    ensures
        protocol::location_list_of(JsonView::Array(list)) is None,
        protocol::items_of(JsonView::Array(list)) is None,
        protocol::outgoing_calls_of(JsonView::Array(list)) is None,
{
    assert(protocol::location_under(list[i], "uri"@, "range"@) is None);
    assert(protocol::item_of(list[i]) is None);
    assert(protocol::outgoing_call_of(list[i]) is None);
}

/// The name under which a server announces a capability.
pub open spec fn provider(capability: LspCapability) -> Seq<char> {
    match capability {
        LspCapability::Definition => "definitionProvider"@,
        LspCapability::TypeDefinition => "typeDefinitionProvider"@,
        LspCapability::References => "referencesProvider"@,
        LspCapability::CallHierarchy => "callHierarchyProvider"@,
        LspCapability::TypeHierarchy => "typeHierarchyProvider"@,
    }
}

/// A server serves what it announces when it is initialized, and nothing else: a
/// capability that it leaves out, or announces as `null` or `false`, is not served.
/// Each one is told by its own name.
pub proof fn announced_capabilities_are_served(answer: JsonView, capability: LspCapability)
    requires
        answer is Object,
        holds(answer, "capabilities"@) ==> at(answer, "capabilities"@) is Object,
    ensures
        lifecycle::serves(protocol::capabilities_of(answer), capability) <==> {
            &&& holds(answer, "capabilities"@)
            &&& holds(at(answer, "capabilities"@), provider(capability))
            &&& at(at(answer, "capabilities"@), provider(capability)) != JsonView::Null
            &&& at(at(answer, "capabilities"@), provider(capability)) != JsonView::Bool(false)
        },
        lifecycle::served(protocol::capabilities_of(answer)).contains(capability)
            <==> lifecycle::serves(protocol::capabilities_of(answer), capability),
{
    lemma_slot(answer, seq!["capabilities"@], 0);
    if holds(answer, "capabilities"@) {
        let j = at(answer, "capabilities"@);
        let names = protocol::provider_names();
        lemma_slot(j, names, 0);
        lemma_slot(j, names, 1);
        lemma_slot(j, names, 2);
        lemma_slot(j, names, 3);
        lemma_slot(j, names, 4);
    }
}

/// An answer that is no object, or holds no capabilities, is that of a server that
/// serves nothing.
pub proof fn nothing_is_served_unannounced(answer: JsonView, capability: LspCapability)
    requires
        answer is Null || answer is Bool || answer is Int || answer is Text || (answer is Object
            && !holds(answer, "capabilities"@)),
    ensures
        !lifecycle::serves(protocol::capabilities_of(answer), capability),
{
    if answer is Object {
        lemma_slot(answer, seq!["capabilities"@], 0);
    }
}

// ── Messages ────────────────────────────────────────────────────────────

/// A request names the protocol, its id, its method and its parameters, and a
/// notification all of these but an id, so that no answer to it can be told.
pub proof fn messages_say_what_they_are_for(id: i64, method: Seq<char>, params: JsonView)
    ensures
        ({
            let request = client::request_json(id, method, params);
            let notification = client::notification_json(method, params);
            &&& holds(request, "jsonrpc"@) && at(request, "jsonrpc"@) == JsonView::Text("2.0"@)
            &&& holds(request, "id"@) && at(request, "id"@) == JsonView::Int(id as int)
            &&& holds(request, "method"@) && at(request, "method"@) == JsonView::Text(method)
            &&& holds(request, "params"@) && at(request, "params"@) == params
            &&& holds(notification, "jsonrpc"@) && at(notification, "jsonrpc"@)
                == JsonView::Text("2.0"@)
            &&& holds(notification, "method"@) && at(notification, "method"@)
                == JsonView::Text(method)
            &&& holds(notification, "params"@) && at(notification, "params"@) == params
            &&& !holds(notification, "id"@)
            &&& client::answered_id(request) == Some(id)
            &&& client::answered_id(notification) is None
        }),
{
    reveal_strlit("jsonrpc");
    reveal_strlit("id");
    reveal_strlit("method");
    reveal_strlit("params");
    assert("jsonrpc"@.len() == 7 && "id"@.len() == 2 && "method"@.len() == 6);
    assert("params"@.len() == 6 && "params"@[0] != "method"@[0]);
}

/// A response answers the id that it gives as an integer. It says its error where it
/// has one, whatever result stands beside it; else its result; and nothing where it has
/// neither. A message without such an id answers nobody.
pub proof fn responses_say_their_error_or_their_result(message: JsonView)
    requires
        message is Object,
    ensures
        match client::answered_id(message) {
            Some(id) => holds(message, "id"@) && at(message, "id"@) == JsonView::Int(id as int),
            None => holds(message, "id"@) ==> !(at(message, "id"@) matches JsonView::Int(i)
                && i64::MIN <= i <= i64::MAX),
        },
        client::response_of(message) == if holds(message, "error"@) {
            Err(LspErrorView::JsonRpc(json::rendered(at(message, "error"@))))
        } else if holds(message, "result"@) {
            Ok(at(message, "result"@))
        } else {
            Ok(JsonView::Null)
        },
{
}

/// Closing documents writes one frame for each of them, in order, that names it.
pub proof fn each_document_is_closed_once(ticket: u64, uris: Seq<Seq<char>>, i: int)
    requires
        0 <= i < uris.len(),
    ensures
        ({
            let frames = client::frames_of(OutboundView::CloseDocuments { ticket, uris });
            let params = protocol::did_close_json(uris[i]);
            &&& frames.len() == uris.len()
            &&& frames[i] == client::framed(
                json::rendered(client::notification_json("textDocument/didClose"@, params)),
            )
            &&& holds(params, "textDocument"@)
            &&& holds(at(params, "textDocument"@), "uri"@)
            &&& at(at(params, "textDocument"@), "uri"@) == JsonView::Text(uris[i])
        }),
{
}

/// A message is written as one frame of its own text.
pub proof fn message_is_one_frame(ticket: u64, body: Seq<char>)
    ensures
        client::frames_of(OutboundView::Message { ticket, body }) == seq![client::framed(body)],
{
}

/// Opening a document names it, its language and its text, as its first version.
pub proof fn opened_document_is_named_with_its_text(
    uri: Seq<char>,
    language_id: Seq<char>,
    content: Seq<char>,
)
    ensures
        ({
            let params = protocol::did_open_json(uri, language_id, content);
            let document = at(params, "textDocument"@);
            &&& holds(params, "textDocument"@)
            &&& holds(document, "uri"@) && at(document, "uri"@) == JsonView::Text(uri)
            &&& holds(document, "languageId"@) && at(document, "languageId"@) == JsonView::Text(
                language_id,
            )
            &&& holds(document, "text"@) && at(document, "text"@) == JsonView::Text(content)
            &&& holds(document, "version"@) && at(document, "version"@) == JsonView::Int(1)
        }),
{
    reveal_strlit("uri");
    reveal_strlit("languageId");
    reveal_strlit("version");
    reveal_strlit("text");
    assert("uri"@.len() == 3 && "languageId"@.len() == 10 && "version"@.len() == 7
        && "text"@.len() == 4);
}

// ── The handshake ───────────────────────────────────────────────────────

/// The initialize request names the process, the workspace by its URI, and the options
/// where there are some.
pub proof fn initialize_names_the_workspace(
    process_id: u32,
    root: Seq<char>,
    options: Option<JsonView>,
)
    ensures
        ({
            let params = lifecycle::initialize_request_json(process_id, root, options);
            &&& holds(params, "processId"@) && at(params, "processId"@) == JsonView::Int(
                process_id as int,
            )
            &&& holds(params, "rootUri"@)
            &&& at(params, "rootUri"@) matches JsonView::Text(uri) && protocol::path_of(uri)
                == Some(root)
            &&& holds(params, "capabilities"@)
            &&& match options {
                Some(given) => holds(params, "initializationOptions"@) && at(
                    params,
                    "initializationOptions"@,
                ) == given,
                None => !holds(params, "initializationOptions"@),
            }
        }),
{
    reveal_strlit("processId");
    reveal_strlit("rootUri");
    reveal_strlit("capabilities");
    reveal_strlit("initializationOptions");
    assert("processId"@.len() == 9 && "rootUri"@.len() == 7 && "capabilities"@.len() == 12
        && "initializationOptions"@.len() == 21);
    protocol::path_uri_reads_back(root);
}

/// A handshake leads to a server exactly where the server answers in time. A server that
/// does not, or that answers with an error, is a failure, which carries what the server
/// last wrote to stderr where it wrote something, and which is never taken for a server
/// that can do nothing.
pub proof fn handshake_succeeds_where_the_server_answers(
    reply: Option<Result<JsonView, LspErrorView>>,
    tail: Seq<u8>,
)
    ensures
        match reply {
            Some(Ok(answer)) => lifecycle::handshake_outcome(reply, tail) == Ok::<
                protocol::CapabilitiesView,
                LspErrorView,
            >(protocol::capabilities_of(answer)),
            _ => lifecycle::handshake_outcome(reply, tail) matches Err(failure) && if tail.len()
                == 0 {
                match reply {
                    Some(Err(reason)) => failure matches LspErrorView::InitializeFailed(text)
                        && text == error::lsp_error_text(reason),
                    _ => failure is Timeout,
                }
            } else {
                failure matches LspErrorView::ServerFailedWithStderr { stderr, .. } && stderr
                    == lifecycle::stderr_text(tail)
            },
        },
{
}

/// A server that was found and cannot be used is a gap of its language, which says so,
/// and why, and names its provider as the one that was tried. It is told apart from a
/// language that has no binary.
pub proof fn unusable_server_is_named(resolved: ResolvedView, message: Seq<char>)
    ensures
        ({
            let gap = lifecycle::unusable(resolved, message);
            &&& gap.language == resolved.language
            &&& gap.tried.len() == 1
            &&& gap.tried[0] == resolved.id
            &&& gap.reason matches GapReasonView::ServerUnusable { message: why } && why == message
        }),
{
}

} // verus!
