//! JSON-RPC 2.0 over a byte stream: framing, ids, and who waits for what.
//!
//! The application owns the pipes. It writes what [`JsonRpcClient::next_write`]
//! hands out, in that order, and hands in every message that it reads. Responses
//! are dispatched by id; notifications are dropped.
//!
//! Writes are first in, first out. The queue is bounded: it admits small cleanup
//! batches while a write is blocked, and a queue that is full fails the
//! connection, so that no later write can pass for one that came after a cleanup.

use vstd::prelude::*;

use crate::decimal;
use crate::decimal::parse_decimal;
use crate::error::{LspError, LspErrorView};
use crate::json;
use crate::json::{no_fields, with, Json, JsonView};
use crate::protocol;
use crate::protocol::did_close_params;
use crate::text;
use crate::text::{joined, strip_prefix, trim};

verus! {

// ── Frames ──────────────────────────────────────────────────────────────

/// The header of a frame whose body has `n` bytes.
pub open spec fn frame_header(n: nat) -> Seq<char> {
    "Content-Length: "@ + decimal::decimal_text(n) + "\r\n\r\n"@
}

/// A message with the header that says how long it is.
pub open spec fn framed(body: Seq<char>) -> Seq<char> {
    frame_header(vstd::utf8::encode_utf8(body).len()) + body
}

/// Put a message into a frame.
pub fn frame(body: &str) -> (r: String)
    ensures
        r@ == framed(body@),
        vstd::utf8::encode_utf8(body@).len() <= usize::MAX,
{
    let n: usize = body.as_bytes().len();
    joined("Content-Length: ", decimal::decimal(n as u64).as_str()).concat("\r\n\r\n").concat(body)
}

/// What a header line leaves open, or what it settles.
#[derive(Debug, Clone, Copy, PartialEq, Eq, Structural)]
pub enum HeaderStep {
    /// There are more header lines.
    More,
    /// The header is over, and the body has this many bytes.
    Body(usize),
}

/// The header of a frame that is being read: the length it gave, if any.
#[derive(Debug)]
pub struct FrameHeader {
    content_length: Option<usize>,
}

impl View for FrameHeader {
    type V = Option<usize>;

    closed spec fn view(&self) -> Option<usize> {
        self.content_length
    }
}

/// The length that a header has given after one more line, which is not the last.
pub open spec fn length_after(length: Option<usize>, line: Seq<char>) -> Option<usize> {
    match text::after_prefix(text::trimmed(line), "Content-Length: "@) {
        Some(number) => match decimal::parsed_decimal(number) {
            Some(n) => if n <= usize::MAX {
                Some(n as usize)
            } else {
                None
            },
            None => None,
        },
        None => length,
    }
}

/// What a header line settles. An empty line is the end of the stream; a line
/// with nothing but white space is the end of the header, which must have given
/// a length.
pub open spec fn header_step(length: Option<usize>, line: Seq<char>) -> Result<
    HeaderStep,
    LspErrorView,
> {
    if line.len() == 0 {
        Err(LspErrorView::ServerDied)
    } else if text::trimmed(line).len() > 0 {
        Ok(HeaderStep::More)
    } else {
        match length {
            Some(n) => Ok(HeaderStep::Body(n)),
            None => Err(LspErrorView::Protocol("missing Content-Length header"@)),
        }
    }
}

impl FrameHeader {
    /// A header of which nothing is read yet.
    pub fn new() -> (r: Self)
        ensures
            r@ is None,
    {
        FrameHeader { content_length: None }
    }

    /// Take in a line of the header, with what ends it. An empty line is the end
    /// of the stream.
    pub fn line(&mut self, line: &str) -> (r: Result<HeaderStep, LspError>)
        ensures
            match header_step(old(self)@, line@) {
                Ok(step) => r == Ok::<HeaderStep, LspError>(step),
                Err(error) => r is Err && r->Err_0.deep_view() == error,
            },
            final(self)@ == if text::trimmed(line@).len() > 0 {
                length_after(old(self)@, line@)
            } else {
                old(self)@
            },
    {
        let trimmed = trim(line);
        if line.is_empty() {
            proof {
                assert(text::trimmed(line@).len() == 0);
            }
            return Err(LspError::ServerDied);
        }
        if trimmed.as_str().is_empty() {
            return match self.content_length {
                Some(n) => Ok(HeaderStep::Body(n)),
                None => Err(LspError::Protocol("missing Content-Length header".to_owned())),
            };
        }
        if let Some(number) = strip_prefix(trimmed.as_str(), "Content-Length: ") {
            self.content_length = parse_decimal(number.as_str());
        }
        Ok(HeaderStep::More)
    }
}

/// Read the body of a frame.
pub fn read_message(body: &Vec<u8>) -> (r: Result<Json, LspError>)
    ensures
        match json::parsed(body@) {
            Some(message) => r is Ok && r->Ok_0@ == message,
            None => r is Err && r->Err_0.deep_view() == LspErrorView::Json(
                json::complaint(body@),
            ),
        },
{
    match json::parse(body) {
        Ok(message) => Ok(message),
        Err(complaint) => Err(LspError::Json(complaint)),
    }
}

/// The first line of a frame's header.
pub open spec fn length_line(n: nat) -> Seq<char> {
    "Content-Length: "@ + decimal::decimal_text(n) + "\r\n"@
}

/// A frame's header reads back: it is a line that gives the length and a blank
/// line, and reading the two gives the length of the body that was framed.
pub proof fn frame_header_reads_back(n: usize)
    ensures
        frame_header(n as nat) == length_line(n as nat) + "\r\n"@,
        header_step(None, length_line(n as nat)) == Ok::<HeaderStep, LspErrorView>(
            HeaderStep::More,
        ),
        length_after(None, length_line(n as nat)) == Some(n),
        header_step(Some(n), "\r\n"@) == Ok::<HeaderStep, LspErrorView>(HeaderStep::Body(n)),
{
    reveal_strlit("Content-Length: ");
    reveal_strlit("\r\n");
    reveal_strlit("\r\n\r\n");
    let number = decimal::decimal_text(n as nat);
    let line = length_line(n as nat);
    decimal::lemma_decimal_text(n as nat);
    decimal::decimal_text_reads_back(n as nat);
    assert("\r\n\r\n"@ =~= "\r\n"@ + "\r\n"@);
    assert(frame_header(n as nat) =~= line + "\r\n"@);
    let end = line.len() - 2;
    assert(line[0] == 'C');
    assert(text::content_start(line, 0) == 0);
    assert(line[end] == '\r' && line[end + 1] == '\n');
    assert(line[end - 1] == number.last());
    assert(!text::char_whitespace(line[end - 1]));
    reveal_with_fuel(text::content_end, 3);
    assert(text::content_end(line, 0, line.len() as int) == end);
    assert(text::trimmed(line) =~= "Content-Length: "@ + number);
    assert("Content-Length: "@.is_prefix_of(text::trimmed(line))) by {
        assert(text::trimmed(line).subrange(0, 16) =~= "Content-Length: "@);
    }
    assert(text::trimmed(line).skip(16) =~= number);
    reveal_with_fuel(text::content_start, 3);
    assert(text::content_start("\r\n"@, 0) == 2);
    assert(text::trimmed("\r\n"@).len() == 0);
}

/// How many bytes of a stream its first line takes up, with the line feed that
/// ends it: all, where none does.
pub open spec fn line_length(stream: Seq<u8>) -> nat
    decreases stream.len(),
{
    if stream.len() == 0 {
        0
    } else if stream[0] == 10 {
        1
    } else {
        1 + line_length(stream.drop_first())
    }
}

/// The body of the frame that a stream begins with, and what follows it, given the
/// length that the header has given so far. The header is read line by line, the
/// body by the length. `None` where the stream begins with no frame.
pub open spec fn frame_in(stream: Seq<u8>, length: Option<usize>) -> Option<(Seq<u8>, Seq<u8>)>
    decreases stream.len(),
{
    let n = line_length(stream) as int;
    let line = stream.take(n);
    let rest = stream.skip(n);
    if !(0 < n <= stream.len()) || !vstd::utf8::valid_utf8(line) {
        None
    } else {
        let text = vstd::utf8::decode_utf8(line);
        match header_step(length, text) {
            Ok(HeaderStep::More) => frame_in(rest, length_after(length, text)),
            Ok(HeaderStep::Body(size)) => if size <= rest.len() {
                Some((rest.take(size as int), rest.skip(size as int)))
            } else {
                None
            },
            Err(_) => None,
        }
    }
}

proof fn lemma_line_length(line: Seq<u8>, rest: Seq<u8>)
    requires
        line.len() > 0,
        line.last() == 10,
        forall|i: int| 0 <= i < line.len() - 1 ==> #[trigger] line[i] != 10,
    ensures
        line_length(line + rest) == line.len(),
    decreases line.len(),
{
    let stream = line + rest;
    if line.len() > 1 {
        let tail = line.drop_first();
        assert forall|i: int| 0 <= i < tail.len() - 1 implies #[trigger] tail[i] != 10 by {
            assert(tail[i] == line[i + 1]);
        }
        lemma_line_length(tail, rest);
        assert(stream.drop_first() =~= tail + rest);
        assert(line[0] != 10);
    }
}

proof fn lemma_encode_joined(a: Seq<char>, b: Seq<char>)
    ensures
        vstd::utf8::encode_utf8(a + b) == vstd::utf8::encode_utf8(a) + vstd::utf8::encode_utf8(b),
    decreases a.len(),
{
    if a.len() == 0 {
        assert(a + b =~= b);
        assert(vstd::utf8::encode_utf8(a) + vstd::utf8::encode_utf8(b)
            =~= vstd::utf8::encode_utf8(b));
    } else {
        lemma_encode_joined(a.drop_first(), b);
        assert((a + b).drop_first() =~= a.drop_first() + b);
        assert((a + b)[0] == a[0]);
        assert(vstd::utf8::encode_utf8(a + b) =~= vstd::utf8::encode_utf8(a)
            + vstd::utf8::encode_utf8(b));
    }
}

/// An ASCII line that ends with the only line feed in it is read as one line.
proof fn lemma_line_is_read(line: Seq<char>, rest: Seq<u8>)
    requires
        vstd::utf8::is_ascii_chars(line),
        line.len() > 0,
        line.last() == '\n',
        forall|i: int| 0 <= i < line.len() - 1 ==> #[trigger] line[i] != '\n',
    ensures
        ({
            let stream = vstd::utf8::encode_utf8(line) + rest;
            let n = line_length(stream) as int;
            &&& n == vstd::utf8::encode_utf8(line).len()
            &&& n > 0
            &&& vstd::utf8::valid_utf8(stream.take(n))
            &&& vstd::utf8::decode_utf8(stream.take(n)) == line
            &&& stream.skip(n) == rest
        }),
{
    let bytes = vstd::utf8::encode_utf8(line);
    vstd::utf8::is_ascii_chars_encode_utf8(line);
    assert forall|i: int| 0 <= i < bytes.len() - 1 implies #[trigger] bytes[i] != 10 by {
        assert(line[i] as u8 == bytes[i]);
        assert('\0' <= line[i] <= '\u{7f}');
    }
    assert(line[line.len() - 1] as u8 == bytes[line.len() - 1]);
    lemma_line_length(bytes, rest);
    vstd::utf8::encode_utf8_valid_utf8(line);
    vstd::utf8::encode_utf8_decode_utf8(line);
    assert((bytes + rest).take(bytes.len() as int) =~= bytes);
    assert((bytes + rest).skip(bytes.len() as int) =~= rest);
}

/// Reading undoes writing: a stream that begins with a framed message gives the
/// message's bytes, and leaves exactly what follows them.
pub proof fn frame_reads_back(body: Seq<char>, rest: Seq<u8>)
    requires
        vstd::utf8::encode_utf8(body).len() <= usize::MAX,
    ensures
        frame_in(vstd::utf8::encode_utf8(framed(body)) + rest, None) == Some(
            (vstd::utf8::encode_utf8(body), rest),
        ),
{
    reveal_strlit("Content-Length: ");
    reveal_strlit("\r\n");
    let bytes = vstd::utf8::encode_utf8(body);
    let n = bytes.len();
    let number = decimal::decimal_text(n);
    let first = length_line(n);
    let blank = "\r\n"@;
    frame_header_reads_back(n as usize);
    decimal::lemma_decimal_text(n);
    assert forall|i: int| 0 <= i < first.len() implies '\0' <= #[trigger] first[i] <= '\u{7f}'
        && (i < first.len() - 1 ==> first[i] != '\n') by {
        if 16 <= i < 16 + number.len() {
            assert(first[i] == number[i - 16]);
            assert(text::ascii_digit(number[i - 16]));
        }
    }
    let stream = vstd::utf8::encode_utf8(framed(body)) + rest;
    let after_first = vstd::utf8::encode_utf8(blank) + (bytes + rest);
    assert(framed(body) =~= first + (blank + body));
    lemma_encode_joined(first, blank + body);
    lemma_encode_joined(blank, body);
    assert(stream =~= vstd::utf8::encode_utf8(first) + after_first);
    lemma_line_is_read(first, after_first);
    lemma_line_is_read(blank, bytes + rest);
    assert(frame_in(after_first, Some(n as usize)) == Some((bytes, rest))) by {
        assert((bytes + rest).take(n as int) =~= bytes);
        assert((bytes + rest).skip(n as int) =~= rest);
    }
}

/// Whether a stream begins with a frame that spells a message, with `rest` behind
/// it.
pub open spec fn spells(stream: Seq<u8>, message: JsonView, rest: Seq<u8>) -> bool {
    frame_in(stream, None) matches Some((body, left)) && json::parsed(body) == Some(message)
        && left == rest
}

/// The frame of a message, which is read back where the message is plain.
pub fn frame_message(message: &Json) -> (r: String)
    ensures
        r@ == framed(json::rendered(message@)),
        json::is_plain(message@, 127) ==> forall|rest: Seq<u8>|
            spells(#[trigger] (vstd::utf8::encode_utf8(r@) + rest), message@, rest),
{
    let body = json::render(message);
    let r = frame(body.as_str());
    proof {
        if json::is_plain(message@, 127) {
            assert forall|rest: Seq<u8>| spells(
                #[trigger] (vstd::utf8::encode_utf8(r@) + rest),
                message@,
                rest,
            ) by {
                frame_reads_back(body@, rest);
            }
        }
    }
    r
}

// ── Messages ────────────────────────────────────────────────────────────

/// A request.
pub open spec fn request_json(id: i64, method: Seq<char>, params: JsonView) -> JsonView {
    JsonView::Object(
        map![
            "jsonrpc"@ => JsonView::Text("2.0"@),
            "id"@ => JsonView::Int(id as int),
            "method"@ => JsonView::Text(method),
            "params"@ => params,
        ],
    )
}

/// Build a request.
pub fn request_message(id: i64, method: &str, params: Json) -> (r: Json)
    ensures
        r@ == request_json(id, method@, params@),
{
    let fields = with(no_fields(), "jsonrpc", Json::Text("2.0".to_owned()));
    let fields = with(fields, "id", Json::Int(id));
    let fields = with(fields, "method", Json::Text(method.to_owned()));
    let fields = with(fields, "params", params);
    Json::Object(fields)
}

/// A notification.
pub open spec fn notification_json(method: Seq<char>, params: JsonView) -> JsonView {
    JsonView::Object(
        map![
            "jsonrpc"@ => JsonView::Text("2.0"@),
            "method"@ => JsonView::Text(method),
            "params"@ => params,
        ],
    )
}

/// Build a notification.
pub fn notification_message(method: &str, params: Json) -> (r: Json)
    ensures
        r@ == notification_json(method@, params@),
{
    let fields = with(no_fields(), "jsonrpc", Json::Text("2.0".to_owned()));
    let fields = with(fields, "method", Json::Text(method.to_owned()));
    let fields = with(fields, "params", params);
    Json::Object(fields)
}

/// The id that a message answers, if it has one.
pub open spec fn answered_id(message: JsonView) -> Option<i64> {
    match json::member(message, "id"@) {
        Some(JsonView::Int(id)) => if i64::MIN <= id <= i64::MAX {
            Some(id as i64)
        } else {
            None
        },
        _ => None,
    }
}

/// What a response says: the error it carries, or its result, `null` for none.
pub open spec fn response_of(message: JsonView) -> Result<JsonView, LspErrorView> {
    match json::member(message, "error"@) {
        Some(error) => Err(LspErrorView::JsonRpc(json::rendered(error))),
        None => match json::member(message, "result"@) {
            Some(result) => Ok(result),
            None => Ok(JsonView::Null),
        },
    }
}

/// A result, in views.
pub open spec fn response_view(r: Result<Json, LspError>) -> Result<JsonView, LspErrorView> {
    match r {
        Ok(j) => Ok(j@),
        Err(e) => Err(e.deep_view()),
    }
}

/// Read the id that a message answers.
fn read_id(message: &Json) -> (r: Option<i64>)
    ensures
        r == answered_id(message@),
{
    match message.get("id") {
        Some(id) => match id.integer() {
            Some(id) => if id <= i64::MAX as i128 {
                Some(id as i64)
            } else {
                None
            },
            None => None,
        },
        None => None,
    }
}

/// Read what a response says.
pub fn read_response(message: Json) -> (r: Result<Json, LspError>)
    ensures
        response_view(r) == response_of(message@),
{
    if let Some(error) = message.get("error") {
        return Err(LspError::JsonRpc(json::render(error)));
    }
    match message.take("result") {
        Some(result) => Ok(result),
        None => Ok(Json::Null),
    }
}

// ── The connection ──────────────────────────────────────────────────────

/// How many writes can wait besides the one in flight.
pub const QUEUE_CAP: usize = 64;

/// Something to write.
#[derive(Debug)]
pub enum Outbound {
    /// A message.
    Message { ticket: u64, body: String },
    /// A close notification for each of some documents.
    CloseDocuments { ticket: u64, uris: Vec<String> },
}

/// What an [`Outbound`] says.
pub enum OutboundView {
    Message { ticket: u64, body: Seq<char> },
    CloseDocuments { ticket: u64, uris: Seq<Seq<char>> },
}

impl DeepView for Outbound {
    type V = OutboundView;

    open spec fn deep_view(&self) -> OutboundView {
        match self {
            Outbound::Message { ticket, body } => OutboundView::Message {
                ticket: *ticket,
                body: body@,
            },
            Outbound::CloseDocuments { ticket, uris } => OutboundView::CloseDocuments {
                ticket: *ticket,
                uris: uris.deep_view(),
            },
        }
    }
}

/// The notification that closes a document.
pub open spec fn close_body(uri: Seq<char>) -> Seq<char> {
    json::rendered(notification_json("textDocument/didClose"@, protocol::did_close_json(uri)))
}

/// The frames that something to write comes to.
pub open spec fn frames_of(outbound: OutboundView) -> Seq<Seq<char>> {
    match outbound {
        OutboundView::Message { body, .. } => seq![framed(body)],
        OutboundView::CloseDocuments { uris, .. } => uris.map_values(
            |uri: Seq<char>| framed(close_body(uri)),
        ),
    }
}

impl Outbound {
    /// The frames to write, in order.
    pub fn frames(&self) -> (r: Vec<String>)
        ensures
            r.deep_view() == frames_of(self.deep_view()),
    {
        match self {
            Outbound::Message { body, .. } => {
                let one = vec![frame(body.as_str())];
                assert(one.deep_view() =~= frames_of(self.deep_view()));
                one
            },
            Outbound::CloseDocuments { uris, .. } => {
                let ghost all = frames_of(self.deep_view());
                let mut frames: Vec<String> = Vec::new();
                let mut i: usize = 0;
                while i < uris.len()
                    invariant
                        i <= uris@.len(),
                        all.len() == uris@.len(),
                        all == frames_of(self.deep_view()),
                        self.deep_view() matches OutboundView::CloseDocuments { uris: views, .. }
                            && views == uris.deep_view(),
                        frames@.len() == i,
                        forall|k: int| 0 <= k < i ==> (#[trigger] frames@[k])@ == all[k],
                    decreases uris@.len() - i,
                {
                    assert(uris.deep_view()[i as int] == uris@[i as int]@);
                    let params = did_close_params(uris[i].as_str());
                    let message = notification_message("textDocument/didClose", params);
                    frames.push(frame_message(&message));
                    i += 1;
                }
                assert(frames.deep_view() =~= all);
                frames
            },
        }
    }

    /// What tells this write from others.
    pub fn ticket(&self) -> (r: u64)
        ensures
            r == match self.deep_view() {
                OutboundView::Message { ticket, .. } => ticket,
                OutboundView::CloseDocuments { ticket, .. } => ticket,
            },
    {
        match self {
            Outbound::Message { ticket, .. } => *ticket,
            Outbound::CloseDocuments { ticket, .. } => *ticket,
        }
    }
}

/// A JSON-RPC 2.0 client: which request ids wait for a response, what is queued
/// to be written, and whether the connection has failed.
#[derive(Debug)]
pub struct JsonRpcClient {
    next_id: i64,
    waiting: Vec<i64>,
    lost: Vec<i64>,
    queue: Vec<Outbound>,
    next_ticket: u64,
    failed: bool,
}

/// What a [`JsonRpcClient`] says: the ids that wait, those whose response can no
/// longer come, and the writes that wait, the first one first.
pub struct ClientView {
    pub next_id: i64,
    pub waiting: Seq<i64>,
    pub lost: Seq<i64>,
    pub queue: Seq<OutboundView>,
    pub next_ticket: u64,
    pub failed: bool,
}

impl DeepView for JsonRpcClient {
    type V = ClientView;

    closed spec fn deep_view(&self) -> ClientView {
        ClientView {
            next_id: self.next_id,
            waiting: self.waiting@,
            lost: self.lost@,
            queue: self.queue.deep_view(),
            next_ticket: self.next_ticket,
            failed: self.failed,
        }
    }
}

/// The id after an id.
pub open spec fn next_id(id: i64) -> i64 {
    if id == i64::MAX {
        i64::MIN
    } else {
        (id + 1) as i64
    }
}

/// The ticket after a ticket.
pub open spec fn next_ticket(ticket: u64) -> u64 {
    if ticket == u64::MAX {
        0
    } else {
        (ticket + 1) as u64
    }
}

/// A connection on which no response can come any more.
pub open spec fn ended(client: ClientView) -> ClientView {
    ClientView { waiting: Seq::empty(), lost: client.lost + client.waiting, ..client }
}

/// A connection that has failed: nothing more is written, and no response that
/// is waited for can come.
pub open spec fn broken(client: ClientView) -> ClientView {
    ClientView { failed: true, ..ended(client) }
}

/// A connection with one more write queued: refused where it has failed, and
/// failing it where the queue is full.
pub open spec fn queued(client: ClientView, write: OutboundView) -> Result<ClientView, ClientView> {
    if client.failed {
        Err(client)
    } else if client.queue.len() >= QUEUE_CAP {
        Err(broken(client))
    } else {
        Ok(
            ClientView {
                queue: client.queue.push(write),
                next_ticket: next_ticket(client.next_ticket),
                ..client
            },
        )
    }
}

/// What a connection writes next: nothing once it has failed.
pub open spec fn next_out(client: ClientView) -> Option<OutboundView> {
    if client.failed || client.queue.len() == 0 {
        None
    } else {
        Some(client.queue.first())
    }
}

/// A connection after its next write has been handed out.
pub open spec fn after_write(client: ClientView) -> ClientView {
    if next_out(client) is None {
        client
    } else {
        ClientView { queue: client.queue.drop_first(), ..client }
    }
}

/// Whether an id is another one.
pub open spec fn is_not(id: i64) -> spec_fn(i64) -> bool {
    |other: i64| other != id
}

/// The ids without one.
pub open spec fn without(ids: Seq<i64>, id: i64) -> Seq<i64> {
    ids.filter(is_not(id))
}

impl JsonRpcClient {
    /// A fresh connection.
    pub fn new() -> (r: Self)
        ensures
            r.deep_view() == (ClientView {
                next_id: 1,
                waiting: Seq::empty(),
                lost: Seq::empty(),
                queue: Seq::empty(),
                next_ticket: 0,
                failed: false,
            }),
    {
        let r = JsonRpcClient {
            next_id: 1,
            waiting: Vec::new(),
            lost: Vec::new(),
            queue: Vec::new(),
            next_ticket: 0,
            failed: false,
        };
        assert(r.queue.deep_view() =~= Seq::<OutboundView>::empty());
        r
    }

    /// Fail the connection.
    pub fn fail(&mut self)
        ensures
            final(self).deep_view() == broken(old(self).deep_view()),
    {
        let ghost before = self.deep_view();
        self.lose_waiting();
        self.failed = true;
    }

    /// Give up on every response that is waited for: the server closed its end,
    /// or sent what is no message.
    pub fn lose_waiting(&mut self)
        ensures
            final(self).deep_view() == ended(old(self).deep_view()),
    {
        self.lost.append(&mut self.waiting);
    }

    /// The ids whose response can no longer come, each handed out once, with what
    /// the request is answered instead: that the server died.
    pub fn take_lost(&mut self) -> (r: Vec<(i64, Result<Json, LspError>)>)
        ensures
            r@.len() == old(self).deep_view().lost.len(),
            forall|i: int|
                0 <= i < r@.len() ==> (#[trigger] r@[i]).0 == old(self).deep_view().lost[i]
                    && response_view(r@[i].1) == lost_reply(),
            final(self).deep_view() == (ClientView {
                lost: Seq::empty(),
                ..old(self).deep_view()
            }),
    {
        let mut lost: Vec<i64> = Vec::new();
        lost.append(&mut self.lost);
        assert(lost@ =~= old(self).deep_view().lost);
        let mut answers: Vec<(i64, Result<Json, LspError>)> = Vec::new();
        let mut i: usize = 0;
        while i < lost.len()
            invariant
                i <= lost@.len(),
                answers@.len() == i,
                forall|k: int|
                    0 <= k < i ==> (#[trigger] answers@[k]).0 == lost@[k] && response_view(
                        answers@[k].1,
                    ) == lost_reply(),
            decreases lost@.len() - i,
        {
            answers.push((lost[i], Err(LspError::ServerDied)));
            i += 1;
        }
        answers
    }

    /// Queue a write under the next ticket.
    fn enqueue(&mut self, write: Outbound) -> (r: Result<u64, LspError>)
        ensures
            match queued(old(self).deep_view(), write.deep_view()) {
                Ok(after) => r == Ok::<u64, LspError>(old(self).deep_view().next_ticket)
                    && final(self).deep_view() == after,
                Err(after) => r == Err::<u64, LspError>(LspError::ServerDied)
                    && final(self).deep_view() == after,
            },
    {
        if self.failed {
            return Err(LspError::ServerDied);
        }
        if self.queue.len() >= QUEUE_CAP {
            self.fail();
            return Err(LspError::ServerDied);
        }
        let ghost before = self.queue.deep_view();
        let ticket: u64 = self.next_ticket;
        self.queue.push(write);
        assert(self.queue.deep_view() =~= before.push(write.deep_view()));
        self.next_ticket = if ticket == u64::MAX {
            0
        } else {
            ticket + 1
        };
        Ok(ticket)
    }

    /// Whether a response to an id is waited for.
    pub fn waits_for(&self, id: i64) -> (r: bool)
        ensures
            r == self.deep_view().waiting.contains(id),
    {
        let mut i: usize = 0;
        while i < self.waiting.len()
            invariant
                i <= self.waiting@.len(),
                forall|k: int| 0 <= k < i ==> self.waiting@[k] != id,
            decreases self.waiting@.len() - i,
        {
            if self.waiting[i] == id {
                return true;
            }
            i += 1;
        }
        false
    }

    /// Queue a request, and wait for its response. The waiter is there before the
    /// request is, so no response can come too early. Gives the id and the ticket
    /// of the write.
    pub fn request(&mut self, method: &str, params: Json) -> (r: Result<(i64, u64), LspError>)
        ensures
            match requested(old(self).deep_view(), method@, params@) {
                Ok(after) => r == Ok::<(i64, u64), LspError>(
                    (old(self).deep_view().next_id, old(self).deep_view().next_ticket),
                ) && final(self).deep_view() == after,
                Err(after) => r == Err::<(i64, u64), LspError>(LspError::ServerDied)
                    && final(self).deep_view() == after,
            },
    {
        let id: i64 = self.next_id;
        self.next_id = if id == i64::MAX {
            i64::MIN
        } else {
            id + 1
        };
        if !self.waits_for(id) {
            self.waiting.push(id);
        }
        let ghost registered = self.deep_view();
        assert(registered == registered_for(old(self).deep_view()));
        let message = request_message(id, method, params);
        let write = Outbound::Message { ticket: self.next_ticket, body: json::render(&message) };
        match self.enqueue(write) {
            Ok(ticket) => Ok((id, ticket)),
            Err(error) => {
                remove_id(&mut self.waiting, id);
                remove_id(&mut self.lost, id);
                Err(error)
            },
        }
    }

    /// Queue a notification (no response expected). Gives the ticket of the write.
    pub fn notify(&mut self, method: &str, params: Json) -> (r: Result<u64, LspError>)
        ensures
            match queued(
                old(self).deep_view(),
                OutboundView::Message {
                    ticket: old(self).deep_view().next_ticket,
                    body: json::rendered(notification_json(method@, params@)),
                },
            ) {
                Ok(after) => r == Ok::<u64, LspError>(old(self).deep_view().next_ticket)
                    && final(self).deep_view() == after,
                Err(after) => r == Err::<u64, LspError>(LspError::ServerDied)
                    && final(self).deep_view() == after,
            },
    {
        let message = notification_message(method, params);
        let write = Outbound::Message { ticket: self.next_ticket, body: json::render(&message) };
        self.enqueue(write)
    }

    /// Queue the closing of all owned documents. Waiting for the write is
    /// optional; its place in the queue survives caller cancellation. Gives the
    /// ticket of the write.
    pub fn close_documents(&mut self, uris: Vec<String>) -> (r: Result<u64, LspError>)
        ensures
            match queued(
                old(self).deep_view(),
                OutboundView::CloseDocuments {
                    ticket: old(self).deep_view().next_ticket,
                    uris: uris.deep_view(),
                },
            ) {
                Ok(after) => r == Ok::<u64, LspError>(old(self).deep_view().next_ticket)
                    && final(self).deep_view() == after,
                Err(after) => r == Err::<u64, LspError>(LspError::ServerDied)
                    && final(self).deep_view() == after,
            },
    {
        let write = Outbound::CloseDocuments { ticket: self.next_ticket, uris };
        self.enqueue(write)
    }

    /// The next thing to write: the one that was queued first. Nothing is written
    /// once the connection has failed.
    pub fn next_write(&mut self) -> (r: Option<Outbound>)
        ensures
            if old(self).deep_view().failed || old(self).deep_view().queue.len() == 0 {
                r is None && final(self).deep_view() == old(self).deep_view()
            } else {
                r.deep_view() == Some(old(self).deep_view().queue.first())
                    && final(self).deep_view() == (ClientView {
                    queue: old(self).deep_view().queue.drop_first(),
                    ..old(self).deep_view()
                })
            },
            r.deep_view() == next_out(old(self).deep_view()),
            final(self).deep_view() == after_write(old(self).deep_view()),
    {
        if self.failed || self.queue.len() == 0 {
            return None;
        }
        let ghost before = self.queue.deep_view();
        let write = self.queue.remove(0);
        assert(write.deep_view() == before[0]);
        assert(self.queue.deep_view() =~= before.drop_first());
        Some(write)
    }

    /// Whether the connection has failed.
    pub fn has_failed(&self) -> (r: bool)
        ensures
            r == self.deep_view().failed,
    {
        self.failed
    }

    /// Take in a message. A response that is waited for is handed out with its
    /// id, once; every other message is dropped.
    pub fn receive(&mut self, message: Json) -> (r: Option<(i64, Result<Json, LspError>)>)
        ensures
            match delivered(old(self).deep_view(), message@) {
                Some(id) => r matches Some((given, response)) && given == id && response_view(
                    response,
                ) == response_of(message@),
                None => r is None,
            },
            final(self).deep_view() == received(old(self).deep_view(), message@),
    {
        match read_id(&message) {
            None => None,
            Some(id) => {
                if !self.waits_for(id) {
                    return None;
                }
                remove_id(&mut self.waiting, id);
                Some((id, read_response(message)))
            },
        }
    }

    /// Wait no longer for a response: its request could not be sent, or it takes
    /// too long.
    pub fn abandon(&mut self, id: i64)
        ensures
            final(self).deep_view() == (ClientView {
                waiting: without(old(self).deep_view().waiting, id),
                ..old(self).deep_view()
            }),
    {
        remove_id(&mut self.waiting, id);
    }
}

/// A connection that waits for a response to the next id.
pub open spec fn registered_for(client: ClientView) -> ClientView {
    let id = client.next_id;
    ClientView {
        next_id: next_id(id),
        waiting: if client.waiting.contains(id) {
            client.waiting
        } else {
            client.waiting.push(id)
        },
        ..client
    }
}

/// A connection after a request: waiting for its response with the request
/// queued, or, where it cannot be queued, as it is without it.
pub open spec fn requested(client: ClientView, method: Seq<char>, params: JsonView) -> Result<
    ClientView,
    ClientView,
> {
    let id = client.next_id;
    let write = OutboundView::Message {
        ticket: client.next_ticket,
        body: json::rendered(request_json(id, method, params)),
    };
    match queued(registered_for(client), write) {
        Ok(after) => Ok(after),
        Err(after) => Err(
            ClientView {
                waiting: without(after.waiting, id),
                lost: without(after.lost, id),
                ..after
            },
        ),
    }
}

/// What a request is answered whose response can no longer come.
pub open spec fn lost_reply() -> Result<JsonView, LspErrorView> {
    Err(LspErrorView::ServerDied)
}

/// The id to which a message delivers a response.
pub open spec fn delivered(client: ClientView, message: JsonView) -> Option<i64> {
    match answered_id(message) {
        Some(id) => if client.waiting.contains(id) {
            Some(id)
        } else {
            None
        },
        None => None,
    }
}

/// A connection after a message.
pub open spec fn received(client: ClientView, message: JsonView) -> ClientView {
    match delivered(client, message) {
        Some(id) => ClientView { waiting: without(client.waiting, id), ..client },
        None => client,
    }
}

/// Take an id out of a list.
fn remove_id(ids: &mut Vec<i64>, id: i64)
    ensures
        final(ids)@ == without(old(ids)@, id),
{
    let ghost before = ids@;
    let ghost keep = is_not(id);
    let mut kept: Vec<i64> = Vec::new();
    let mut i: usize = 0;
    proof {
        reveal(Seq::filter);
        assert(before.take(0).filter(keep) =~= Seq::<i64>::empty());
    }
    while i < ids.len()
        invariant
            i <= ids@.len(),
            ids@ == before,
            keep == is_not(id),
            kept@ == before.take(i as int).filter(keep),
        decreases ids@.len() - i,
    {
        proof {
            reveal(Seq::filter);
            assert(before.take(i + 1).drop_last() =~= before.take(i as int));
            assert(before.take(i + 1).last() == before[i as int]);
        }
        if ids[i] != id {
            kept.push(ids[i]);
        }
        i += 1;
    }
    assert(before.take(i as int) =~= before);
    *ids = kept;
}

// ── What the connection promises ────────────────────────────────────────

/// A response is delivered once: after it is, the same id is not waited for, so
/// a second response to it is dropped; and no other waiter is touched.
pub proof fn response_is_delivered_once(client: ClientView, message: JsonView, other: i64)
    requires
        delivered(client, message) is Some,
    ensures
        ({
            let id = delivered(client, message)->0;
            let after = ClientView { waiting: without(client.waiting, id), ..client };
            &&& delivered(after, message) is None
            &&& other != id ==> (after.waiting.contains(other) <==> client.waiting.contains(
                other,
            ))
        }),
{
    let id = delivered(client, message)->0;
    let keep = is_not(id);
    let after = without(client.waiting, id);
    if after.contains(id) {
        let i = choose|i: int| 0 <= i < after.len() && after[i] == id;
        client.waiting.lemma_filter_pred(keep, i);
    }
    if other != id {
        if after.contains(other) {
            client.waiting.lemma_filter_contains_rev(keep, other);
        }
        if client.waiting.contains(other) {
            let i = choose|i: int| 0 <= i < client.waiting.len() && client.waiting[i] == other;
            client.waiting.lemma_filter_contains(keep, i);
        }
    }
}

/// A connection after a series of messages.
pub open spec fn after_messages(client: ClientView, messages: Seq<JsonView>) -> ClientView
    decreases messages.len(),
{
    if messages.len() == 0 {
        client
    } else {
        received(after_messages(client, messages.drop_last()), messages.last())
    }
}

/// The responses to an id that a series of messages delivers, in order.
pub open spec fn responses_to(client: ClientView, messages: Seq<JsonView>, id: i64) -> Seq<
    Result<JsonView, LspErrorView>,
>
    decreases messages.len(),
{
    if messages.len() == 0 {
        Seq::empty()
    } else {
        let earlier = messages.drop_last();
        let before = responses_to(client, earlier, id);
        if delivered(after_messages(client, earlier), messages.last()) == Some(id) {
            before.push(response_of(messages.last()))
        } else {
            before
        }
    }
}

/// The answers to an id among those of the ids that are lost.
pub open spec fn lost_replies(lost: Seq<i64>, id: i64) -> Seq<Result<JsonView, LspErrorView>>
    decreases lost.len(),
{
    if lost.len() == 0 {
        Seq::empty()
    } else if lost.last() == id {
        lost_replies(lost.drop_last(), id).push(lost_reply())
    } else {
        lost_replies(lost.drop_last(), id)
    }
}

/// What a request is answered over a series of messages after which the stream ends
/// or cannot be read: the responses that were delivered, then what is answered as
/// one that is lost.
pub open spec fn answers_to(client: ClientView, messages: Seq<JsonView>, id: i64) -> Seq<
    Result<JsonView, LspErrorView>,
> {
    responses_to(client, messages, id) + lost_replies(
        ended(after_messages(client, messages)).lost,
        id,
    )
}

proof fn lemma_lost_replies(lost: Seq<i64>, id: i64)
    requires
        lost.no_duplicates(),
    ensures
        lost_replies(lost, id) == if lost.contains(id) {
            seq![lost_reply()]
        } else {
            Seq::empty()
        },
    decreases lost.len(),
{
    if lost.len() > 0 {
        let before = lost.drop_last();
        lemma_lost_replies(before, id);
        assert(lost[lost.len() - 1] == lost.last());
        assert forall|i: int| 0 <= i < before.len() implies before[i] == lost[i] by {}
        if lost.last() != id && lost.contains(id) {
            let i = choose|i: int| 0 <= i < lost.len() && lost[i] == id;
            assert(before[i] == id);
        }
        if before.contains(id) {
            let i = choose|i: int| 0 <= i < before.len() && before[i] == id;
            assert(lost[i] == id);
        }
    }
}

proof fn lemma_without(ids: Seq<i64>, id: i64)
    requires
        ids.no_duplicates(),
    ensures
        without(ids, id).no_duplicates(),
    decreases ids.len(),
{
    reveal(Seq::filter);
    if ids.len() > 0 {
        let before = ids.drop_last();
        let keep = is_not(id);
        lemma_without(before, id);
        if before.filter(keep).contains(ids.last()) {
            before.lemma_filter_contains_rev(keep, ids.last());
            let i = choose|i: int| 0 <= i < before.len() && before[i] == ids.last();
            assert(ids[i] == ids[ids.len() - 1]);
        }
    }
}

/// No id is waited for twice: a request, a message, and giving up on a response
/// all keep it so.
pub proof fn no_id_waits_twice(
    client: ClientView,
    method: Seq<char>,
    params: JsonView,
    message: JsonView,
    id: i64,
)
    requires
        client.waiting.no_duplicates(),
    ensures
        match requested(client, method, params) {
            Ok(after) => after.waiting.no_duplicates(),
            Err(after) => after.waiting.no_duplicates(),
        },
        received(client, message).waiting.no_duplicates(),
        without(client.waiting, id).no_duplicates(),
        ended(client).waiting.no_duplicates(),
{
    let registered = registered_for(client).waiting;
    assert(registered.no_duplicates());
    lemma_without(registered, client.next_id);
    lemma_without(Seq::empty(), client.next_id);
    lemma_without(client.waiting, id);
    if answered_id(message) is Some {
        lemma_without(client.waiting, answered_id(message)->0);
    }
}

proof fn lemma_after_messages(client: ClientView, messages: Seq<JsonView>)
    requires
        client.waiting.no_duplicates(),
    ensures
        after_messages(client, messages).waiting.no_duplicates(),
        after_messages(client, messages).lost == client.lost,
    decreases messages.len(),
{
    if messages.len() > 0 {
        lemma_after_messages(client, messages.drop_last());
        if answered_id(messages.last()) is Some {
            lemma_without(
                after_messages(client, messages.drop_last()).waiting,
                answered_id(messages.last())->0,
            );
        }
    }
}

/// What the first of some messages that has an id says, if one has it.
pub open spec fn first_response(messages: Seq<JsonView>, id: i64) -> Option<
    Result<JsonView, LspErrorView>,
>
    decreases messages.len(),
{
    if messages.len() == 0 {
        None
    } else if answered_id(messages[0]) == Some(id) {
        Some(response_of(messages[0]))
    } else {
        first_response(messages.drop_first(), id)
    }
}

proof fn lemma_first_response(messages: Seq<JsonView>, id: i64)
    ensures
        messages.len() > 0 ==> first_response(messages, id) == match first_response(
            messages.drop_last(),
            id,
        ) {
            Some(response) => Some(response),
            None => if answered_id(messages.last()) == Some(id) {
                Some(response_of(messages.last()))
            } else {
                None
            },
        },
    decreases messages.len(),
{
    if messages.len() == 1 {
        assert(messages.drop_first() =~= Seq::empty());
        assert(messages.drop_last() =~= Seq::empty());
        assert(first_response(messages.drop_first(), id) is None);
    } else if messages.len() > 1 {
        lemma_first_response(messages.drop_first(), id);
        assert(messages.drop_first().drop_last() =~= messages.drop_last().drop_first());
        assert(messages.drop_first().last() == messages.last());
    }
}

proof fn lemma_responses(client: ClientView, messages: Seq<JsonView>, id: i64)
    ensures
        ({
            let left = after_messages(client, messages);
            if !client.waiting.contains(id) {
                responses_to(client, messages, id).len() == 0 && !left.waiting.contains(id)
            } else {
                match first_response(messages, id) {
                    Some(response) => responses_to(client, messages, id) == seq![response]
                        && !left.waiting.contains(id),
                    None => responses_to(client, messages, id).len() == 0
                        && left.waiting.contains(id),
                }
            }
        }),
    decreases messages.len(),
{
    lemma_first_response(messages, id);
    if messages.len() > 0 {
        let earlier = messages.drop_last();
        let before = after_messages(client, earlier);
        lemma_responses(client, earlier, id);
        if delivered(before, messages.last()) is Some {
            response_is_delivered_once(before, messages.last(), id);
        }
    }
}

/// Every request that waits gets exactly one answer, in whatever order messages
/// come: what the first message with its id says, or, where none has it before the
/// stream ends, that the server died. An id that nobody waits for gets none. What was
/// lost before has been handed out.
pub proof fn every_request_is_answered_once(
    client: ClientView,
    messages: Seq<JsonView>,
    id: i64,
)
    requires
        client.waiting.no_duplicates(),
        client.lost.len() == 0,
    ensures
        answers_to(client, messages, id) == if client.waiting.contains(id) {
            seq![
                match first_response(messages, id) {
                    Some(response) => response,
                    None => lost_reply(),
                },
            ]
        } else {
            Seq::empty()
        },
{
    lemma_responses(client, messages, id);
    lemma_after_messages(client, messages);
    let left = after_messages(client, messages);
    assert(ended(left).lost =~= left.waiting);
    lemma_lost_replies(left.waiting, id);
}

/// A response to a request that was queued is delivered when it comes: the waiter
/// is there as soon as the request is.
pub proof fn request_awaits_its_response(
    client: ClientView,
    method: Seq<char>,
    params: JsonView,
    response: JsonView,
)
    requires
        requested(client, method, params) is Ok,
        answered_id(response) == Some(client.next_id),
    ensures
        delivered(requested(client, method, params)->Ok_0, response) == Some(client.next_id),
{
    let id = client.next_id;
    if !client.waiting.contains(id) {
        let n = client.waiting.len() as int;
        assert(client.waiting.push(id)[n] == id);
    }
}

/// A connection that has failed stays so: every later write is refused and
/// nothing is left waiting, so no later write can pass for one that came after a
/// cleanup that was lost.
pub proof fn failure_is_final(client: ClientView, write: OutboundView)
    ensures
        broken(client).failed,
        broken(client).waiting.len() == 0,
        queued(broken(client), write) == Err::<ClientView, ClientView>(broken(client)),
        client.queue.len() >= QUEUE_CAP && !client.failed ==> queued(client, write) == Err::<
            ClientView,
            ClientView,
        >(broken(client)),
{
}

/// A header line that gives no length leaves the one that is known, and the end of the
/// stream is never taken for the end of a header. A header that ends without a length is
/// an error.
pub proof fn header_lines_settle_only_what_they_say(
    length: Option<usize>,
    line: Seq<char>,
)
    ensures
        !"Content-Length: "@.is_prefix_of(text::trimmed(line)) ==> length_after(length, line)
            == length,
        line.len() == 0 ==> header_step(length, line) == Err::<HeaderStep, LspErrorView>(
            LspErrorView::ServerDied,
        ),
        line.len() > 0 && text::trimmed(line).len() == 0 ==> match length {
            Some(n) => header_step(length, line) == Ok::<HeaderStep, LspErrorView>(
                HeaderStep::Body(n),
            ),
            None => header_step(length, line) is Err,
        },
        text::trimmed(line).len() > 0 && line.len() > 0 ==> header_step(length, line) == Ok::<
            HeaderStep,
            LspErrorView,
        >(HeaderStep::More),
{
}

/// Writes leave in the order in which they were queued: one that is queued comes after
/// all that wait, whether these are handed out before or after it is queued. Where none
/// waits, it is the next one. Handing a write out touches no waiter.
pub proof fn writes_leave_in_order(client: ClientView, write: OutboundView)
    requires
        queued(client, write) is Ok,
    ensures
        ({
            let after = queued(client, write)->Ok_0;
            &&& after.waiting == client.waiting
            &&& after.lost == client.lost
            &&& !after.failed
            &&& after_write(after).waiting == client.waiting
            &&& if client.queue.len() == 0 {
                &&& next_out(after) == Some(write)
                &&& after_write(after).queue.len() == 0
            } else {
                &&& next_out(after) == next_out(client)
                &&& next_out(client) is Some
                &&& queued(after_write(client), write) == Ok::<ClientView, ClientView>(
                    after_write(after),
                )
            }
        }),
{
    let after = queued(client, write)->Ok_0;
    if client.queue.len() > 0 {
        assert(after.queue.drop_first() =~= client.queue.drop_first().push(write));
    }
}

/// A connection takes sixty-four writes that wait and no more: one too many fails it,
/// and every request that waits is lost with it.
pub proof fn full_queue_fails_the_connection(client: ClientView, write: OutboundView)
    requires
        !client.failed,
    ensures
        queued(client, write) is Ok <==> client.queue.len() < 64,
        queued(client, write) matches Err(after) ==> {
            &&& after.failed
            &&& after.waiting.len() == 0
            &&& client.waiting.is_suffix_of(after.lost)
            &&& next_out(after) is None
        },
{
    if client.queue.len() >= 64 {
        let lost = client.lost + client.waiting;
        assert(lost.subrange(lost.len() - client.waiting.len(), lost.len() as int)
            =~= client.waiting);
    }
}

} // verus!
