use kin_lsp::client::JsonRpcClient;
use kin_lsp::enrichment;
use kin_lsp::entity_index::{EntityIndex, EntityRef};
use kin_lsp::error::LspError;
use kin_lsp::file_enrichment::{enrich_file_definitions, file_result, FileEnrichmentResult};
use kin_lsp::json::{no_fields, parse, with, Json};
use kin_lsp::lifecycle::{handshake, LspServer, StderrTail};
use kin_lsp::pass::{Action, Event, Outcome, Pass};
use kin_lsp::protocol::{did_open_params, join_path, path_to_uri, ServerCapabilities};
use kin_lsp::types::{EntityId, GraphNodeId, Relation, RelationKind, RelationOrigin};

const PREPARE_CALL: &str = "textDocument/prepareCallHierarchy";
const CALLS: &str = "callHierarchy/outgoingCalls";
const PREPARE_TYPE: &str = "textDocument/prepareTypeHierarchy";
const SUPERTYPES: &str = "typeHierarchy/supertypes";
const REFERENCES: &str = "textDocument/references";
const TYPES: &str = "textDocument/typeDefinition";
const DEFINITION: &str = "textDocument/definition";
const OPEN: &str = "textDocument/didOpen";
const CLOSE: &str = "textDocument/didClose";

fn json(text: &str) -> Json {
    parse(&text.as_bytes().to_vec()).unwrap()
}

fn range(line: u32) -> String {
    format!(
        "{{\"start\":{{\"line\":{line},\"character\":0}},\"end\":{{\"line\":{line},\"character\":4}}}}"
    )
}

struct Fixture {
    root: &'static str,
    source: EntityRef,
    target: EntityRef,
    index: EntityIndex,
}

impl Fixture {
    fn new() -> Self {
        Self::with_target("Base.run")
    }

    fn with_target(name: &str) -> Self {
        let entity = |name: &str, file: &str, line: u32| EntityRef {
            id: EntityId::new(),
            name: name.to_string(),
            file_path: file.to_string(),
            start_line: line,
            start_col: 0,
            end_line: line,
            name_line: line,
            name_col: 0,
        };
        let source = entity("Caller.run", "source.py", 0);
        let target = entity(name, "types.py", 10);
        let index = EntityIndex::new(vec![source.clone(), target.clone()]);
        Self {
            root: "/w",
            source,
            target,
            index,
        }
    }

    fn uri(&self, file: &str) -> String {
        path_to_uri(&join_path(self.root, file))
    }

    fn item(&self, entity: &EntityRef, name: &str) -> String {
        format!(
            "{{\"name\":\"{name}\",\"kind\":6,\"uri\":\"{}\",\"range\":{},\"selectionRange\":{}}}",
            self.uri(&entity.file_path),
            range(entity.start_line),
            range(entity.start_line)
        )
    }

    fn location(&self) -> String {
        format!(
            "{{\"uri\":\"{}\",\"range\":{}}}",
            self.uri(&self.target.file_path),
            range(self.target.start_line)
        )
    }

    /// A server that answers every request and serves every capability.
    fn peer(&self) -> Peer {
        let source = self.item(&self.source, &self.source.name);
        let target = self.item(&self.target, &self.target.name);
        let parent = self.item(&self.target, "Base");
        let location = self.location();
        let mut peer = Peer {
            answers: Vec::new(),
            seen: Vec::new(),
            asked: Vec::new(),
            client: JsonRpcClient::new(),
        };
        peer.answers_with(PREPARE_CALL, &format!("[{source}]"));
        peer.answers_with(
            CALLS,
            &format!("[{{\"to\":{target},\"fromRanges\":[{}]}}]", range(0)),
        );
        peer.answers_with(PREPARE_TYPE, &format!("[{source}]"));
        peer.answers_with(SUPERTYPES, &format!("[{parent}]"));
        peer.answers_with(REFERENCES, &format!("[{location}]"));
        peer.answers_with(TYPES, &format!("[{location}]"));
        peer.answers_with(DEFINITION, &format!("[{location}]"));
        peer
    }
}

fn server(capabilities: &str) -> LspServer {
    let answer = json(&format!("{{\"capabilities\":{capabilities}}}"));
    handshake(Some(Ok(answer)), &StderrTail::new()).unwrap()
}

fn full_server() -> LspServer {
    server("{\"callHierarchyProvider\":true,\"typeHierarchyProvider\":true,\"typeDefinitionProvider\":true,\"referencesProvider\":true,\"definitionProvider\":true}")
}

#[derive(Clone)]
enum Answer {
    Reply(&'static str, Json),
    Hold,
    Expire,
}

struct Peer {
    answers: Vec<(String, Answer)>,
    seen: Vec<Json>,
    asked: Vec<String>,
    client: JsonRpcClient,
}

impl Peer {
    fn answers_with(&mut self, method: &str, result: &str) {
        self.set(method, Answer::Reply("result", json(result)));
    }

    fn fails(&mut self, method: &str, message: &str) {
        let error = format!("{{\"code\":-32603,\"message\":\"{message}\"}}");
        self.set(method, Answer::Reply("error", json(&error)));
    }

    fn set(&mut self, method: &str, answer: Answer) {
        self.answers.retain(|(known, _)| known != method);
        self.answers.push((method.to_string(), answer));
    }

    fn answer(&self, key: &str) -> Option<Answer> {
        self.answers
            .iter()
            .find(|(known, _)| known == key)
            .map(|(_, answer)| answer.clone())
    }

    /// Take in what the client writes.
    fn read(&mut self) {
        while let Some(write) = self.client.next_write() {
            for frame in write.frames() {
                let (_, body) = frame.split_once("\r\n\r\n").unwrap();
                self.seen.push(json(body));
            }
        }
    }

    fn methods(&self) -> Vec<String> {
        self.seen.iter().map(method).collect()
    }

    fn asked_about(&self, method_name: &str) -> usize {
        self.methods().iter().filter(|m| *m == method_name).count()
    }

    /// The open and close notifications, in order.
    fn lifecycle(&self) -> Vec<String> {
        self.methods()
            .into_iter()
            .filter(|m| m == OPEN || m == CLOSE)
            .collect()
    }

    /// Run a pass until it is over, or until it waits for a reply that is held.
    fn drive(&mut self, pass: &mut Pass, documents: &dyn Fn(&str) -> Option<String>) -> bool {
        loop {
            match pass.action() {
                Action::Finish => return true,
                Action::Read { path } => {
                    self.asked.push(path.clone());
                    pass.step(Event::Text(documents(&path)));
                }
                Action::Open {
                    uri,
                    language_id,
                    content,
                } => {
                    let params = did_open_params(&uri, language_id, &content);
                    let sent = self.client.notify(OPEN, params).map(|_| ());
                    self.read();
                    pass.step(Event::Opened(sent));
                }
                Action::Request {
                    method,
                    params,
                    limit,
                } => {
                    let key = place(method, &params);
                    let (id, _) = self.client.request(method, params).unwrap();
                    self.read();
                    let answer = self
                        .answer(&key)
                        .or_else(|| self.answer(method))
                        .expect("an answer");
                    match answer {
                        Answer::Hold => return false,
                        Answer::Expire => {
                            assert_eq!(limit, Some(2));
                            self.client.abandon(id);
                            pass.step(Event::Expired);
                        }
                        Answer::Reply(part, value) => {
                            let message = with(no_fields(), "id", Json::Int(id));
                            let message = Json::Object(with(message, part, value));
                            let (answered, reply) = self.client.receive(message).unwrap();
                            assert_eq!(answered, id);
                            pass.step(Event::Reply(reply));
                        }
                    }
                }
            }
        }
    }

    /// Run a pass to its end and close what it opened.
    fn run(
        &mut self,
        mut pass: Pass,
        documents: &dyn Fn(&str) -> Option<String>,
    ) -> Outcome {
        assert!(self.drive(&mut pass, documents));
        let outcome = pass.finish();
        if !outcome.open.is_empty() {
            self.client.close_documents(outcome.open.clone()).unwrap();
            self.read();
        }
        outcome
    }

    fn relations(
        &mut self,
        pass: Pass,
        documents: &dyn Fn(&str) -> Option<String>,
    ) -> Result<Vec<Relation>, LspError> {
        self.run(pass, documents)
            .result
            .map(|found| found.into_parts().0)
    }

    fn file(
        &mut self,
        pass: Pass,
        documents: &dyn Fn(&str) -> Option<String>,
    ) -> Result<FileEnrichmentResult, LspError> {
        file_result(self.run(pass, documents))
    }
}

fn method(message: &Json) -> String {
    match message.get("method") {
        Some(Json::Text(method)) => method.clone(),
        other => panic!("no method: {other:?}"),
    }
}

fn uri_of(params: &Json) -> Option<String> {
    match params.get("textDocument")?.get("uri")? {
        Json::Text(uri) => Some(uri.clone()),
        _ => None,
    }
}

fn character_of(params: &Json) -> Option<i64> {
    match params.get("position")?.get("character")? {
        Json::Int(character) => Some(*character),
        _ => None,
    }
}

/// A request at a position, by method, document and column.
fn place(method: &str, params: &Json) -> String {
    match (uri_of(params), character_of(params)) {
        (Some(uri), Some(character)) => format!("{method}@{uri}#{character}"),
        _ => method.to_string(),
    }
}

fn widget(_path: &str) -> Option<String> {
    Some("Widget".to_string())
}

fn nothing(_path: &str) -> Option<String> {
    None
}

fn joined_sources(path: &str) -> Option<String> {
    match path {
        "source.py" => Some("module.run".to_string()),
        "types.py" => Some("run".to_string()),
        _ => None,
    }
}

fn query(
    server: &LspServer,
    peer: &mut Peer,
    fixture: &Fixture,
    method: &str,
) -> Result<Vec<Relation>, LspError> {
    let Fixture {
        root,
        source,
        index,
        ..
    } = fixture;
    let pass = match method {
        PREPARE_CALL | CALLS => enrichment::enrich_entity_calls(server, source, index, root),
        PREPARE_TYPE | SUPERTYPES => {
            enrichment::enrich_entity_overrides(server, source, index, root)
        }
        REFERENCES => enrichment::enrich_entity_references(server, source, index, root),
        TYPES => enrichment::enrich_entity_uses_type(server, source, index, root),
        DEFINITION => {
            enrich_file_definitions(server, &join_path(root, "source.py"), "Widget", index, root)
        }
        _ => unreachable!(),
    };
    peer.relations(pass, &widget)
}

fn rejected_response(method: &str, malformed: bool) {
    let f = Fixture::new();
    let mut peer = f.peer();
    if malformed {
        peer.answers_with(method, "{\"unexpected\":true}");
    } else {
        peer.fails(method, "injected integrity failure");
    }
    let answer = query(&full_server(), &mut peer, &f, method);
    assert_eq!(
        peer.asked_about(method),
        1,
        "the actual failing RPC must be received"
    );
    assert!(
        answer.is_err(),
        "{method} must preserve failure instead of returning an empty success: {answer:?}"
    );
    if malformed {
        assert_eq!(
            answer.unwrap_err(),
            LspError::Protocol(format!("malformed answer to {method}"))
        );
    } else {
        assert!(matches!(answer, Err(LspError::JsonRpc(_))));
    }
}

#[test]
fn call_prepare_rpc_error() {
    rejected_response(PREPARE_CALL, false);
}

#[test]
fn call_prepare_malformed() {
    rejected_response(PREPARE_CALL, true);
}

#[test]
fn outgoing_rpc_error() {
    rejected_response(CALLS, false);
}

#[test]
fn outgoing_malformed() {
    rejected_response(CALLS, true);
}

#[test]
fn type_prepare_rpc_error() {
    rejected_response(PREPARE_TYPE, false);
}

#[test]
fn type_prepare_malformed() {
    rejected_response(PREPARE_TYPE, true);
}

#[test]
fn supertypes_rpc_error() {
    rejected_response(SUPERTYPES, false);
}

#[test]
fn supertypes_malformed() {
    rejected_response(SUPERTYPES, true);
}

#[test]
fn references_rpc_error() {
    rejected_response(REFERENCES, false);
}

#[test]
fn references_malformed() {
    rejected_response(REFERENCES, true);
}

#[test]
fn uses_type_rpc_error() {
    rejected_response(TYPES, false);
}

#[test]
fn uses_type_malformed() {
    rejected_response(TYPES, true);
}

#[test]
fn file_definition_rpc_error() {
    rejected_response(DEFINITION, false);
}

#[test]
fn file_definition_malformed() {
    rejected_response(DEFINITION, true);
}

#[test]
fn successful_answers_keep_named_relations() {
    let f = Fixture::new();
    for (method, kind, reverse) in [
        (CALLS, RelationKind::Calls, false),
        (SUPERTYPES, RelationKind::Overrides, false),
        (REFERENCES, RelationKind::References, true),
        (TYPES, RelationKind::UsesType, false),
    ] {
        let mut peer = f.peer();
        let relations = query(&full_server(), &mut peer, &f, method).unwrap();
        let (src, dst) = if reverse {
            (f.target.id, f.source.id)
        } else {
            (f.source.id, f.target.id)
        };
        assert!(
            relations.iter().any(|r| r.kind == kind
                && r.src == GraphNodeId::Entity(src)
                && r.dst == GraphNodeId::Entity(dst)
                && r.origin == RelationOrigin::Lsp),
            "{method}: named edge missing"
        );
        assert!(peer.asked_about(method) > 0);
    }
}

#[test]
fn successful_empty_and_unsupported_answers_remain_distinct_from_failure() {
    let f = Fixture::new();
    for method in [
        PREPARE_CALL,
        CALLS,
        PREPARE_TYPE,
        SUPERTYPES,
        REFERENCES,
        TYPES,
    ] {
        for empty in ["[]", "null"] {
            let mut peer = f.peer();
            peer.answers_with(method, empty);
            assert!(
                query(&full_server(), &mut peer, &f, method)
                    .unwrap()
                    .is_empty(),
                "{method}"
            );
            assert!(peer.asked_about(method) > 0);
        }
        let mut unable = full_server();
        unable.capabilities = ServerCapabilities::default();
        let mut peer = f.peer();
        assert!(query(&unable, &mut peer, &f, method).unwrap().is_empty());
        assert!(
            peer.seen.is_empty(),
            "unsupported capability must make no request"
        );
    }
}

fn uses_graph_source() {
    let f = Fixture::new();
    let mut peer = f.peer();
    let server = full_server();
    let pass = enrichment::enrich_entity_uses_type(&server, &f.source, &f.index, f.root);
    let relations = peer.relations(pass, &widget).unwrap();
    assert_eq!(
        peer.asked,
        vec!["source.py"],
        "primary text must come from repository authority"
    );
    assert!(
        relations
            .iter()
            .any(|r| r.kind == RelationKind::UsesType && r.dst == GraphNodeId::Entity(f.target.id)),
        "canonical text must yield the known edge"
    );
    assert!(peer.seen.iter().any(|request| method(request) == TYPES
        && character_of(request.get("params").unwrap()) == Some(0)));
}

#[test]
fn uses_type_with_absent_projection() {
    uses_graph_source();
}

#[test]
fn uses_type_with_conflicting_projection() {
    uses_graph_source();
}

#[test]
fn missing_graph_source_is_an_explicit_gap() {
    let f = Fixture::new();
    let mut peer = f.peer();
    let server = full_server();
    let pass = enrichment::enrich_entity_uses_type(&server, &f.source, &f.index, f.root);
    let answer = peer.relations(pass, &nothing);
    assert_eq!(
        answer.unwrap_err(),
        LspError::Protocol("no graph-owned text for source.py".to_string()),
        "projected bytes cannot fill missing graph text"
    );
    assert!(
        peer.seen.is_empty(),
        "no type query without authoritative positions"
    );
}

#[test]
fn valid_location_shapes_keep_the_selection_target() {
    let f = Fixture::new();
    let location = f.location();
    let wide_range =
        "{\"start\":{\"line\":0,\"character\":0},\"end\":{\"line\":10,\"character\":4}}";
    let link = format!(
        "{{\"targetUri\":\"{}\",\"targetRange\":{wide_range},\"targetSelectionRange\":{}}}",
        f.uri("types.py"),
        range(10)
    );
    let server = server("{\"typeHierarchyProvider\":true,\"typeDefinitionProvider\":true,\"referencesProvider\":true,\"definitionProvider\":true}");
    for method in [TYPES, DEFINITION] {
        for shape in [
            location.clone(),
            format!("[{location}]"),
            format!("[{link}]"),
        ] {
            let mut peer = f.peer();
            peer.answers_with(method, &shape);
            let answer = query(&server, &mut peer, &f, method).unwrap();
            assert_eq!(answer.len(), 1, "{method}");
            assert_eq!(answer[0].dst, GraphNodeId::Entity(f.target.id));
            assert_eq!(answer[0].src, GraphNodeId::Entity(f.source.id));
        }
    }
}

fn member_pass<'a>(f: &'a Fixture, server: &LspServer, file_pass: bool) -> Pass<'a> {
    if file_pass {
        enrich_file_definitions(
            server,
            &join_path(f.root, "source.py"),
            "module.run",
            &f.index,
            f.root,
        )
    } else {
        enrichment::enrich_entity_uses_type(server, &f.source, &f.index, f.root)
    }
}

#[test]
fn a_failed_cross_file_join_closes_its_opened_document() {
    let f = Fixture::with_target("run");
    let candidate_uri = f.uri(&f.target.file_path);
    for file_pass in [false, true] {
        let mut peer = f.peer();
        peer.fails(
            &format!("{DEFINITION}@{candidate_uri}#0"),
            "candidate query failed",
        );
        let server = full_server();
        let answer = peer.relations(member_pass(&f, &server, file_pass), &joined_sources);
        assert!(
            peer.seen.iter().any(|m| method(m) == DEFINITION
                && uri_of(m.get("params").unwrap()) == Some(candidate_uri.clone())),
            "candidate failure must actually execute"
        );
        assert!(matches!(answer, Err(LspError::JsonRpc(_))), "{answer:?}");
        assert_eq!(peer.lifecycle(), [OPEN, CLOSE]);
    }
}

#[test]
fn explicit_false_capabilities_do_not_query() {
    let f = Fixture::new();
    let server = server("{\"callHierarchyProvider\":false,\"typeHierarchyProvider\":false,\"typeDefinitionProvider\":false,\"referencesProvider\":false,\"definitionProvider\":false}");
    let mut peer = f.peer();
    for method in [CALLS, SUPERTYPES, REFERENCES, TYPES, DEFINITION] {
        assert!(
            query(&server, &mut peer, &f, method).unwrap().is_empty(),
            "{method}"
        );
    }
    assert!(
        peer.seen.is_empty(),
        "disabled capabilities must send no RPC"
    );
}

#[test]
fn unsupported_definition_keeps_supported_calls() {
    let f = Fixture::new();
    let mut server = full_server();
    server.capabilities.definition_provider = None;
    let mut peer = f.peer();
    let pass = enrich_file_definitions(
        &server,
        &join_path(f.root, "source.py"),
        "Widget",
        &f.index,
        f.root,
    );
    let result = peer.file(pass, &nothing).unwrap();
    assert!(result
        .relations
        .iter()
        .any(|r| r.kind == RelationKind::Calls && r.dst == GraphNodeId::Entity(f.target.id)));
    assert_eq!(result.positions_queried, 0);
    assert!(peer.asked_about(CALLS) > 0);
    assert_eq!(peer.asked_about(DEFINITION), 0);
}

#[test]
fn cancelled_join_closes_before_next_request() {
    let f = Fixture::with_target("run");
    let candidate_uri = f.uri(&f.target.file_path);
    for file_pass in [false, true] {
        let mut peer = f.peer();
        peer.set(&format!("{DEFINITION}@{candidate_uri}#0"), Answer::Hold);
        let server = full_server();
        let mut pass = member_pass(&f, &server, file_pass);
        assert!(
            !peer.drive(&mut pass, &joined_sources),
            "held query must not finish"
        );
        // Giving the pass up closes what it opened, before anything else is sent.
        peer.client
            .close_documents(pass.open_documents().clone())
            .unwrap();
        peer.client.request("test/seen", Json::Null).unwrap();
        peer.read();
        assert_eq!(
            peer.lifecycle(),
            [OPEN, CLOSE],
            "cancellation must close before subsequent traffic"
        );
        let methods = peer.methods();
        assert_eq!(&methods[methods.len() - 2..], [CLOSE, "test/seen"]);
    }
}

#[test]
fn cancelled_open_ack_still_closes_the_document() {
    let f = Fixture::with_target("run");
    let mut peer = f.peer();
    let server = full_server();
    let mut pass = member_pass(&f, &server, false);
    // Up to the open, whose acknowledgement never comes.
    loop {
        match pass.action() {
            Action::Read { path } => pass.step(Event::Text(joined_sources(&path))),
            Action::Request { .. } => {
                let location = json(&format!("[{}]", f.location()));
                pass.step(Event::Reply(Ok(location)));
            }
            Action::Open {
                uri,
                language_id,
                content,
            } => {
                assert_eq!(pass.open_documents(), &vec![uri.clone()]);
                let params = did_open_params(&uri, language_id, &content);
                peer.client.notify(OPEN, params).unwrap();
                break;
            }
            Action::Finish => panic!("the document was never opened"),
        }
    }
    peer.client
        .close_documents(pass.open_documents().clone())
        .unwrap();
    peer.read();
    assert_eq!(peer.methods(), [OPEN, CLOSE]);
}

#[test]
fn member_queries_respect_independently_disabled_capabilities() {
    let f = Fixture::new();
    for file_pass in [false, true] {
        let mut server = full_server();
        let disabled = if file_pass {
            server.capabilities.type_definition_provider = Some(Json::Bool(false));
            TYPES
        } else {
            server.capabilities.definition_provider = Some(Json::Bool(false));
            DEFINITION
        };
        let mut peer = f.peer();
        let answer = peer
            .relations(member_pass(&f, &server, file_pass), &|_: &str| {
                Some("module.run".to_string())
            })
            .unwrap();
        assert!(answer
            .iter()
            .any(|relation| relation.dst == GraphNodeId::Entity(f.target.id)));
        assert_eq!(peer.asked_about(disabled), 0);
        assert!(!peer.seen.is_empty(), "supported queries must still run");
    }
}

/// A provider is what makes the second leg answerable, and its absence is what
/// makes the join decline.
#[test]
fn a_missing_provider_declines_and_a_present_one_opens() {
    let entity = |name: &str, file: &str, line: u32| EntityRef {
        id: EntityId::new(),
        name: name.to_string(),
        file_path: file.to_string(),
        start_line: line,
        start_col: 0,
        end_line: line,
        name_line: line,
        name_col: 8,
    };
    let source = entity("api", "api.js", 0);
    let router = entity("Router", "lib/express.js", 3);
    let again = entity("Router", "lib/express.js", 5);
    let other = entity("Router", "lib/other.js", 3);
    let notice = entity("Router", "NOTICE", 3);
    let index = EntityIndex::new(vec![
        source.clone(),
        router.clone(),
        again.clone(),
        other.clone(),
        notice.clone(),
    ]);
    let place = |file: &str, line: u32| {
        format!("{{\"uri\":\"file:///w/{file}\",\"range\":{}}}", range(line))
    };
    let modules = format!(
        "[{},{},{}]",
        place("lib/express.js", 3),
        place("lib/other.js", 3),
        place("NOTICE", 3)
    );
    let run = |provider: &dyn Fn(&str) -> Option<String>| {
        let mut peer = Peer {
            answers: Vec::new(),
            seen: Vec::new(),
            asked: Vec::new(),
            client: JsonRpcClient::new(),
        };
        peer.answers_with(DEFINITION, &format!("[{}]", place("lib/router.js", 51)));
        peer.answers_with(TYPES, &modules);
        let server = server("{\"typeDefinitionProvider\":true,\"definitionProvider\":true}");
        let pass = enrich_file_definitions(
            &server,
            "/w/api.js",
            "express.Router",
            &index,
            "/w",
        );
        let result = peer.file(pass, provider).unwrap();
        (peer, result)
    };

    let (without, result) = run(&nothing);
    assert!(
        result.relations.is_empty(),
        "no provider means the join keeps declining, never a disk read"
    );
    assert!(without.lifecycle().is_empty());

    let (with, result) = run(&|path: &str| {
        (path == "lib/express.js").then(|| "exports.Router = Router;".to_string())
    });
    let targets: Vec<_> = result.relations.iter().map(|r| r.dst).collect();
    assert_eq!(
        targets,
        vec![GraphNodeId::Entity(router.id), GraphNodeId::Entity(again.id)],
        "a provider that answers hands the document to the server"
    );
    assert_eq!(
        with.asked,
        vec!["lib/express.js", "lib/other.js"],
        "the same document is opened at most once per entity, and a path whose language cannot be named declines"
    );
    assert_eq!(
        with.lifecycle(),
        [OPEN, CLOSE],
        "every document this pass opened is closed with it"
    );
    assert_eq!(result.definitions_resolved, 2);
    assert_eq!(result.positions_queried, 2);
    assert_eq!(result.relations[0].confidence, 85);
    let evidence = &result.relations[0].evidence;
    assert_eq!(
        evidence[0].parser_rule.as_deref(),
        Some("lsp_member_on_module")
    );
}

/// A same-named export that resolves elsewhere is not bound.
#[test]
fn a_member_is_not_bound_on_its_name_alone() {
    let f = Fixture::with_target("run");
    let candidate_uri = f.uri(&f.target.file_path);
    let mut peer = f.peer();
    peer.answers_with(
        &format!("{DEFINITION}@{candidate_uri}#0"),
        &format!(
            "[{{\"uri\":\"file:///w/elsewhere.py\",\"range\":{}}}]",
            range(1)
        ),
    );
    let server = full_server();
    peer.answers_with(&format!("{TYPES}@{}#7", f.uri("source.py")), "null");
    let relations = peer
        .relations(member_pass(&f, &server, false), &joined_sources)
        .unwrap();
    assert!(relations.is_empty());
    assert_eq!(peer.lifecycle(), [OPEN, CLOSE]);
}

#[test]
fn a_probe_that_is_not_answered_in_time_is_skipped() {
    let f = Fixture::new();
    let mut peer = f.peer();
    peer.set(
        &format!("{DEFINITION}@{}#0", f.uri("source.py")),
        Answer::Expire,
    );
    let server = server("{\"definitionProvider\":true}");
    let pass = enrich_file_definitions(
        &server,
        "/w/source.py",
        "first second",
        &f.index,
        f.root,
    );
    let result = peer.file(pass, &nothing).unwrap();
    assert_eq!(result.positions_queried, 2);
    assert_eq!(result.definitions_resolved, 1);
    assert_eq!(result.relations.len(), 1);
    assert_eq!(result.relations[0].confidence, 95);
}

#[test]
fn lines_outside_every_entity_are_not_asked_about() {
    let f = Fixture::new();
    let mut peer = f.peer();
    let server = server("{\"definitionProvider\":true}");
    let pass = enrich_file_definitions(
        &server,
        "/w/source.py",
        "inside\noutside here",
        &f.index,
        f.root,
    );
    let result = peer.file(pass, &nothing).unwrap();
    assert_eq!(result.positions_queried, 3);
    assert_eq!(peer.asked_about(DEFINITION), 1);
}

#[test]
fn only_methods_are_asked_for_overrides() {
    let f = Fixture::new();
    let mut function = f.source.clone();
    function.name = "run".to_string();
    let mut peer = f.peer();
    let server = full_server();
    let pass = enrichment::enrich_entity_overrides(&server, &function, &f.index, f.root);
    assert!(peer.relations(pass, &nothing).unwrap().is_empty());
    assert!(peer.seen.is_empty());
}
