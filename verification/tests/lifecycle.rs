use kin_lsp::client::{read_message, JsonRpcClient};
use kin_lsp::json::{parse, render, Json};
use kin_lsp::lifecycle::{
    handshake, initialize_request, readiness, with_stderr, LspServer, StderrTail, STDERR_TAIL_CAP,
};
use kin_lsp::registry::{
    BinaryFinder, LspCapability, ProviderGap, ProviderGapReason, ProviderProbe, ProviderRegistry,
};
use kin_lsp::types::LanguageId;
use kin_lsp::LspError;

/// A finder that resolves every binary to one fixture, so the registry's
/// resolution succeeds and the handshake is what decides the outcome.
struct FixtureFinder(Option<String>);

impl BinaryFinder for FixtureFinder {
    fn find_on_path(&self, _binary: &str) -> Option<String> {
        self.0.clone()
    }
    fn probe_version(&self, _command: &str) -> Option<String> {
        Some("fixture".to_string())
    }
}

/// What a fixture server does: what it writes to stdout before it stops, and
/// what it writes to stderr.
fn probe(
    finder: &FixtureFinder,
    stdout: Option<&str>,
    stderr: &str,
) -> Result<ProviderProbe, ProviderGap> {
    let resolved = ProviderRegistry::with_defaults().resolve_with(LanguageId::TypeScript, finder)?;
    let mut client = JsonRpcClient::new();
    let params = initialize_request(7, "/tmp", None);
    let (id, _) = client.request("initialize", params).unwrap();
    let mut tail = StderrTail::new();
    tail.push(stderr.as_bytes());
    let reply = match stdout {
        None => Err(LspError::ServerDied),
        Some(body) => {
            let message = read_message(&body.as_bytes().to_vec()).unwrap();
            let (answered, reply) = client.receive(message).expect("a response to the request");
            assert_eq!(answered, id);
            reply
        }
    };
    readiness(resolved, Some(handshake(Some(reply), &tail)))
}

const USABLE: &str = "{\"jsonrpc\":\"2.0\",\"id\":1,\"result\":{\"capabilities\":{\"definitionProvider\":true,\"referencesProvider\":true,\"typeDefinitionProvider\":true,\"callHierarchyProvider\":true}}}";
const UNUSABLE: &str = "{\"jsonrpc\":\"2.0\",\"id\":1,\"error\":{\"code\":-32603,\"message\":\"Could not find a valid TypeScript installation. Exiting.\"}}";

fn fixture() -> FixtureFinder {
    FixtureFinder(Some("/tmp/fixture-server".to_string()))
}

#[test]
fn a_server_that_completes_the_handshake_is_usable_and_reports_its_providers() {
    let probed = probe(&fixture(), Some(USABLE), "")
        .expect("a server that answers initialize is usable");
    for capability in [
        LspCapability::Definition,
        LspCapability::References,
        LspCapability::TypeDefinition,
        LspCapability::CallHierarchy,
    ] {
        assert!(
            probed.serves(capability),
            "the fixture reported {capability:?} and the probe lost it"
        );
    }
    assert!(!probed.serves(LspCapability::TypeHierarchy));
}

#[test]
fn a_present_server_that_refuses_to_initialize_is_a_gap_carrying_its_own_message() {
    let gap = probe(&fixture(), Some(UNUSABLE), "")
        .expect_err("a server that refuses initialize is not usable");
    match &gap.reason {
        ProviderGapReason::ServerUnusable { message } => assert!(
            message.contains("Could not find a valid TypeScript installation"),
            "the gap must carry the server's own words, got: {message}"
        ),
        other => panic!("a present-but-unusable server must not be reported as {other:?}"),
    }
}

#[test]
fn a_missing_binary_is_a_different_gap_than_an_unusable_server() {
    let gap = probe(&FixtureFinder(None), Some(USABLE), "").expect_err("no binary means no server");
    assert_eq!(
        gap.reason,
        ProviderGapReason::NoBinaryOnPath,
        "an absent binary and an unusable server need different repairs"
    );
}

#[test]
fn a_tail_still_being_drained_is_waited_for_rather_than_read_as_silence() {
    let mut tail = StderrTail::new();
    tail.push(b"fatal: the reason it died");
    let attached = with_stderr(LspError::ServerDied, &tail);
    let rendered = attached.to_string();
    assert!(
        rendered.contains("fatal: the reason it died"),
        "the server's words arrived after the failure and were read as silence: {rendered}"
    );
    assert_eq!(
        rendered,
        "server shutdown unexpectedly (server stderr: fatal: the reason it died)"
    );
}

#[test]
fn a_server_that_dies_before_replying_keeps_its_last_words() {
    let gap = probe(
        &fixture(),
        None,
        "fatal: libfoo.so.1: cannot open shared object file\n",
    )
    .expect_err("a server that exits 127 is not usable");
    let reason = gap.reason.to_string();
    assert!(
        reason.contains("cannot open shared object file"),
        "the server's stderr is the only explanation it gave, and it was dropped: {reason}"
    );
}

#[test]
fn a_silent_failure_stays_as_it_is() {
    let tail = StderrTail::new();
    assert_eq!(with_stderr(LspError::Timeout, &tail), LspError::Timeout);
    assert_eq!(
        handshake(None, &tail).map(|_| ()),
        Err(LspError::Timeout)
    );
    assert_eq!(
        handshake(Some(Err(LspError::ServerDied)), &tail).map(|_| ()),
        Err(LspError::InitializeFailed(
            "server shutdown unexpectedly".to_string()
        ))
    );
}

#[test]
fn a_slow_server_is_unusable() {
    let resolved = ProviderRegistry::with_defaults()
        .resolve_with(LanguageId::Go, &fixture())
        .unwrap();
    let gap = readiness(resolved, None).unwrap_err();
    assert_eq!(gap.language, LanguageId::Go);
    assert_eq!(gap.tried.len(), 1);
    assert_eq!(
        gap.reason,
        ProviderGapReason::ServerUnusable {
            message: "did not complete the initialize handshake within 10s".to_string()
        }
    );
}

#[test]
fn the_tail_is_the_last_bytes_of_the_stream() {
    let mut tail = StderrTail::new();
    assert!(tail.is_empty());
    tail.push(&vec![b'a'; STDERR_TAIL_CAP]);
    tail.push(b"the end");
    let text = tail.text();
    assert_eq!(text.len(), STDERR_TAIL_CAP);
    assert!(text.ends_with("the end"));
    assert!(text.starts_with("aaa"));
    let mut blank = StderrTail::new();
    blank.push(b" \xff\n");
    assert_eq!(blank.text(), "\u{fffd}");
}

fn answered(text: &str) -> LspServer {
    let answer = parse(&text.as_bytes().to_vec()).unwrap();
    handshake(Some(Ok(answer)), &StderrTail::new()).unwrap()
}

#[test]
fn an_explicit_false_is_not_a_capability() {
    let server = answered("{\"capabilities\":{\"definitionProvider\":false,\"referencesProvider\":{},\"typeHierarchyProvider\":null}}");
    assert!(!server.has_definition());
    assert!(server.has_references());
    assert!(!server.has_type_hierarchy());
    assert!(!server.has_call_hierarchy());
    assert!(!server.has_type_definition());
    let probed = server.probed_capabilities();
    assert!(probed.contains(&LspCapability::References));
    assert_eq!(probed.to_vec(), vec![LspCapability::References]);
    // An answer that is no such record is one of a server that can do nothing.
    for odd in ["null", "{}", "[]", "{\"capabilities\":3}", "\"text\""] {
        assert!(answered(odd).probed_capabilities().is_empty());
    }
}

#[test]
fn the_initialize_request_names_the_workspace() {
    let options = Json::Text("fast".to_string());
    let text = render(&initialize_request(7, "/w", Some(options)));
    assert!(text.contains("\"processId\":7"));
    assert!(text.contains("\"rootUri\":\"file:///w\""));
    assert!(text.contains("\"initializationOptions\":\"fast\""));
    assert!(text.contains(
        "\"definition\":{\"dynamicRegistration\":false,\"linkSupport\":false}"
    ));
    assert!(!render(&initialize_request(7, "/w", None)).contains("initializationOptions"));
}

#[test]
fn errors_say_what_went_wrong() {
    let text = |error: LspError| error.to_string();
    let s = || "x".to_string();
    assert_eq!(text(LspError::ServerNotFound(s())), "server not found: x");
    assert_eq!(
        text(LspError::ServerStartFailed(s())),
        "server failed to start: x"
    );
    assert_eq!(
        text(LspError::InitializeFailed(s())),
        "server initialization failed: x"
    );
    assert_eq!(text(LspError::JsonRpc(s())), "JSON-RPC error: x");
    assert_eq!(text(LspError::Protocol(s())), "protocol error: x");
    assert_eq!(text(LspError::Timeout), "timeout waiting for response");
    assert_eq!(text(LspError::Io(s())), "IO error: x");
    assert_eq!(text(LspError::Json(s())), "JSON error: x");
}

#[test]
fn the_tail_does_not_depend_on_how_the_stream_is_cut() {
    let stream: Vec<u8> = (0..20_000u32).map(|i| b'a' + (i % 26) as u8).collect();
    let mut whole = StderrTail::new();
    whole.push(&stream);
    let mut pieces = StderrTail::new();
    for chunk in stream.chunks(1000) {
        pieces.push(chunk);
    }
    assert_eq!(whole.text(), pieces.text());
    assert_eq!(
        whole.text().as_bytes(),
        &stream[stream.len() - STDERR_TAIL_CAP..]
    );
}
