//! LSP server lifecycle: the handshake, what a server can do, what it said last.
//!
//! Starting and stopping the process is the application's. What the handshake
//! comes to, which features a live server serves, how much of its stderr is
//! kept, and which of three readiness states a language is in are decided here.

use vstd::prelude::*;

use crate::capability::{CapabilitySet, LspCapability};
use crate::decimal;
use crate::error;
use crate::error::{LspError, LspErrorView};
use crate::json::{Json, JsonView};
use crate::protocol;
use crate::protocol::{
    kin_capabilities, path_to_uri, CapabilitiesView, InitializeParams, InitializeResult,
    ServerCapabilities,
};
use crate::registry;
use crate::registry::{
    GapReasonView, GapView, ProviderGap, ProviderGapReason, ProviderProbe,
    ResolvedProvider, ResolvedView,
};
use crate::text;
use crate::text::{joined, read_lossy, trim};

verus! {

/// How much of a server's stderr is retained. Bounded because a chatty server
/// would otherwise grow this without limit for the life of the process, and
/// the last words are the ones that explain a death.
pub const STDERR_TAIL_CAP: usize = 8192;

/// How long a readiness probe waits for a server to complete the handshake, in
/// seconds.
///
/// Deliberately far below what an enrichment run allows. A probe answers an
/// operator or a startup path, and a surface that blocks for half a minute to
/// render one status row has traded one bad answer for a worse experience.
pub const READINESS_PROBE_SECONDS: u64 = 10;

// ── The stderr tail ─────────────────────────────────────────────────────

/// The last bytes of a stream, up to a number of them.
pub open spec fn last_bytes(stream: Seq<u8>, cap: int) -> Seq<u8> {
    if stream.len() <= cap {
        stream
    } else {
        stream.skip(stream.len() - cap)
    }
}

/// A server's stderr tail.
#[derive(Debug)]
pub struct StderrTail {
    buffer: Vec<u8>,
}

impl View for StderrTail {
    type V = Seq<u8>;

    closed spec fn view(&self) -> Seq<u8> {
        self.buffer@
    }
}

/// What bytes of a server's stderr say: trimmed text.
pub open spec fn stderr_text(bytes: Seq<u8>) -> Seq<char> {
    text::trimmed(text::lossy(bytes))
}

impl StderrTail {
    /// A tail that has caught nothing yet.
    pub fn new() -> (r: Self)
        ensures
            r@ == Seq::<u8>::empty(),
    {
        StderrTail { buffer: Vec::new() }
    }

    /// Take in a chunk of the stream, keeping the last bytes.
    pub fn push(&mut self, chunk: &[u8])
        ensures
            final(self)@ == last_bytes(old(self)@ + chunk@, STDERR_TAIL_CAP as int),
    {
        let ghost before = self.buffer@;
        let mut i: usize = 0;
        while i < chunk.len()
            invariant
                i <= chunk@.len(),
                self.buffer@ == before + chunk@.take(i as int),
            decreases chunk@.len() - i,
        {
            self.buffer.push(chunk[i]);
            assert(self.buffer@ =~= before + chunk@.take(i + 1));
            i += 1;
        }
        assert(chunk@.take(i as int) =~= chunk@);
        let held: usize = self.buffer.len();
        if held > STDERR_TAIL_CAP {
            let kept = self.buffer.split_off(held - STDERR_TAIL_CAP);
            self.buffer = kept;
            assert(self.buffer@ =~= last_bytes(before + chunk@, STDERR_TAIL_CAP as int));
        }
    }

    /// Whether nothing has been caught.
    pub fn is_empty(&self) -> (r: bool)
        ensures
            r == (self@.len() == 0),
    {
        self.buffer.len() == 0
    }

    /// What was caught, as trimmed text.
    pub fn text(&self) -> (r: String)
        ensures
            r@ == stderr_text(self@),
    {
        trim(read_lossy(&self.buffer).as_str())
    }
}

/// Catching a stream in two chunks keeps what catching it in one would: the tail
/// is the last bytes of the whole stream, however it was cut up.
pub proof fn tail_ignores_chunking(stream: Seq<u8>, chunk: Seq<u8>)
    ensures
        last_bytes(
            last_bytes(stream, STDERR_TAIL_CAP as int) + chunk,
            STDERR_TAIL_CAP as int,
        ) == last_bytes(stream + chunk, STDERR_TAIL_CAP as int),
{
    let cap = STDERR_TAIL_CAP as int;
    assert(last_bytes(last_bytes(stream, cap) + chunk, cap) =~= last_bytes(stream + chunk, cap));
}

/// A failure with the server's own last words, when it left any.
pub open spec fn failure_with_stderr(reason: LspErrorView, tail: Seq<u8>) -> LspErrorView {
    if tail.len() == 0 {
        reason
    } else {
        LspErrorView::ServerFailedWithStderr {
            reason: error::lsp_error_text(reason),
            stderr: stderr_text(tail),
        }
    }
}

/// Attach the server's own last words to a failure, when it left any.
///
/// A server that answers over JSON-RPC explains itself through the error it
/// returns. One that dies before it can frame a reply explains itself only on
/// stderr, and that is the case this exists for.
pub fn with_stderr(reason: LspError, tail: &StderrTail) -> (r: LspError)
    ensures
        r.deep_view() == failure_with_stderr(reason.deep_view(), tail@),
{
    if tail.is_empty() {
        return reason;
    }
    LspError::ServerFailedWithStderr { reason: reason.to_string(), stderr: tail.text() }
}

// ── What a server serves ────────────────────────────────────────────────

/// A running LSP server, as the handshake left it: what it said it can do.
#[derive(Debug)]
pub struct LspServer {
    pub capabilities: ServerCapabilities,
}

/// Whether a capability that a server announced is one: anything but nothing and
/// an explicit `false`.
pub open spec fn is_served(provider: Option<JsonView>) -> bool {
    provider is Some && provider->0 != JsonView::Bool(false)
}

/// Whether a server serves a capability.
pub open spec fn serves(c: CapabilitiesView, capability: LspCapability) -> bool {
    match capability {
        LspCapability::Definition => is_served(c.definition_provider),
        LspCapability::TypeDefinition => is_served(c.type_definition_provider),
        LspCapability::References => is_served(c.references_provider),
        LspCapability::CallHierarchy => is_served(c.call_hierarchy_provider),
        LspCapability::TypeHierarchy => is_served(c.type_hierarchy_provider),
    }
}

/// The capabilities that a server serves.
pub open spec fn served(c: CapabilitiesView) -> Set<LspCapability> {
    Set::new(|capability: LspCapability| serves(c, capability))
}

fn announced(provider: &Option<Json>) -> (r: bool)
    ensures
        r == is_served(provider.deep_view()),
{
    match provider {
        None => false,
        Some(Json::Bool(b)) => *b,
        Some(_) => true,
    }
}

impl LspServer {
    /// Check if the server supports call hierarchy.
    pub fn has_call_hierarchy(&self) -> (r: bool)
        ensures
            r == serves(self.capabilities.deep_view(), LspCapability::CallHierarchy),
    {
        announced(&self.capabilities.call_hierarchy_provider)
    }

    /// Check if the server supports go-to-definition.
    pub fn has_definition(&self) -> (r: bool)
        ensures
            r == serves(self.capabilities.deep_view(), LspCapability::Definition),
    {
        announced(&self.capabilities.definition_provider)
    }

    /// Check if the server supports find references.
    pub fn has_references(&self) -> (r: bool)
        ensures
            r == serves(self.capabilities.deep_view(), LspCapability::References),
    {
        announced(&self.capabilities.references_provider)
    }

    /// Check if the server supports type hierarchy.
    pub fn has_type_hierarchy(&self) -> (r: bool)
        ensures
            r == serves(self.capabilities.deep_view(), LspCapability::TypeHierarchy),
    {
        announced(&self.capabilities.type_hierarchy_provider)
    }

    /// Check if the server supports go-to-type-definition.
    pub fn has_type_definition(&self) -> (r: bool)
        ensures
            r == serves(self.capabilities.deep_view(), LspCapability::TypeDefinition),
    {
        announced(&self.capabilities.type_definition_provider)
    }

    /// The capabilities this live server reported during the initialize
    /// handshake, expressed in the registry's capability vocabulary. This is the
    /// source of truth for what actually ran and feeds the enrichment proof.
    pub fn probed_capabilities(&self) -> (r: CapabilitySet)
        ensures
            r@ == served(self.capabilities.deep_view()),
    {
        let mut caps = CapabilitySet::new();
        if self.has_definition() {
            caps.insert(LspCapability::Definition);
        }
        if self.has_type_definition() {
            caps.insert(LspCapability::TypeDefinition);
        }
        if self.has_references() {
            caps.insert(LspCapability::References);
        }
        if self.has_call_hierarchy() {
            caps.insert(LspCapability::CallHierarchy);
        }
        if self.has_type_hierarchy() {
            caps.insert(LspCapability::TypeHierarchy);
        }
        assert(caps@ =~= served(self.capabilities.deep_view()));
        caps
    }
}

// ── The handshake ───────────────────────────────────────────────────────

/// The parameters of the initialize request for a workspace.
pub open spec fn initialize_request_json(
    process_id: u32,
    workspace_root: Seq<char>,
    initialization_options: Option<JsonView>,
) -> JsonView {
    let base = map![
        "processId"@ => JsonView::Int(process_id as int),
        "rootUri"@ => JsonView::Text(protocol::uri_of(workspace_root)),
        "capabilities"@ => protocol::kin_capabilities_json(),
    ];
    JsonView::Object(
        match initialization_options {
            Some(options) => base.insert("initializationOptions"@, options),
            None => base,
        },
    )
}

/// Build the parameters of the initialize request for a workspace.
pub fn initialize_request(
    process_id: u32,
    workspace_root: &str,
    initialization_options: Option<Json>,
) -> (r: Json)
    ensures
        r@ == initialize_request_json(
            process_id,
            workspace_root@,
            initialization_options.deep_view(),
        ),
{
    let params = InitializeParams {
        process_id: Some(process_id),
        root_uri: Some(path_to_uri(workspace_root)),
        capabilities: kin_capabilities(),
        initialization_options,
    };
    params.to_json()
}

/// What a handshake came to: the server, or why there is none.
pub open spec fn handshake_outcome(
    reply: Option<Result<JsonView, LspErrorView>>,
    tail: Seq<u8>,
) -> Result<CapabilitiesView, LspErrorView> {
    match reply {
        None => Err(failure_with_stderr(LspErrorView::Timeout, tail)),
        Some(Err(error)) => Err(
            failure_with_stderr(
                LspErrorView::InitializeFailed(error::lsp_error_text(error)),
                tail,
            ),
        ),
        Some(Ok(answer)) => Ok(protocol::capabilities_of(answer)),
    }
}

/// What a reply says, or that none came in time.
pub open spec fn reply_view(reply: Option<Result<Json, LspError>>) -> Option<
    Result<JsonView, LspErrorView>,
> {
    match reply {
        None => None,
        Some(Ok(j)) => Some(Ok(j@)),
        Some(Err(e)) => Some(Err(e.deep_view())),
    }
}

/// The server that a handshake leads to. `reply` is the answer to the initialize
/// request, or `None` where none came in time.
pub fn handshake(reply: Option<Result<Json, LspError>>, tail: &StderrTail) -> (r: Result<
    LspServer,
    LspError,
>)
    ensures
        match handshake_outcome(reply_view(reply), tail@) {
            Ok(capabilities) => r is Ok && r->Ok_0.capabilities.deep_view() == capabilities,
            Err(error) => r is Err && r->Err_0.deep_view() == error,
        },
{
    match reply {
        None => Err(with_stderr(LspError::Timeout, tail)),
        Some(Err(error)) => Err(with_stderr(LspError::InitializeFailed(error.to_string()), tail)),
        Some(Ok(answer)) => {
            let result = InitializeResult::from_answer(&answer);
            Ok(LspServer { capabilities: result.capabilities })
        },
    }
}

// ── Readiness ───────────────────────────────────────────────────────────

/// Why a server that was started is not usable.
pub open spec fn unusable(resolved: ResolvedView, message: Seq<char>) -> GapView {
    GapView {
        language: resolved.language,
        reason: GapReasonView::ServerUnusable { message },
        tried: seq![resolved.id],
    }
}

/// What is said of a server that does not complete the handshake in time.
pub open spec fn late_text() -> Seq<char> {
    "did not complete the initialize handshake within "@ + decimal::decimal_text(
        READINESS_PROBE_SECONDS as nat,
    ) + "s"@
}

fn unusable_gap(resolved: &ResolvedProvider, message: String) -> (r: ProviderGap)
    ensures
        r.deep_view() == unusable(resolved.deep_view(), message@),
{
    let tried = vec![resolved.id.clone()];
    assert(tried.deep_view() =~= seq![resolved.id.deep_view()]);
    ProviderGap {
        language: resolved.language,
        reason: ProviderGapReason::ServerUnusable { message },
        tried,
    }
}

/// Say whether a language is actually served on this host, with one of three
/// states rather than two.
///
/// `Ok` is usable: the server resolved, completed the initialize handshake, and
/// reported the capabilities in the returned [`ProviderProbe`]. `Err` is a
/// [`ProviderGap`] whose reason separates the two ways a language can fail to be
/// served: no binary at all (a gap that resolution reports), versus a binary
/// that is present and refuses to initialize (reported here). `started` is what
/// starting the resolved server came to, or `None` where it took too long.
pub fn readiness(
    resolved: ResolvedProvider,
    started: Option<Result<LspServer, LspError>>,
) -> (r: Result<ProviderProbe, ProviderGap>)
    ensures
        match started {
            None => r is Err && r->Err_0.deep_view() == unusable(
                resolved.deep_view(),
                late_text(),
            ),
            Some(Err(error)) => r is Err && r->Err_0.deep_view() == unusable(
                resolved.deep_view(),
                error::lsp_error_text(error.deep_view()),
            ),
            Some(Ok(server)) => r is Ok && r->Ok_0.resolved.deep_view() == resolved.deep_view()
                && r->Ok_0.probed_capabilities@ == served(server.capabilities.deep_view()),
        },
{
    match started {
        None => {
            let message = joined(
                "did not complete the initialize handshake within ",
                decimal::decimal(READINESS_PROBE_SECONDS).as_str(),
            ).concat("s");
            Err(unusable_gap(&resolved, message))
        },
        Some(Err(error)) => Err(unusable_gap(&resolved, error.to_string())),
        Some(Ok(server)) => {
            let probed_capabilities = server.probed_capabilities();
            Ok(ProviderProbe { resolved, probed_capabilities })
        },
    }
}

/// The tail of a stream is its end: the whole of it as long as it fits, and else as many
/// of the last bytes as are kept.
pub proof fn tail_is_the_end_of_the_stream(stream: Seq<u8>)
    ensures
        ({
            let tail = last_bytes(stream, STDERR_TAIL_CAP as int);
            &&& tail.is_suffix_of(stream)
            &&& tail.len() == if stream.len() <= 8192 {
                stream.len()
            } else {
                8192
            }
        }),
{
    let tail = last_bytes(stream, STDERR_TAIL_CAP as int);
    assert(tail =~= stream.subrange(stream.len() - tail.len(), stream.len() as int));
}

} // verus!
