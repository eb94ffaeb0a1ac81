//! What can go wrong between the client and a language server.

use vstd::prelude::*;

use crate::text::joined;

verus! {

/// What can go wrong between the client and a language server.
#[derive(Debug, PartialEq, Eq)]
pub enum LspError {
    ServerNotFound(String),
    ServerStartFailed(String),
    InitializeFailed(String),
    /// The server answered a request with an error.
    JsonRpc(String),
    /// The server sent what the protocol does not allow.
    Protocol(String),
    Timeout,
    ServerDied,
    /// A start or handshake failure, carrying whatever the server wrote to its
    /// own stderr before it went.
    ///
    /// The reason is the first failure's message; the tail is bounded and may be
    /// truncated to its last bytes. This variant exists because a server that
    /// dies before it can frame a JSON-RPC reply has nowhere else to say why.
    ServerFailedWithStderr { reason: String, stderr: String },
    /// Reading from or writing to the server failed, with the system's words.
    Io(String),
    /// The server sent what is no JSON, with the parser's words.
    Json(String),
}

/// What an [`LspError`] says.
pub enum LspErrorView {
    ServerNotFound(Seq<char>),
    ServerStartFailed(Seq<char>),
    InitializeFailed(Seq<char>),
    JsonRpc(Seq<char>),
    Protocol(Seq<char>),
    Timeout,
    ServerDied,
    ServerFailedWithStderr { reason: Seq<char>, stderr: Seq<char> },
    Io(Seq<char>),
    Json(Seq<char>),
}

impl DeepView for LspError {
    type V = LspErrorView;

    open spec fn deep_view(&self) -> LspErrorView {
        match self {
            LspError::ServerNotFound(s) => LspErrorView::ServerNotFound(s@),
            LspError::ServerStartFailed(s) => LspErrorView::ServerStartFailed(s@),
            LspError::InitializeFailed(s) => LspErrorView::InitializeFailed(s@),
            LspError::JsonRpc(s) => LspErrorView::JsonRpc(s@),
            LspError::Protocol(s) => LspErrorView::Protocol(s@),
            LspError::Timeout => LspErrorView::Timeout,
            LspError::ServerDied => LspErrorView::ServerDied,
            LspError::ServerFailedWithStderr { reason, stderr } =>
                LspErrorView::ServerFailedWithStderr { reason: reason@, stderr: stderr@ },
            LspError::Io(s) => LspErrorView::Io(s@),
            LspError::Json(s) => LspErrorView::Json(s@),
        }
    }
}

/// An error in words.
pub open spec fn lsp_error_text(error: LspErrorView) -> Seq<char> {
    match error {
        LspErrorView::ServerNotFound(s) => "server not found: "@ + s,
        LspErrorView::ServerStartFailed(s) => "server failed to start: "@ + s,
        LspErrorView::InitializeFailed(s) => "server initialization failed: "@ + s,
        LspErrorView::JsonRpc(s) => "JSON-RPC error: "@ + s,
        LspErrorView::Protocol(s) => "protocol error: "@ + s,
        LspErrorView::Timeout => "timeout waiting for response"@,
        LspErrorView::ServerDied => "server shutdown unexpectedly"@,
        LspErrorView::ServerFailedWithStderr { reason, stderr } => reason
            + " (server stderr: "@ + stderr + ")"@,
        LspErrorView::Io(s) => "IO error: "@ + s,
        LspErrorView::Json(s) => "JSON error: "@ + s,
    }
}

impl LspError {
    /// The error in words.
    pub fn to_string(&self) -> (r: String)
        ensures
            r@ == lsp_error_text(self.deep_view()),
    {
        match self {
            LspError::ServerNotFound(s) => joined("server not found: ", s.as_str()),
            LspError::ServerStartFailed(s) => joined("server failed to start: ", s.as_str()),
            LspError::InitializeFailed(s) => joined("server initialization failed: ", s.as_str()),
            LspError::JsonRpc(s) => joined("JSON-RPC error: ", s.as_str()),
            LspError::Protocol(s) => joined("protocol error: ", s.as_str()),
            LspError::Timeout => "timeout waiting for response".to_owned(),
            LspError::ServerDied => "server shutdown unexpectedly".to_owned(),
            LspError::ServerFailedWithStderr { reason, stderr } => joined(
                reason.as_str(),
                " (server stderr: ",
            ).concat(stderr.as_str()).concat(")"),
            LspError::Io(s) => joined("IO error: ", s.as_str()),
            LspError::Json(s) => joined("JSON error: ", s.as_str()),
        }
    }
}

/// Whether a text ends with another.
pub open spec fn ends_in(text: Seq<char>, end: Seq<char>) -> bool {
    text.len() >= end.len() && text.skip(text.len() - end.len()) == end
}

/// An error in words ends with the reason that it carries; one with a server's last words
/// begins with its reason and holds them.
pub proof fn errors_tell_their_reason(reason: Seq<char>, stderr: Seq<char>)
    ensures
        ends_in(lsp_error_text(LspErrorView::ServerNotFound(reason)), reason),
        ends_in(lsp_error_text(LspErrorView::ServerStartFailed(reason)), reason),
        ends_in(lsp_error_text(LspErrorView::InitializeFailed(reason)), reason),
        ends_in(lsp_error_text(LspErrorView::JsonRpc(reason)), reason),
        ends_in(lsp_error_text(LspErrorView::Protocol(reason)), reason),
        ends_in(lsp_error_text(LspErrorView::Io(reason)), reason),
        ends_in(lsp_error_text(LspErrorView::Json(reason)), reason),
        ({
            let text = lsp_error_text(LspErrorView::ServerFailedWithStderr { reason, stderr });
            &&& reason.is_prefix_of(text)
            &&& exists|at: int|
                0 <= at <= text.len() - stderr.len() && #[trigger] text.subrange(
                    at,
                    at + stderr.len(),
                ) == stderr
        }),
{
    lemma_ends_in("server not found: "@, reason);
    lemma_ends_in("server failed to start: "@, reason);
    lemma_ends_in("server initialization failed: "@, reason);
    lemma_ends_in("JSON-RPC error: "@, reason);
    lemma_ends_in("protocol error: "@, reason);
    lemma_ends_in("IO error: "@, reason);
    lemma_ends_in("JSON error: "@, reason);
    let text = lsp_error_text(LspErrorView::ServerFailedWithStderr { reason, stderr });
    let at: int = (reason.len() + " (server stderr: "@.len()) as int;
    assert(text.subrange(0, reason.len() as int) =~= reason);
    assert(text.subrange(at, at + stderr.len()) =~= stderr);
}

proof fn lemma_ends_in(front: Seq<char>, reason: Seq<char>)
    ensures
        ends_in(front + reason, reason),
{
    assert((front + reason).skip(front.len() as int) =~= reason);
}

} // verus!
