# kin-lsp

Language-server enrichment boundary that feeds type-resolved relations into the
Kin graph. Tree-sitter parsing gives Kin syntax-level structure; this crate adds
the relations that need a language server: call edges from call hierarchy, override
edges from type hierarchy, type-usage edges from go-to-type-definition, and
reference edges from find-references and go-to-definition. Every relation carries
`RelationOrigin::Lsp`.

The library is written in Verus. What is asked of a server, what is made of its
answers, which provider serves a language, what is written to and read from the
wire, and what a run can be cited for is decided in `src/` and proved there. The
application in `app/` owns processes, pipes and clocks: it performs what a pass
waits for and hands back what came of it.

- `pass`, `enrichment`, `file_enrichment`, `pass_laws`: enrichment passes as
  conversations with a server, and what every pass promises.
- `client`, `protocol`, `json`, `lifecycle`: frames, messages, the handshake.
- `registry`, `capability`, `discovery`, `adapters`: providers and their servers.
- `enrichment_proof`, `recorder_laws`, `proof_json`, `provenance`: what a run can be
  cited for.
- `entity_index`, `scan`, `cache`, `types`: the graph's side.
- `text`, `decimal`, `sorting`: what the others are built on.

Outside code is trusted where it is called: `serde_json` for JSON text, `uuid` for
random identifiers, their text and their hash, and the character classes,
`String::push` and lossy UTF-8 decoding of the standard library. Each such item says
what is taken for granted. Hashing goes through the standard library's hasher and rests on what vstd
states of it.
