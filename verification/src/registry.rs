//! Provider registry: which language server serves which language, how it is
//! discovered, which capabilities it serves, and the provenance every
//! LSP-derived relation carries.
//!
//! LSP enrichment is an addon over Kin's own parsers and linkers, never a
//! replacement. Relations discovered here are tagged
//! [`crate::types::RelationOrigin::Lsp`] and can carry an [`LspProvenance`]
//! (provider, version and capability), so they are always distinguishable from
//! parsed or linked edges.

use vstd::prelude::*;

use crate::text;
use crate::text::{joined, lower, same};
pub use crate::capability::{CapabilitySet, LspCapability};
pub use crate::provenance::{stamp_lsp_provenance, LspProvenance};
use crate::provenance::ProvenanceView;
use crate::types;
use crate::types::LanguageId;

verus! {

/// A stable identifier for a language-server implementation (e.g.
/// `rust-analyzer`, `pyright`, `gopls`). Controlled slugs, safe to embed in
/// provenance without escaping.
#[derive(Debug, PartialEq, Eq, Hash, PartialOrd, Ord)]
pub struct ProviderId(String);

impl DeepView for ProviderId {
    type V = Seq<char>;

    closed spec fn deep_view(&self) -> Seq<char> {
        self.0@
    }
}

impl ProviderId {
    pub fn new(id: &str) -> (r: Self)
        ensures
            r.deep_view() == id@,
    {
        Self(id.to_owned())
    }

    pub fn as_str(&self) -> (r: &str)
        ensures
            r@ == self.deep_view(),
    {
        self.0.as_str()
    }

    /// The identifier as it is shown: its slug.
    pub fn to_string(&self) -> (r: String)
        ensures
            r@ == self.deep_view(),
    {
        self.0.clone()
    }

    /// Whether two identifiers name the same provider.
    pub fn same(&self, other: &Self) -> (r: bool)
        ensures
            r == (self.deep_view() == other.deep_view()),
    {
        self.0 == other.0
    }
}

impl Clone for ProviderId {
    fn clone(&self) -> (r: Self)
        ensures
            r == *self,
    {
        ProviderId(self.0.clone())
    }
}

/// Static specification of a provider: the binaries to search on PATH, the args
/// to launch it with, and the capabilities Kin expects it to serve.
#[derive(Debug, PartialEq, Eq)]
pub struct ProviderSpec {
    pub id: ProviderId,
    pub language: LanguageId,
    /// Binary names to search on PATH, in preference order.
    pub binaries: Vec<String>,
    /// Launch arguments passed to whichever binary is found.
    pub args: Vec<String>,
    /// Capabilities this provider is expected to serve. The live handshake is
    /// the source of truth; this drives the expected-vs-probed diff recorded in
    /// the proof, not a hard gate on its own.
    pub expected_capabilities: CapabilitySet,
}

/// What a [`ProviderSpec`] says.
pub struct SpecView {
    pub id: Seq<char>,
    pub language: LanguageId,
    pub binaries: Seq<Seq<char>>,
    pub args: Seq<Seq<char>>,
    pub expected_capabilities: Set<LspCapability>,
}

impl DeepView for ProviderSpec {
    type V = SpecView;

    open spec fn deep_view(&self) -> SpecView {
        SpecView {
            id: self.id.deep_view(),
            language: self.language,
            binaries: self.binaries.deep_view(),
            args: self.args.deep_view(),
            expected_capabilities: self.expected_capabilities@,
        }
    }
}

/// Copies of some texts.
pub fn clone_texts(texts: &Vec<String>) -> (r: Vec<String>)
    ensures
        r.deep_view() == texts.deep_view(),
{
    let mut r: Vec<String> = Vec::new();
    let mut i: usize = 0;
    while i < texts.len()
        invariant
            i <= texts@.len(),
            r@ == texts@.take(i as int),
        decreases texts@.len() - i,
    {
        r.push(texts[i].clone());
        i += 1;
    }
    assert(r@ =~= texts@);
    r
}

impl Clone for ProviderSpec {
    fn clone(&self) -> (r: Self)
        ensures
            r.deep_view() == self.deep_view(),
    {
        ProviderSpec {
            id: self.id.clone(),
            language: self.language,
            binaries: clone_texts(&self.binaries),
            args: clone_texts(&self.args),
            expected_capabilities: self.expected_capabilities,
        }
    }
}

impl ProviderSpec {
    fn new(
        id: &str,
        language: LanguageId,
        binary: &str,
        arg: Option<&str>,
        expected_capabilities: CapabilitySet,
    ) -> (r: Self)
        ensures
            r.deep_view() == one_binary(
                id@,
                language,
                binary@,
                match arg {
                    Some(a) => seq![a@],
                    None => Seq::empty(),
                },
                expected_capabilities@,
            ),
    {
        let mut binaries: Vec<String> = Vec::new();
        binaries.push(binary.to_owned());
        assert(binaries.deep_view() =~= seq![binary@]);
        let mut args: Vec<String> = Vec::new();
        if let Some(a) = arg {
            args.push(a.to_owned());
            assert(args.deep_view() =~= seq![a@]);
        } else {
            assert(args.deep_view() =~= Seq::empty());
        }
        Self { id: ProviderId::new(id), language, binaries, args, expected_capabilities }
    }
}

/// A provider resolved to a concrete binary present on this system.
#[derive(Debug, PartialEq, Eq)]
pub struct ResolvedProvider {
    pub id: ProviderId,
    pub language: LanguageId,
    /// Absolute path to the discovered server binary.
    pub command: String,
    pub args: Vec<String>,
    /// Version string as reported by `--version`, when the probe succeeded.
    pub version: Option<String>,
    pub expected_capabilities: CapabilitySet,
}

/// What a [`ResolvedProvider`] says.
pub struct ResolvedView {
    pub id: Seq<char>,
    pub language: LanguageId,
    pub command: Seq<char>,
    pub args: Seq<Seq<char>>,
    pub version: Option<Seq<char>>,
    pub expected_capabilities: Set<LspCapability>,
}

impl DeepView for ResolvedProvider {
    type V = ResolvedView;

    open spec fn deep_view(&self) -> ResolvedView {
        ResolvedView {
            id: self.id.deep_view(),
            language: self.language,
            command: self.command@,
            args: self.args.deep_view(),
            version: self.version.deep_view(),
            expected_capabilities: self.expected_capabilities@,
        }
    }
}

/// A resolved provider paired with the capabilities its live server actually
/// reported during the initialize handshake.
#[derive(Debug, PartialEq, Eq)]
pub struct ProviderProbe {
    pub resolved: ResolvedProvider,
    /// Capabilities the running server reported (from the LSP handshake).
    pub probed_capabilities: CapabilitySet,
}

/// The citable floor, as a set.
pub open spec fn citable_minimum() -> Set<LspCapability> {
    set![LspCapability::Definition, LspCapability::References]
}

/// The capabilities of the citable floor that a set lacks.
pub fn floor_gap(probed: &CapabilitySet) -> (r: CapabilitySet)
    ensures
        r@ == citable_minimum().difference(probed@),
{
    let mut r = CapabilitySet::new();
    let mut i: usize = 0;
    while i < 2
        invariant
            i <= 2,
            forall|c: LspCapability| #[trigger] r@.contains(c) <==> !probed@.contains(c) && exists|
                k: int,
            | 0 <= k < i && #[trigger] LspCapability::CITABLE_MINIMUM[k] == c,
        decreases 2 - i,
    {
        let capability = LspCapability::CITABLE_MINIMUM[i];
        if !probed.contains(&capability) {
            r.insert(capability);
        }
        i += 1;
    }
    proof {
        assert(LspCapability::CITABLE_MINIMUM[0] == LspCapability::Definition);
        assert(LspCapability::CITABLE_MINIMUM[1] == LspCapability::References);
        assert(r@ =~= citable_minimum().difference(probed@));
    }
    r
}

impl ProviderProbe {
    /// Whether the live server serves a capability.
    pub fn serves(&self, capability: LspCapability) -> (r: bool)
        ensures
            r == self.probed_capabilities@.contains(capability),
    {
        self.probed_capabilities.contains(&capability)
    }

    /// Expected capabilities the live server did NOT report: informational
    /// drift between what Kin designed around and what this server/version
    /// actually offers.
    pub fn missing_expected(&self) -> (r: CapabilitySet)
        ensures
            r@ == self.resolved.expected_capabilities@.difference(self.probed_capabilities@),
    {
        self.resolved.expected_capabilities.difference(&self.probed_capabilities)
    }

    /// Citable-floor capabilities the live server did NOT report. A non-empty
    /// result for a required language is a fail-loud gap.
    pub fn missing_minimum(&self) -> (r: CapabilitySet)
        ensures
            r@ == citable_minimum().difference(self.probed_capabilities@),
    {
        floor_gap(&self.probed_capabilities)
    }

    /// Build provenance for a relation this provider produced via `capability`.
    pub fn provenance(&self, capability: LspCapability) -> (r: LspProvenance)
        ensures
            r.deep_view() == (ProvenanceView {
                provider: self.resolved.id.deep_view(),
                version: self.resolved.version.deep_view(),
                capability,
            }),
    {
        LspProvenance {
            provider: self.resolved.id.clone(),
            version: self.resolved.version.clone(),
            capability,
        }
    }
}

/// Why a provider could not be resolved for a language. A citable/proof run
/// must surface this as a reportable gap, never a silent skip.
#[derive(Debug, PartialEq, Eq)]
pub struct ProviderGap {
    pub language: LanguageId,
    pub reason: ProviderGapReason,
    /// The provider ids that were considered.
    pub tried: Vec<ProviderId>,
}

/// What a [`ProviderGap`] says.
pub struct GapView {
    pub language: LanguageId,
    pub reason: GapReasonView,
    pub tried: Seq<Seq<char>>,
}

impl DeepView for ProviderGap {
    type V = GapView;

    open spec fn deep_view(&self) -> GapView {
        GapView {
            language: self.language,
            reason: self.reason.deep_view(),
            tried: self.tried.deep_view(),
        }
    }
}

/// The specific reason a provider gap exists.
#[derive(Debug, PartialEq, Eq)]
pub enum ProviderGapReason {
    /// No provider is registered for the language at all.
    NoProviderRegistered,
    /// Providers are registered but none of their binaries were found on PATH.
    NoBinaryOnPath,
    /// A repo config named a provider id the registry does not know.
    UnknownConfiguredProvider(ProviderId),
    /// A binary is present, and its server does not complete the handshake.
    ServerUnusable {
        /// What the server, or the failure to reach it, said.
        message: String,
    },
}

/// What a [`ProviderGapReason`] says.
pub enum GapReasonView {
    NoProviderRegistered,
    NoBinaryOnPath,
    UnknownConfiguredProvider(Seq<char>),
    ServerUnusable { message: Seq<char> },
}

impl DeepView for ProviderGapReason {
    type V = GapReasonView;

    open spec fn deep_view(&self) -> GapReasonView {
        match self {
            ProviderGapReason::NoProviderRegistered => GapReasonView::NoProviderRegistered,
            ProviderGapReason::NoBinaryOnPath => GapReasonView::NoBinaryOnPath,
            ProviderGapReason::UnknownConfiguredProvider(id) =>
                GapReasonView::UnknownConfiguredProvider(id.deep_view()),
            ProviderGapReason::ServerUnusable { message } => GapReasonView::ServerUnusable {
                message: message@,
            },
        }
    }
}

/// A gap reason in words.
pub open spec fn gap_reason_text(reason: GapReasonView) -> Seq<char> {
    match reason {
        GapReasonView::NoProviderRegistered => "no provider registered for this language"@,
        GapReasonView::NoBinaryOnPath => "no registered server binary found on PATH"@,
        GapReasonView::UnknownConfiguredProvider(id) => "configured provider '"@ + id
            + "' is not known to the registry"@,
        GapReasonView::ServerUnusable { message } => "server is present but unusable: "@ + message,
    }
}

impl ProviderGapReason {
    /// The reason in words.
    pub fn to_string(&self) -> (r: String)
        ensures
            r@ == gap_reason_text(self.deep_view()),
    {
        match self {
            ProviderGapReason::NoProviderRegistered => {
                "no provider registered for this language".to_owned()
            },
            ProviderGapReason::NoBinaryOnPath => {
                "no registered server binary found on PATH".to_owned()
            },
            ProviderGapReason::UnknownConfiguredProvider(id) => {
                joined("configured provider '", id.as_str()).concat(
                    "' is not known to the registry",
                )
            },
            ProviderGapReason::ServerUnusable { message } => {
                joined("server is present but unusable: ", message.as_str())
            },
        }
    }
}

impl ProviderGap {
    /// The gap in words.
    pub fn to_string(&self) -> (r: String)
        ensures
            r@ == "no LSP provider available for "@ + types::language_slug(self.language) + ": "@
                + gap_reason_text(self.reason.deep_view()),
    {
        joined("no LSP provider available for ", self.language.as_slug()).concat(": ").concat(
            self.reason.to_string().as_str(),
        )
    }
}

// ── Languages ───────────────────────────────────────────────────────────

/// No two languages share a slug.
pub proof fn language_slugs_are_distinct(a: LanguageId, b: LanguageId)
    requires
        types::language_slug(a) == types::language_slug(b),
    ensures
        a == b,
{
    reveal_strlit("rust");
    reveal_strlit("python");
    reveal_strlit("typescript");
    reveal_strlit("javascript");
    reveal_strlit("go");
    reveal_strlit("java");
    reveal_strlit("c");
    reveal_strlit("cpp");
    reveal_strlit("csharp");
    reveal_strlit("ruby");
    reveal_strlit("kotlin");
    reveal_strlit("php");
    reveal_strlit("swift");
    reveal_strlit("hcl");
    let s = types::language_slug(a);
    assert(s.len() == types::language_slug(b).len());
    assert(s[0] == types::language_slug(b)[0]);
    assert(s[2] == types::language_slug(b)[2]);
}

/// The language that a slug names, whatever the case of its letters.
pub open spec fn language_of_slug(slug: Seq<char>) -> Option<LanguageId> {
    if exists|l: LanguageId| #[trigger] types::language_slug(l) == text::lowered(slug) {
        Some(choose|l: LanguageId| #[trigger] types::language_slug(l) == text::lowered(slug))
    } else {
        None
    }
}

/// Every language, in the order in which slugs are compared.
pub const LANGUAGES: [LanguageId; 14] = [
    LanguageId::TypeScript,
    LanguageId::JavaScript,
    LanguageId::Python,
    LanguageId::Go,
    LanguageId::Java,
    LanguageId::Rust,
    LanguageId::C,
    LanguageId::Cpp,
    LanguageId::CSharp,
    LanguageId::Ruby,
    LanguageId::Php,
    LanguageId::Swift,
    LanguageId::Kotlin,
    LanguageId::Hcl,
];

proof fn lemma_all_languages(language: LanguageId)
    ensures
        exists|k: int| 0 <= k < 14 && #[trigger] LANGUAGES[k] == language,
{
    match language {
        LanguageId::TypeScript => assert(LANGUAGES[0] == language),
        LanguageId::JavaScript => assert(LANGUAGES[1] == language),
        LanguageId::Python => assert(LANGUAGES[2] == language),
        LanguageId::Go => assert(LANGUAGES[3] == language),
        LanguageId::Java => assert(LANGUAGES[4] == language),
        LanguageId::Rust => assert(LANGUAGES[5] == language),
        LanguageId::C => assert(LANGUAGES[6] == language),
        LanguageId::Cpp => assert(LANGUAGES[7] == language),
        LanguageId::CSharp => assert(LANGUAGES[8] == language),
        LanguageId::Ruby => assert(LANGUAGES[9] == language),
        LanguageId::Php => assert(LANGUAGES[10] == language),
        LanguageId::Swift => assert(LANGUAGES[11] == language),
        LanguageId::Kotlin => assert(LANGUAGES[12] == language),
        LanguageId::Hcl => assert(LANGUAGES[13] == language),
    }
}

/// Parse a language slug into a typed [`LanguageId`]. The case of ASCII letters
/// does not matter.
pub fn language_from_slug(slug: &str) -> (r: Option<LanguageId>)
    ensures
        r == language_of_slug(slug@),
        match r {
            Some(language) => types::language_slug(language) == text::lowered(slug@),
            None => forall|language: LanguageId|
                #[trigger] types::language_slug(language) != text::lowered(slug@),
        },
{
    let lowered = lower(slug);
    let mut i: usize = 0;
    while i < 14
        invariant
            i <= 14,
            lowered@ == text::lowered(slug@),
            forall|k: int|
                0 <= k < i ==> types::language_slug(#[trigger] LANGUAGES[k]) != lowered@,
        decreases 14 - i,
    {
        let language = LANGUAGES[i];
        if same(language.as_slug(), lowered.as_str()) {
            proof {
                let found = choose|l: LanguageId| #[trigger]
                    types::language_slug(l) == text::lowered(slug@);
                language_slugs_are_distinct(found, language);
            }
            return Some(language);
        }
        i += 1;
    }
    proof {
        assert forall|language: LanguageId| #[trigger]
            types::language_slug(language) != text::lowered(slug@) by {
            lemma_all_languages(language);
        }
    }
    None
}

/// A language is read back from its slug.
pub proof fn language_slug_reads_back(language: LanguageId)
    ensures
        language_of_slug(types::language_slug(language)) == Some(language),
{
    let slug = types::language_slug(language);
    reveal_strlit("rust");
    reveal_strlit("python");
    reveal_strlit("typescript");
    reveal_strlit("javascript");
    reveal_strlit("go");
    reveal_strlit("java");
    reveal_strlit("c");
    reveal_strlit("cpp");
    reveal_strlit("csharp");
    reveal_strlit("ruby");
    reveal_strlit("kotlin");
    reveal_strlit("php");
    reveal_strlit("swift");
    reveal_strlit("hcl");
    assert(text::lowered(slug) =~= slug);
    let found = choose|l: LanguageId| #[trigger] types::language_slug(l) == text::lowered(slug);
    language_slugs_are_distinct(found, language);
}

// ── Defaults ────────────────────────────────────────────────────────────

/// Every capability, as a set.
pub open spec fn all_capabilities() -> Set<LspCapability> {
    Set::new(|c: LspCapability| true)
}

/// Every capability but the type hierarchy, as a set.
pub open spec fn all_but_type_hierarchy() -> Set<LspCapability> {
    Set::new(|c: LspCapability| c != LspCapability::TypeHierarchy)
}

/// A provider that is launched from one binary of a given name.
pub open spec fn one_binary(
    id: Seq<char>,
    language: LanguageId,
    binary: Seq<char>,
    args: Seq<Seq<char>>,
    expected_capabilities: Set<LspCapability>,
) -> SpecView {
    SpecView { id, language, binaries: seq![binary], args, expected_capabilities }
}

/// The built-in providers of a language, in preference order.
pub open spec fn default_specs(language: LanguageId) -> Seq<SpecView> {
    let none = Seq::<Seq<char>>::empty();
    match language {
        LanguageId::Rust => seq![
            one_binary("rust-analyzer"@, language, "rust-analyzer"@, none, all_capabilities()),
        ],
        LanguageId::Python => seq![
            one_binary(
                "pyright"@,
                language,
                "pyright-langserver"@,
                seq!["--stdio"@],
                all_but_type_hierarchy(),
            ),
            one_binary("pylsp"@, language, "pylsp"@, none, citable_minimum()),
        ],
        LanguageId::TypeScript => seq![
            one_binary(
                "typescript-language-server"@,
                language,
                "typescript-language-server"@,
                seq!["--stdio"@],
                all_but_type_hierarchy(),
            ),
            one_binary(
                "vtsls"@,
                language,
                "vtsls"@,
                seq!["--stdio"@],
                all_but_type_hierarchy(),
            ),
        ],
        LanguageId::JavaScript => seq![
            one_binary(
                "typescript-language-server"@,
                language,
                "typescript-language-server"@,
                seq!["--stdio"@],
                all_but_type_hierarchy(),
            ),
        ],
        LanguageId::Go => seq![
            one_binary("gopls"@, language, "gopls"@, seq!["serve"@], all_but_type_hierarchy()),
        ],
        LanguageId::Java => seq![
            one_binary("jdtls"@, language, "jdtls"@, none, all_capabilities()),
        ],
        LanguageId::C | LanguageId::Cpp => seq![
            one_binary("clangd"@, language, "clangd"@, none, all_capabilities()),
        ],
        _ => Seq::empty(),
    }
}

/// The languages that have a built-in provider.
pub open spec fn default_languages() -> Seq<LanguageId> {
    seq![
        LanguageId::Rust,
        LanguageId::Python,
        LanguageId::TypeScript,
        LanguageId::JavaScript,
        LanguageId::Go,
        LanguageId::Java,
        LanguageId::C,
        LanguageId::Cpp,
    ]
}

/// The built-in providers, language by language.
pub open spec fn default_entries() -> Seq<(LanguageId, Seq<SpecView>)> {
    default_languages().map_values(|l: LanguageId| (l, default_specs(l)))
}

/// The registry of providers, plus the repo policy (required / disabled) layered
/// on top of the built-in defaults.
#[derive(Debug)]
pub struct ProviderRegistry {
    /// Ordered provider candidates per language (preference order).
    entries: Vec<(LanguageId, Vec<ProviderSpec>)>,
    required: Vec<LanguageId>,
    disabled: Vec<LanguageId>,
}

/// What a [`ProviderRegistry`] says.
pub struct RegistryView {
    pub entries: Seq<(LanguageId, Seq<SpecView>)>,
    pub required: Seq<LanguageId>,
    pub disabled: Seq<LanguageId>,
}

pub open spec fn entries_view(entries: Seq<(LanguageId, Vec<ProviderSpec>)>) -> Seq<
    (LanguageId, Seq<SpecView>),
> {
    entries.map_values(|e: (LanguageId, Vec<ProviderSpec>)| (e.0, e.1.deep_view()))
}

impl View for ProviderRegistry {
    type V = RegistryView;

    closed spec fn view(&self) -> RegistryView {
        RegistryView {
            entries: entries_view(self.entries@),
            required: self.required@,
            disabled: self.disabled@,
        }
    }
}

fn all_but_type_hierarchy_set() -> (r: CapabilitySet)
    ensures
        r@ == all_but_type_hierarchy(),
{
    let list = [
        LspCapability::Definition,
        LspCapability::TypeDefinition,
        LspCapability::References,
        LspCapability::CallHierarchy,
    ];
    let r = CapabilitySet::of(&list);
    proof {
        assert forall|c: LspCapability| all_but_type_hierarchy().contains(c) implies r@.contains(
            c,
        ) by {
            match c {
                LspCapability::Definition => assert(list@[0] == c),
                LspCapability::TypeDefinition => assert(list@[1] == c),
                LspCapability::References => assert(list@[2] == c),
                LspCapability::CallHierarchy => assert(list@[3] == c),
                LspCapability::TypeHierarchy => {},
            }
        }
        assert(r@ =~= all_but_type_hierarchy());
    }
    r
}

proof fn lemma_all_capabilities_set()
    ensures
        LspCapability::ALL@.to_set() == all_capabilities(),
{
    assert forall|c: LspCapability| LspCapability::ALL@.to_set().contains(c) by {
        match c {
            LspCapability::Definition => assert(LspCapability::ALL@[0] == c),
            LspCapability::TypeDefinition => assert(LspCapability::ALL@[1] == c),
            LspCapability::References => assert(LspCapability::ALL@[2] == c),
            LspCapability::CallHierarchy => assert(LspCapability::ALL@[3] == c),
            LspCapability::TypeHierarchy => assert(LspCapability::ALL@[4] == c),
        }
    }
    assert(LspCapability::ALL@.to_set() =~= all_capabilities());
}

proof fn lemma_citable_minimum_set()
    ensures
        LspCapability::CITABLE_MINIMUM@.to_set() == citable_minimum(),
{
    assert(LspCapability::CITABLE_MINIMUM@[0] == LspCapability::Definition);
    assert(LspCapability::CITABLE_MINIMUM@[1] == LspCapability::References);
    assert(LspCapability::CITABLE_MINIMUM@.to_set() =~= citable_minimum());
}

impl ProviderRegistry {
    /// A registry seeded with Kin's built-in provider defaults and no policy.
    pub fn with_defaults() -> (r: Self)
        ensures
            r@ == (RegistryView {
                entries: default_entries(),
                required: Seq::empty(),
                disabled: Seq::empty(),
            }),
    {
        let all = CapabilitySet::of(&LspCapability::ALL);
        let most = all_but_type_hierarchy_set();
        let floor = CapabilitySet::of(&LspCapability::CITABLE_MINIMUM);
        proof {
            lemma_all_capabilities_set();
            lemma_citable_minimum_set();
        }
        let mut entries: Vec<(LanguageId, Vec<ProviderSpec>)> = Vec::new();
        let rust = vec![
            ProviderSpec::new("rust-analyzer", LanguageId::Rust, "rust-analyzer", None, all),
        ];
        assert(rust.deep_view() =~= default_specs(LanguageId::Rust));
        entries.push((LanguageId::Rust, rust));
        let python = vec![
            ProviderSpec::new("pyright", LanguageId::Python, "pyright-langserver", Some("--stdio"), most),
            ProviderSpec::new("pylsp", LanguageId::Python, "pylsp", None, floor),
        ];
        assert(python.deep_view() =~= default_specs(LanguageId::Python));
        entries.push((LanguageId::Python, python));
        let typescript = vec![
            ProviderSpec::new("typescript-language-server", LanguageId::TypeScript, "typescript-language-server", Some("--stdio"), most),
            ProviderSpec::new("vtsls", LanguageId::TypeScript, "vtsls", Some("--stdio"), most),
        ];
        assert(typescript.deep_view() =~= default_specs(LanguageId::TypeScript));
        entries.push((LanguageId::TypeScript, typescript));
        let javascript = vec![
            ProviderSpec::new("typescript-language-server", LanguageId::JavaScript, "typescript-language-server", Some("--stdio"), most),
        ];
        assert(javascript.deep_view() =~= default_specs(LanguageId::JavaScript));
        entries.push((LanguageId::JavaScript, javascript));
        let go = vec![
            ProviderSpec::new("gopls", LanguageId::Go, "gopls", Some("serve"), most),
        ];
        assert(go.deep_view() =~= default_specs(LanguageId::Go));
        entries.push((LanguageId::Go, go));
        let java = vec![
            ProviderSpec::new("jdtls", LanguageId::Java, "jdtls", None, all),
        ];
        assert(java.deep_view() =~= default_specs(LanguageId::Java));
        entries.push((LanguageId::Java, java));
        let c = vec![
            ProviderSpec::new("clangd", LanguageId::C, "clangd", None, all),
        ];
        assert(c.deep_view() =~= default_specs(LanguageId::C));
        entries.push((LanguageId::C, c));
        let cpp = vec![
            ProviderSpec::new("clangd", LanguageId::Cpp, "clangd", None, all),
        ];
        assert(cpp.deep_view() =~= default_specs(LanguageId::Cpp));
        entries.push((LanguageId::Cpp, cpp));
        assert(entries_view(entries@) =~= default_entries());
        Self { entries, required: Vec::new(), disabled: Vec::new() }
    }
}

// ── Repo configuration ──────────────────────────────────────────────────

/// Repo-level override for provider selection. Keys are language / provider
/// slugs at the config boundary; they are validated into the typed registry by
/// [`ProviderRegistry::apply_config`].
#[derive(Debug, PartialEq, Eq)]
pub struct RegistryConfig {
    /// Force a specific provider id per language, overriding default order.
    /// Language slug (see [`language_from_slug`]) to provider id slug.
    pub providers: Vec<ProviderOverride>,
    /// Languages whose enrichment is REQUIRED. A gap for a required language is
    /// fail-loud in citable mode.
    pub required: Vec<String>,
    /// Languages whose enrichment is disabled entirely.
    pub disabled: Vec<String>,
}

/// A single per-language provider override entry.
#[derive(Debug, PartialEq, Eq)]
pub struct ProviderOverride {
    /// Language slug, e.g. `python`.
    pub language: String,
    /// Provider id to prefer, e.g. `pylsp`.
    pub provider: String,
    /// Optional extra binary-name candidates, tried before the provider's
    /// built-in binary list.
    pub binaries: Vec<String>,
    /// Optional launch-arg override; when set, replaces the provider's default
    /// args (empty vec means "launch with no args").
    pub args: Option<Vec<String>>,
}

/// What a [`RegistryConfig`] says.
pub struct ConfigView {
    pub providers: Seq<OverrideView>,
    pub required: Seq<Seq<char>>,
    pub disabled: Seq<Seq<char>>,
}

/// What a [`ProviderOverride`] says.
pub struct OverrideView {
    pub language: Seq<char>,
    pub provider: Seq<char>,
    pub binaries: Seq<Seq<char>>,
    pub args: Option<Seq<Seq<char>>>,
}

impl DeepView for ProviderOverride {
    type V = OverrideView;

    open spec fn deep_view(&self) -> OverrideView {
        OverrideView {
            language: self.language@,
            provider: self.provider@,
            binaries: self.binaries.deep_view(),
            args: self.args.deep_view(),
        }
    }
}

impl DeepView for RegistryConfig {
    type V = ConfigView;

    open spec fn deep_view(&self) -> ConfigView {
        ConfigView {
            providers: self.providers.deep_view(),
            required: self.required.deep_view(),
            disabled: self.disabled.deep_view(),
        }
    }
}

impl Default for RegistryConfig {
    fn default() -> (r: Self)
        ensures
            r.providers@.len() == 0,
            r.required@.len() == 0,
            r.disabled@.len() == 0,
    {
        RegistryConfig { providers: Vec::new(), required: Vec::new(), disabled: Vec::new() }
    }
}

/// A repo config that could not be validated into the typed registry.
#[derive(Debug, PartialEq, Eq)]
pub enum RegistryConfigError {
    /// A config entry named a language slug that is not a known [`LanguageId`].
    UnknownLanguage(String),
    /// A `providers` entry named a provider id not registered for its language.
    UnknownProvider { language: LanguageId, provider: ProviderId },
    /// A language appears in both `required` and `disabled`.
    RequiredAndDisabled(LanguageId),
}

/// What a [`RegistryConfigError`] says.
pub enum ConfigErrorView {
    UnknownLanguage(Seq<char>),
    UnknownProvider { language: LanguageId, provider: Seq<char> },
    RequiredAndDisabled(LanguageId),
}

impl DeepView for RegistryConfigError {
    type V = ConfigErrorView;

    open spec fn deep_view(&self) -> ConfigErrorView {
        match self {
            RegistryConfigError::UnknownLanguage(slug) => ConfigErrorView::UnknownLanguage(slug@),
            RegistryConfigError::UnknownProvider { language, provider } =>
                ConfigErrorView::UnknownProvider {
                    language: *language,
                    provider: provider.deep_view(),
                },
            RegistryConfigError::RequiredAndDisabled(language) =>
                ConfigErrorView::RequiredAndDisabled(*language),
        }
    }
}

/// A configuration error in words.
pub open spec fn config_error_text(error: ConfigErrorView) -> Seq<char> {
    match error {
        ConfigErrorView::UnknownLanguage(slug) => "unknown language '"@ + slug
            + "' in [lsp] config"@,
        ConfigErrorView::UnknownProvider { language, provider } => "provider '"@ + provider
            + "' is not registered for language '"@ + types::language_slug(language) + "'"@,
        ConfigErrorView::RequiredAndDisabled(language) => "language '"@ + types::language_slug(
            language,
        ) + "' is both required and disabled in [lsp] config"@,
    }
}

impl RegistryConfigError {
    /// The error in words.
    pub fn to_string(&self) -> (r: String)
        ensures
            r@ == config_error_text(self.deep_view()),
    {
        match self {
            RegistryConfigError::UnknownLanguage(slug) => {
                joined("unknown language '", slug.as_str()).concat("' in [lsp] config")
            },
            RegistryConfigError::UnknownProvider { language, provider } => {
                joined("provider '", provider.as_str()).concat(
                    "' is not registered for language '",
                ).concat(language.as_slug()).concat("'")
            },
            RegistryConfigError::RequiredAndDisabled(language) => {
                joined("language '", language.as_slug()).concat(
                    "' is both required and disabled in [lsp] config",
                )
            },
        }
    }
}

/// The first entry of a language, or the number of entries.
pub open spec fn entry_of(
    entries: Seq<(LanguageId, Seq<SpecView>)>,
    language: LanguageId,
    from: int,
) -> int
    decreases entries.len() - from,
{
    if from < 0 || from >= entries.len() {
        entries.len() as int
    } else if entries[from].0 == language {
        from
    } else {
        entry_of(entries, language, from + 1)
    }
}

/// The provider candidates of a language, in preference order.
pub open spec fn candidates_of(
    entries: Seq<(LanguageId, Seq<SpecView>)>,
    language: LanguageId,
) -> Seq<SpecView> {
    let at = entry_of(entries, language, 0);
    if at < entries.len() {
        entries[at].1
    } else {
        Seq::empty()
    }
}

/// The first candidate with an id, or the number of candidates.
pub open spec fn candidate_of(specs: Seq<SpecView>, id: Seq<char>, from: int) -> int
    decreases specs.len() - from,
{
    if from < 0 || from >= specs.len() {
        specs.len() as int
    } else if specs[from].id == id {
        from
    } else {
        candidate_of(specs, id, from + 1)
    }
}

/// A provider under an override: the override's binaries go before its own, and
/// the override's arguments, where it has any, replace its own.
pub open spec fn overridden(spec: SpecView, over: OverrideView) -> SpecView {
    SpecView {
        binaries: over.binaries + spec.binaries,
        args: match over.args {
            Some(args) => args,
            None => spec.args,
        },
        ..spec
    }
}

/// The entries under one override: the chosen provider, overridden, goes to the
/// front of its language's candidates.
pub open spec fn override_applied(
    entries: Seq<(LanguageId, Seq<SpecView>)>,
    over: OverrideView,
) -> Result<Seq<(LanguageId, Seq<SpecView>)>, ConfigErrorView> {
    match language_of_slug(over.language) {
        None => Err(ConfigErrorView::UnknownLanguage(over.language)),
        Some(language) => {
            let at = entry_of(entries, language, 0);
            let specs = candidates_of(entries, language);
            let chosen = candidate_of(specs, over.provider, 0);
            if chosen >= specs.len() {
                Err(ConfigErrorView::UnknownProvider { language, provider: over.provider })
            } else {
                Ok(
                    entries.update(
                        at,
                        (language, seq![overridden(specs[chosen], over)] + specs.remove(chosen)),
                    ),
                )
            }
        },
    }
}

/// The entries under the overrides from `from` on, one after the other, up to
/// the first that is refused, and why it is.
pub open spec fn overrides_applied(
    entries: Seq<(LanguageId, Seq<SpecView>)>,
    overs: Seq<OverrideView>,
    from: int,
) -> (Seq<(LanguageId, Seq<SpecView>)>, Option<ConfigErrorView>)
    decreases overs.len() - from,
{
    if from < 0 || from >= overs.len() {
        (entries, None)
    } else {
        match override_applied(entries, overs[from]) {
            Ok(next) => overrides_applied(next, overs, from + 1),
            Err(error) => (entries, Some(error)),
        }
    }
}

/// A list of languages with the ones that some slugs name added, each once, up
/// to the first slug that names none, and which that is.
pub open spec fn slugs_added(
    list: Seq<LanguageId>,
    slugs: Seq<Seq<char>>,
    from: int,
) -> (Seq<LanguageId>, Option<ConfigErrorView>)
    decreases slugs.len() - from,
{
    if from < 0 || from >= slugs.len() {
        (list, None)
    } else {
        match language_of_slug(slugs[from]) {
            None => (list, Some(ConfigErrorView::UnknownLanguage(slugs[from]))),
            Some(language) => slugs_added(
                if list.contains(language) {
                    list
                } else {
                    list.push(language)
                },
                slugs,
                from + 1,
            ),
        }
    }
}

/// The first required language that is disabled too.
pub open spec fn conflict(
    required: Seq<LanguageId>,
    disabled: Seq<LanguageId>,
    from: int,
) -> Option<LanguageId>
    decreases required.len() - from,
{
    if from < 0 || from >= required.len() {
        None
    } else if disabled.contains(required[from]) {
        Some(required[from])
    } else {
        conflict(required, disabled, from + 1)
    }
}

/// A registry under a configuration, and why the configuration is refused, if
/// it is. Overrides come first, then the required languages, then the disabled
/// ones, and a language that is both is found last. What was applied before a
/// refusal stays applied.
pub open spec fn config_applied(registry: RegistryView, config: ConfigView) -> (
    RegistryView,
    Option<ConfigErrorView>,
) {
    let (entries, bad_override) = overrides_applied(registry.entries, config.providers, 0);
    let (required, bad_required) = slugs_added(registry.required, config.required, 0);
    let (disabled, bad_disabled) = slugs_added(registry.disabled, config.disabled, 0);
    if bad_override is Some {
        (RegistryView { entries, ..registry }, bad_override)
    } else if bad_required is Some {
        (RegistryView { entries, required, ..registry }, bad_required)
    } else if bad_disabled is Some {
        (RegistryView { entries, required, disabled }, bad_disabled)
    } else {
        (
            RegistryView { entries, required, disabled },
            match conflict(required, disabled, 0) {
                Some(language) => Some(ConfigErrorView::RequiredAndDisabled(language)),
                None => None,
            },
        )
    }
}

fn has_language(list: &Vec<LanguageId>, language: LanguageId) -> (r: bool)
    ensures
        r == list@.contains(language),
{
    let mut i: usize = 0;
    while i < list.len()
        invariant
            i <= list@.len(),
            forall|k: int| 0 <= k < i ==> list@[k] != language,
        decreases list@.len() - i,
    {
        if list[i] == language {
            return true;
        }
        i += 1;
    }
    false
}

/// Add the languages that some slugs name.
fn add_slugs(list: &mut Vec<LanguageId>, slugs: &Vec<String>) -> (r: Result<
    (),
    RegistryConfigError,
>)
    ensures
        (final(list)@, error_view(r)) == slugs_added(old(list)@, slugs.deep_view(), 0),
{
    let mut i: usize = 0;
    while i < slugs.len()
        invariant
            i <= slugs@.len(),
            slugs_added(list@, slugs.deep_view(), i as int) == slugs_added(
                old(list)@,
                slugs.deep_view(),
                0,
            ),
        decreases slugs@.len() - i,
    {
        assert(slugs.deep_view()[i as int] == slugs@[i as int]@);
        match language_from_slug(slugs[i].as_str()) {
            None => {
                return Err(RegistryConfigError::UnknownLanguage(slugs[i].clone()));
            },
            Some(language) => {
                if !has_language(list, language) {
                    list.push(language);
                }
            },
        }
        i += 1;
    }
    Ok(())
}

/// The error of a result, in views.
pub open spec fn error_view(r: Result<(), RegistryConfigError>) -> Option<ConfigErrorView> {
    match r {
        Ok(_) => None,
        Err(error) => Some(error.deep_view()),
    }
}

fn find_entry(entries: &Vec<(LanguageId, Vec<ProviderSpec>)>, language: LanguageId) -> (r: usize)
    ensures
        r == entry_of(entries_view(entries@), language, 0),
        r <= entries@.len(),
        r < entries@.len() ==> entries@[r as int].0 == language,
{
    let mut i: usize = 0;
    while i < entries.len()
        invariant
            i <= entries@.len(),
            entry_of(entries_view(entries@), language, 0) == entry_of(
                entries_view(entries@),
                language,
                i as int,
            ),
        decreases entries@.len() - i,
    {
        assert(entries_view(entries@)[i as int].0 == entries@[i as int].0);
        if entries[i].0 == language {
            return i;
        }
        i += 1;
    }
    i
}

fn find_candidate(specs: &Vec<ProviderSpec>, id: &str) -> (r: usize)
    ensures
        r == candidate_of(specs.deep_view(), id@, 0),
        r <= specs@.len(),
{
    let mut i: usize = 0;
    while i < specs.len()
        invariant
            i <= specs@.len(),
            candidate_of(specs.deep_view(), id@, 0) == candidate_of(
                specs.deep_view(),
                id@,
                i as int,
            ),
        decreases specs@.len() - i,
    {
        assert(specs.deep_view()[i as int].id == specs@[i as int].id.deep_view());
        if same(specs[i].id.as_str(), id) {
            return i;
        }
        i += 1;
    }
    i
}

/// A provider's candidates under an override of the one at `chosen`.
fn promote(specs: &mut Vec<ProviderSpec>, chosen: usize, over: &ProviderOverride)
    requires
        chosen < old(specs)@.len(),
    ensures
        final(specs).deep_view() == seq![
            overridden(old(specs).deep_view()[chosen as int], over.deep_view()),
        ] + old(specs).deep_view().remove(chosen as int),
{
    let ghost before = specs.deep_view();
    let mut spec = specs.remove(chosen);
    assert(specs.deep_view() =~= before.remove(chosen as int));
    assert(spec.deep_view() == before[chosen as int]);
    let ghost plain = spec.deep_view();
    if over.binaries.len() > 0 {
        let mut merged = clone_texts(&over.binaries);
        let mut own = clone_texts(&spec.binaries);
        let ghost extra = merged.deep_view();
        let ghost kept = own.deep_view();
        merged.append(&mut own);
        assert(merged.deep_view() =~= extra + kept);
        spec.binaries = merged;
    } else {
        assert(over.binaries.deep_view() + plain.binaries =~= plain.binaries);
    }
    if let Some(args) = &over.args {
        spec.args = clone_texts(args);
    }
    assert(spec.deep_view() == overridden(plain, over.deep_view()));
    let ghost rest = specs.deep_view();
    specs.insert(0, spec);
    assert(specs.deep_view() =~= seq![spec.deep_view()] + rest);
}

/// A way to find language-server binaries. The production finder asks the
/// system; a test can answer from a list.
pub trait BinaryFinder {
    /// Locate a binary, returning its path if present.
    fn find_on_path(&self, binary: &str) -> Option<String>;

    /// Best-effort version string for a resolved command, or `None`.
    fn probe_version(&self, command: &str) -> Option<String>;
}

/// Whether a finder may have answered, for some spelling of a binary's name,
/// that it is at `command` (or nowhere).
pub open spec fn looked_up<F: BinaryFinder>(
    finder: &F,
    binary: Seq<char>,
    answer: Option<Seq<char>>,
) -> bool {
    exists|name: &str, command: Option<String>|
        name@ == binary && command.deep_view() == answer && #[trigger] call_ensures(
            F::find_on_path,
            (finder, name),
            command,
        )
}

/// Whether a finder may have answered that the command has this version.
pub open spec fn versioned<F: BinaryFinder>(
    finder: &F,
    command: Seq<char>,
    answer: Option<Seq<char>>,
) -> bool {
    exists|name: &str, version: Option<String>|
        name@ == command && version.deep_view() == answer && #[trigger] call_ensures(
            F::probe_version,
            (finder, name),
            version,
        )
}

/// Whether a finder answered `None` for the first `n` binaries.
pub open spec fn none_found<F: BinaryFinder>(
    finder: &F,
    binaries: Seq<Seq<char>>,
    n: int,
) -> bool {
    forall|j: int| 0 <= j < n ==> looked_up(finder, #[trigger] binaries[j], None)
}

/// Whether a finder found no binary of the first `n` candidates.
pub open spec fn no_candidate_found<F: BinaryFinder>(
    finder: &F,
    specs: Seq<SpecView>,
    n: int,
) -> bool {
    forall|i: int|
        0 <= i < n ==> none_found(
            finder,
            (#[trigger] specs[i]).binaries,
            specs[i].binaries.len() as int,
        )
}

/// What a search over a language's candidates came to: the position of the
/// first candidate with a binary, the command, and its version.
pub struct FoundProvider {
    pub candidate: usize,
    pub command: String,
    pub version: Option<String>,
}

/// What a [`FoundProvider`] says.
pub struct FoundView {
    pub candidate: int,
    pub command: Seq<char>,
    pub version: Option<Seq<char>>,
}

impl DeepView for FoundProvider {
    type V = FoundView;

    open spec fn deep_view(&self) -> FoundView {
        FoundView {
            candidate: self.candidate as int,
            command: self.command@,
            version: self.version.deep_view(),
        }
    }
}

/// Whether a search that came to `found` is one that asked for each candidate's
/// binaries in order, candidate by candidate, and stopped at the first hit.
pub open spec fn is_search<F: BinaryFinder>(
    finder: &F,
    specs: Seq<SpecView>,
    found: Option<FoundView>,
) -> bool {
    match found {
        None => no_candidate_found(finder, specs, specs.len() as int),
        Some(hit) => {
            &&& 0 <= hit.candidate < specs.len()
            &&& no_candidate_found(finder, specs, hit.candidate)
            &&& exists|j: int|
                {
                    &&& 0 <= j < specs[hit.candidate].binaries.len()
                    &&& none_found(finder, specs[hit.candidate].binaries, j)
                    &&& looked_up(
                        finder,
                        #[trigger] specs[hit.candidate].binaries[j],
                        Some(hit.command),
                    )
                }
            &&& versioned(finder, hit.command, hit.version)
        },
    }
}

/// What a search over a language's candidates resolves to.
pub open spec fn resolution_of(
    language: LanguageId,
    specs: Seq<SpecView>,
    found: Option<FoundView>,
) -> Result<ResolvedView, GapView> {
    match found {
        Some(hit) => Ok(
            ResolvedView {
                id: specs[hit.candidate].id,
                language,
                command: hit.command,
                args: specs[hit.candidate].args,
                version: hit.version,
                expected_capabilities: specs[hit.candidate].expected_capabilities,
            },
        ),
        None if specs.len() == 0 => Err(
            GapView {
                language,
                reason: GapReasonView::NoProviderRegistered,
                tried: Seq::empty(),
            },
        ),
        None => Err(
            GapView {
                language,
                reason: GapReasonView::NoBinaryOnPath,
                tried: specs.map_values(|spec: SpecView| spec.id),
            },
        ),
    }
}

/// The result of a resolution, in views.
pub open spec fn resolution_view(r: Result<ResolvedProvider, ProviderGap>) -> Result<
    ResolvedView,
    GapView,
> {
    match r {
        Ok(resolved) => Ok(resolved.deep_view()),
        Err(gap) => Err(gap.deep_view()),
    }
}

impl ProviderRegistry {
    /// Layer a repo config over the registry, validating every slug into typed
    /// form. Fail-loud: unknown language or provider names and a language that
    /// is both required and disabled are hard errors rather than silently
    /// ignored config.
    pub fn apply_config(&mut self, config: &RegistryConfig) -> (r: Result<(), RegistryConfigError>)
        ensures
            (final(self)@, error_view(r)) == config_applied(old(self)@, config.deep_view()),
    {
        let ghost overs = config.providers.deep_view();
        let ghost before = self@;
        let mut i: usize = 0;
        while i < config.providers.len()
            invariant
                i <= config.providers@.len(),
                overs == config.providers.deep_view(),
                before == old(self)@,
                self@.required == before.required,
                self@.disabled == before.disabled,
                overrides_applied(self@.entries, overs, i as int) == overrides_applied(
                    before.entries,
                    overs,
                    0,
                ),
            decreases config.providers@.len() - i,
        {
            let over = &config.providers[i];
            assert(overs[i as int] == over.deep_view());
            match self.apply_override(over) {
                Ok(_) => {},
                Err(error) => {
                    return Err(error);
                },
            }
            i += 1;
        }
        match add_slugs(&mut self.required, &config.required) {
            Ok(_) => {},
            Err(error) => {
                return Err(error);
            },
        }
        match add_slugs(&mut self.disabled, &config.disabled) {
            Ok(_) => {},
            Err(error) => {
                return Err(error);
            },
        }
        let mut k: usize = 0;
        while k < self.required.len()
            invariant
                k <= self.required@.len(),
                conflict(self.required@, self.disabled@, 0) == conflict(
                    self.required@,
                    self.disabled@,
                    k as int,
                ),
                before == old(self)@,
                overs == config.providers.deep_view(),
                overrides_applied(before.entries, overs, 0) == (self@.entries, None::<
                    ConfigErrorView,
                >),
                slugs_added(before.required, config.required.deep_view(), 0) == (
                    self.required@,
                    None::<ConfigErrorView>,
                ),
                slugs_added(before.disabled, config.disabled.deep_view(), 0) == (
                    self.disabled@,
                    None::<ConfigErrorView>,
                ),
            decreases self.required@.len() - k,
        {
            if has_language(&self.disabled, self.required[k]) {
                return Err(RegistryConfigError::RequiredAndDisabled(self.required[k]));
            }
            k += 1;
        }
        Ok(())
    }

    /// Apply one override: its provider goes to the front.
    fn apply_override(&mut self, over: &ProviderOverride) -> (r: Result<(), RegistryConfigError>)
        ensures
            final(self)@.required == old(self)@.required,
            final(self)@.disabled == old(self)@.disabled,
            match override_applied(old(self)@.entries, over.deep_view()) {
                Ok(entries) => r is Ok && final(self)@.entries == entries,
                Err(error) => final(self)@ == old(self)@ && error_view(r) == Some(error),
            },
    {
        let language = match language_from_slug(over.language.as_str()) {
            None => {
                return Err(RegistryConfigError::UnknownLanguage(over.language.clone()));
            },
            Some(language) => language,
        };
        let at: usize = find_entry(&self.entries, language);
        if at >= self.entries.len() {
            return Err(
                RegistryConfigError::UnknownProvider {
                    language,
                    provider: ProviderId::new(over.provider.as_str()),
                },
            );
        }
        assert(entries_view(self.entries@)[at as int].1 == self.entries@[at as int].1.deep_view());
        let chosen: usize = find_candidate(&self.entries[at].1, over.provider.as_str());
        if chosen >= self.entries[at].1.len() {
            return Err(
                RegistryConfigError::UnknownProvider {
                    language,
                    provider: ProviderId::new(over.provider.as_str()),
                },
            );
        }
        let ghost before = self.entries@;
        let mut entry = self.entries.remove(at);
        promote(&mut entry.1, chosen, over);
        self.entries.insert(at, entry);
        assert(entries_view(self.entries@) =~= entries_view(before).update(
            at as int,
            (language, entry.1.deep_view()),
        ));
        Ok(())
    }

    /// A registry seeded with defaults and the given repo config applied.
    pub fn from_config(config: &RegistryConfig) -> (r: Result<Self, RegistryConfigError>)
        ensures
            ({
                let defaults = RegistryView {
                    entries: default_entries(),
                    required: Seq::empty(),
                    disabled: Seq::empty(),
                };
                match config_applied(defaults, config.deep_view()) {
                    (registry, None) => r is Ok && r->Ok_0@ == registry,
                    (_, Some(error)) => r is Err && r->Err_0.deep_view() == error,
                }
            }),
    {
        let mut registry = Self::with_defaults();
        match registry.apply_config(config) {
            Ok(_) => Ok(registry),
            Err(error) => Err(error),
        }
    }

    /// Ordered provider candidates for a language (after overrides), or empty.
    pub fn candidates(&self, language: LanguageId) -> (r: &[ProviderSpec])
        ensures
            r.deep_view() == candidates_of(self@.entries, language),
    {
        let at: usize = find_entry(&self.entries, language);
        if at < self.entries.len() {
            assert(entries_view(self.entries@)[at as int].1
                == self.entries@[at as int].1.deep_view());
            let r = self.entries[at].1.as_slice();
            assert(r.deep_view() =~= self.entries@[at as int].1.deep_view());
            r
        } else {
            let r: &[ProviderSpec] = &[];
            assert(r.deep_view() =~= Seq::<SpecView>::empty());
            r
        }
    }

    pub fn is_disabled(&self, language: LanguageId) -> (r: bool)
        ensures
            r == self@.disabled.contains(language),
    {
        has_language(&self.disabled, language)
    }

    pub fn is_required(&self, language: LanguageId) -> (r: bool)
        ensures
            r == self@.required.contains(language),
    {
        has_language(&self.required, language)
    }

    /// Languages the repo config marked as required for citable enrichment.
    pub fn required_languages(&self) -> (r: &[LanguageId])
        ensures
            r@ == self@.required,
    {
        self.required.as_slice()
    }

    /// What a search over the candidates of a language resolves to.
    pub fn resolution(&self, language: LanguageId, found: Option<FoundProvider>) -> (r: Result<
        ResolvedProvider,
        ProviderGap,
    >)
        requires
            found is Some ==> found->0.candidate < candidates_of(self@.entries, language).len(),
        ensures
            resolution_view(r) == resolution_of(
                language,
                candidates_of(self@.entries, language),
                found.deep_view(),
            ),
    {
        let candidates = self.candidates(language);
        let ghost specs = candidates_of(self@.entries, language);
        assert(candidates@.len() == specs.len());
        match found {
            Some(hit) => {
                let spec = &candidates[hit.candidate];
                assert(specs[hit.candidate as int] == spec.deep_view());
                Ok(
                    ResolvedProvider {
                        id: spec.id.clone(),
                        language,
                        command: hit.command,
                        args: clone_texts(&spec.args),
                        version: hit.version,
                        expected_capabilities: spec.expected_capabilities,
                    },
                )
            },
            None => {
                if candidates.len() == 0 {
                    let tried: Vec<ProviderId> = Vec::new();
                    assert(tried.deep_view() =~= Seq::<Seq<char>>::empty());
                    return Err(
                        ProviderGap {
                            language,
                            reason: ProviderGapReason::NoProviderRegistered,
                            tried,
                        },
                    );
                }
                let mut tried: Vec<ProviderId> = Vec::new();
                let mut i: usize = 0;
                while i < candidates.len()
                    invariant
                        i <= candidates@.len(),
                        tried@.len() == i,
                        forall|k: int|
                            0 <= k < i ==> (#[trigger] tried@[k]).deep_view()
                                == candidates@[k].id.deep_view(),
                    decreases candidates@.len() - i,
                {
                    tried.push(candidates[i].id.clone());
                    i += 1;
                }
                assert forall|k: int| 0 <= k < specs.len() implies specs[k].id
                    == #[trigger] candidates@[k].id.deep_view() by {
                    assert(specs[k] == candidates@[k].deep_view());
                }
                assert(tried.deep_view() =~= specs.map_values(|spec: SpecView| spec.id));
                Err(ProviderGap { language, reason: ProviderGapReason::NoBinaryOnPath, tried })
            },
        }
    }

    /// Resolve using an injected [`BinaryFinder`] (unit-testable, no real PATH):
    /// the first candidate with a binary wins.
    pub fn resolve_with<F: BinaryFinder>(&self, language: LanguageId, finder: &F) -> (r: Result<
        ResolvedProvider,
        ProviderGap,
    >)
        ensures
            exists|found: Option<FoundView>| #[trigger]
                is_search(finder, candidates_of(self@.entries, language), found)
                    && resolution_view(r) == resolution_of(
                    language,
                    candidates_of(self@.entries, language),
                    found,
                ),
    {
        let candidates = self.candidates(language);
        let ghost specs = candidates_of(self@.entries, language);
        assert(candidates@.len() == specs.len());
        let mut i: usize = 0;
        while i < candidates.len()
            invariant
                i <= candidates@.len(),
                candidates.deep_view() == specs,
                specs == candidates_of(self@.entries, language),
                no_candidate_found(finder, specs, i as int),
            decreases candidates@.len() - i,
        {
            let spec = &candidates[i];
            assert(specs[i as int] == spec.deep_view());
            let ghost binaries = specs[i as int].binaries;
            let mut j: usize = 0;
            while j < spec.binaries.len()
                invariant
                    i < candidates@.len(),
                    candidates.deep_view() == specs,
                    specs == candidates_of(self@.entries, language),
                    no_candidate_found(finder, specs, i as int),
                    j <= spec.binaries@.len(),
                    specs[i as int] == spec.deep_view(),
                    binaries == specs[i as int].binaries,
                    none_found(finder, binaries, j as int),
                decreases spec.binaries@.len() - j,
            {
                assert(binaries[j as int] == spec.binaries@[j as int]@);
                let answer = finder.find_on_path(spec.binaries[j].as_str());
                assert(looked_up(finder, binaries[j as int], answer.deep_view()));
                if let Some(command) = answer {
                    let version = finder.probe_version(command.as_str());
                    assert(versioned(finder, command@, version.deep_view()));
                    let found = Some(FoundProvider { candidate: i, command, version });
                    assert(is_search(finder, specs, found.deep_view()));
                    return self.resolution(language, found);
                }
                j += 1;
            }
            i += 1;
        }
        assert(is_search(finder, specs, None));
        self.resolution(language, None)
    }
}

impl Default for ProviderRegistry {
    fn default() -> (r: Self)
        ensures
            r@ == (RegistryView {
                entries: default_entries(),
                required: Seq::empty(),
                disabled: Seq::empty(),
            }),
    {
        Self::with_defaults()
    }
}

// ── What holds of every accepted configuration ──────────────────────────

proof fn lemma_conflict(required: Seq<LanguageId>, disabled: Seq<LanguageId>, from: int)
    requires
        0 <= from <= required.len(),
        conflict(required, disabled, from) is None,
    ensures
        forall|i: int| from <= i < required.len() ==> !disabled.contains(#[trigger] required[i]),
    decreases required.len() - from,
{
    if from < required.len() {
        lemma_conflict(required, disabled, from + 1);
    }
}

/// A configuration that is accepted leaves no language both required and
/// disabled.
pub proof fn accepted_config_has_no_conflict(
    registry: RegistryView,
    config: ConfigView,
    language: LanguageId,
)
    requires
        config_applied(registry, config).1 is None,
    ensures
        !(config_applied(registry, config).0.required.contains(language) && config_applied(
            registry,
            config,
        ).0.disabled.contains(language)),
{
    let after = config_applied(registry, config).0;
    lemma_conflict(after.required, after.disabled, 0);
}

/// Adding slugs keeps what was listed, lists every language that is named, and
/// lists nothing else and nothing twice.
pub proof fn slugs_added_lists_each_once(
    list: Seq<LanguageId>,
    slugs: Seq<Seq<char>>,
    from: int,
    language: LanguageId,
)
    requires
        0 <= from <= slugs.len(),
        list.no_duplicates(),
        slugs_added(list, slugs, from).1 is None,
    ensures
        slugs_added(list, slugs, from).0.no_duplicates(),
        slugs_added(list, slugs, from).0.contains(language) <==> (list.contains(language)
            || exists|i: int|
            from <= i < slugs.len() && language_of_slug(#[trigger] slugs[i]) == Some(language)),
    decreases slugs.len() - from,
{
    if from < slugs.len() {
        let named = language_of_slug(slugs[from])->0;
        let next = if list.contains(named) {
            list
        } else {
            list.push(named)
        };
        if !list.contains(named) {
            assert(next.no_duplicates());
            assert(next[list.len() as int] == named);
            assert(forall|l: LanguageId| list.contains(l) ==> next.contains(l)) by {
                assert forall|l: LanguageId| list.contains(l) implies next.contains(l) by {
                    let k = choose|k: int| 0 <= k < list.len() && list[k] == l;
                    assert(next[k] == l);
                }
            }
        }
        slugs_added_lists_each_once(next, slugs, from + 1, language);
        if next.contains(language) && !list.contains(language) {
            assert(language_of_slug(slugs[from]) == Some(language));
        }
    }
}

proof fn lemma_entry_of(
    entries: Seq<(LanguageId, Seq<SpecView>)>,
    language: LanguageId,
    from: int,
)
    requires
        0 <= from <= entries.len(),
    ensures
        from <= entry_of(entries, language, from) <= entries.len(),
        entry_of(entries, language, from) < entries.len() ==> entries[entry_of(
            entries,
            language,
            from,
        )].0 == language,
    decreases entries.len() - from,
{
    if from < entries.len() {
        lemma_entry_of(entries, language, from + 1);
    }
}

proof fn lemma_entry_of_same_languages(
    a: Seq<(LanguageId, Seq<SpecView>)>,
    b: Seq<(LanguageId, Seq<SpecView>)>,
    language: LanguageId,
    from: int,
)
    requires
        0 <= from <= a.len(),
        a.len() == b.len(),
        forall|i: int| 0 <= i < a.len() ==> (#[trigger] a[i]).0 == b[i].0,
    ensures
        entry_of(a, language, from) == entry_of(b, language, from),
    decreases a.len() - from,
{
    if from < a.len() {
        assert(a[from].0 == b[from].0);
        lemma_entry_of_same_languages(a, b, language, from + 1);
    }
}

proof fn lemma_candidate_of(specs: Seq<SpecView>, id: Seq<char>, from: int)
    requires
        0 <= from <= specs.len(),
    ensures
        from <= candidate_of(specs, id, from) <= specs.len(),
        candidate_of(specs, id, from) < specs.len() ==> specs[candidate_of(specs, id, from)].id
            == id,
    decreases specs.len() - from,
{
    if from < specs.len() {
        lemma_candidate_of(specs, id, from + 1);
    }
}

/// An override puts its provider first among its language's candidates, keeps
/// every other candidate in order behind it, and leaves the other languages
/// alone.
pub proof fn override_prefers_its_provider(
    entries: Seq<(LanguageId, Seq<SpecView>)>,
    over: OverrideView,
    language: LanguageId,
)
    requires
        override_applied(entries, over) is Ok,
    ensures
        ({
            let before = candidates_of(entries, language);
            let after = candidates_of(override_applied(entries, over)->Ok_0, language);
            if language_of_slug(over.language) == Some(language) {
                let chosen = candidate_of(before, over.provider, 0);
                &&& 0 <= chosen < before.len()
                &&& before[chosen].id == over.provider
                &&& after == seq![overridden(before[chosen], over)] + before.remove(chosen)
                &&& after[0].id == over.provider
            } else {
                after == before
            }
        }),
{
    let named = language_of_slug(over.language)->0;
    let after = override_applied(entries, over)->Ok_0;
    let at = entry_of(entries, named, 0);
    lemma_entry_of(entries, named, 0);
    lemma_entry_of(entries, language, 0);
    lemma_candidate_of(candidates_of(entries, named), over.provider, 0);
    assert forall|i: int| 0 <= i < entries.len() implies (#[trigger] entries[i]).0
        == after[i].0 by {}
    lemma_entry_of_same_languages(entries, after, language, 0);
}

/// What a configuration cannot change of a provider: its id, its language and
/// the capabilities expected of it.
pub struct ProviderTraits {
    pub id: Seq<char>,
    pub language: LanguageId,
    pub expected_capabilities: Set<LspCapability>,
}

/// What a configuration cannot change of a provider.
pub open spec fn traits_of(spec: SpecView) -> ProviderTraits {
    ProviderTraits {
        id: spec.id,
        language: spec.language,
        expected_capabilities: spec.expected_capabilities,
    }
}

/// What a configuration cannot change of some providers, in their order.
pub open spec fn all_traits(specs: Seq<SpecView>) -> Seq<ProviderTraits> {
    specs.map_values(|spec: SpecView| traits_of(spec))
}

proof fn lemma_override_keeps_providers(
    entries: Seq<(LanguageId, Seq<SpecView>)>,
    over: OverrideView,
    language: LanguageId,
)
    requires
        override_applied(entries, over) is Ok,
    ensures
        all_traits(
            candidates_of(override_applied(entries, over)->Ok_0, language),
        ).to_multiset() == all_traits(candidates_of(entries, language)).to_multiset(),
{
    override_prefers_its_provider(entries, over, language);
    if language_of_slug(over.language) == Some(language) {
        let before = candidates_of(entries, language);
        let after = candidates_of(override_applied(entries, over)->Ok_0, language);
        let chosen = candidate_of(before, over.provider, 0);
        let old_traits = all_traits(before);
        let rest = old_traits.remove(chosen);
        assert(all_traits(after) =~= rest.insert(0, old_traits[chosen]));
        vstd::seq_lib::to_multiset_insert(rest, 0, old_traits[chosen]);
        vstd::seq_lib::to_multiset_remove(old_traits, chosen);
        vstd::seq_lib::to_multiset_contains(old_traits, old_traits[chosen]);
        assert(old_traits.contains(old_traits[chosen]));
        assert(all_traits(after).to_multiset() =~= old_traits.to_multiset());
    }
}

proof fn lemma_overrides_keep_providers(
    entries: Seq<(LanguageId, Seq<SpecView>)>,
    overs: Seq<OverrideView>,
    from: int,
    language: LanguageId,
)
    requires
        0 <= from <= overs.len(),
    ensures
        all_traits(
            candidates_of(overrides_applied(entries, overs, from).0, language),
        ).to_multiset() == all_traits(candidates_of(entries, language)).to_multiset(),
    decreases overs.len() - from,
{
    if from < overs.len() {
        if let Ok(next) = override_applied(entries, overs[from]) {
            lemma_override_keeps_providers(entries, overs[from], language);
            lemma_overrides_keep_providers(next, overs, from + 1, language);
        }
    }
}

/// A configuration keeps every provider of every language, with its id, its
/// language and the capabilities expected of it, and adds none: it only puts them
/// in another order, before other binaries and with other arguments. That is so
/// whether it is accepted or refused.
pub proof fn config_keeps_providers(
    registry: RegistryView,
    config: ConfigView,
    language: LanguageId,
)
    ensures
        all_traits(
            candidates_of(config_applied(registry, config).0.entries, language),
        ).to_multiset() == all_traits(candidates_of(registry.entries, language)).to_multiset(),
{
    lemma_overrides_keep_providers(registry.entries, config.providers, 0, language);
}

// ── What holds of every configuration and resolution ────────────────────

proof fn lemma_first_candidate(specs: Seq<SpecView>, id: Seq<char>, from: int)
    requires
        0 <= from <= specs.len(),
    ensures
        from <= candidate_of(specs, id, from) <= specs.len(),
        candidate_of(specs, id, from) < specs.len() ==> specs[candidate_of(specs, id, from)].id
            == id,
        forall|k: int| from <= k < candidate_of(specs, id, from) ==> (#[trigger] specs[k]).id != id,
    decreases specs.len() - from,
{
    if from < specs.len() && specs[from].id != id {
        lemma_first_candidate(specs, id, from + 1);
    }
}

/// An override is refused where its language is not known, and where no candidate of
/// that language has its provider's id; it is applied otherwise.
pub proof fn override_needs_a_known_provider(
    entries: Seq<(LanguageId, Seq<SpecView>)>,
    over: OverrideView,
)
    ensures
        match language_of_slug(over.language) {
            None => override_applied(entries, over) == Err::<
                Seq<(LanguageId, Seq<SpecView>)>,
                ConfigErrorView,
            >(ConfigErrorView::UnknownLanguage(over.language)),
            Some(language) => {
                let specs = candidates_of(entries, language);
                if exists|k: int| 0 <= k < specs.len() && (#[trigger] specs[k]).id == over.provider {
                    override_applied(entries, over) is Ok
                } else {
                    override_applied(entries, over) == Err::<
                        Seq<(LanguageId, Seq<SpecView>)>,
                        ConfigErrorView,
                    >(ConfigErrorView::UnknownProvider { language, provider: over.provider })
                }
            },
        },
{
    if let Some(language) = language_of_slug(over.language) {
        let specs = candidates_of(entries, language);
        lemma_first_candidate(specs, over.provider, 0);
        if exists|k: int| 0 <= k < specs.len() && (#[trigger] specs[k]).id == over.provider {
            let k = choose|k: int|
                0 <= k < specs.len() && (#[trigger] specs[k]).id == over.provider;
            assert(specs[k].id == over.provider);
        }
    }
}

/// An override puts the first candidate with its provider's id in front, searched for
/// under the override's binaries before its own, and launched with the override's
/// arguments where it gives some. Its id, its language and what is expected of it stay.
/// The other candidates follow as they were.
pub proof fn overridden_provider_comes_first(
    entries: Seq<(LanguageId, Seq<SpecView>)>,
    over: OverrideView,
    language: LanguageId,
    k: int,
)
    requires
        override_applied(entries, over) is Ok,
        language_of_slug(over.language) == Some(language),
        0 <= k < candidates_of(entries, language).len(),
        candidates_of(entries, language)[k].id == over.provider,
        forall|j: int|
            0 <= j < k ==> (#[trigger] candidates_of(entries, language)[j]).id != over.provider,
    ensures
        ({
            let before = candidates_of(entries, language);
            let after = candidates_of(override_applied(entries, over)->Ok_0, language);
            &&& after.len() == before.len()
            &&& after[0].id == over.provider
            &&& after[0].binaries == over.binaries + before[k].binaries
            &&& after[0].args == match over.args {
                Some(args) => args,
                None => before[k].args,
            }
            &&& after[0].language == before[k].language
            &&& after[0].expected_capabilities == before[k].expected_capabilities
            &&& forall|j: int| 0 <= j < k ==> #[trigger] after[j + 1] == before[j]
            &&& forall|j: int| k < j < before.len() ==> #[trigger] after[j] == before[j]
        }),
{
    override_prefers_its_provider(entries, over, language);
    let before = candidates_of(entries, language);
    lemma_first_candidate(before, over.provider, 0);
    let chosen = candidate_of(before, over.provider, 0);
    assert(chosen == k) by {
        if chosen < k {
            assert(before[chosen].id == over.provider);
        }
        if k < chosen {
            assert(before[k].id != over.provider);
        }
    }
}

proof fn lemma_slugs_known(list: Seq<LanguageId>, slugs: Seq<Seq<char>>, from: int)
    requires
        0 <= from <= slugs.len(),
        forall|i: int| from <= i < slugs.len() ==> language_of_slug(#[trigger] slugs[i]) is Some,
    ensures
        slugs_added(list, slugs, from).1 is None,
    decreases slugs.len() - from,
{
    if from < slugs.len() {
        assert(language_of_slug(slugs[from]) is Some);
        let language = language_of_slug(slugs[from])->0;
        lemma_slugs_known(
            if list.contains(language) {
                list
            } else {
                list.push(language)
            },
            slugs,
            from + 1,
        );
    }
}

proof fn lemma_slug_unknown(list: Seq<LanguageId>, slugs: Seq<Seq<char>>, from: int, at: int)
    requires
        0 <= from <= at < slugs.len(),
        language_of_slug(slugs[at]) is None,
        forall|i: int| from <= i < at ==> language_of_slug(#[trigger] slugs[i]) is Some,
    ensures
        slugs_added(list, slugs, from).1 == Some(ConfigErrorView::UnknownLanguage(slugs[at])),
    decreases at - from,
{
    if from < at {
        assert(language_of_slug(slugs[from]) is Some);
        let language = language_of_slug(slugs[from])->0;
        lemma_slug_unknown(
            if list.contains(language) {
                list
            } else {
                list.push(language)
            },
            slugs,
            from + 1,
            at,
        );
    }
}

/// The first slug of a list that names no language is what the list is refused for;
/// one in which every slug names a language is taken.
pub proof fn first_unknown_slug_is_refused(
    list: Seq<LanguageId>,
    slugs: Seq<Seq<char>>,
    at: int,
)
    ensures
        (forall|i: int| 0 <= i < slugs.len() ==> language_of_slug(#[trigger] slugs[i]) is Some)
            ==> slugs_added(list, slugs, 0).1 is None,
        0 <= at < slugs.len() && language_of_slug(slugs[at]) is None && (forall|i: int|
            0 <= i < at ==> language_of_slug(#[trigger] slugs[i]) is Some) ==> slugs_added(
            list,
            slugs,
            0,
        ).1 == Some(ConfigErrorView::UnknownLanguage(slugs[at])),
{
    if forall|i: int| 0 <= i < slugs.len() ==> language_of_slug(#[trigger] slugs[i]) is Some {
        lemma_slugs_known(list, slugs, 0);
    }
    if 0 <= at < slugs.len() && language_of_slug(slugs[at]) is None && (forall|i: int|
        0 <= i < at ==> language_of_slug(#[trigger] slugs[i]) is Some) {
        lemma_slug_unknown(list, slugs, 0, at);
    }
}

/// A configuration that is accepted makes required what was required and what it names
/// as required, and disabled what was disabled and what it names as disabled, and
/// nothing else.
pub proof fn accepted_config_says_what_is_required(
    registry: RegistryView,
    config: ConfigView,
    language: LanguageId,
)
    requires
        config_applied(registry, config).1 is None,
        registry.required.no_duplicates(),
        registry.disabled.no_duplicates(),
    ensures
        config_applied(registry, config).0.required.contains(language) <==> (
        registry.required.contains(language) || exists|i: int|
            0 <= i < config.required.len() && language_of_slug(#[trigger] config.required[i])
                == Some(language)),
        config_applied(registry, config).0.disabled.contains(language) <==> (
        registry.disabled.contains(language) || exists|i: int|
            0 <= i < config.disabled.len() && language_of_slug(#[trigger] config.disabled[i])
                == Some(language)),
        config_applied(registry, config).0.required.no_duplicates(),
        config_applied(registry, config).0.disabled.no_duplicates(),
{
    slugs_added_lists_each_once(registry.required, config.required, 0, language);
    slugs_added_lists_each_once(registry.disabled, config.disabled, 0, language);
}

proof fn lemma_conflict_is_found(
    required: Seq<LanguageId>,
    disabled: Seq<LanguageId>,
    from: int,
    at: int,
)
    requires
        0 <= from <= at < required.len(),
        disabled.contains(required[at]),
    ensures
        conflict(required, disabled, from) is Some,
        required.contains(conflict(required, disabled, from)->0),
        disabled.contains(conflict(required, disabled, from)->0),
    decreases at - from,
{
    if from < at && !disabled.contains(required[from]) {
        lemma_conflict_is_found(required, disabled, from + 1, at);
    }
}

/// A configuration that leaves a language both required and disabled is refused, and
/// for nothing but that where every override applies and every slug names a language.
pub proof fn conflicting_config_is_refused(
    registry: RegistryView,
    config: ConfigView,
    language: LanguageId,
)
    requires
        overrides_applied(registry.entries, config.providers, 0).1 is None,
        forall|i: int|
            0 <= i < config.required.len() ==> language_of_slug(#[trigger] config.required[i])
                is Some,
        forall|i: int|
            0 <= i < config.disabled.len() ==> language_of_slug(#[trigger] config.disabled[i])
                is Some,
        config_applied(registry, config).0.required.contains(language),
        config_applied(registry, config).0.disabled.contains(language),
    ensures
        config_applied(registry, config).1 matches Some(
            ConfigErrorView::RequiredAndDisabled(both),
        ) && config_applied(registry, config).0.required.contains(both) && config_applied(
            registry,
            config,
        ).0.disabled.contains(both),
{
    let after = config_applied(registry, config).0;
    lemma_slugs_known(registry.required, config.required, 0);
    lemma_slugs_known(registry.disabled, config.disabled, 0);
    let at = choose|i: int| 0 <= i < after.required.len() && after.required[i] == language;
    lemma_conflict_is_found(after.required, after.disabled, 0, at);
}

/// A language resolves to the candidate that was found, with what it is launched with
/// and what is expected of it. Where none was found, the gap says whether the language
/// has no candidate at all, or names every candidate that was tried, in order.
pub proof fn resolution_is_the_candidate_found(
    language: LanguageId,
    specs: Seq<SpecView>,
    found: Option<FoundView>,
)
    requires
        found is Some ==> 0 <= found->0.candidate < specs.len(),
    ensures
        match resolution_of(language, specs, found) {
            Ok(resolved) => found matches Some(hit) && {
                let spec = specs[hit.candidate];
                &&& resolved.language == language
                &&& resolved.id == spec.id
                &&& resolved.args == spec.args
                &&& resolved.expected_capabilities == spec.expected_capabilities
                &&& resolved.command == hit.command
                &&& resolved.version == hit.version
            },
            Err(gap) => {
                &&& found is None
                &&& gap.language == language
                &&& gap.reason is NoProviderRegistered <==> specs.len() == 0
                &&& gap.reason is NoBinaryOnPath <==> specs.len() > 0
                &&& gap.tried.len() == specs.len()
                &&& forall|i: int| 0 <= i < specs.len() ==> #[trigger] gap.tried[i] == specs[i].id
            },
        },
{
}

proof fn lemma_default_entry(language: LanguageId, i: int)
    requires
        0 <= i < default_languages().len(),
        default_languages()[i] == language,
    ensures
        candidates_of(default_entries(), language) == default_specs(language),
{
    let entries = default_entries();
    lemma_entry_of(entries, language, 0);
    reveal_with_fuel(entry_of, 9);
    assert(entries[i] == (language, default_specs(language)));
    let at = entry_of(entries, language, 0);
    assert(at < entries.len());
    assert(entries[at] == (default_languages()[at], default_specs(default_languages()[at])));
}

/// A language has built-in candidates exactly where it is one of the eight that are
/// served. Each candidate is for its language, is searched for under one binary, is
/// expected to serve definitions and references at least, and no two of a language
/// share an id.
pub proof fn built_in_candidates_serve_their_language(language: LanguageId)
    ensures
        ({
            let specs = candidates_of(default_entries(), language);
            &&& specs.len() > 0 <==> (language == LanguageId::Rust || language == LanguageId::Python
                || language == LanguageId::TypeScript || language == LanguageId::JavaScript
                || language == LanguageId::Go || language == LanguageId::Java || language
                == LanguageId::C || language == LanguageId::Cpp)
            &&& forall|i: int|
                0 <= i < specs.len() ==> {
                    &&& (#[trigger] specs[i]).language == language
                    &&& specs[i].binaries.len() == 1
                    &&& specs[i].expected_capabilities.contains(LspCapability::Definition)
                    &&& specs[i].expected_capabilities.contains(LspCapability::References)
                }
            &&& forall|i: int, j: int|
                0 <= i < j < specs.len() ==> (#[trigger] specs[i]).id != (#[trigger] specs[j]).id
        }),
{
    reveal_strlit("pyright");
    reveal_strlit("pylsp");
    reveal_strlit("typescript-language-server");
    reveal_strlit("vtsls");
    assert("pyright"@.len() != "pylsp"@.len());
    assert("typescript-language-server"@.len() != "vtsls"@.len());
    let entries = default_entries();
    lemma_entry_of(entries, language, 0);
    let at = entry_of(entries, language, 0);
    if exists|i: int|
        0 <= i < default_languages().len() && #[trigger] default_languages()[i] == language {
        let i = choose|i: int|
            0 <= i < default_languages().len() && #[trigger] default_languages()[i] == language;
        lemma_default_entry(language, i);
    } else if at < entries.len() {
        assert(entries[at].0 == default_languages()[at]);
    }
    let known = default_languages();
    assert(known[0] == LanguageId::Rust && known[1] == LanguageId::Python && known[2]
        == LanguageId::TypeScript && known[3] == LanguageId::JavaScript && known[4]
        == LanguageId::Go && known[5] == LanguageId::Java && known[6] == LanguageId::C && known[7]
        == LanguageId::Cpp);
}

/// Whether two characters are the same but for the case of an ASCII letter in the first.
pub open spec fn is_same_letter(c: char, lower: char) -> bool {
    if 'A' <= c <= 'Z' {
        (c as u32) + 32 == lower as u32
    } else {
        c == lower
    }
}

proof fn lemma_same_letter(c: char, lower: char)
    ensures
        is_same_letter(c, lower) == (text::lower_char(c) == lower),
{
    if 'A' <= c <= 'Z' {
        assert(text::lower_char(c) as u32 == (c as u32) + 32);
        if is_same_letter(c, lower) {
            assert(lower as u32 == text::lower_char(c) as u32);
            assert(lower as int == text::lower_char(c) as int);
        }
    }
}

/// A slug names a language where it spells that language's own slug, with ASCII letters
/// of either case, and only there.
pub proof fn slug_names_what_it_spells(slug: Seq<char>, language: LanguageId)
    ensures
        language_of_slug(slug) == Some(language) <==> {
            let own = types::language_slug(language);
            &&& slug.len() == own.len()
            &&& forall|i: int| 0 <= i < slug.len() ==> is_same_letter(#[trigger] slug[i], own[i])
        },
{
    let own = types::language_slug(language);
    let low = text::lowered(slug);
    assert forall|i: int| 0 <= i < slug.len() && slug.len() == own.len() implies is_same_letter(
        #[trigger] slug[i],
        own[i],
    ) == (low[i] == own[i]) by {
        lemma_same_letter(slug[i], own[i]);
    }
    if slug.len() == own.len() && (forall|i: int|
        0 <= i < slug.len() ==> is_same_letter(#[trigger] slug[i], own[i])) {
        assert(low =~= own) by {
            assert forall|i: int| 0 <= i < low.len() implies low[i] == own[i] by {
                assert(is_same_letter(slug[i], own[i]));
            }
        }
        assert(types::language_slug(language) == text::lowered(slug));
        let found = choose|l: LanguageId| #[trigger] types::language_slug(l) == text::lowered(slug);
        language_slugs_are_distinct(found, language);
    }
    if language_of_slug(slug) == Some(language) {
        assert(own == low);
    }
}

/// A search that comes to a candidate has asked for every binary of every candidate
/// before it, and for the binaries of that candidate up to the one that was found, and
/// was told of none of them; one that comes to nothing has asked for all.
pub proof fn search_stops_at_the_first_hit<F: BinaryFinder>(
    finder: &F,
    specs: Seq<SpecView>,
    found: Option<FoundView>,
    c: int,
    b: int,
)
    requires
        is_search(finder, specs, found),
        0 <= c < specs.len(),
        0 <= b < specs[c].binaries.len(),
        found matches Some(hit) ==> c < hit.candidate,
    ensures
        looked_up(finder, specs[c].binaries[b], None),
        found matches Some(hit) ==> {
            &&& 0 <= hit.candidate < specs.len()
            &&& versioned(finder, hit.command, hit.version)
            &&& exists|j: int|
                0 <= j < specs[hit.candidate].binaries.len() && #[trigger] looked_up(
                    finder,
                    specs[hit.candidate].binaries[j],
                    Some(hit.command),
                ) && forall|k: int|
                    0 <= k < j ==> looked_up(
                        finder,
                        #[trigger] specs[hit.candidate].binaries[k],
                        None,
                    )
        },
{
    assert(none_found(finder, specs[c].binaries, specs[c].binaries.len() as int));
    assert(looked_up(finder, specs[c].binaries[b], None));
    if let Some(hit) = found {
        let binaries = specs[hit.candidate].binaries;
        let j = choose|j: int|
            {
                &&& 0 <= j < binaries.len()
                &&& none_found(finder, binaries, j)
                &&& looked_up(finder, #[trigger] binaries[j], Some(hit.command))
            };
        assert(looked_up(finder, binaries[j], Some(hit.command)));
    }
}

} // verus!
