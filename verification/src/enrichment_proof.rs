//! LSP enrichment proof: completion accounting and the fail-loud citable gate.
//!
//! In a citable / proof run, LSP enrichment must be PROVEN, not assumed:
//!
//! - which servers ran, at which versions (provenance),
//! - enrichment completion per language (files attempted / enriched / failed),
//! - and failures fail LOUD: a citable run may never silently degrade to
//!   unenriched.
//!
//! This module owns the record shape ([`LspEnrichmentProof`]) and the
//! accumulator ([`ProofRecorder`]) the enrichment driver feeds during a run.

use vstd::prelude::*;

use crate::capability;
use crate::capability::{CapabilitySet, LspCapability};
use crate::decimal;
use crate::registry;
use crate::registry::{floor_gap, ProviderGap, ProviderId, ProviderProbe};
use crate::sorting;
use crate::sorting::{stable_sort, Ranked};
use crate::text;
use crate::text::joined;
use crate::types;
use crate::types::LanguageId;

verus! {

/// The contract a run is held to.
#[derive(Debug, Clone, Copy, PartialEq, Eq, Structural)]
pub enum ProofMode {
    /// Best-effort enrichment; gaps are recorded but not fatal.
    Advisory,
    /// Citable / proof run; required-language gaps and silent file failures are
    /// violations of the proof contract.
    Citable,
}

impl Default for ProofMode {
    fn default() -> (r: Self)
        ensures
            r == ProofMode::Advisory,
    {
        ProofMode::Advisory
    }
}

impl DeepView for ProofMode {
    type V = ProofMode;

    open spec fn deep_view(&self) -> ProofMode {
        *self
    }
}

/// A single file whose enrichment failed. Retained (not swallowed) so a citable
/// run can point at exactly what degraded.
#[derive(Debug, PartialEq, Eq)]
pub struct FileFailure {
    pub file: String,
    pub reason: String,
}

/// What a [`FileFailure`] says.
pub struct FailureView {
    pub file: Seq<char>,
    pub reason: Seq<char>,
}

impl DeepView for FileFailure {
    type V = FailureView;

    open spec fn deep_view(&self) -> FailureView {
        FailureView { file: self.file@, reason: self.reason@ }
    }
}

/// Per-language enrichment accounting within a proof run.
#[derive(Debug, PartialEq, Eq)]
pub struct LanguageEnrichment {
    pub language: LanguageId,
    /// The provider that ran, once one was resolved and probed.
    pub provider: Option<ProviderId>,
    pub version: Option<String>,
    /// Capabilities the live server reported (source of truth for what ran).
    pub probed_capabilities: CapabilitySet,
    /// Expected-but-not-probed capabilities: drift between design and server.
    pub missing_capabilities: CapabilitySet,
    pub files_attempted: u64,
    pub files_enriched: u64,
    pub files_failed: u64,
    pub relations_emitted: u64,
    /// Detail for each failed file (empty on a clean language).
    pub failures: Vec<FileFailure>,
}

/// What a [`LanguageEnrichment`] says.
pub struct EnrichmentView {
    pub language: LanguageId,
    pub provider: Option<Seq<char>>,
    pub version: Option<Seq<char>>,
    pub probed_capabilities: Set<LspCapability>,
    pub missing_capabilities: Set<LspCapability>,
    pub files_attempted: u64,
    pub files_enriched: u64,
    pub files_failed: u64,
    pub relations_emitted: u64,
    pub failures: Seq<FailureView>,
}

impl DeepView for LanguageEnrichment {
    type V = EnrichmentView;

    open spec fn deep_view(&self) -> EnrichmentView {
        EnrichmentView {
            language: self.language,
            provider: self.provider.deep_view(),
            version: self.version.deep_view(),
            probed_capabilities: self.probed_capabilities@,
            missing_capabilities: self.missing_capabilities@,
            files_attempted: self.files_attempted,
            files_enriched: self.files_enriched,
            files_failed: self.files_failed,
            relations_emitted: self.relations_emitted,
            failures: self.failures.deep_view(),
        }
    }
}

/// The record of a language for which nothing has happened yet.
pub open spec fn fresh_enrichment(language: LanguageId) -> EnrichmentView {
    EnrichmentView {
        language,
        provider: None,
        version: None,
        probed_capabilities: Set::empty(),
        missing_capabilities: Set::empty(),
        files_attempted: 0,
        files_enriched: 0,
        files_failed: 0,
        relations_emitted: 0,
        failures: Seq::empty(),
    }
}

/// Whether a set of probed capabilities holds the citable floor.
pub open spec fn meets_floor(probed: Set<LspCapability>) -> bool {
    registry::citable_minimum().subset_of(probed)
}

impl LanguageEnrichment {
    fn new(language: LanguageId) -> (r: Self)
        ensures
            r.deep_view() == fresh_enrichment(language),
    {
        let r = LanguageEnrichment {
            language,
            provider: None,
            version: None,
            probed_capabilities: CapabilitySet::new(),
            missing_capabilities: CapabilitySet::new(),
            files_attempted: 0,
            files_enriched: 0,
            files_failed: 0,
            relations_emitted: 0,
            failures: Vec::new(),
        };
        assert(r.failures.deep_view() =~= Seq::<FailureView>::empty());
        r
    }

    /// Whether the live server met the citable capability floor.
    pub fn meets_minimum(&self) -> (r: bool)
        ensures
            r == meets_floor(self.deep_view().probed_capabilities),
    {
        let missing = floor_gap(&self.probed_capabilities);
        let ghost probed = self.probed_capabilities@;
        proof {
            if missing@ =~= Set::empty() {
                assert forall|c: LspCapability| registry::citable_minimum().contains(c) implies
                    probed.contains(c) by {
                    assert(!missing@.contains(c));
                }
            } else {
                if meets_floor(probed) {
                    assert(missing@ =~= Set::empty());
                }
            }
        }
        missing.is_empty()
    }

    /// Citable-floor capabilities the server did not report.
    pub fn missing_minimum(&self) -> (r: CapabilitySet)
        ensures
            r@ == registry::citable_minimum().difference(self.deep_view().probed_capabilities),
    {
        floor_gap(&self.probed_capabilities)
    }
}

/// A registry-level gap (no provider / no binary) recorded into the proof.
#[derive(Debug, PartialEq, Eq)]
pub struct ProofGap {
    pub language: LanguageId,
    pub detail: String,
    /// Whether the gap is for a language the repo config marked required.
    pub required: bool,
}

/// What a [`ProofGap`] says.
pub struct ProofGapView {
    pub language: LanguageId,
    pub detail: Seq<char>,
    pub required: bool,
}

impl DeepView for ProofGap {
    type V = ProofGapView;

    open spec fn deep_view(&self) -> ProofGapView {
        ProofGapView { language: self.language, detail: self.detail@, required: self.required }
    }
}

/// A specific way a run violated the citable proof contract.
#[derive(Debug, PartialEq, Eq)]
pub enum ProofViolation {
    /// A required language never resolved / ran a provider.
    MissingRequiredProvider(LanguageId),
    /// A required language's live server was below the capability floor.
    BelowMinimumCapabilities { language: LanguageId, missing: CapabilitySet },
    /// A required language had per-file enrichment failures (silent degrade).
    FileFailures { language: LanguageId, failed: u64 },
    /// A required language had an unresolved registry gap.
    UnresolvedRequiredGap { language: LanguageId, detail: String },
}

/// What a [`ProofViolation`] says.
pub enum ViolationView {
    MissingRequiredProvider(LanguageId),
    BelowMinimumCapabilities { language: LanguageId, missing: Set<LspCapability> },
    FileFailures { language: LanguageId, failed: u64 },
    UnresolvedRequiredGap { language: LanguageId, detail: Seq<char> },
}

impl DeepView for ProofViolation {
    type V = ViolationView;

    open spec fn deep_view(&self) -> ViolationView {
        match self {
            ProofViolation::MissingRequiredProvider(language) =>
                ViolationView::MissingRequiredProvider(*language),
            ProofViolation::BelowMinimumCapabilities { language, missing } =>
                ViolationView::BelowMinimumCapabilities { language: *language, missing: missing@ },
            ProofViolation::FileFailures { language, failed } => ViolationView::FileFailures {
                language: *language,
                failed: *failed,
            },
            ProofViolation::UnresolvedRequiredGap { language, detail } =>
                ViolationView::UnresolvedRequiredGap { language: *language, detail: detail@ },
        }
    }
}

/// The slugs of the first `n` capabilities of a list, with commas between them.
pub open spec fn slugs_text(list: Seq<LspCapability>, n: int) -> Seq<char>
    decreases n,
{
    if n <= 0 {
        Seq::empty()
    } else if n == 1 {
        capability::capability_slug(list[0])
    } else {
        slugs_text(list, n - 1) + ", "@ + capability::capability_slug(list[n - 1])
    }
}

/// A violation in words.
pub open spec fn violation_text(violation: ViolationView) -> Seq<char> {
    match violation {
        ViolationView::MissingRequiredProvider(language) => "required language '"@
            + types::language_slug(language)
            + "' ran no LSP provider (enrichment never happened)"@,
        ViolationView::BelowMinimumCapabilities { language, missing } => {
            let list = capability::capability_list(missing);
            "required language '"@ + types::language_slug(language)
                + "' server is below the citable capability floor (missing: "@ + slugs_text(
                list,
                list.len() as int,
            ) + ")"@
        },
        ViolationView::FileFailures { language, failed } => "required language '"@
            + types::language_slug(language) + "' had "@ + decimal::decimal_text(failed as nat)
            + " file(s) fail enrichment — a citable run cannot silently degrade"@,
        ViolationView::UnresolvedRequiredGap { language, detail } => "required language '"@
            + types::language_slug(language) + "' has an unresolved gap: "@ + detail,
    }
}

/// The slugs of a capability set, in order, with commas between them.
fn slug_list(caps: &CapabilitySet) -> (r: String)
    ensures
        r@ == slugs_text(
            capability::capability_list(caps@),
            capability::capability_list(caps@).len() as int,
        ),
{
    let list = caps.to_vec();
    let mut r = String::new();
    let mut i: usize = 0;
    while i < list.len()
        invariant
            i <= list@.len(),
            r@ == slugs_text(list@, i as int),
        decreases list@.len() - i,
    {
        if i > 0 {
            r.append(", ");
        }
        r.append(list[i].as_slug());
        assert(r@ =~= slugs_text(list@, i + 1));
        i += 1;
    }
    r
}

impl ProofViolation {
    /// The violation in words.
    pub fn to_string(&self) -> (r: String)
        ensures
            r@ == violation_text(self.deep_view()),
    {
        match self {
            ProofViolation::MissingRequiredProvider(language) => {
                joined("required language '", language.as_slug()).concat(
                    "' ran no LSP provider (enrichment never happened)",
                )
            },
            ProofViolation::BelowMinimumCapabilities { language, missing } => {
                joined("required language '", language.as_slug()).concat(
                    "' server is below the citable capability floor (missing: ",
                ).concat(slug_list(missing).as_str()).concat(")")
            },
            ProofViolation::FileFailures { language, failed } => {
                joined("required language '", language.as_slug()).concat("' had ").concat(
                    decimal::decimal(*failed).as_str(),
                ).concat(" file(s) fail enrichment — a citable run cannot silently degrade")
            },
            ProofViolation::UnresolvedRequiredGap { language, detail } => {
                joined("required language '", language.as_slug()).concat(
                    "' has an unresolved gap: ",
                ).concat(detail.as_str())
            },
        }
    }
}

// ── The order of languages ──────────────────────────────────────────────

/// The place of a language in the order of the slugs.
pub open spec fn language_rank(language: LanguageId) -> int {
    match language {
        LanguageId::C => 0,
        LanguageId::Cpp => 1,
        LanguageId::CSharp => 2,
        LanguageId::Go => 3,
        LanguageId::Hcl => 4,
        LanguageId::Java => 5,
        LanguageId::JavaScript => 6,
        LanguageId::Kotlin => 7,
        LanguageId::Php => 8,
        LanguageId::Python => 9,
        LanguageId::Ruby => 10,
        LanguageId::Rust => 11,
        LanguageId::Swift => 12,
        LanguageId::TypeScript => 13,
    }
}

fn rank_language(language: LanguageId) -> (r: u64)
    ensures
        r == language_rank(language),
{
    match language {
        LanguageId::C => 0,
        LanguageId::Cpp => 1,
        LanguageId::CSharp => 2,
        LanguageId::Go => 3,
        LanguageId::Hcl => 4,
        LanguageId::Java => 5,
        LanguageId::JavaScript => 6,
        LanguageId::Kotlin => 7,
        LanguageId::Php => 8,
        LanguageId::Python => 9,
        LanguageId::Ruby => 10,
        LanguageId::Rust => 11,
        LanguageId::Swift => 12,
        LanguageId::TypeScript => 13,
    }
}

/// A text that differs from another at `i`, and is the same before it, precedes
/// it if it ends there or has the smaller character there.
proof fn lemma_precedes(a: Seq<char>, b: Seq<char>, i: int)
    requires
        0 <= i <= a.len(),
        i < b.len(),
        forall|k: int| 0 <= k < i ==> a[k] == b[k],
        i == a.len() || a[i] < b[i],
    ensures
        text::precedes(a, b),
{
    assert(a.take(i) =~= b.take(i));
}

proof fn lemma_precedes_one_way(a: Seq<char>, b: Seq<char>)
    ensures
        !(text::precedes(a, b) && text::precedes(b, a)),
        !text::precedes(a, a),
{
    if text::precedes(a, b) && text::precedes(b, a) {
        let i = choose|i: int|
            {
                &&& 0 <= i <= a.len()
                &&& i < b.len()
                &&& #[trigger] a.take(i) == b.take(i)
                &&& (i == a.len() || a[i] < b[i])
            };
        let j = choose|j: int|
            {
                &&& 0 <= j <= b.len()
                &&& j < a.len()
                &&& #[trigger] b.take(j) == a.take(j)
                &&& (j == b.len() || b[j] < a[j])
            };
        if i < j {
            assert(b.take(j)[i] == a.take(j)[i]);
        } else if j < i {
            assert(a.take(i)[j] == b.take(i)[j]);
        }
    }
}

proof fn lemma_lower_rank_precedes(a: LanguageId, b: LanguageId)
    requires
        language_rank(a) < language_rank(b),
    ensures
        text::precedes(types::language_slug(a), types::language_slug(b)),
{
    reveal_strlit("c");
    reveal_strlit("cpp");
    reveal_strlit("csharp");
    reveal_strlit("go");
    reveal_strlit("hcl");
    reveal_strlit("java");
    reveal_strlit("javascript");
    reveal_strlit("kotlin");
    reveal_strlit("php");
    reveal_strlit("python");
    reveal_strlit("ruby");
    reveal_strlit("rust");
    reveal_strlit("swift");
    reveal_strlit("typescript");
    let first = types::language_slug(a);
    let second = types::language_slug(b);
    let at: int = if first[0] != second[0] {
        0
    } else if a == LanguageId::C || a == LanguageId::Cpp || a == LanguageId::Php {
        1
    } else if a == LanguageId::Ruby {
        2
    } else {
        4
    };
    lemma_precedes(first, second, at);
}

/// Languages rank as their slugs sort.
pub proof fn language_rank_follows_slug(a: LanguageId, b: LanguageId)
    ensures
        language_rank(a) < language_rank(b) <==> text::precedes(
            types::language_slug(a),
            types::language_slug(b),
        ),
        language_rank(a) == language_rank(b) <==> a == b,
{
    lemma_precedes_one_way(types::language_slug(a), types::language_slug(b));
    lemma_precedes_one_way(types::language_slug(a), types::language_slug(a));
    if language_rank(a) < language_rank(b) {
        lemma_lower_rank_precedes(a, b);
    } else if language_rank(b) < language_rank(a) {
        lemma_lower_rank_precedes(b, a);
    }
}

impl Ranked for LanguageEnrichment {
    open spec fn rank(v: EnrichmentView) -> int {
        language_rank(v.language)
    }

    fn rank_of(&self) -> (r: u64) {
        rank_language(self.language)
    }
}

impl Ranked for ProofGap {
    open spec fn rank(v: ProofGapView) -> int {
        language_rank(v.language)
    }

    fn rank_of(&self) -> (r: u64) {
        rank_language(self.language)
    }
}

impl Ranked for LanguageId {
    open spec fn rank(v: LanguageId) -> int {
        language_rank(v)
    }

    fn rank_of(&self) -> (r: u64) {
        rank_language(*self)
    }
}

// ── The proof record ────────────────────────────────────────────────────

/// The proof record for one LSP enrichment pass.
#[derive(Debug, PartialEq, Eq)]
pub struct LspEnrichmentProof {
    pub mode: ProofMode,
    /// Languages the repo config asserted as required for this citable run.
    pub required: Vec<LanguageId>,
    /// Per-language accounting, sorted by language slug for determinism.
    pub languages: Vec<LanguageEnrichment>,
    /// Registry-level gaps, sorted by language slug for determinism.
    pub gaps: Vec<ProofGap>,
}

/// What a [`LspEnrichmentProof`] or a [`ProofRecorder`] says.
pub struct ProofView {
    pub mode: ProofMode,
    pub required: Seq<LanguageId>,
    pub languages: Seq<EnrichmentView>,
    pub gaps: Seq<ProofGapView>,
}

impl DeepView for LspEnrichmentProof {
    type V = ProofView;

    open spec fn deep_view(&self) -> ProofView {
        ProofView {
            mode: self.mode,
            required: self.required@,
            languages: self.languages.deep_view(),
            gaps: self.gaps.deep_view(),
        }
    }
}

/// The first record of a language, or the number of records.
pub open spec fn record_at(
    languages: Seq<EnrichmentView>,
    language: LanguageId,
    from: int,
) -> int
    decreases languages.len() - from,
{
    if from < 0 || from >= languages.len() {
        languages.len() as int
    } else if languages[from].language == language {
        from
    } else {
        record_at(languages, language, from + 1)
    }
}

/// The record of a language, if there is one.
pub open spec fn record_of(languages: Seq<EnrichmentView>, language: LanguageId) -> Option<
    EnrichmentView,
> {
    let at = record_at(languages, language, 0);
    if at < languages.len() {
        Some(languages[at])
    } else {
        None
    }
}

/// The first gap of a language from `from` on that is marked required, if any.
pub open spec fn required_gap(
    gaps: Seq<ProofGapView>,
    language: LanguageId,
    from: int,
) -> Option<ProofGapView>
    decreases gaps.len() - from,
{
    if from < 0 || from >= gaps.len() {
        None
    } else if gaps[from].language == language && gaps[from].required {
        Some(gaps[from])
    } else {
        required_gap(gaps, language, from + 1)
    }
}

/// The first gap of a language from `from` on, if any.
pub open spec fn first_gap(
    gaps: Seq<ProofGapView>,
    language: LanguageId,
    from: int,
) -> Option<ProofGapView>
    decreases gaps.len() - from,
{
    if from < 0 || from >= gaps.len() {
        None
    } else if gaps[from].language == language {
        Some(gaps[from])
    } else {
        first_gap(gaps, language, from + 1)
    }
}

/// The gap that a required language is reported for: any gap of it is unresolved,
/// whether it was marked when it was recorded or not. The first one that is marked
/// comes before those that are not.
pub open spec fn open_gap(gaps: Seq<ProofGapView>, language: LanguageId) -> Option<ProofGapView> {
    match required_gap(gaps, language, 0) {
        Some(gap) => Some(gap),
        None => first_gap(gaps, language, 0),
    }
}

/// Whether a language has a gap.
pub open spec fn has_gap(gaps: Seq<ProofGapView>, language: LanguageId) -> bool {
    exists|i: int| 0 <= i < gaps.len() && (#[trigger] gaps[i]).language == language
}

/// The violations of one required language: an unresolved gap first, then what
/// its record shows. A language without a record lacks a provider; where a gap
/// that is reported explains why, that is not reported again.
pub open spec fn violations_of(proof_run: ProofView, language: LanguageId) -> Seq<ViolationView> {
    (match open_gap(proof_run.gaps, language) {
        Some(gap) => seq![ViolationView::UnresolvedRequiredGap { language, detail: gap.detail }],
        None => Seq::empty(),
    }) + (match record_of(proof_run.languages, language) {
        None => if open_gap(proof_run.gaps, language) is Some {
            Seq::empty()
        } else {
            seq![ViolationView::MissingRequiredProvider(language)]
        },
        Some(record) => (if record.provider is None {
            seq![ViolationView::MissingRequiredProvider(language)]
        } else if !meets_floor(record.probed_capabilities) {
            seq![
                ViolationView::BelowMinimumCapabilities {
                    language,
                    missing: registry::citable_minimum().difference(record.probed_capabilities),
                },
            ]
        } else {
            Seq::empty()
        }) + (if record.files_failed > 0 {
            seq![ViolationView::FileFailures { language, failed: record.files_failed }]
        } else {
            Seq::empty()
        }),
    })
}

/// The violations of the first `n` required languages, in order.
pub open spec fn violations(proof_run: ProofView, n: int) -> Seq<ViolationView>
    decreases n,
{
    if n <= 0 {
        Seq::empty()
    } else {
        violations(proof_run, n - 1) + violations_of(proof_run, proof_run.required[n - 1])
    }
}

/// The relations emitted over the first `n` records.
pub open spec fn relations_sum(languages: Seq<EnrichmentView>, n: int) -> nat
    decreases n,
{
    if n <= 0 {
        0
    } else {
        relations_sum(languages, n - 1) + languages[n - 1].relations_emitted as nat
    }
}

/// The files attempted over the first `n` records.
pub open spec fn attempted_sum(languages: Seq<EnrichmentView>, n: int) -> nat
    decreases n,
{
    if n <= 0 {
        0
    } else {
        attempted_sum(languages, n - 1) + languages[n - 1].files_attempted as nat
    }
}

/// The files enriched over the first `n` records.
pub open spec fn enriched_sum(languages: Seq<EnrichmentView>, n: int) -> nat
    decreases n,
{
    if n <= 0 {
        0
    } else {
        enriched_sum(languages, n - 1) + languages[n - 1].files_enriched as nat
    }
}

/// The files failed over the first `n` records.
pub open spec fn failed_sum(languages: Seq<EnrichmentView>, n: int) -> nat
    decreases n,
{
    if n <= 0 {
        0
    } else {
        failed_sum(languages, n - 1) + languages[n - 1].files_failed as nat
    }
}

proof fn lemma_sums_grow(languages: Seq<EnrichmentView>, n: int, m: int)
    requires
        0 <= n <= m,
    ensures
        relations_sum(languages, n) <= relations_sum(languages, m),
        attempted_sum(languages, n) <= attempted_sum(languages, m),
        enriched_sum(languages, n) <= enriched_sum(languages, m),
        failed_sum(languages, n) <= failed_sum(languages, m),
    decreases m - n,
{
    if n < m {
        lemma_sums_grow(languages, n, m - 1);
    }
}

/// The name of a mode.
pub open spec fn mode_text(mode: ProofMode) -> Seq<char> {
    match mode {
        ProofMode::Advisory => "Advisory"@,
        ProofMode::Citable => "Citable"@,
    }
}

/// A one-line summary of a run.
pub open spec fn summary_text(proof_run: ProofView) -> Seq<char> {
    let languages = proof_run.languages;
    let n = languages.len() as int;
    "lsp-proof["@ + mode_text(proof_run.mode) + "]: "@ + decimal::decimal_text(languages.len())
        + " language(s), "@ + decimal::decimal_text(relations_sum(languages, n))
        + " relations, files "@ + decimal::decimal_text(attempted_sum(languages, n)) + "/"@
        + decimal::decimal_text(enriched_sum(languages, n)) + "/"@ + decimal::decimal_text(
        failed_sum(languages, n),
    ) + " attempted/enriched/failed, "@ + decimal::decimal_text(proof_run.gaps.len())
        + " gap(s)"@
}

impl LspEnrichmentProof {
    /// The per-language record for a language, if any enrichment was recorded.
    pub fn language(&self, language: LanguageId) -> (r: Option<&LanguageEnrichment>)
        ensures
            match record_of(self.deep_view().languages, language) {
                Some(record) => r is Some && r->0.deep_view() == record,
                None => r is None,
            },
    {
        let ghost views = self.deep_view().languages;
        let mut i: usize = 0;
        while i < self.languages.len()
            invariant
                i <= self.languages@.len(),
                views == self.languages.deep_view(),
                record_at(views, language, 0) == record_at(views, language, i as int),
            decreases self.languages@.len() - i,
        {
            assert(views[i as int] == self.languages@[i as int].deep_view());
            if self.languages[i].language == language {
                return Some(&self.languages[i]);
            }
            i += 1;
        }
        None
    }

    /// Total relations emitted across all languages.
    pub fn total_relations(&self) -> (r: u64)
        requires
            relations_sum(self.deep_view().languages, self.languages@.len() as int) <= u64::MAX,
        ensures
            r == relations_sum(self.deep_view().languages, self.languages@.len() as int),
    {
        let ghost views = self.deep_view().languages;
        let mut total: u64 = 0;
        let mut i: usize = 0;
        while i < self.languages.len()
            invariant
                i <= self.languages@.len(),
                views == self.languages.deep_view(),
                total == relations_sum(views, i as int),
                relations_sum(views, self.languages@.len() as int) <= u64::MAX,
            decreases self.languages@.len() - i,
        {
            assert(views[i as int] == self.languages@[i as int].deep_view());
            proof {
                lemma_sums_grow(views, i + 1, self.languages@.len() as int);
            }
            total += self.languages[i].relations_emitted;
            i += 1;
        }
        total
    }

    /// Whether any file failed or any gap exists (regardless of mode).
    pub fn has_failures(&self) -> (r: bool)
        ensures
            r == (self.deep_view().gaps.len() > 0 || exists|i: int|
                0 <= i < self.deep_view().languages.len() && (
                #[trigger] self.deep_view().languages[i]).files_failed > 0),
    {
        let ghost views = self.deep_view().languages;
        if self.gaps.len() > 0 {
            return true;
        }
        let mut i: usize = 0;
        while i < self.languages.len()
            invariant
                i <= self.languages@.len(),
                views == self.languages.deep_view(),
                views == self.deep_view().languages,
                self.gaps@.len() == 0,
                forall|k: int| 0 <= k < i ==> (#[trigger] views[k]).files_failed == 0,
            decreases self.languages@.len() - i,
        {
            assert(views[i as int] == self.languages@[i as int].deep_view());
            if self.languages[i].files_failed > 0 {
                assert(views[i as int].files_failed > 0);
                return true;
            }
            i += 1;
        }
        false
    }

    /// The gap that a required language is reported for.
    fn find_open_gap(&self, language: LanguageId) -> (r: Option<&ProofGap>)
        ensures
            match open_gap(self.deep_view().gaps, language) {
                Some(gap) => r is Some && r->0.deep_view() == gap,
                None => r is None,
            },
    {
        let ghost views = self.deep_view().gaps;
        let mut first: Option<usize> = None;
        let mut i: usize = 0;
        while i < self.gaps.len()
            invariant
                i <= self.gaps@.len(),
                views == self.gaps.deep_view(),
                views == self.deep_view().gaps,
                required_gap(views, language, 0) == required_gap(views, language, i as int),
                match first {
                    Some(k) => k < self.gaps@.len() && first_gap(views, language, 0) == Some(
                        views[k as int],
                    ),
                    None => first_gap(views, language, 0) == first_gap(views, language, i as int),
                },
            decreases self.gaps@.len() - i,
        {
            assert(views[i as int] == self.gaps@[i as int].deep_view());
            if self.gaps[i].language == language {
                if self.gaps[i].required {
                    return Some(&self.gaps[i]);
                }
                if first.is_none() {
                    first = Some(i);
                }
            }
            i += 1;
        }
        match first {
            Some(k) => Some(&self.gaps[k]),
            None => None,
        }
    }

    /// Add the violations of one required language.
    fn add_violations(&self, language: LanguageId, found: &mut Vec<ProofViolation>)
        ensures
            final(found).deep_view() == old(found).deep_view() + violations_of(
                self.deep_view(),
                language,
            ),
    {
        let ghost before = found.deep_view();
        let open = self.find_open_gap(language);
        if let Some(gap) = open {
            found.push(
                ProofViolation::UnresolvedRequiredGap { language, detail: gap.detail.clone() },
            );
            assert(found.deep_view() =~= before + seq![
                ViolationView::UnresolvedRequiredGap { language, detail: gap.detail@ },
            ]);
        } else {
            assert(found.deep_view() =~= before + Seq::empty());
        }
        let ghost middle = found.deep_view();
        match self.language(language) {
            None => {
                if open.is_none() {
                    found.push(ProofViolation::MissingRequiredProvider(language));
                    assert(found.deep_view() =~= middle + seq![
                        ViolationView::MissingRequiredProvider(language),
                    ]);
                } else {
                    assert(found.deep_view() =~= middle + Seq::empty());
                }
            },
            Some(record) => {
                if record.provider.is_none() {
                    found.push(ProofViolation::MissingRequiredProvider(language));
                    assert(found.deep_view() =~= middle + seq![
                        ViolationView::MissingRequiredProvider(language),
                    ]);
                } else if !record.meets_minimum() {
                    let missing = record.missing_minimum();
                    found.push(ProofViolation::BelowMinimumCapabilities { language, missing });
                    assert(found.deep_view() =~= middle + seq![
                        ViolationView::BelowMinimumCapabilities { language, missing: missing@ },
                    ]);
                } else {
                    assert(found.deep_view() =~= middle + Seq::empty());
                }
                let ghost late = found.deep_view();
                if record.files_failed > 0 {
                    found.push(
                        ProofViolation::FileFailures { language, failed: record.files_failed },
                    );
                    assert(found.deep_view() =~= late + seq![
                        ViolationView::FileFailures { language, failed: record.files_failed },
                    ]);
                } else {
                    assert(found.deep_view() =~= late + Seq::empty());
                }
            },
        }
        assert(found.deep_view() =~= before + violations_of(self.deep_view(), language));
    }

    /// Check the citable proof contract. For every required language: a provider
    /// must have run, its live server must meet the capability floor, it must
    /// have no per-file failures, and it must have no unresolved gap. Returns
    /// every violation (an empty `Ok` means the run is citable-clean).
    pub fn verify_citable(&self) -> (r: Result<(), Vec<ProofViolation>>)
        ensures
            ({
                let all = violations(self.deep_view(), self.deep_view().required.len() as int);
                match r {
                    Ok(_) => all.len() == 0,
                    Err(found) => all.len() > 0 && found.deep_view() == all,
                }
            }),
    {
        let mut found: Vec<ProofViolation> = Vec::new();
        assert(found.deep_view() =~= Seq::<ViolationView>::empty());
        let mut i: usize = 0;
        while i < self.required.len()
            invariant
                i <= self.required@.len(),
                found.deep_view() == violations(self.deep_view(), i as int),
            decreases self.required@.len() - i,
        {
            self.add_violations(self.required[i], &mut found);
            i += 1;
        }
        if found.len() == 0 {
            Ok(())
        } else {
            Err(found)
        }
    }

    /// A one-line human summary for logs / status surfaces.
    pub fn summary(&self) -> (r: String)
        requires
            relations_sum(self.deep_view().languages, self.languages@.len() as int) <= u64::MAX,
            attempted_sum(self.deep_view().languages, self.languages@.len() as int) <= u64::MAX,
            enriched_sum(self.deep_view().languages, self.languages@.len() as int) <= u64::MAX,
            failed_sum(self.deep_view().languages, self.languages@.len() as int) <= u64::MAX,
        ensures
            r@ == summary_text(self.deep_view()),
    {
        let ghost views = self.deep_view().languages;
        let n: usize = self.languages.len();
        let mut attempted: u64 = 0;
        let mut enriched: u64 = 0;
        let mut failed: u64 = 0;
        let mut i: usize = 0;
        while i < n
            invariant
                i <= n == self.languages@.len(),
                views == self.languages.deep_view(),
                attempted == attempted_sum(views, i as int),
                enriched == enriched_sum(views, i as int),
                failed == failed_sum(views, i as int),
                attempted_sum(views, n as int) <= u64::MAX,
                enriched_sum(views, n as int) <= u64::MAX,
                failed_sum(views, n as int) <= u64::MAX,
            decreases n - i,
        {
            assert(views[i as int] == self.languages@[i as int].deep_view());
            proof {
                lemma_sums_grow(views, i + 1, n as int);
            }
            attempted += self.languages[i].files_attempted;
            enriched += self.languages[i].files_enriched;
            failed += self.languages[i].files_failed;
            i += 1;
        }
        let mode = match self.mode {
            ProofMode::Advisory => "Advisory",
            ProofMode::Citable => "Citable",
        };
        joined("lsp-proof[", mode).concat("]: ").concat(
            decimal::decimal(n as u64).as_str(),
        ).concat(" language(s), ").concat(
            decimal::decimal(self.total_relations()).as_str(),
        ).concat(" relations, files ").concat(decimal::decimal(attempted).as_str()).concat(
            "/",
        ).concat(decimal::decimal(enriched).as_str()).concat("/").concat(
            decimal::decimal(failed).as_str(),
        ).concat(" attempted/enriched/failed, ").concat(
            decimal::decimal(self.gaps.len() as u64).as_str(),
        ).concat(" gap(s)")
    }
}

// ── The recorder ────────────────────────────────────────────────────────

/// Accumulator the enrichment driver feeds during a run, producing an
/// [`LspEnrichmentProof`] via [`ProofRecorder::finish`].
#[derive(Debug)]
pub struct ProofRecorder {
    mode: ProofMode,
    /// The languages the run is held to.
    pub required: Vec<LanguageId>,
    languages: Vec<LanguageEnrichment>,
    gaps: Vec<ProofGap>,
}

impl DeepView for ProofRecorder {
    type V = ProofView;

    closed spec fn deep_view(&self) -> ProofView {
        ProofView {
            mode: self.mode,
            required: self.required@,
            languages: self.languages.deep_view(),
            gaps: self.gaps.deep_view(),
        }
    }
}

/// Whether no language has two records.
pub open spec fn one_record_each(languages: Seq<EnrichmentView>) -> bool {
    forall|i: int, j: int|
        0 <= i < j < languages.len() ==> (#[trigger] languages[i]).language != (
        #[trigger] languages[j]).language
}

/// Whether every record keeps the detail of every file that failed.
pub open spec fn failures_are_kept(languages: Seq<EnrichmentView>) -> bool {
    forall|i: int|
        0 <= i < languages.len() ==> (#[trigger] languages[i]).failures.len()
            == languages[i].files_failed
}

/// The record of a language, a fresh one where there is none yet.
pub open spec fn record_or_fresh(
    languages: Seq<EnrichmentView>,
    language: LanguageId,
) -> EnrichmentView {
    match record_of(languages, language) {
        Some(record) => record,
        None => fresh_enrichment(language),
    }
}

/// The records with a language's record replaced, or added at the end.
pub open spec fn with_record(
    languages: Seq<EnrichmentView>,
    record: EnrichmentView,
) -> Seq<EnrichmentView> {
    let at = record_at(languages, record.language, 0);
    if at < languages.len() {
        languages.update(at, record)
    } else {
        languages.push(record)
    }
}

proof fn lemma_record_at(languages: Seq<EnrichmentView>, language: LanguageId, from: int)
    requires
        0 <= from <= languages.len(),
    ensures
        from <= record_at(languages, language, from) <= languages.len(),
        record_at(languages, language, from) < languages.len() ==> languages[record_at(
            languages,
            language,
            from,
        )].language == language,
        forall|k: int|
            from <= k < record_at(languages, language, from) ==> (
            #[trigger] languages[k]).language != language,
    decreases languages.len() - from,
{
    if from < languages.len() && languages[from].language != language {
        lemma_record_at(languages, language, from + 1);
    }
}

/// Replacing or adding a language's record keeps one record per language, gives
/// that language the record, and leaves every other language's as it was.
pub proof fn with_record_reads_back(
    languages: Seq<EnrichmentView>,
    record: EnrichmentView,
    language: LanguageId,
)
    requires
        one_record_each(languages),
    ensures
        one_record_each(with_record(languages, record)),
        record_of(with_record(languages, record), language) == if language == record.language {
            Some(record)
        } else {
            record_of(languages, language)
        },
{
    let after = with_record(languages, record);
    lemma_record_at(languages, record.language, 0);
    lemma_record_at(languages, language, 0);
    lemma_record_at(after, language, 0);
    let at = record_at(languages, record.language, 0);
    let was = record_at(languages, language, 0);
    let is = record_at(after, language, 0);
    if language == record.language {
        if is < after.len() {
            assert(after[is].language == language);
        }
        assert(after[at] == record);
        if is < at {
            assert(languages[is].language != language);
        }
    } else {
        if was < languages.len() {
            assert(after[was] == languages[was]);
            assert(is <= was);
            if is < was {
                assert(after[is].language == language);
            }
        } else if is < after.len() {
            assert(after[is].language == language);
            if is != at {
                assert(languages[is].language != language);
            }
        }
    }
}

impl ProofRecorder {
    /// Whether no language has two records and every record keeps the detail of
    /// every file that failed.
    pub open spec fn wf(&self) -> bool {
        &&& one_record_each(self.deep_view().languages)
        &&& failures_are_kept(self.deep_view().languages)
    }

    /// A recorder in the given mode with no required languages.
    pub fn new(mode: ProofMode) -> (r: Self)
        ensures
            r.wf(),
            r.deep_view() == (ProofView {
                mode,
                required: Seq::empty(),
                languages: Seq::empty(),
                gaps: Seq::empty(),
            }),
    {
        let r = ProofRecorder {
            mode,
            required: Vec::new(),
            languages: Vec::new(),
            gaps: Vec::new(),
        };
        assert(r.languages.deep_view() =~= Seq::<EnrichmentView>::empty());
        assert(r.gaps.deep_view() =~= Seq::<ProofGapView>::empty());
        r
    }

    /// A recorder in the given mode with the required-language set the registry
    /// resolved from repo config.
    pub fn with_required(mode: ProofMode, required: &[LanguageId]) -> (r: Self)
        ensures
            r.wf(),
            r.deep_view() == (ProofView {
                mode,
                required: required@,
                languages: Seq::empty(),
                gaps: Seq::empty(),
            }),
    {
        let mut r = Self::new(mode);
        let mut i: usize = 0;
        while i < required.len()
            invariant
                i <= required@.len(),
                r.required@ == required@.take(i as int),
                r.deep_view() == (ProofView {
                    mode,
                    required: r.required@,
                    languages: Seq::empty(),
                    gaps: Seq::empty(),
                }),
            decreases required@.len() - i,
        {
            r.required.push(required[i]);
            assert(r.required@ =~= required@.take(i + 1));
            i += 1;
        }
        assert(required@.take(i as int) =~= required@);
        r
    }

    /// The position of a language's record, which is added where there is none.
    fn entry_index(&mut self, language: LanguageId) -> (r: usize)
        ensures
            r == record_at(old(self).deep_view().languages, language, 0),
            r < final(self).languages@.len(),
            final(self).deep_view() == (ProofView {
                languages: with_record(
                    old(self).deep_view().languages,
                    record_or_fresh(old(self).deep_view().languages, language),
                ),
                ..old(self).deep_view()
            }),
            final(self).deep_view().languages[r as int] == record_or_fresh(
                old(self).deep_view().languages,
                language,
            ),
            record_or_fresh(old(self).deep_view().languages, language).language == language,
            failures_are_kept(old(self).deep_view().languages) ==> record_or_fresh(
                old(self).deep_view().languages,
                language,
            ).failures.len() == record_or_fresh(
                old(self).deep_view().languages,
                language,
            ).files_failed,
    {
        let ghost views = self.deep_view().languages;
        proof {
            lemma_record_at(views, language, 0);
        }
        let mut i: usize = 0;
        while i < self.languages.len()
            invariant
                i <= self.languages@.len(),
                self.deep_view() == old(self).deep_view(),
                views == self.deep_view().languages,
                0 <= record_at(views, language, 0) <= views.len(),
                record_at(views, language, 0) < views.len() ==> views[record_at(
                    views,
                    language,
                    0,
                )].language == language,
                record_at(views, language, 0) == record_at(views, language, i as int),
            decreases self.languages@.len() - i,
        {
            assert(views[i as int] == self.languages@[i as int].deep_view());
            if self.languages[i].language == language {
                assert(views.update(i as int, views[i as int]) =~= views);
                return i;
            }
            i += 1;
        }
        let record = LanguageEnrichment::new(language);
        self.languages.push(record);
        assert(self.languages.deep_view() =~= views.push(fresh_enrichment(language)));
        i
    }

    fn is_required(&self, language: LanguageId) -> (r: bool)
        ensures
            r == self.deep_view().required.contains(language),
    {
        let mut i: usize = 0;
        while i < self.required.len()
            invariant
                i <= self.required@.len(),
                forall|k: int| 0 <= k < i ==> self.required@[k] != language,
            decreases self.required@.len() - i,
        {
            if self.required[i] == language {
                return true;
            }
            i += 1;
        }
        false
    }

    /// Record the provider that ran for a language and the capabilities its
    /// live server reported.
    pub fn record_probe(&mut self, probe: &ProviderProbe)
        requires
            old(self).wf(),
        ensures
            final(self).wf(),
            final(self).deep_view() == recorded(
                old(self).deep_view(),
                RecorderCall::Probe {
                    language: probe.resolved.language,
                    provider: probe.resolved.id.deep_view(),
                    version: probe.resolved.version.deep_view(),
                    probed: probe.probed_capabilities@,
                    missing: probe.resolved.expected_capabilities@.difference(
                        probe.probed_capabilities@,
                    ),
                },
            ),
    {
        let ghost before = self.deep_view().languages;
        let missing_expected = probe.missing_expected();
        let language = probe.resolved.language;
        let at: usize = self.entry_index(language);
        let ghost middle = self.deep_view().languages;
        assert(middle[at as int] == self.languages@[at as int].deep_view());
        let entry = &mut self.languages[at];
        entry.provider = Some(probe.resolved.id.clone());
        entry.version = probe.resolved.version.clone();
        entry.probed_capabilities = probe.probed_capabilities;
        entry.missing_capabilities = missing_expected;
        let ghost record = self.languages@[at as int].deep_view();
        proof {
            assert(self.languages.deep_view() =~= middle.update(at as int, record));
            assert(middle.update(at as int, record) =~= with_record(before, record));
            with_record_reads_back(before, record, language);
        }
    }

    /// Record a registry gap (no provider / no binary) for a language.
    pub fn record_gap(&mut self, gap: &ProviderGap)
        requires
            old(self).wf(),
        ensures
            final(self).wf(),
            final(self).deep_view() == recorded(
                old(self).deep_view(),
                RecorderCall::Gap {
                    language: gap.language,
                    detail: registry::gap_reason_text(gap.reason.deep_view()),
                },
            ),
    {
        let ghost before = self.deep_view().gaps;
        let required = self.is_required(gap.language);
        let record = ProofGap {
            language: gap.language,
            detail: gap.reason.to_string(),
            required,
        };
        self.gaps.push(record);
        assert(self.gaps.deep_view() =~= before.push(record.deep_view()));
    }

    /// A file was attempted for a language.
    pub fn file_attempted(&mut self, language: LanguageId)
        requires
            old(self).wf(),
            record_or_fresh(old(self).deep_view().languages, language).files_attempted < u64::MAX,
        ensures
            final(self).wf(),
            final(self).deep_view() == recorded(
                old(self).deep_view(),
                RecorderCall::Attempted { language },
            ),
    {
        let ghost before = self.deep_view().languages;
        let at: usize = self.entry_index(language);
        let ghost middle = self.deep_view().languages;
        assert(middle[at as int] == self.languages@[at as int].deep_view());
        let entry = &mut self.languages[at];
        entry.files_attempted = entry.files_attempted + 1;
        proof {
            let record = self.languages@[at as int].deep_view();
            assert(self.languages.deep_view() =~= middle.update(at as int, record));
            assert(middle.update(at as int, record) =~= with_record(before, record));
            with_record_reads_back(before, record, language);
        }
    }

    /// A file was enriched successfully, contributing `relations` edges.
    pub fn file_enriched(&mut self, language: LanguageId, relations: u64)
        requires
            old(self).wf(),
            record_or_fresh(old(self).deep_view().languages, language).files_enriched < u64::MAX,
            record_or_fresh(old(self).deep_view().languages, language).relations_emitted
                + relations <= u64::MAX,
        ensures
            final(self).wf(),
            final(self).deep_view() == recorded(
                old(self).deep_view(),
                RecorderCall::Enriched { language, relations },
            ),
    {
        let ghost before = self.deep_view().languages;
        let at: usize = self.entry_index(language);
        let ghost middle = self.deep_view().languages;
        assert(middle[at as int] == self.languages@[at as int].deep_view());
        let entry = &mut self.languages[at];
        entry.files_enriched = entry.files_enriched + 1;
        entry.relations_emitted = entry.relations_emitted + relations;
        proof {
            let record = self.languages@[at as int].deep_view();
            assert(self.languages.deep_view() =~= middle.update(at as int, record));
            assert(middle.update(at as int, record) =~= with_record(before, record));
            with_record_reads_back(before, record, language);
        }
    }

    /// A file failed enrichment (server error / timeout). Fail-loud: the failure
    /// is retained in the record rather than swallowed.
    pub fn file_failed(&mut self, language: LanguageId, file: &str, reason: &str)
        requires
            old(self).wf(),
            record_or_fresh(old(self).deep_view().languages, language).files_failed < u64::MAX,
        ensures
            final(self).wf(),
            final(self).deep_view() == recorded(
                old(self).deep_view(),
                RecorderCall::Failed {
                    language,
                    failure: FailureView { file: file@, reason: reason@ },
                },
            ),
    {
        let ghost before = self.deep_view().languages;
        let at: usize = self.entry_index(language);
        let ghost middle = self.deep_view().languages;
        assert(middle[at as int] == self.languages@[at as int].deep_view());
        let failure = FileFailure { file: file.to_owned(), reason: reason.to_owned() };
        let entry = &mut self.languages[at];
        entry.files_failed = entry.files_failed + 1;
        entry.failures.push(failure);
        proof {
            let record = self.languages@[at as int].deep_view();
            assert(record.failures =~= middle[at as int].failures.push(failure.deep_view()));
            assert(self.languages.deep_view() =~= middle.update(at as int, record));
            assert(middle.update(at as int, record) =~= with_record(before, record));
            with_record_reads_back(before, record, language);
        }
    }

    /// Finalize into a deterministic proof record (languages and gaps sorted by
    /// language slug, each required language once).
    pub fn finish(self) -> (r: LspEnrichmentProof)
        ensures
            is_finished(self.deep_view(), r.deep_view()),
    {
        let mut languages = self.languages;
        stable_sort(&mut languages);
        let mut gaps = self.gaps;
        stable_sort(&mut gaps);
        let required = sorted_once(self.required);
        LspEnrichmentProof { mode: self.mode, required, languages, gaps }
    }
}

/// A record with one more file attempted.
pub open spec fn attempted(record: EnrichmentView) -> EnrichmentView {
    EnrichmentView { files_attempted: (record.files_attempted + 1) as u64, ..record }
}

/// A record with one more file enriched, which gave `relations` edges.
pub open spec fn enriched(record: EnrichmentView, relations: u64) -> EnrichmentView {
    EnrichmentView {
        files_enriched: (record.files_enriched + 1) as u64,
        relations_emitted: (record.relations_emitted + relations) as u64,
        ..record
    }
}

/// A record with one more file failed.
pub open spec fn failed(record: EnrichmentView, failure: FailureView) -> EnrichmentView {
    EnrichmentView {
        files_failed: (record.files_failed + 1) as u64,
        failures: record.failures.push(failure),
        ..record
    }
}

/// What a recorder is told about a language.
pub enum RecorderCall {
    /// The provider that ran, and what its live server reported.
    Probe {
        language: LanguageId,
        provider: Seq<char>,
        version: Option<Seq<char>>,
        probed: Set<LspCapability>,
        missing: Set<LspCapability>,
    },
    /// A registry gap.
    Gap { language: LanguageId, detail: Seq<char> },
    /// A file was attempted.
    Attempted { language: LanguageId },
    /// A file was enriched, and gave `relations` edges.
    Enriched { language: LanguageId, relations: u64 },
    /// A file failed.
    Failed { language: LanguageId, failure: FailureView },
}

/// The language that a recorder is told about.
pub open spec fn call_language(call: RecorderCall) -> LanguageId {
    match call {
        RecorderCall::Probe { language, .. } => language,
        RecorderCall::Gap { language, .. } => language,
        RecorderCall::Attempted { language } => language,
        RecorderCall::Enriched { language, .. } => language,
        RecorderCall::Failed { language, .. } => language,
    }
}

/// A language's record after what a recorder is told. A gap is kept elsewhere.
pub open spec fn noted(record: EnrichmentView, call: RecorderCall) -> EnrichmentView {
    match call {
        RecorderCall::Probe { provider, version, probed, missing, .. } => EnrichmentView {
            provider: Some(provider),
            version,
            probed_capabilities: probed,
            missing_capabilities: missing,
            ..record
        },
        RecorderCall::Gap { .. } => record,
        RecorderCall::Attempted { .. } => attempted(record),
        RecorderCall::Enriched { relations, .. } => enriched(record, relations),
        RecorderCall::Failed { failure, .. } => failed(record, failure),
    }
}

/// A recorder after what it is told: a gap goes to the end of the gaps, marked as
/// its language is required; anything else goes into the language's record.
pub open spec fn recorded(recorder: ProofView, call: RecorderCall) -> ProofView {
    match call {
        RecorderCall::Gap { language, detail } => ProofView {
            gaps: recorder.gaps.push(
                ProofGapView { language, detail, required: recorder.required.contains(language) },
            ),
            ..recorder
        },
        _ => ProofView {
            languages: with_record(
                recorder.languages,
                noted(record_or_fresh(recorder.languages, call_language(call)), call),
            ),
            ..recorder
        },
    }
}

/// Whether each language of a list stands in another once, in rank order.
pub open spec fn is_sorted_once(before: Seq<LanguageId>, after: Seq<LanguageId>) -> bool {
    &&& forall|i: int, j: int|
        0 <= i < j < after.len() ==> language_rank(#[trigger] after[i]) < language_rank(
            #[trigger] after[j],
        )
    &&& forall|language: LanguageId| #[trigger]
        after.contains(language) <==> before.contains(language)
}

/// Whether a proof is what a recorder finishes to.
pub open spec fn is_finished(recorder: ProofView, proof_run: ProofView) -> bool {
    &&& proof_run.mode == recorder.mode
    &&& is_sorted_once(recorder.required, proof_run.required)
    &&& sorting::is_stable_sort::<LanguageEnrichment>(recorder.languages, proof_run.languages)
    &&& sorting::is_stable_sort::<ProofGap>(recorder.gaps, proof_run.gaps)
}

/// The languages of a list, each once, in rank order.
fn sorted_once(list: Vec<LanguageId>) -> (r: Vec<LanguageId>)
    ensures
        is_sorted_once(list@, r@),
{
    let ghost before = list@;
    let mut list = list;
    assert(list.deep_view() =~= before);
    stable_sort(&mut list);
    let ghost sorted = list@;
    assert(list.deep_view() =~= sorted);
    let mut r: Vec<LanguageId> = Vec::new();
    let mut i: usize = 0;
    while i < list.len()
        invariant
            i <= list@.len(),
            list@ == sorted,
            sorting::is_sorted::<LanguageId>(sorted),
            forall|p: int, q: int|
                0 <= p < q < r@.len() ==> language_rank(#[trigger] r@[p]) < language_rank(
                    #[trigger] r@[q],
                ),
            i > 0 ==> r@.len() > 0 && r@.last() == sorted[i - 1],
            i == 0 ==> r@.len() == 0,
            forall|language: LanguageId| #[trigger]
                r@.contains(language) <==> sorted.take(i as int).contains(language),
        decreases list@.len() - i,
    {
        let ghost kept = r@;
        let ghost seen = sorted.take(i as int);
        let language = list[i];
        let k: usize = r.len();
        if k == 0 || r[k - 1] != language {
            proof {
                if k > 0 {
                    assert(language_rank(sorted[i - 1]) <= language_rank(sorted[i as int]));
                    language_rank_follows_slug(sorted[i - 1], sorted[i as int]);
                }
            }
            r.push(language);
        }
        proof {
            let next = sorted.take(i + 1);
            assert(next =~= seen.push(language));
            assert(next[i as int] == language);
            assert forall|l: LanguageId| #[trigger] r@.contains(l) <==> next.contains(l) by {
                if next.contains(l) {
                    let m = choose|m: int| 0 <= m < next.len() && next[m] == l;
                    if m < i {
                        assert(seen[m] == l);
                        assert(seen.contains(l));
                        assert(kept.contains(l));
                        let w = choose|w: int| 0 <= w < kept.len() && kept[w] == l;
                        assert(r@[w] == l);
                    } else {
                        assert(r@[r@.len() - 1] == l);
                    }
                }
                if r@.contains(l) {
                    let w = choose|w: int| 0 <= w < r@.len() && r@[w] == l;
                    if w < kept.len() {
                        assert(kept[w] == l);
                        assert(kept.contains(l));
                        assert(seen.contains(l));
                        let m = choose|m: int| 0 <= m < seen.len() && seen[m] == l;
                        assert(next[m] == l);
                    }
                }
            }
        }
        i += 1;
    }
    proof {
        assert(sorted.take(i as int) =~= sorted);
        assert forall|l: LanguageId| #[trigger] r@.contains(l) <==> before.contains(l) by {
            sorting::stable_sort_keeps_values::<LanguageId>(before, sorted, l);
        }
    }
    r
}

// ── What the record promises ────────────────────────────────────────────

/// Whether a required language's enrichment is proven: a provider ran, its live
/// server met the floor, no file failed, and no gap is open.
pub open spec fn is_proven(proof_run: ProofView, language: LanguageId) -> bool {
    &&& !has_gap(proof_run.gaps, language)
    &&& record_of(proof_run.languages, language) matches Some(record) && {
        &&& record.provider is Some
        &&& meets_floor(record.probed_capabilities)
        &&& record.files_failed == 0
    }
}

/// Whether each gap is marked required exactly where its language is.
pub open spec fn gaps_are_marked(proof_run: ProofView) -> bool {
    forall|i: int|
        0 <= i < proof_run.gaps.len() ==> (#[trigger] proof_run.gaps[i]).required
            == proof_run.required.contains(proof_run.gaps[i].language)
}

proof fn lemma_required_gap(gaps: Seq<ProofGapView>, language: LanguageId, from: int)
    requires
        0 <= from <= gaps.len(),
        required_gap(gaps, language, from) is Some,
    ensures
        first_gap(gaps, language, from) is Some,
    decreases gaps.len() - from,
{
    if from < gaps.len() && gaps[from].language != language {
        lemma_required_gap(gaps, language, from + 1);
    }
}

proof fn lemma_first_gap(gaps: Seq<ProofGapView>, language: LanguageId, from: int)
    requires
        0 <= from <= gaps.len(),
    ensures
        first_gap(gaps, language, from) is Some <==> exists|i: int|
            from <= i < gaps.len() && (#[trigger] gaps[i]).language == language,
    decreases gaps.len() - from,
{
    if from < gaps.len() && gaps[from].language != language {
        lemma_first_gap(gaps, language, from + 1);
    }
}

/// A gap is reported exactly where there is one.
proof fn lemma_open_gap(gaps: Seq<ProofGapView>, language: LanguageId)
    ensures
        open_gap(gaps, language) is Some <==> has_gap(gaps, language),
{
    lemma_first_gap(gaps, language, 0);
    if required_gap(gaps, language, 0) is Some {
        lemma_required_gap(gaps, language, 0);
    }
}

/// Whether a required language has no violation.
#[verifier::opaque]
spec fn is_clean(proof_run: ProofView, language: LanguageId) -> bool {
    violations_of(proof_run, language).len() == 0
}

/// Whether the first `n` required languages have no violation.
#[verifier::opaque]
spec fn are_clean(proof_run: ProofView, n: int) -> bool {
    violations(proof_run, n).len() == 0
}

proof fn lemma_are_clean(proof_run: ProofView, n: int)
    ensures
        are_clean(proof_run, 0),
        n > 0 ==> (are_clean(proof_run, n) <==> are_clean(proof_run, n - 1) && is_clean(
            proof_run,
            proof_run.required[n - 1],
        )),
{
    reveal(is_clean);
    reveal(are_clean);
}

proof fn lemma_each_is_clean(proof_run: ProofView, n: int)
    requires
        0 <= n <= proof_run.required.len(),
    ensures
        are_clean(proof_run, n) <==> forall|i: int|
            0 <= i < n ==> is_clean(proof_run, #[trigger] proof_run.required[i]),
    decreases n,
{
    lemma_are_clean(proof_run, n);
    if n > 0 {
        lemma_each_is_clean(proof_run, n - 1);
    }
}

proof fn lemma_clean_is_proven(proof_run: ProofView, language: LanguageId)
    ensures
        is_clean(proof_run, language) <==> is_proven(proof_run, language),
{
    reveal(is_clean);
    lemma_open_gap(proof_run.gaps, language);
}

/// A run is citable-clean exactly when every required language's enrichment is
/// proven: nothing degrades silently.
pub proof fn citable_means_proven(proof_run: ProofView)
    ensures
        violations(proof_run, proof_run.required.len() as int).len() == 0 <==> (forall|i: int|
            0 <= i < proof_run.required.len() ==> is_proven(
                proof_run,
                #[trigger] proof_run.required[i],
            )),
{
    let n = proof_run.required.len() as int;
    lemma_each_is_clean(proof_run, n);
    assert(are_clean(proof_run, n) <==> violations(proof_run, n).len() == 0) by {
        reveal(are_clean);
    }
    assert forall|i: int| 0 <= i < n implies (is_clean(proof_run, #[trigger] proof_run.required[i])
        <==> is_proven(proof_run, proof_run.required[i])) by {
        lemma_clean_is_proven(proof_run, proof_run.required[i]);
    }
}

/// Finishing keeps gaps marked as their languages are required.
pub proof fn finish_keeps_gaps_marked(recorder: ProofView, proof_run: ProofView)
    requires
        is_finished(recorder, proof_run),
        gaps_are_marked(recorder),
    ensures
        gaps_are_marked(proof_run),
{
    assert forall|i: int| 0 <= i < proof_run.gaps.len() implies (
    #[trigger] proof_run.gaps[i]).required == proof_run.required.contains(
        proof_run.gaps[i].language,
    ) by {
        let gap = proof_run.gaps[i];
        assert(proof_run.gaps.contains(gap));
        sorting::stable_sort_keeps_values::<ProofGap>(recorder.gaps, proof_run.gaps, gap);
        let j = choose|j: int| 0 <= j < recorder.gaps.len() && recorder.gaps[j] == gap;
        assert(recorder.gaps[j].required == recorder.required.contains(gap.language));
        assert(proof_run.required.contains(gap.language) <==> recorder.required.contains(
            gap.language,
        ));
    }
}

/// With one record per language, the records of a rank are that language's.
proof fn lemma_rank_holds_one(languages: Seq<EnrichmentView>, language: LanguageId)
    requires
        one_record_each(languages),
    ensures
        sorting::of_rank::<LanguageEnrichment>(languages, language_rank(language))
            == match record_of(languages, language) {
            Some(record) => seq![record],
            None => Seq::<EnrichmentView>::empty(),
        },
    decreases languages.len(),
{
    let k = language_rank(language);
    let p = sorting::has_rank::<LanguageEnrichment>(k);
    reveal(Seq::filter);
    lemma_record_at(languages, language, 0);
    if languages.len() == 0 {
        assert(languages.filter(p) =~= Seq::<EnrichmentView>::empty());
    } else {
        let rest = languages.drop_last();
        let last = languages.last();
        assert forall|i: int, j: int| 0 <= i < j < rest.len() implies (
        #[trigger] rest[i]).language != (#[trigger] rest[j]).language by {
            assert(languages[i] == rest[i] && languages[j] == rest[j]);
        }
        lemma_rank_holds_one(rest, language);
        lemma_record_at(rest, language, 0);
        language_rank_follows_slug(last.language, language);
        let was = record_at(rest, language, 0);
        let is = record_at(languages, language, 0);
        if was < rest.len() {
            assert(languages[was].language == language);
            assert(languages[languages.len() - 1].language != language);
            assert(is == was) by {
                if is < was {
                    assert(rest[is].language == language);
                }
            }
        } else {
            if is < rest.len() {
                assert(rest[is].language == language);
            }
            if last.language == language {
                assert(languages[languages.len() - 1].language == language);
                assert(is == languages.len() - 1);
            }
        }
    }
}

proof fn lemma_no_such_rank(languages: Seq<EnrichmentView>, k: int)
    requires
        forall|language: LanguageId| language_rank(language) != k,
    ensures
        sorting::of_rank::<LanguageEnrichment>(languages, k) == Seq::<EnrichmentView>::empty(),
    decreases languages.len(),
{
    reveal(Seq::filter);
    if languages.len() > 0 {
        lemma_no_such_rank(languages.drop_last(), k);
        assert(language_rank(languages.last().language) != k);
    }
    assert(sorting::of_rank::<LanguageEnrichment>(languages, k) =~= Seq::empty());
}

/// A finished record does not depend on the order in which languages came up:
/// runs that recorded the same of every language, the same gaps of every
/// language in the same order, and the same required languages finish to the
/// same record.
pub proof fn finish_ignores_insertion_order(
    a: ProofView,
    b: ProofView,
    finished_a: ProofView,
    finished_b: ProofView,
)
    requires
        is_finished(a, finished_a),
        is_finished(b, finished_b),
        a.mode == b.mode,
        one_record_each(a.languages),
        one_record_each(b.languages),
        forall|language: LanguageId| #[trigger]
            record_of(a.languages, language) == record_of(b.languages, language),
        forall|k: int| #[trigger]
            sorting::of_rank::<ProofGap>(a.gaps, k) == sorting::of_rank::<ProofGap>(b.gaps, k),
        forall|language: LanguageId| #[trigger]
            a.required.contains(language) <==> b.required.contains(language),
    ensures
        finished_a == finished_b,
{
    assert forall|k: int| #[trigger]
        sorting::of_rank::<LanguageEnrichment>(a.languages, k) == sorting::of_rank::<
            LanguageEnrichment,
        >(b.languages, k) by {
        if exists|language: LanguageId| language_rank(language) == k {
            let language = choose|language: LanguageId| language_rank(language) == k;
            lemma_rank_holds_one(a.languages, language);
            lemma_rank_holds_one(b.languages, language);
            assert(record_of(a.languages, language) == record_of(b.languages, language));
        } else {
            lemma_no_such_rank(a.languages, k);
            lemma_no_such_rank(b.languages, k);
        }
    }
    sorting::stable_sort_is_determined::<LanguageEnrichment>(
        a.languages,
        b.languages,
        finished_a.languages,
        finished_b.languages,
    );
    sorting::stable_sort_is_determined::<ProofGap>(
        a.gaps,
        b.gaps,
        finished_a.gaps,
        finished_b.gaps,
    );
    assert forall|language: LanguageId| #[trigger]
        finished_a.required.contains(language) <==> finished_b.required.contains(language) by {
        assert(a.required.contains(language) <==> b.required.contains(language));
    }
    lemma_sorted_once_same(finished_a.required, finished_b.required);
}

/// Strictly ranked lists of the same languages are the same.
proof fn lemma_sorted_once_same(a: Seq<LanguageId>, b: Seq<LanguageId>)
    requires
        forall|i: int, j: int|
            0 <= i < j < a.len() ==> language_rank(#[trigger] a[i]) < language_rank(
                #[trigger] a[j],
            ),
        forall|i: int, j: int|
            0 <= i < j < b.len() ==> language_rank(#[trigger] b[i]) < language_rank(
                #[trigger] b[j],
            ),
        forall|language: LanguageId| #[trigger] a.contains(language) <==> b.contains(language),
    ensures
        a == b,
    decreases a.len(),
{
    if a.len() == 0 {
        if b.len() > 0 {
            assert(b.contains(b[0]));
            assert(a.contains(b[0]));
        }
        assert(a =~= b);
    } else if b.len() == 0 {
        assert(a.contains(a[0]));
        assert(b.contains(a[0]));
    } else {
        assert(a.contains(a[0]));
        assert(b.contains(a[0]));
        let p = choose|p: int| 0 <= p < b.len() && b[p] == a[0];
        assert(b.contains(b[0]));
        assert(a.contains(b[0]));
        let q = choose|q: int| 0 <= q < a.len() && a[q] == b[0];
        language_rank_follows_slug(a[0], b[0]);
        assert(p == 0 || language_rank(b[0]) < language_rank(b[p]));
        assert(q == 0 || language_rank(a[0]) < language_rank(a[q]));
        assert(a[0] == b[0]);
        let a2 = a.drop_first();
        let b2 = b.drop_first();
        assert forall|i: int, j: int| 0 <= i < j < a2.len() implies language_rank(
            #[trigger] a2[i],
        ) < language_rank(#[trigger] a2[j]) by {
            assert(a2[i] == a[i + 1] && a2[j] == a[j + 1]);
        }
        assert forall|i: int, j: int| 0 <= i < j < b2.len() implies language_rank(
            #[trigger] b2[i],
        ) < language_rank(#[trigger] b2[j]) by {
            assert(b2[i] == b[i + 1] && b2[j] == b[j + 1]);
        }
        assert forall|language: LanguageId| #[trigger]
            a2.contains(language) <==> b2.contains(language) by {
            if a2.contains(language) {
                let i = choose|i: int| 0 <= i < a2.len() && a2[i] == language;
                assert(a[i + 1] == language);
                assert(a.contains(language));
                assert(b.contains(language));
                let j = choose|j: int| 0 <= j < b.len() && b[j] == language;
                assert(language_rank(a[0]) < language_rank(a[i + 1]));
                assert(b2[j - 1] == language);
            }
            if b2.contains(language) {
                let i = choose|i: int| 0 <= i < b2.len() && b2[i] == language;
                assert(b[i + 1] == language);
                assert(b.contains(language));
                assert(a.contains(language));
                let j = choose|j: int| 0 <= j < a.len() && a[j] == language;
                assert(language_rank(b[0]) < language_rank(b[i + 1]));
                assert(a2[j - 1] == language);
            }
        }
        lemma_sorted_once_same(a2, b2);
        assert(a =~= seq![a[0]] + a2);
        assert(b =~= seq![b[0]] + b2);
    }
}

} // verus!
