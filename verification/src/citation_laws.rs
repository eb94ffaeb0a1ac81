//! What a proof run is found wanting in, and what recording adds to it.

use vstd::prelude::*;

use crate::capability::LspCapability;
use crate::enrichment_proof;
use crate::enrichment_proof::{
    EnrichmentView, LanguageEnrichment, ProofGap, ProofGapView, ProofView, RecorderCall,
    ViolationView,
};
use crate::sorting;
use crate::types::LanguageId;

verus! {

// ── Records ─────────────────────────────────────────────────────────────

/// Whether some records hold one of a language that passes a test.
pub open spec fn some_record(
    languages: Seq<EnrichmentView>,
    language: LanguageId,
    test: spec_fn(EnrichmentView) -> bool,
) -> bool {
    exists|i: int|
        0 <= i < languages.len() && (#[trigger] languages[i]).language == language && test(
            languages[i],
        )
}

proof fn lemma_record_at(languages: Seq<EnrichmentView>, language: LanguageId, from: int)
    requires
        0 <= from <= languages.len(),
    ensures
        ({
            let at = enrichment_proof::record_at(languages, language, from);
            &&& from <= at <= languages.len()
            &&& at < languages.len() ==> languages[at].language == language
            &&& forall|k: int| from <= k < at ==> (#[trigger] languages[k]).language != language
        }),
    decreases languages.len() - from,
{
    if from < languages.len() && languages[from].language != language {
        lemma_record_at(languages, language, from + 1);
    }
}

proof fn lemma_some_record(
    languages: Seq<EnrichmentView>,
    language: LanguageId,
    test: spec_fn(EnrichmentView) -> bool,
)
    requires
        enrichment_proof::one_record_each(languages),
    ensures
        some_record(languages, language, test) == match enrichment_proof::record_of(
            languages,
            language,
        ) {
            Some(record) => test(record),
            None => false,
        },
{
    lemma_record_at(languages, language, 0);
    let at = enrichment_proof::record_at(languages, language, 0);
    if some_record(languages, language, test) {
        let i = choose|i: int|
            0 <= i < languages.len() && (#[trigger] languages[i]).language == language && test(
                languages[i],
            );
        if i != at {
            assert(at < languages.len());
        }
    }
    if at < languages.len() {
        assert(languages[at].language == language);
    }
}

// ── Violations ──────────────────────────────────────────────────────────

/// The language that a violation is about.
pub open spec fn violating(violation: ViolationView) -> LanguageId {
    match violation {
        ViolationView::MissingRequiredProvider(language) => language,
        ViolationView::BelowMinimumCapabilities { language, .. } => language,
        ViolationView::FileFailures { language, .. } => language,
        ViolationView::UnresolvedRequiredGap { language, .. } => language,
    }
}

/// Whether a gap of a language is recorded.
pub open spec fn has_open_gap(proof_run: ProofView, language: LanguageId) -> bool {
    exists|i: int|
        0 <= i < proof_run.gaps.len() && (#[trigger] proof_run.gaps[i]).language == language
}

/// Whether `i` is the gap of a language that is reported: the first one that is
/// marked required, or the first one where none is.
pub open spec fn is_reported_gap(proof_run: ProofView, language: LanguageId, i: int) -> bool {
    let gaps = proof_run.gaps;
    &&& 0 <= i < gaps.len()
    &&& gaps[i].language == language
    &&& if gaps[i].required {
        forall|j: int|
            0 <= j < i && (#[trigger] gaps[j]).language == language ==> !gaps[j].required
    } else {
        &&& forall|j: int| 0 <= j < i ==> (#[trigger] gaps[j]).language != language
        &&& forall|j: int|
            0 <= j < gaps.len() && (#[trigger] gaps[j]).language == language ==> !gaps[j].required
    }
}

/// Whether a violation is one that a run shows of its language.
pub open spec fn is_shown(proof_run: ProofView, violation: ViolationView) -> bool {
    let records = proof_run.languages;
    match violation {
        ViolationView::UnresolvedRequiredGap { language, detail } => exists|i: int|
            #[trigger] is_reported_gap(proof_run, language, i) && proof_run.gaps[i].detail
                == detail,
        ViolationView::MissingRequiredProvider(language) => {
            ||| some_record(records, language, |r: EnrichmentView| r.provider is None)
            ||| !some_record(records, language, |r: EnrichmentView| true) && !has_open_gap(
                proof_run,
                language,
            )
        },
        ViolationView::BelowMinimumCapabilities { language, missing } => some_record(
            records,
            language,
            |r: EnrichmentView|
                {
                    &&& r.provider is Some
                    &&& !(r.probed_capabilities.contains(LspCapability::Definition)
                        && r.probed_capabilities.contains(LspCapability::References))
                    &&& forall|c: LspCapability| #[trigger]
                        missing.contains(c) <==> (c == LspCapability::Definition || c
                            == LspCapability::References) && !r.probed_capabilities.contains(c)
                },
        ),
        ViolationView::FileFailures { language, failed } => failed > 0 && some_record(
            records,
            language,
            |r: EnrichmentView| r.files_failed == failed,
        ),
    }
}

proof fn lemma_violation_is_listed(proof_run: ProofView, n: int, violation: ViolationView)
    requires
        0 <= n <= proof_run.required.len(),
    ensures
        enrichment_proof::violations(proof_run, n).contains(violation) <==> exists|i: int|
            0 <= i < n && enrichment_proof::violations_of(
                proof_run,
                #[trigger] proof_run.required[i],
            ).contains(violation),
    decreases n,
{
    if n > 0 {
        lemma_violation_is_listed(proof_run, n - 1, violation);
        let before = enrichment_proof::violations(proof_run, n - 1);
        let more = enrichment_proof::violations_of(proof_run, proof_run.required[n - 1]);
        vstd::seq_lib::lemma_seq_concat_contains_all_elements(before, more, violation);
        if exists|i: int|
            0 <= i < n && enrichment_proof::violations_of(
                proof_run,
                #[trigger] proof_run.required[i],
            ).contains(violation) {
            let i = choose|i: int|
                0 <= i < n && enrichment_proof::violations_of(
                    proof_run,
                    #[trigger] proof_run.required[i],
                ).contains(violation);
            if i < n - 1 {
                assert(before.contains(violation));
            }
        }
    }
}

/// The place of the gap that `required_gap` gives, or the number of gaps.
proof fn lemma_required_gap(gaps: Seq<ProofGapView>, language: LanguageId, from: int) -> (at: int)
    requires
        0 <= from <= gaps.len(),
    ensures
        from <= at <= gaps.len(),
        enrichment_proof::required_gap(gaps, language, from) == if at < gaps.len() {
            Some(gaps[at])
        } else {
            None
        },
        at < gaps.len() ==> gaps[at].language == language && gaps[at].required,
        forall|j: int|
            from <= j < at && (#[trigger] gaps[j]).language == language ==> !gaps[j].required,
    decreases gaps.len() - from,
{
    if from >= gaps.len() || (gaps[from].language == language && gaps[from].required) {
        from
    } else {
        lemma_required_gap(gaps, language, from + 1)
    }
}

/// The place of the gap that `first_gap` gives, or the number of gaps.
proof fn lemma_first_gap(gaps: Seq<ProofGapView>, language: LanguageId, from: int) -> (at: int)
    requires
        0 <= from <= gaps.len(),
    ensures
        from <= at <= gaps.len(),
        enrichment_proof::first_gap(gaps, language, from) == if at < gaps.len() {
            Some(gaps[at])
        } else {
            None
        },
        at < gaps.len() ==> gaps[at].language == language,
        forall|j: int| from <= j < at ==> (#[trigger] gaps[j]).language != language,
    decreases gaps.len() - from,
{
    if from >= gaps.len() || gaps[from].language == language {
        from
    } else {
        lemma_first_gap(gaps, language, from + 1)
    }
}

proof fn lemma_one_gap_is_reported(proof_run: ProofView, language: LanguageId, i: int, j: int)
    requires
        is_reported_gap(proof_run, language, i),
        is_reported_gap(proof_run, language, j),
    ensures
        i == j,
{
    let gaps = proof_run.gaps;
    assert(gaps[i].language == language && gaps[j].language == language);
}

proof fn lemma_reported_gap(proof_run: ProofView, language: LanguageId)
    ensures
        ({
            let open = enrichment_proof::open_gap(proof_run.gaps, language);
            &&& open is Some <==> has_open_gap(proof_run, language)
            &&& forall|i: int| #[trigger]
                is_reported_gap(proof_run, language, i) ==> open == Some(proof_run.gaps[i])
            &&& open is Some ==> exists|i: int| #[trigger]
                is_reported_gap(proof_run, language, i) && open == Some(proof_run.gaps[i])
        }),
{
    let gaps = proof_run.gaps;
    let open = enrichment_proof::open_gap(gaps, language);
    let marked = lemma_required_gap(gaps, language, 0);
    let first = lemma_first_gap(gaps, language, 0);
    let at = if marked < gaps.len() {
        marked
    } else {
        first
    };
    if at < gaps.len() {
        assert(gaps[at].language == language);
        assert(is_reported_gap(proof_run, language, at));
        assert forall|i: int| #[trigger] is_reported_gap(proof_run, language, i) implies open
            == Some(gaps[i]) by {
            lemma_one_gap_is_reported(proof_run, language, i, at);
        }
    } else {
        assert forall|i: int| !#[trigger] is_reported_gap(proof_run, language, i) by {}
    }
}

/// The violations of a language, as a list of up to four.
#[verifier::rlimit(50)]
proof fn lemma_violations_of(proof_run: ProofView, language: LanguageId, violation: ViolationView)
    requires
        enrichment_proof::one_record_each(proof_run.languages),
    ensures
        enrichment_proof::violations_of(proof_run, language).contains(violation) <==> violating(
            violation,
        ) == language && is_shown(proof_run, violation),
{
    let records = proof_run.languages;
    lemma_reported_gap(proof_run, language);
    let record = enrichment_proof::record_of(records, language);
    let open = enrichment_proof::open_gap(proof_run.gaps, language);
    lemma_some_record(records, language, |r: EnrichmentView| true);
    lemma_some_record(records, language, |r: EnrichmentView| r.provider is None);
    let gap_part = match open {
        Some(gap) => seq![
            ViolationView::UnresolvedRequiredGap { language, detail: gap.detail },
        ],
        None => Seq::empty(),
    };
    let listed = enrichment_proof::violations_of(proof_run, language);
    match record {
        None => {
            let rest = if open is Some {
                Seq::empty()
            } else {
                seq![ViolationView::MissingRequiredProvider(language)]
            };
            assert(listed == gap_part + rest);
            vstd::seq_lib::lemma_seq_concat_contains_all_elements(gap_part, rest, violation);
            lemma_one(ViolationView::MissingRequiredProvider(language), violation);
        },
        Some(r) => {
            let floor = crate::registry::citable_minimum();
            let missing = floor.difference(r.probed_capabilities);
            let server = if r.provider is None {
                seq![ViolationView::MissingRequiredProvider(language)]
            } else if !enrichment_proof::meets_floor(r.probed_capabilities) {
                seq![ViolationView::BelowMinimumCapabilities { language, missing }]
            } else {
                Seq::empty()
            };
            let files = if r.files_failed > 0 {
                seq![ViolationView::FileFailures { language, failed: r.files_failed }]
            } else {
                Seq::empty()
            };
            assert(listed == gap_part + (server + files));
            vstd::seq_lib::lemma_seq_concat_contains_all_elements(server, files, violation);
            vstd::seq_lib::lemma_seq_concat_contains_all_elements(
                gap_part,
                server + files,
                violation,
            );
            lemma_one(ViolationView::MissingRequiredProvider(language), violation);
            lemma_one(ViolationView::BelowMinimumCapabilities { language, missing }, violation);
            lemma_one(
                ViolationView::FileFailures { language, failed: r.files_failed },
                violation,
            );
            assert(enrichment_proof::meets_floor(r.probed_capabilities) <==> (
            r.probed_capabilities.contains(LspCapability::Definition)
                && r.probed_capabilities.contains(LspCapability::References))) by {
                if enrichment_proof::meets_floor(r.probed_capabilities) {
                    assert(floor.contains(LspCapability::Definition));
                    assert(floor.contains(LspCapability::References));
                }
            }
        },
    }
    if let Some(gap) = open {
        lemma_one(
            ViolationView::UnresolvedRequiredGap { language, detail: gap.detail },
            violation,
        );
    }
    match violation {
        ViolationView::BelowMinimumCapabilities { language: l, missing } => {
            let test = |r: EnrichmentView|
                {
                    &&& r.provider is Some
                    &&& !(r.probed_capabilities.contains(LspCapability::Definition)
                        && r.probed_capabilities.contains(LspCapability::References))
                    &&& forall|c: LspCapability| #[trigger]
                        missing.contains(c) <==> (c == LspCapability::Definition || c
                            == LspCapability::References) && !r.probed_capabilities.contains(c)
                };
            lemma_some_record(records, language, test);
            if let Some(r) = record {
                let expected = crate::registry::citable_minimum().difference(
                    r.probed_capabilities,
                );
                if test(r) {
                    assert(missing =~= expected);
                }
                if missing == expected {
                    assert forall|c: LspCapability| #[trigger]
                        missing.contains(c) <==> (c == LspCapability::Definition || c
                            == LspCapability::References) && !r.probed_capabilities.contains(
                            c,
                        ) by {}
                }
            }
        },
        ViolationView::FileFailures { language: l, failed } => {
            lemma_some_record(records, language, |r: EnrichmentView| r.files_failed == failed);
        },
        _ => {},
    }
}

proof fn lemma_one(a: ViolationView, b: ViolationView)
    ensures
        seq![a].contains(b) <==> a == b,
{
    assert(seq![a][0] == a);
}

/// A run is found wanting in exactly what it shows of its required languages: an open
/// gap; no record, or one without a provider; a live server that does not report both
/// definitions and references; files that failed. What it shows of a language that is
/// not required is not held against it.
#[verifier::rlimit(50)]
pub proof fn violations_are_what_the_run_shows(proof_run: ProofView, violation: ViolationView)
    requires
        enrichment_proof::one_record_each(proof_run.languages),
    ensures
        enrichment_proof::violations(proof_run, proof_run.required.len() as int).contains(
            violation,
        ) <==> proof_run.required.contains(violating(violation)) && is_shown(proof_run, violation),
{
    let n = proof_run.required.len() as int;
    let all = enrichment_proof::violations(proof_run, n);
    lemma_violation_is_listed(proof_run, n, violation);
    if all.contains(violation) {
        let i = choose|i: int|
            0 <= i < n && enrichment_proof::violations_of(
                proof_run,
                #[trigger] proof_run.required[i],
            ).contains(violation);
        lemma_violations_of(proof_run, proof_run.required[i], violation);
    }
    if proof_run.required.contains(violating(violation)) && is_shown(proof_run, violation) {
        let i = choose|i: int| 0 <= i < n && proof_run.required[i] == violating(violation);
        lemma_violations_of(proof_run, proof_run.required[i], violation);
        assert(enrichment_proof::violations_of(proof_run, proof_run.required[i]).contains(
            violation,
        ));
    }
}

// ── Recording ───────────────────────────────────────────────────────────

/// What is counted of a language: the files attempted, enriched and failed, and the
/// relations.
pub open spec fn counts_of(languages: Seq<EnrichmentView>, language: LanguageId) -> (
    int,
    int,
    int,
    int,
) {
    match enrichment_proof::record_of(languages, language) {
        Some(r) => (
            r.files_attempted as int,
            r.files_enriched as int,
            r.files_failed as int,
            r.relations_emitted as int,
        ),
        None => (0, 0, 0, 0),
    }
}

/// What a call adds to the counts of its language.
pub open spec fn added_by(call: RecorderCall) -> (int, int, int, int) {
    match call {
        RecorderCall::Attempted { .. } => (1, 0, 0, 0),
        RecorderCall::Enriched { relations, .. } => (0, 1, 0, relations as int),
        RecorderCall::Failed { .. } => (0, 0, 1, 0),
        _ => (0, 0, 0, 0),
    }
}

/// One set of counts and another, added up.
pub open spec fn plus(a: (int, int, int, int), b: (int, int, int, int)) -> (int, int, int, int) {
    (a.0 + b.0, a.1 + b.1, a.2 + b.2, a.3 + b.3)
}

/// Whether counts can be kept.
pub open spec fn are_counts(c: (int, int, int, int)) -> bool {
    c.0 <= u64::MAX && c.1 <= u64::MAX && c.2 <= u64::MAX && c.3 <= u64::MAX
}

/// A call adds what it says to the counts of its language and to those of no other. A
/// file that failed is kept with its reason, behind the ones that failed before. A
/// probe gives the language its provider and what the server reported. Nothing else of
/// a record changes, and a gap changes no record.
#[verifier::rlimit(50)]
pub proof fn calls_are_counted(recorder: ProofView, call: RecorderCall, language: LanguageId)
    requires
        enrichment_proof::one_record_each(recorder.languages),
        are_counts(
            plus(
                counts_of(recorder.languages, enrichment_proof::call_language(call)),
                added_by(call),
            ),
        ),
    ensures
        ({
            let before = recorder.languages;
            let after = enrichment_proof::recorded(recorder, call).languages;
            let own = enrichment_proof::call_language(call);
            let was = enrichment_proof::record_of(before, own);
            let is = enrichment_proof::record_of(after, own);
            &&& counts_of(after, language) == if language == own {
                plus(counts_of(before, language), added_by(call))
            } else {
                counts_of(before, language)
            }
            &&& language != own ==> enrichment_proof::record_of(after, language)
                == enrichment_proof::record_of(before, language)
            &&& call is Gap ==> after == before
            &&& !(call is Gap) ==> is is Some && is->0.language == own
            &&& call matches RecorderCall::Probe { provider, version, probed, missing, .. } ==> {
                &&& is->0.provider == Some(provider)
                &&& is->0.version == version
                &&& is->0.probed_capabilities == probed
                &&& is->0.missing_capabilities == missing
            }
            &&& call matches RecorderCall::Failed { failure, .. } ==> {
                &&& is->0.failures.len() > 0
                &&& is->0.failures.last() == failure
                &&& was is Some ==> is->0.failures.drop_last() == was->0.failures
                &&& was is None ==> is->0.failures.len() == 1
            }
            &&& !(call is Failed) && was is Some ==> is->0.failures == was->0.failures
            &&& !(call is Probe) && was is Some ==> {
                &&& is->0.provider == was->0.provider
                &&& is->0.version == was->0.version
                &&& is->0.probed_capabilities == was->0.probed_capabilities
                &&& is->0.missing_capabilities == was->0.missing_capabilities
            }
            &&& enrichment_proof::recorded(recorder, call).required == recorder.required
            &&& enrichment_proof::recorded(recorder, call).mode == recorder.mode
        }),
{
    let before = recorder.languages;
    let own = enrichment_proof::call_language(call);
    lemma_record_at(before, own, 0);
    if !(call is Gap) {
        let record = enrichment_proof::noted(
            enrichment_proof::record_or_fresh(before, own),
            call,
        );
        assert(record.language == own);
        enrichment_proof::with_record_reads_back(before, record, language);
        enrichment_proof::with_record_reads_back(before, record, own);
        if let RecorderCall::Failed { failure, .. } = call {
            let was = enrichment_proof::record_or_fresh(before, own).failures;
            assert(was.push(failure).drop_last() =~= was);
        }
    }
}

/// A gap is kept behind the ones that were recorded before, with why it is there and
/// whether its language is required; no other call changes the gaps.
pub proof fn gaps_are_kept(recorder: ProofView, call: RecorderCall)
    ensures
        ({
            let before = recorder.gaps;
            let after = enrichment_proof::recorded(recorder, call).gaps;
            match call {
                RecorderCall::Gap { language, detail } => {
                    &&& after.len() == before.len() + 1
                    &&& before.is_prefix_of(after)
                    &&& after.last().language == language
                    &&& after.last().detail == detail
                    &&& after.last().required <==> recorder.required.contains(language)
                },
                _ => after == before,
            }
        }),
{
}

proof fn lemma_sums_are_local(a: Seq<EnrichmentView>, b: Seq<EnrichmentView>, n: int)
    requires
        0 <= n <= a.len(),
        n <= b.len(),
        forall|i: int| 0 <= i < n ==> a[i] == b[i],
    ensures
        enrichment_proof::relations_sum(a, n) == enrichment_proof::relations_sum(b, n),
        enrichment_proof::attempted_sum(a, n) == enrichment_proof::attempted_sum(b, n),
        enrichment_proof::enriched_sum(a, n) == enrichment_proof::enriched_sum(b, n),
        enrichment_proof::failed_sum(a, n) == enrichment_proof::failed_sum(b, n),
    decreases n,
{
    if n > 0 {
        lemma_sums_are_local(a, b, n - 1);
    }
}

/// All that is counted over some records.
pub open spec fn totals(languages: Seq<EnrichmentView>) -> (int, int, int, int) {
    let n = languages.len() as int;
    (
        enrichment_proof::attempted_sum(languages, n) as int,
        enrichment_proof::enriched_sum(languages, n) as int,
        enrichment_proof::failed_sum(languages, n) as int,
        enrichment_proof::relations_sum(languages, n) as int,
    )
}

spec fn totals_before(languages: Seq<EnrichmentView>, n: int) -> (int, int, int, int) {
    (
        enrichment_proof::attempted_sum(languages, n) as int,
        enrichment_proof::enriched_sum(languages, n) as int,
        enrichment_proof::failed_sum(languages, n) as int,
        enrichment_proof::relations_sum(languages, n) as int,
    )
}

spec fn counts_in(r: EnrichmentView) -> (int, int, int, int) {
    (
        r.files_attempted as int,
        r.files_enriched as int,
        r.files_failed as int,
        r.relations_emitted as int,
    )
}

proof fn lemma_sums_updated(
    languages: Seq<EnrichmentView>,
    at: int,
    record: EnrichmentView,
    more: (int, int, int, int),
    n: int,
)
    requires
        0 <= at < n <= languages.len(),
        counts_in(record) == plus(counts_in(languages[at]), more),
    ensures
        totals_before(languages.update(at, record), n) == plus(totals_before(languages, n), more),
    decreases n,
{
    let after = languages.update(at, record);
    if at == n - 1 {
        lemma_sums_are_local(languages, after, n - 1);
    } else {
        lemma_sums_updated(languages, at, record, more, n - 1);
        assert(after[n - 1] == languages[n - 1]);
    }
}

/// The totals of a run grow by what each call adds, so they are what was recorded over
/// all languages. Without a call they are nothing.
pub proof fn totals_are_what_was_recorded(recorder: ProofView, call: RecorderCall)
    requires
        enrichment_proof::one_record_each(recorder.languages),
        are_counts(
            plus(
                counts_of(recorder.languages, enrichment_proof::call_language(call)),
                added_by(call),
            ),
        ),
    ensures
        totals(enrichment_proof::recorded(recorder, call).languages) == plus(
            totals(recorder.languages),
            added_by(call),
        ),
        totals(Seq::empty()) == (0int, 0int, 0int, 0int),
{
    let before = recorder.languages;
    let own = enrichment_proof::call_language(call);
    if !(call is Gap) {
        let record = enrichment_proof::noted(
            enrichment_proof::record_or_fresh(before, own),
            call,
        );
        lemma_record_at(before, own, 0);
        let at = enrichment_proof::record_at(before, own, 0);
        let n = before.len() as int;
        if at < n {
            lemma_sums_updated(before, at, record, added_by(call), n);
        } else {
            lemma_sums_are_local(before, before.push(record), n);
        }
    }
}

/// Finishing a run loses nothing and adds nothing: it holds the records and the gaps that
/// were recorded, requires the languages that were required, and is in the same mode.
pub proof fn finishing_keeps_what_was_recorded(
    recorder: ProofView,
    proof_run: ProofView,
    record: EnrichmentView,
    gap: ProofGapView,
    language: LanguageId,
)
    requires
        enrichment_proof::is_finished(recorder, proof_run),
    ensures
        proof_run.languages.contains(record) <==> recorder.languages.contains(record),
        proof_run.gaps.contains(gap) <==> recorder.gaps.contains(gap),
        proof_run.required.contains(language) <==> recorder.required.contains(language),
        proof_run.required.no_duplicates(),
        proof_run.mode == recorder.mode,
{
    sorting::stable_sort_keeps_values::<LanguageEnrichment>(
        recorder.languages,
        proof_run.languages,
        record,
    );
    sorting::stable_sort_keeps_values::<ProofGap>(recorder.gaps, proof_run.gaps, gap);
}

} // verus!
