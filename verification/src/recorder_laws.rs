//! What a proof recorder promises, whatever it is told and in whatever order.

use vstd::prelude::*;

use crate::enrichment_proof;
use crate::enrichment_proof::{
    EnrichmentView, ProofGap, ProofGapView, ProofView, RecorderCall,
};
use crate::sorting;
use crate::types::LanguageId;

verus! {

/// A recorder after a series of calls.
pub open spec fn after_calls(recorder: ProofView, calls: Seq<RecorderCall>) -> ProofView
    decreases calls.len(),
{
    if calls.len() == 0 {
        recorder
    } else {
        enrichment_proof::recorded(after_calls(recorder, calls.drop_last()), calls.last())
    }
}

/// Whether a call is about a language.
pub open spec fn is_about(language: LanguageId) -> spec_fn(RecorderCall) -> bool {
    |call: RecorderCall| enrichment_proof::call_language(call) == language
}

/// The calls about a language, in order.
pub open spec fn calls_about(calls: Seq<RecorderCall>, language: LanguageId) -> Seq<RecorderCall> {
    calls.filter(is_about(language))
}

/// A recorder that has been told nothing yet.
pub open spec fn is_unused(recorder: ProofView) -> bool {
    recorder.languages.len() == 0 && recorder.gaps.len() == 0
}

/// The record that the calls about one language leave.
spec fn record_left(calls: Seq<RecorderCall>, language: LanguageId) -> Option<EnrichmentView>
    decreases calls.len(),
{
    if calls.len() == 0 {
        None
    } else {
        let before = record_left(calls.drop_last(), language);
        if calls.last() is Gap {
            before
        } else {
            Some(
                enrichment_proof::noted(
                    match before {
                        Some(record) => record,
                        None => enrichment_proof::fresh_enrichment(language),
                    },
                    calls.last(),
                ),
            )
        }
    }
}

/// The gaps that the calls about one language leave.
spec fn gaps_left(calls: Seq<RecorderCall>, required: bool) -> Seq<ProofGapView>
    decreases calls.len(),
{
    if calls.len() == 0 {
        Seq::empty()
    } else {
        let before = gaps_left(calls.drop_last(), required);
        match calls.last() {
            RecorderCall::Gap { language, detail } => before.push(
                ProofGapView { language, detail, required },
            ),
            _ => before,
        }
    }
}

proof fn lemma_calls_about(calls: Seq<RecorderCall>, language: LanguageId)
    ensures
        calls.len() == 0 ==> calls_about(calls, language).len() == 0,
        calls.len() > 0 ==> calls_about(calls, language) == if enrichment_proof::call_language(
            calls.last(),
        ) == language {
            calls_about(calls.drop_last(), language).push(calls.last())
        } else {
            calls_about(calls.drop_last(), language)
        },
{
    reveal(Seq::filter);
}

/// What a recorder keeps of a language comes from the calls about that language
/// alone.
proof fn lemma_record_left(recorder: ProofView, calls: Seq<RecorderCall>, language: LanguageId)
    requires
        is_unused(recorder),
    ensures
        enrichment_proof::one_record_each(after_calls(recorder, calls).languages),
        enrichment_proof::record_of(after_calls(recorder, calls).languages, language)
            == record_left(calls_about(calls, language), language),
        record_left(calls_about(calls, language), language) is Some ==> record_left(
            calls_about(calls, language),
            language,
        )->0.language == language,
        after_calls(recorder, calls).mode == recorder.mode,
        after_calls(recorder, calls).required == recorder.required,
    decreases calls.len(),
{
    lemma_calls_about(calls, language);
    if calls.len() > 0 {
        let earlier = calls.drop_last();
        let call = calls.last();
        let told = enrichment_proof::call_language(call);
        lemma_record_left(recorder, earlier, language);
        lemma_record_left(recorder, earlier, told);
        lemma_calls_about(earlier, told);
        let languages = after_calls(recorder, earlier).languages;
        if told == language {
            assert(calls_about(calls, language).drop_last() =~= calls_about(earlier, language));
        }
        if !(call is Gap) {
            let record = enrichment_proof::noted(
                enrichment_proof::record_or_fresh(languages, told),
                call,
            );
            assert(record.language == told);
            enrichment_proof::with_record_reads_back(languages, record, language);
        }
    }
}

proof fn lemma_gaps_left(recorder: ProofView, calls: Seq<RecorderCall>, language: LanguageId)
    requires
        is_unused(recorder),
    ensures
        sorting::of_rank::<ProofGap>(
            after_calls(recorder, calls).gaps,
            enrichment_proof::language_rank(language),
        ) == gaps_left(calls_about(calls, language), recorder.required.contains(language)),
    decreases calls.len(),
{
    let k = enrichment_proof::language_rank(language);
    reveal(Seq::filter);
    lemma_calls_about(calls, language);
    if calls.len() == 0 {
        assert(sorting::of_rank::<ProofGap>(recorder.gaps, k) =~= Seq::empty());
    } else {
        let earlier = calls.drop_last();
        let call = calls.last();
        let told = enrichment_proof::call_language(call);
        lemma_gaps_left(recorder, earlier, language);
        lemma_record_left(recorder, earlier, language);
        let before = after_calls(recorder, earlier).gaps;
        let after = after_calls(recorder, calls).gaps;
        if told == language {
            assert(calls_about(calls, language).drop_last() =~= calls_about(earlier, language));
        }
        if call is Gap {
            assert(after.drop_last() =~= before);
            if told != language && enrichment_proof::language_rank(told) == k {
                enrichment_proof::language_rank_follows_slug(told, language);
            }
        }
    }
}

proof fn lemma_no_gap_of_rank(gaps: Seq<ProofGapView>, k: int)
    requires
        forall|language: LanguageId| enrichment_proof::language_rank(language) != k,
    ensures
        sorting::of_rank::<ProofGap>(gaps, k) == Seq::<ProofGapView>::empty(),
    decreases gaps.len(),
{
    reveal(Seq::filter);
    if gaps.len() > 0 {
        lemma_no_gap_of_rank(gaps.drop_last(), k);
        assert(enrichment_proof::language_rank(gaps.last().language) != k);
    }
    assert(sorting::of_rank::<ProofGap>(gaps, k) =~= Seq::empty());
}

/// A finished record does not depend on how the calls about different languages
/// were interleaved: recorders in the same mode, with the same required languages,
/// that were told the same about every language in the same order finish to the
/// same record.
pub proof fn interleaving_does_not_matter(
    a: ProofView,
    b: ProofView,
    calls_a: Seq<RecorderCall>,
    calls_b: Seq<RecorderCall>,
    finished_a: ProofView,
    finished_b: ProofView,
)
    requires
        is_unused(a),
        is_unused(b),
        a.mode == b.mode,
        forall|language: LanguageId| #[trigger]
            a.required.contains(language) <==> b.required.contains(language),
        forall|language: LanguageId| #[trigger]
            calls_about(calls_a, language) == calls_about(calls_b, language),
        enrichment_proof::is_finished(after_calls(a, calls_a), finished_a),
        enrichment_proof::is_finished(after_calls(b, calls_b), finished_b),
    ensures
        finished_a == finished_b,
{
    let end_a = after_calls(a, calls_a);
    let end_b = after_calls(b, calls_b);
    lemma_record_left(a, calls_a, LanguageId::Rust);
    lemma_record_left(b, calls_b, LanguageId::Rust);
    assert forall|language: LanguageId| #[trigger]
        enrichment_proof::record_of(end_a.languages, language) == enrichment_proof::record_of(
            end_b.languages,
            language,
        ) by {
        lemma_record_left(a, calls_a, language);
        lemma_record_left(b, calls_b, language);
        assert(calls_about(calls_a, language) == calls_about(calls_b, language));
    }
    assert forall|k: int| #[trigger]
        sorting::of_rank::<ProofGap>(end_a.gaps, k) == sorting::of_rank::<ProofGap>(
            end_b.gaps,
            k,
        ) by {
        if exists|language: LanguageId| enrichment_proof::language_rank(language) == k {
            let language = choose|language: LanguageId|
                enrichment_proof::language_rank(language) == k;
            lemma_gaps_left(a, calls_a, language);
            lemma_gaps_left(b, calls_b, language);
            assert(calls_about(calls_a, language) == calls_about(calls_b, language));
            assert(a.required.contains(language) <==> b.required.contains(language));
        } else {
            lemma_no_gap_of_rank(end_a.gaps, k);
            lemma_no_gap_of_rank(end_b.gaps, k);
        }
    }
    enrichment_proof::finish_ignores_insertion_order(end_a, end_b, finished_a, finished_b);
}

/// Whatever a recorder is told, each of its gaps is marked required exactly where
/// its language is.
pub proof fn calls_keep_gaps_marked(recorder: ProofView, calls: Seq<RecorderCall>)
    requires
        enrichment_proof::gaps_are_marked(recorder),
    ensures
        enrichment_proof::gaps_are_marked(after_calls(recorder, calls)),
    decreases calls.len(),
{
    if calls.len() > 0 {
        calls_keep_gaps_marked(recorder, calls.drop_last());
    }
}

} // verus!
