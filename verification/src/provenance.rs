//! Provenance of relations: which provider vouches for an edge.

use vstd::prelude::*;

use crate::capability;
use crate::capability::LspCapability;
use crate::registry::ProviderId;
use crate::text;
use crate::text::{chars_of, find, joined, same, split, starts_with, text_of};
use crate::types;
use crate::types::{EvidenceView, Relation, RelationEvidence, RelationView};

verus! {

/// Provenance carried by every LSP-derived relation: which provider, at which
/// version, via which capability produced the edge. This is the LSP-specific
/// detail beneath the coarse [`crate::types::RelationOrigin::Lsp`] tag; it
/// distinguishes an LSP relation from a parsed or linked one and names the exact
/// server that vouches for it.
#[derive(Debug, PartialEq, Eq)]
pub struct LspProvenance {
    pub provider: ProviderId,
    pub version: Option<String>,
    pub capability: LspCapability,
}

/// What an [`LspProvenance`] says.
pub struct ProvenanceView {
    pub provider: Seq<char>,
    pub version: Option<Seq<char>>,
    pub capability: LspCapability,
}

impl DeepView for LspProvenance {
    type V = ProvenanceView;

    open spec fn deep_view(&self) -> ProvenanceView {
        ProvenanceView {
            provider: self.provider.deep_view(),
            version: self.version.deep_view(),
            capability: self.capability,
        }
    }
}

/// Marker prefix identifying a [`RelationEvidence`] as LSP provenance. Versioned
/// so the encoding can evolve without ambiguity.
const LSP_EVIDENCE_TAG: &'static str = "lsp/1";

/// The structured tag of a provenance: marker, provider, capability.
pub open spec fn provenance_rule(provenance: ProvenanceView) -> Seq<char> {
    "lsp/1;provider="@ + provenance.provider + ";capability="@ + capability::capability_slug(
        provenance.capability,
    )
}

/// The evidence that carries a provenance: the tag as the parser rule, the
/// version as the token.
pub open spec fn provenance_evidence(provenance: ProvenanceView) -> EvidenceView {
    EvidenceView {
        parser_rule: Some(provenance_rule(provenance)),
        token: provenance.version,
        ..types::empty_evidence()
    }
}

/// The provider and the capability that the first `n` parts of a tag name, the
/// last of each counting. Every part after the marker has the form `key=value`;
/// `None` where one has not.
pub open spec fn tag_fields(parts: Seq<Seq<char>>, n: int) -> Option<
    (Option<Seq<char>>, Option<LspCapability>),
>
    decreases n,
{
    if n <= 1 {
        Some((None, None))
    } else {
        let part = parts[n - 1];
        let eq = text::find_char(part, '=', 0);
        let key = part.subrange(0, eq);
        let value = part.subrange(eq + 1, part.len() as int);
        match tag_fields(parts, n - 1) {
            None => None,
            Some((provider, named)) => {
                if eq >= part.len() {
                    None
                } else if key == "provider"@ {
                    Some((Some(value), named))
                } else if key == "capability"@ {
                    Some((provider, capability::capability_of_slug(value)))
                } else {
                    Some((provider, named))
                }
            },
        }
    }
}

/// The provenance that an evidence record carries, if it carries one.
pub open spec fn provenance_of(evidence: EvidenceView) -> Option<ProvenanceView> {
    match evidence.parser_rule {
        None => None,
        Some(rule) => {
            let parts = text::pieces(rule, ';', 0);
            if parts[0] != "lsp/1"@ {
                None
            } else {
                match tag_fields(parts, parts.len() as int) {
                    Some((Some(provider), Some(named))) => Some(
                        ProvenanceView { provider, version: evidence.token, capability: named },
                    ),
                    _ => None,
                }
            }
        },
    }
}

/// Whether an evidence record is marked as LSP provenance.
pub open spec fn is_marked(evidence: EvidenceView) -> bool {
    evidence.parser_rule is Some && "lsp/1"@.is_prefix_of(evidence.parser_rule->0)
}

impl LspProvenance {
    /// Encode this provenance into a [`RelationEvidence`] so it persists through
    /// the existing evidence field. `parser_rule` carries the controlled-slug
    /// structured tag; the free-form version string rides in `token`. It reads
    /// back via [`LspProvenance::from_relation_evidence`].
    pub fn to_relation_evidence(&self) -> (r: RelationEvidence)
        ensures
            r.deep_view() == provenance_evidence(self.deep_view()),
    {
        let rule = joined(LSP_EVIDENCE_TAG, ";provider=").concat(self.provider.as_str()).concat(
            ";capability=",
        ).concat(self.capability.as_slug());
        proof {
            reveal_strlit("lsp/1");
            reveal_strlit(";provider=");
            reveal_strlit("lsp/1;provider=");
            assert("lsp/1"@ + ";provider="@ =~= "lsp/1;provider="@);
        }
        let mut r = RelationEvidence::default();
        r.parser_rule = Some(rule);
        r.token = self.version.clone();
        r
    }

    /// Decode provenance previously written by
    /// [`LspProvenance::to_relation_evidence`]. Returns `None` for evidence that
    /// is not LSP provenance (e.g. parser or linker evidence), so it is safe to
    /// call on any relation's evidence.
    pub fn from_relation_evidence(evidence: &RelationEvidence) -> (r: Option<Self>)
        ensures
            r.deep_view() == provenance_of(evidence.deep_view()),
    {
        let rule = match &evidence.parser_rule {
            None => {
                return None;
            },
            Some(rule) => chars_of(rule.as_str()),
        };
        let parts = split(&rule, ';');
        let ghost views = text::pieces(rule@, ';', 0);
        assert(views.len() == parts@.len());
        assert forall|i: int| 0 <= i < views.len() implies #[trigger] views[i] == parts@[i]@ by {
            assert(parts@.map_values(|p: Vec<char>| p@)[i] == parts@[i]@);
        }
        assert(views[0] == parts@[0]@);
        let head = text_of(&parts[0], 0, parts[0].len());
        assert(head@ =~= views[0]);
        if !same(head.as_str(), LSP_EVIDENCE_TAG) {
            return None;
        }
        let mut provider: Option<ProviderId> = None;
        let mut named: Option<LspCapability> = None;
        let mut i: usize = 1;
        while i < parts.len()
            invariant
                1 <= i <= parts@.len(),
                views.len() == parts@.len(),
                forall|k: int| 0 <= k < views.len() ==> #[trigger] views[k] == parts@[k]@,
                tag_fields(views, i as int) == Some((provider.deep_view(), named)),
                evidence.deep_view().parser_rule is Some,
                views == text::pieces(evidence.deep_view().parser_rule->0, ';', 0),
            decreases parts@.len() - i,
        {
            let part = &parts[i];
            assert(views[i as int] == part@);
            let n: usize = part.len();
            let eq: usize = find(part, '=', 0);
            if eq >= n {
                proof {
                    lemma_tag_fields_none(views, i + 1, views.len() as int);
                }
                return None;
            }
            let key = text_of(part, 0, eq);
            let value = text_of(part, eq + 1, n);
            if same(key.as_str(), "provider") {
                provider = Some(ProviderId::new(value.as_str()));
            } else if same(key.as_str(), "capability") {
                named = LspCapability::from_slug(value.as_str());
            }
            i += 1;
        }
        match (provider, named) {
            (Some(provider), Some(capability)) => Some(
                LspProvenance { provider, version: evidence.token.clone(), capability },
            ),
            _ => None,
        }
    }

    /// Whether an evidence record is LSP provenance (cheap prefix check).
    pub fn is_lsp_evidence(evidence: &RelationEvidence) -> (r: bool)
        ensures
            r == is_marked(evidence.deep_view()),
    {
        match &evidence.parser_rule {
            None => false,
            Some(rule) => starts_with(rule.as_str(), LSP_EVIDENCE_TAG),
        }
    }
}

/// Once a part has no `=`, no longer run of parts is a tag.
proof fn lemma_tag_fields_none(parts: Seq<Seq<char>>, n: int, m: int)
    requires
        1 < n <= m,
        tag_fields(parts, n) is None,
    ensures
        tag_fields(parts, m) is None,
    decreases m - n,
{
    if n < m {
        lemma_tag_fields_none(parts, n + 1, m);
    }
}

/// A relation with one more piece of evidence.
pub open spec fn with_evidence(relation: RelationView, evidence: EvidenceView) -> RelationView {
    RelationView { evidence: relation.evidence.push(evidence), ..relation }
}

/// Stamp LSP provenance onto a batch of relations produced by one capability.
///
/// Each enrichment entry point emits relations for exactly one capability, so
/// the caller, which knows the running provider and the capability it just
/// exercised, attaches provenance here without the enrichment functions needing
/// to know the provider identity. Evidence is appended (never replacing existing
/// evidence), keeping the operation additive.
pub fn stamp_lsp_provenance(relations: &mut Vec<Relation>, provenance: &LspProvenance)
    ensures
        final(relations).deep_view() == old(relations).deep_view().map_values(
            |relation: RelationView|
                with_evidence(relation, provenance_evidence(provenance.deep_view())),
        ),
{
    let evidence = provenance.to_relation_evidence();
    let ghost before = relations.deep_view();
    let ghost stamp = provenance_evidence(provenance.deep_view());
    let n: usize = relations.len();
    let mut i: usize = 0;
    while i < n
        invariant
            i <= n == relations@.len() == before.len(),
            evidence.deep_view() == stamp,
            forall|k: int|
                0 <= k < i ==> (#[trigger] relations@[k]).deep_view() == with_evidence(
                    before[k],
                    stamp,
                ),
            forall|k: int|
                i <= k < n ==> (#[trigger] relations@[k]).deep_view() == before[k],
        decreases n - i,
    {
        let mut relation = relations.remove(i);
        let ghost plain = relation.deep_view();
        relation.evidence.push(evidence.clone());
        assert(relation.evidence.deep_view() =~= plain.evidence.push(stamp));
        relations.insert(i, relation);
        i += 1;
    }
    assert(relations.deep_view() =~= before.map_values(
        |relation: RelationView| with_evidence(relation, stamp),
    ));
}

// ── What the encoding promises ──────────────────────────────────────────

proof fn lemma_slug_has_no_separator(named: LspCapability, i: int)
    requires
        0 <= i < capability::capability_slug(named).len(),
    ensures
        capability::capability_slug(named)[i] != ';',
{
    reveal_strlit("definition");
    reveal_strlit("typeDefinition");
    reveal_strlit("references");
    reveal_strlit("callHierarchy");
    reveal_strlit("typeHierarchy");
}

/// The parts of a provenance's tag.
proof fn lemma_tag_parts(provenance: ProvenanceView)
    requires
        !provenance.provider.contains(';'),
    ensures
        text::pieces(provenance_rule(provenance), ';', 0) == seq![
            "lsp/1"@,
            "provider="@ + provenance.provider,
            "capability="@ + capability::capability_slug(provenance.capability),
        ],
{
    let rule = provenance_rule(provenance);
    let provider = provenance.provider;
    let slug = capability::capability_slug(provenance.capability);
    reveal_strlit("lsp/1;provider=");
    reveal_strlit("lsp/1");
    reveal_strlit("provider=");
    reveal_strlit(";capability=");
    reveal_strlit("capability=");
    let p = provider.len() as int;
    let n = rule.len() as int;
    assert(n == 15 + p + 12 + slug.len());
    assert forall|k: int| 15 + p + 12 <= k < n implies rule[k] != ';' by {
        assert(rule[k] == slug[k - 27 - p]);
        lemma_slug_has_no_separator(provenance.capability, k - 27 - p);
    }
    assert forall|k: int| 0 <= k < 15 implies rule[k] == "lsp/1;provider="@[k] by {}
    assert forall|k: int| 0 <= k < 12 implies rule[15 + p + k] == #[trigger] ";capability="@[k] by {}
    assert forall|k: int| 6 <= k < 15 + p implies rule[k] != ';' by {
        if k >= 15 {
            assert(rule[k] == provider[k - 15]);
            assert(provider.contains(provider[k - 15]));
        }
    }
    assert forall|k: int| 15 + p + 1 <= k < n implies rule[k] != ';' by {
        if k < 15 + p + 12 {
            assert(rule[15 + p + (k - 15 - p)] == ";capability="@[k - 15 - p]);
        }
    }
    assert(rule[15 + p + 0] == ';');
    text::lemma_find_char_at(rule, ';', 0, 5);
    text::lemma_find_char_at(rule, ';', 6, 15 + p);
    text::lemma_find_char_at(rule, ';', 16 + p, n);
    assert(rule.subrange(0, 5) =~= "lsp/1"@);
    assert(rule.subrange(6, 15 + p) =~= "provider="@ + provider);
    assert(rule.subrange(16 + p, n) =~= "capability="@ + slug);
    assert(text::pieces(rule, ';', 16 + p) == seq![rule.subrange(16 + p, n)]);
    assert(text::pieces(rule, ';', 6) == seq![rule.subrange(6, 15 + p)] + text::pieces(
        rule,
        ';',
        16 + p,
    ));
    assert(text::pieces(rule, ';', 0) =~= seq![
        "lsp/1"@,
        "provider="@ + provider,
        "capability="@ + slug,
    ]);
}

/// A provenance written into evidence reads back as it was, for every provider
/// whose id does not hold the tag's separator.
pub proof fn provenance_reads_back(provenance: ProvenanceView)
    requires
        !provenance.provider.contains(';'),
    ensures
        provenance_of(provenance_evidence(provenance)) == Some(provenance),
{
    let provider = provenance.provider;
    let slug = capability::capability_slug(provenance.capability);
    let first = "provider="@ + provider;
    let second = "capability="@ + slug;
    let parts = seq!["lsp/1"@, first, second];
    lemma_tag_parts(provenance);
    capability::lemma_capability_of_slug(provenance.capability);
    reveal_strlit("provider=");
    reveal_strlit("provider");
    reveal_strlit("capability=");
    reveal_strlit("capability");
    text::lemma_find_char_at(first, '=', 0, 8);
    text::lemma_find_char_at(second, '=', 0, 10);
    assert(first.subrange(0, 8) =~= "provider"@);
    assert(first.subrange(9, first.len() as int) =~= provider);
    assert(second.subrange(0, 10) =~= "capability"@);
    assert("capability"@.len() != "provider"@.len());
    assert(second.subrange(11, second.len() as int) =~= slug);
    assert(tag_fields(parts, 1) == Some((None::<Seq<char>>, None::<LspCapability>)));
    assert(parts[1] == first && parts[2] == second);
    assert(tag_fields(parts, 2) == Some((Some(provider), None::<LspCapability>)));
    assert(tag_fields(parts, 3) == Some((Some(provider), Some(provenance.capability))));
}

/// Evidence written from a provenance is marked as LSP provenance.
pub proof fn provenance_evidence_is_marked(provenance: ProvenanceView)
    ensures
        is_marked(provenance_evidence(provenance)),
{
    reveal_strlit("lsp/1");
    reveal_strlit("lsp/1;provider=");
    let rule = provenance_rule(provenance);
    assert(rule.subrange(0, 5) =~= "lsp/1"@);
}

/// Evidence that a provenance can be read from is marked as LSP provenance, so
/// parser and linker evidence never reads as one.
pub proof fn readable_evidence_is_marked(evidence: EvidenceView)
    requires
        provenance_of(evidence) is Some,
    ensures
        is_marked(evidence),
{
    let rule = evidence.parser_rule->0;
    text::lemma_find_char(rule, ';', 0);
    let end = text::find_char(rule, ';', 0);
    reveal_strlit("lsp/1");
    if end >= rule.len() {
        assert(text::pieces(rule, ';', 0)[0] == rule.subrange(0, rule.len() as int));
        assert(rule.subrange(0, rule.len() as int) =~= rule);
    } else {
        assert(text::pieces(rule, ';', 0)[0] == rule.subrange(0, end));
    }
}

/// Stamping a relation adds its provenance behind the evidence that it has, which can be
/// read back from it, and changes nothing else.
pub proof fn stamped_relation_keeps_what_it_says(
    relation: RelationView,
    provenance: ProvenanceView,
)
    requires
        !provenance.provider.contains(';'),
    ensures
        ({
            let after = with_evidence(relation, provenance_evidence(provenance));
            &&& after.id == relation.id
            &&& after.kind == relation.kind
            &&& after.src == relation.src
            &&& after.dst == relation.dst
            &&& after.confidence == relation.confidence
            &&& after.origin == relation.origin
            &&& after.created_in == relation.created_in
            &&& after.import_source == relation.import_source
            &&& after.evidence.len() == relation.evidence.len() + 1
            &&& relation.evidence.is_prefix_of(after.evidence)
            &&& provenance_of(after.evidence.last()) == Some(provenance)
        }),
{
    provenance_reads_back(provenance);
}

} // verus!
