//! The JSON form of an enrichment proof, as it is kept beside a run's output.

use vstd::prelude::*;

use crate::capability;
use crate::capability::{CapabilitySet, LspCapability};
use crate::enrichment_proof::{
    EnrichmentView, FailureView, FileFailure, LanguageEnrichment, LspEnrichmentProof, ProofGap,
    ProofGapView, ProofMode, ProofView,
};
use crate::error::{LspError, LspErrorView};
use crate::json;
use crate::json::{no_fields, with, Json, JsonView};
use crate::protocol;
use crate::protocol::{field, read_string};
use crate::registry;
use crate::registry::{language_from_slug, ProviderId};
use crate::text::same;
use crate::types;
use crate::types::LanguageId;

verus! {

/// A value with a JSON form, which it is read back from.
pub trait Recorded: DeepView + Sized {
    /// The JSON form.
    spec fn encoded(v: Self::V) -> JsonView;

    /// The value that has a JSON form, if one has it.
    spec fn decoded(j: JsonView) -> Option<Self::V>;

    /// How deep the JSON form nests arrays and objects.
    spec fn depth() -> nat;

    /// The JSON form of the value.
    fn to_json(&self) -> (r: Json)
        ensures
            r@ == Self::encoded(self.deep_view()),
    ;

    /// Read a value from its JSON form.
    fn from_json(j: &Json) -> (r: Option<Self>)
        ensures
            r.deep_view() == Self::decoded(j@),
    ;

    /// A value is read back from its JSON form.
    proof fn reads_back(v: Self::V)
        ensures
            Self::decoded(Self::encoded(v)) == Some(v),
    ;

    /// The JSON form holds no number but integers.
    proof fn is_plain(v: Self::V, depth: nat)
        requires
            depth >= Self::depth(),
        ensures
            json::is_plain(Self::encoded(v), depth),
    ;
}

// ── Lists ───────────────────────────────────────────────────────────────

/// The JSON form of a list.
pub open spec fn encoded_list<T: Recorded>(list: Seq<T::V>) -> JsonView {
    JsonView::Array(Seq::new(list.len(), |i: int| T::encoded(list[i])))
}

/// The list that has a JSON form.
pub open spec fn decoded_list<T: Recorded>(j: Option<JsonView>) -> Option<Seq<T::V>> {
    match j {
        Some(JsonView::Array(list)) => if forall|i: int|
            0 <= i < list.len() ==> T::decoded(#[trigger] list[i]) is Some {
            Some(Seq::new(list.len(), |i: int| T::decoded(list[i])->0))
        } else {
            None
        },
        _ => None,
    }
}

fn list_to_json<T: Recorded>(list: &Vec<T>) -> (r: Json)
    ensures
        r@ == encoded_list::<T>(list.deep_view()),
{
    let ghost views = list.deep_view();
    let mut out: Vec<Json> = Vec::new();
    let mut i: usize = 0;
    while i < list.len()
        invariant
            i <= list@.len(),
            views == list.deep_view(),
            out@.len() == i,
            forall|k: int| 0 <= k < i ==> (#[trigger] out@[k])@ == T::encoded(views[k]),
        decreases list@.len() - i,
    {
        assert(views[i as int] == list@[i as int].deep_view());
        out.push(list[i].to_json());
        i += 1;
    }
    let r = Json::Array(out);
    assert(r@->Array_0 =~= encoded_list::<T>(views)->Array_0);
    r
}

fn list_from_json<T: Recorded>(j: Option<&Json>) -> (r: Option<Vec<T>>)
    ensures
        r.deep_view() == decoded_list::<T>(j.deep_view()),
{
    match j {
        Some(Json::Array(list)) => {
            let ghost views = protocol::elements(list@);
            assert(views =~= j->0@->Array_0);
            let mut found: Vec<T> = Vec::new();
            let mut i: usize = 0;
            while i < list.len()
                invariant
                    i <= list@.len(),
                    views == protocol::elements(list@),
                    j.deep_view() == Some(JsonView::Array(views)),
                    found@.len() == i,
                    forall|k: int|
                        0 <= k < i ==> T::decoded(#[trigger] views[k]) == Some(
                            found@[k].deep_view(),
                        ),
                decreases list@.len() - i,
            {
                assert(views[i as int] == list@[i as int]@);
                match T::from_json(&list[i]) {
                    Some(one) => found.push(one),
                    None => {
                        assert(T::decoded(views[i as int]) is None);
                        return None;
                    },
                }
                i += 1;
            }
            assert(found.deep_view() =~= Seq::new(
                views.len(),
                |i: int| T::decoded(views[i])->0,
            ));
            Some(found)
        },
        _ => None,
    }
}

proof fn lemma_list_reads_back<T: Recorded>(list: Seq<T::V>)
    ensures
        decoded_list::<T>(Some(encoded_list::<T>(list))) == Some(list),
{
    let coded = encoded_list::<T>(list)->Array_0;
    assert forall|i: int| 0 <= i < coded.len() implies T::decoded(#[trigger] coded[i]) == Some(
        list[i],
    ) by {
        T::reads_back(list[i]);
    }
    assert(Seq::new(coded.len(), |i: int| T::decoded(coded[i])->0) =~= list);
}

proof fn lemma_list_is_plain<T: Recorded>(list: Seq<T::V>, depth: nat)
    requires
        depth > T::depth(),
    ensures
        json::is_plain(encoded_list::<T>(list), depth),
{
    let coded = encoded_list::<T>(list)->Array_0;
    assert forall|i: int| 0 <= i < coded.len() implies json::is_plain(
        #[trigger] coded[i],
        (depth - 1) as nat,
    ) by {
        T::is_plain(list[i], (depth - 1) as nat);
    }
}

// ── Names ───────────────────────────────────────────────────────────────

impl Recorded for LanguageId {
    open spec fn encoded(v: LanguageId) -> JsonView {
        JsonView::Text(types::language_slug(v))
    }

    open spec fn decoded(j: JsonView) -> Option<LanguageId> {
        match j {
            JsonView::Text(slug) => match registry::language_of_slug(slug) {
                Some(language) => if types::language_slug(language) == slug {
                    Some(language)
                } else {
                    None
                },
                None => None,
            },
            _ => None,
        }
    }

    open spec fn depth() -> nat {
        0
    }

    fn to_json(&self) -> (r: Json) {
        Json::Text(self.to_string())
    }

    fn from_json(j: &Json) -> (r: Option<Self>) {
        match j {
            Json::Text(slug) => match language_from_slug(slug.as_str()) {
                Some(language) => if same(language.as_slug(), slug.as_str()) {
                    Some(language)
                } else {
                    None
                },
                None => None,
            },
            _ => None,
        }
    }

    proof fn reads_back(v: LanguageId) {
        registry::language_slug_reads_back(v);
    }

    proof fn is_plain(v: LanguageId, depth: nat) {
    }
}

impl Recorded for LspCapability {
    open spec fn encoded(v: LspCapability) -> JsonView {
        JsonView::Text(capability::capability_slug(v))
    }

    open spec fn decoded(j: JsonView) -> Option<LspCapability> {
        match j {
            JsonView::Text(slug) => capability::capability_of_slug(slug),
            _ => None,
        }
    }

    open spec fn depth() -> nat {
        0
    }

    fn to_json(&self) -> (r: Json) {
        Json::Text(self.to_string())
    }

    fn from_json(j: &Json) -> (r: Option<Self>) {
        match j {
            Json::Text(slug) => LspCapability::from_slug(slug.as_str()),
            _ => None,
        }
    }

    proof fn reads_back(v: LspCapability) {
        capability::lemma_capability_of_slug(v);
    }

    proof fn is_plain(v: LspCapability, depth: nat) {
    }
}

impl Recorded for ProofMode {
    open spec fn encoded(v: ProofMode) -> JsonView {
        match v {
            ProofMode::Advisory => JsonView::Text("advisory"@),
            ProofMode::Citable => JsonView::Text("citable"@),
        }
    }

    open spec fn decoded(j: JsonView) -> Option<ProofMode> {
        match j {
            JsonView::Text(name) => if name == "advisory"@ {
                Some(ProofMode::Advisory)
            } else if name == "citable"@ {
                Some(ProofMode::Citable)
            } else {
                None
            },
            _ => None,
        }
    }

    open spec fn depth() -> nat {
        0
    }

    fn to_json(&self) -> (r: Json) {
        match self {
            ProofMode::Advisory => Json::Text("advisory".to_owned()),
            ProofMode::Citable => Json::Text("citable".to_owned()),
        }
    }

    fn from_json(j: &Json) -> (r: Option<Self>) {
        match j {
            Json::Text(name) => if same(name.as_str(), "advisory") {
                Some(ProofMode::Advisory)
            } else if same(name.as_str(), "citable") {
                Some(ProofMode::Citable)
            } else {
                None
            },
            _ => None,
        }
    }

    proof fn reads_back(v: ProofMode) {
        reveal_strlit("advisory");
        reveal_strlit("citable");
        assert("advisory"@.len() != "citable"@.len());
    }

    proof fn is_plain(v: ProofMode, depth: nat) {
    }
}

// ── Fields ──────────────────────────────────────────────────────────────

/// The natural number that a field gives.
pub open spec fn natural_of(j: Option<JsonView>) -> Option<u64> {
    match j {
        Some(JsonView::Int(i)) => if 0 <= i <= u64::MAX {
            Some(i as u64)
        } else {
            None
        },
        _ => None,
    }
}

fn read_natural(j: Option<&Json>) -> (r: Option<u64>)
    ensures
        r == natural_of(j.deep_view()),
{
    match j {
        Some(j) => match j.integer() {
            Some(i) => if 0 <= i && i <= u64::MAX as i128 {
                Some(i as u64)
            } else {
                None
            },
            None => None,
        },
        None => None,
    }
}

/// The truth value that a field gives.
pub open spec fn truth_of(j: Option<JsonView>) -> Option<bool> {
    match j {
        Some(JsonView::Bool(b)) => Some(b),
        _ => None,
    }
}

fn read_truth(j: Option<&Json>) -> (r: Option<bool>)
    ensures
        r == truth_of(j.deep_view()),
{
    match j {
        Some(Json::Bool(b)) => Some(*b),
        _ => None,
    }
}

/// The text that a field of a record may give: none where it is `null`, or where
/// an object does not name it.
pub open spec fn optional_text(j: JsonView, given: Option<JsonView>) -> Option<Option<Seq<char>>> {
    match given {
        Some(JsonView::Null) => Some(None),
        Some(JsonView::Text(s)) => Some(Some(s)),
        Some(_) => None,
        None => if j is Object {
            Some(None)
        } else {
            None
        },
    }
}

fn read_optional_text(j: &Json, given: Option<&Json>) -> (r: Option<Option<String>>)
    ensures
        r.deep_view() == optional_text(j@, given.deep_view()),
{
    match given {
        Some(Json::Null) => Some(None),
        Some(Json::Text(s)) => Some(Some(s.clone())),
        Some(_) => None,
        None => match j {
            Json::Object(_) => Some(None),
            _ => None,
        },
    }
}

/// A text that may be missing, encoded.
pub open spec fn optional_json(text: Option<Seq<char>>) -> JsonView {
    match text {
        Some(s) => JsonView::Text(s),
        None => JsonView::Null,
    }
}

/// The set of capabilities that a field lists.
pub open spec fn capabilities_of(j: Option<JsonView>) -> Option<Set<LspCapability>> {
    match decoded_list::<LspCapability>(j) {
        Some(list) => Some(list.to_set()),
        None => None,
    }
}

fn read_capabilities(j: Option<&Json>) -> (r: Option<CapabilitySet>)
    ensures
        match r {
            Some(set) => capabilities_of(j.deep_view()) == Some(set@),
            None => capabilities_of(j.deep_view()) is None,
        },
{
    match list_from_json::<LspCapability>(j) {
        Some(list) => {
            assert(list.deep_view() =~= list@);
            Some(CapabilitySet::of(list.as_slice()))
        },
        None => None,
    }
}

/// A set of capabilities, encoded: their slugs, in the order of
/// [`LspCapability::ALL`].
pub open spec fn capabilities_json(set: Set<LspCapability>) -> JsonView {
    encoded_list::<LspCapability>(capability::capability_list(set))
}

fn capabilities_to_json(set: &CapabilitySet) -> (r: Json)
    ensures
        r@ == capabilities_json(set@),
{
    let list = set.to_vec();
    assert(list.deep_view() =~= list@);
    list_to_json(&list)
}

proof fn lemma_capabilities_read_back(set: Set<LspCapability>)
    ensures
        capabilities_of(Some(capabilities_json(set))) == Some(set),
{
    let list = capability::capability_list(set);
    lemma_list_reads_back::<LspCapability>(list);
    capability::capability_list_is_the_set(set);
}

// ── Records ─────────────────────────────────────────────────────────────

/// The names of the fields of a [`FileFailure`].
pub open spec fn failure_fields() -> Seq<Seq<char>> {
    seq!["file"@, "reason"@]
}

impl Recorded for FileFailure {
    open spec fn encoded(v: FailureView) -> JsonView {
        JsonView::Object(
            map!["file"@ => JsonView::Text(v.file), "reason"@ => JsonView::Text(v.reason)],
        )
    }

    open spec fn decoded(j: JsonView) -> Option<FailureView> {
        let names = failure_fields();
        match (
            protocol::string_of(protocol::slot(j, names, 0)),
            protocol::string_of(protocol::slot(j, names, 1)),
        ) {
            (Some(file), Some(reason)) => Some(FailureView { file, reason }),
            _ => None,
        }
    }

    open spec fn depth() -> nat {
        1
    }

    fn to_json(&self) -> (r: Json) {
        let fields = with(no_fields(), "file", Json::Text(self.file.clone()));
        let fields = with(fields, "reason", Json::Text(self.reason.clone()));
        let r = Json::Object(fields);
        assert(r@->Object_0 =~= Self::encoded(self.deep_view())->Object_0);
        r
    }

    fn from_json(j: &Json) -> (r: Option<Self>) {
        let ghost names = failure_fields();
        let file = read_string(field(j, 2, 0, "file"));
        let reason = read_string(field(j, 2, 1, "reason"));
        assert(file.deep_view() == protocol::string_of(protocol::slot(j@, names, 0)));
        assert(reason.deep_view() == protocol::string_of(protocol::slot(j@, names, 1)));
        match (file, reason) {
            (Some(file), Some(reason)) => Some(FileFailure { file, reason }),
            _ => None,
        }
    }

    proof fn reads_back(v: FailureView) {
        reveal_strlit("file");
        reveal_strlit("reason");
        let j = Self::encoded(v);
        let names = failure_fields();
        assert("file"@.len() != "reason"@.len());
        assert(protocol::slot(j, names, 0) == Some(JsonView::Text(v.file)));
        assert(protocol::slot(j, names, 1) == Some(JsonView::Text(v.reason)));
    }

    proof fn is_plain(v: FailureView, depth: nat) {
        reveal_with_fuel(json::is_plain, 2);
    }
}

/// The names of the fields of a [`ProofGap`].
pub open spec fn gap_fields() -> Seq<Seq<char>> {
    seq!["language"@, "detail"@, "required"@]
}

/// The language that a field names.
pub open spec fn language_in(j: Option<JsonView>) -> Option<LanguageId> {
    match j {
        Some(j) => <LanguageId as Recorded>::decoded(j),
        None => None,
    }
}

fn read_language(j: Option<&Json>) -> (r: Option<LanguageId>)
    ensures
        r == language_in(j.deep_view()),
{
    match j {
        Some(j) => LanguageId::from_json(j),
        None => None,
    }
}

impl Recorded for ProofGap {
    open spec fn encoded(v: ProofGapView) -> JsonView {
        JsonView::Object(
            map![
                "language"@ => <LanguageId as Recorded>::encoded(v.language),
                "detail"@ => JsonView::Text(v.detail),
                "required"@ => JsonView::Bool(v.required),
            ],
        )
    }

    open spec fn decoded(j: JsonView) -> Option<ProofGapView> {
        let names = gap_fields();
        match (
            language_in(protocol::slot(j, names, 0)),
            protocol::string_of(protocol::slot(j, names, 1)),
            truth_of(protocol::slot(j, names, 2)),
        ) {
            (Some(language), Some(detail), Some(required)) => Some(
                ProofGapView { language, detail, required },
            ),
            _ => None,
        }
    }

    open spec fn depth() -> nat {
        1
    }

    fn to_json(&self) -> (r: Json) {
        let fields = with(no_fields(), "language", self.language.to_json());
        let fields = with(fields, "detail", Json::Text(self.detail.clone()));
        let fields = with(fields, "required", Json::Bool(self.required));
        let r = Json::Object(fields);
        assert(r@->Object_0 =~= Self::encoded(self.deep_view())->Object_0);
        r
    }

    fn from_json(j: &Json) -> (r: Option<Self>) {
        let ghost names = gap_fields();
        let language = read_language(field(j, 3, 0, "language"));
        let detail = read_string(field(j, 3, 1, "detail"));
        let required = read_truth(field(j, 3, 2, "required"));
        assert(language == language_in(protocol::slot(j@, names, 0)));
        assert(detail.deep_view() == protocol::string_of(protocol::slot(j@, names, 1)));
        assert(required == truth_of(protocol::slot(j@, names, 2)));
        match (language, detail, required) {
            (Some(language), Some(detail), Some(required)) => Some(
                ProofGap { language, detail, required },
            ),
            _ => None,
        }
    }

    proof fn reads_back(v: ProofGapView) {
        reveal_strlit("language");
        reveal_strlit("detail");
        reveal_strlit("required");
        let j = Self::encoded(v);
        let names = gap_fields();
        assert("language"@[0] != "required"@[0]);
        assert("language"@.len() != "detail"@.len());
        assert("required"@.len() != "detail"@.len());
        assert(protocol::slot(j, names, 0) == Some(<LanguageId as Recorded>::encoded(v.language)));
        assert(protocol::slot(j, names, 1) == Some(JsonView::Text(v.detail)));
        assert(protocol::slot(j, names, 2) == Some(JsonView::Bool(v.required)));
        <LanguageId as Recorded>::reads_back(v.language);
    }

    proof fn is_plain(v: ProofGapView, depth: nat) {
        reveal_with_fuel(json::is_plain, 2);
    }
}

/// The names of the fields of a [`LanguageEnrichment`].
pub open spec fn record_fields() -> Seq<Seq<char>> {
    seq![
        "language"@,
        "provider"@,
        "version"@,
        "probed_capabilities"@,
        "missing_capabilities"@,
        "files_attempted"@,
        "files_enriched"@,
        "files_failed"@,
        "relations_emitted"@,
        "failures"@,
    ]
}

/// No two of the fields of a [`LanguageEnrichment`] share a name.
proof fn lemma_record_fields_distinct()
    ensures
        record_fields().no_duplicates(),
{
    reveal_strlit("language");
    reveal_strlit("provider");
    reveal_strlit("version");
    reveal_strlit("probed_capabilities");
    reveal_strlit("missing_capabilities");
    reveal_strlit("files_attempted");
    reveal_strlit("files_enriched");
    reveal_strlit("files_failed");
    reveal_strlit("relations_emitted");
    reveal_strlit("failures");
    let names = record_fields();
    assert forall|i: int, j: int| 0 <= i < names.len() && 0 <= j < names.len() && i != j implies
        names[i] != names[j] by {
        if names[i] == names[j] {
            assert(names[i].len() == names[j].len());
            assert(names[i][0] == names[j][0]);
        }
    }
}

/// What a record gives for a field that an object names.
proof fn lemma_slot(j: JsonView, names: Seq<Seq<char>>, i: int)
    requires
        j is Object,
        0 <= i < names.len(),
    ensures
        protocol::slot(j, names, i) == json::member(j, names[i]),
{
}

impl Recorded for LanguageEnrichment {
    open spec fn encoded(v: EnrichmentView) -> JsonView {
        JsonView::Object(
            map![
                "language"@ => <LanguageId as Recorded>::encoded(v.language),
                "provider"@ => optional_json(v.provider),
                "version"@ => optional_json(v.version),
                "probed_capabilities"@ => capabilities_json(v.probed_capabilities),
                "missing_capabilities"@ => capabilities_json(v.missing_capabilities),
                "files_attempted"@ => JsonView::Int(v.files_attempted as int),
                "files_enriched"@ => JsonView::Int(v.files_enriched as int),
                "files_failed"@ => JsonView::Int(v.files_failed as int),
                "relations_emitted"@ => JsonView::Int(v.relations_emitted as int),
                "failures"@ => encoded_list::<FileFailure>(v.failures),
            ],
        )
    }

    open spec fn decoded(j: JsonView) -> Option<EnrichmentView> {
        let names = record_fields();
        let language = language_in(protocol::slot(j, names, 0));
        let provider = optional_text(j, protocol::slot(j, names, 1));
        let version = optional_text(j, protocol::slot(j, names, 2));
        let probed = capabilities_of(protocol::slot(j, names, 3));
        let missing = capabilities_of(protocol::slot(j, names, 4));
        let attempted = natural_of(protocol::slot(j, names, 5));
        let enriched = natural_of(protocol::slot(j, names, 6));
        let failed = natural_of(protocol::slot(j, names, 7));
        let relations = natural_of(protocol::slot(j, names, 8));
        let failures = decoded_list::<FileFailure>(protocol::slot(j, names, 9));
        if language is Some && provider is Some && version is Some && probed is Some
            && missing is Some && attempted is Some && enriched is Some && failed is Some
            && relations is Some && failures is Some {
            Some(
                EnrichmentView {
                    language: language->0,
                    provider: provider->0,
                    version: version->0,
                    probed_capabilities: probed->0,
                    missing_capabilities: missing->0,
                    files_attempted: attempted->0,
                    files_enriched: enriched->0,
                    files_failed: failed->0,
                    relations_emitted: relations->0,
                    failures: failures->0,
                },
            )
        } else {
            None
        }
    }

    open spec fn depth() -> nat {
        3
    }

    fn to_json(&self) -> (r: Json) {
        let provider = match &self.provider {
            Some(provider) => Json::Text(provider.to_string()),
            None => Json::Null,
        };
        let version = match &self.version {
            Some(version) => Json::Text(version.clone()),
            None => Json::Null,
        };
        let fields = with(no_fields(), "language", self.language.to_json());
        let fields = with(fields, "provider", provider);
        let fields = with(fields, "version", version);
        let probed = capabilities_to_json(&self.probed_capabilities);
        let fields = with(fields, "probed_capabilities", probed);
        let missing = capabilities_to_json(&self.missing_capabilities);
        let fields = with(fields, "missing_capabilities", missing);
        let fields = with(fields, "files_attempted", Json::Natural(self.files_attempted));
        let fields = with(fields, "files_enriched", Json::Natural(self.files_enriched));
        let fields = with(fields, "files_failed", Json::Natural(self.files_failed));
        let fields = with(fields, "relations_emitted", Json::Natural(self.relations_emitted));
        let fields = with(fields, "failures", list_to_json(&self.failures));
        let r = Json::Object(fields);
        assert(r@->Object_0 =~= Self::encoded(self.deep_view())->Object_0);
        r
    }

    fn from_json(j: &Json) -> (r: Option<Self>) {
        let ghost names = record_fields();
        let language = read_language(field(j, 10, 0, "language"));
        let provider = read_optional_text(j, field(j, 10, 1, "provider"));
        let version = read_optional_text(j, field(j, 10, 2, "version"));
        let probed = read_capabilities(field(j, 10, 3, "probed_capabilities"));
        let missing = read_capabilities(field(j, 10, 4, "missing_capabilities"));
        let attempted = read_natural(field(j, 10, 5, "files_attempted"));
        let enriched = read_natural(field(j, 10, 6, "files_enriched"));
        let failed = read_natural(field(j, 10, 7, "files_failed"));
        let relations = read_natural(field(j, 10, 8, "relations_emitted"));
        let failures = list_from_json::<FileFailure>(field(j, 10, 9, "failures"));
        assert(language == language_in(protocol::slot(j@, names, 0)));
        assert(provider.deep_view() == optional_text(j@, protocol::slot(j@, names, 1)));
        assert(version.deep_view() == optional_text(j@, protocol::slot(j@, names, 2)));
        assert(capabilities_of(protocol::slot(j@, names, 3)) is Some <==> probed is Some);
        assert(capabilities_of(protocol::slot(j@, names, 4)) is Some <==> missing is Some);
        assert(attempted == natural_of(protocol::slot(j@, names, 5)));
        assert(enriched == natural_of(protocol::slot(j@, names, 6)));
        assert(failed == natural_of(protocol::slot(j@, names, 7)));
        assert(relations == natural_of(protocol::slot(j@, names, 8)));
        assert(failures.deep_view() == decoded_list::<FileFailure>(protocol::slot(j@, names, 9)));
        match (language, provider, version, probed, missing) {
            (Some(language), Some(provider), Some(version), Some(probed), Some(missing)) => {
                match (attempted, enriched, failed, relations, failures) {
                    (
                        Some(attempted),
                        Some(enriched),
                        Some(failed),
                        Some(relations),
                        Some(failures),
                    ) => {
                        let provider = match provider {
                            Some(id) => Some(ProviderId::new(id.as_str())),
                            None => None,
                        };
                        Some(
                            LanguageEnrichment {
                                language,
                                provider,
                                version,
                                probed_capabilities: probed,
                                missing_capabilities: missing,
                                files_attempted: attempted,
                                files_enriched: enriched,
                                files_failed: failed,
                                relations_emitted: relations,
                                failures,
                            },
                        )
                    },
                    _ => None,
                }
            },
            _ => None,
        }
    }

    proof fn reads_back(v: EnrichmentView) {
        let j = Self::encoded(v);
        let names = record_fields();
        lemma_record_fields_distinct();
        assert forall|i: int, k: int| 0 <= i < 10 && 0 <= k < 10 && i != k implies #[trigger]
            names[i] != #[trigger] names[k] by {}
        lemma_slot(j, names, 0);
        lemma_slot(j, names, 1);
        lemma_slot(j, names, 2);
        lemma_slot(j, names, 3);
        lemma_slot(j, names, 4);
        lemma_slot(j, names, 5);
        lemma_slot(j, names, 6);
        lemma_slot(j, names, 7);
        lemma_slot(j, names, 8);
        lemma_slot(j, names, 9);
        assert(names[0] == "language"@);
        assert(names[1] == "provider"@);
        assert(names[2] == "version"@);
        assert(names[3] == "probed_capabilities"@);
        assert(names[4] == "missing_capabilities"@);
        assert(names[5] == "files_attempted"@);
        assert(names[6] == "files_enriched"@);
        assert(names[7] == "files_failed"@);
        assert(names[8] == "relations_emitted"@);
        assert(names[9] == "failures"@);
        <LanguageId as Recorded>::reads_back(v.language);
        lemma_capabilities_read_back(v.probed_capabilities);
        lemma_capabilities_read_back(v.missing_capabilities);
        lemma_list_reads_back::<FileFailure>(v.failures);
    }

    proof fn is_plain(v: EnrichmentView, depth: nat) {
        let below = (depth - 1) as nat;
        lemma_list_is_plain::<LspCapability>(
            capability::capability_list(v.probed_capabilities),
            below,
        );
        lemma_list_is_plain::<LspCapability>(
            capability::capability_list(v.missing_capabilities),
            below,
        );
        lemma_list_is_plain::<FileFailure>(v.failures, below);
        <LanguageId as Recorded>::is_plain(v.language, below);
        let fields = Self::encoded(v)->Object_0;
        reveal_with_fuel(json::is_plain, 2);
        assert forall|key: Seq<char>| fields.dom().contains(key) implies json::is_plain(
            #[trigger] fields[key],
            below,
        ) by {}
    }
}

/// The names of the fields of a [`LspEnrichmentProof`].
pub open spec fn proof_fields() -> Seq<Seq<char>> {
    seq!["mode"@, "required"@, "languages"@, "gaps"@]
}

/// The mode that a field names.
pub open spec fn mode_in(j: Option<JsonView>) -> Option<ProofMode> {
    match j {
        Some(j) => <ProofMode as Recorded>::decoded(j),
        None => None,
    }
}

fn read_mode(j: Option<&Json>) -> (r: Option<ProofMode>)
    ensures
        r == mode_in(j.deep_view()),
{
    match j {
        Some(j) => ProofMode::from_json(j),
        None => None,
    }
}

impl Recorded for LspEnrichmentProof {
    open spec fn encoded(v: ProofView) -> JsonView {
        JsonView::Object(
            map![
                "mode"@ => <ProofMode as Recorded>::encoded(v.mode),
                "required"@ => encoded_list::<LanguageId>(v.required),
                "languages"@ => encoded_list::<LanguageEnrichment>(v.languages),
                "gaps"@ => encoded_list::<ProofGap>(v.gaps),
            ],
        )
    }

    open spec fn decoded(j: JsonView) -> Option<ProofView> {
        let names = proof_fields();
        match (
            mode_in(protocol::slot(j, names, 0)),
            decoded_list::<LanguageId>(protocol::slot(j, names, 1)),
            decoded_list::<LanguageEnrichment>(protocol::slot(j, names, 2)),
            decoded_list::<ProofGap>(protocol::slot(j, names, 3)),
        ) {
            (Some(mode), Some(required), Some(languages), Some(gaps)) => Some(
                ProofView { mode, required, languages, gaps },
            ),
            _ => None,
        }
    }

    open spec fn depth() -> nat {
        5
    }

    fn to_json(&self) -> (r: Json) {
        assert(self.required.deep_view() =~= self.required@);
        let fields = with(no_fields(), "mode", self.mode.to_json());
        let fields = with(fields, "required", list_to_json(&self.required));
        let fields = with(fields, "languages", list_to_json(&self.languages));
        let fields = with(fields, "gaps", list_to_json(&self.gaps));
        let r = Json::Object(fields);
        assert(r@->Object_0 =~= Self::encoded(self.deep_view())->Object_0);
        r
    }

    fn from_json(j: &Json) -> (r: Option<Self>) {
        let ghost names = proof_fields();
        let mode = read_mode(field(j, 4, 0, "mode"));
        let required = list_from_json::<LanguageId>(field(j, 4, 1, "required"));
        let languages = list_from_json::<LanguageEnrichment>(field(j, 4, 2, "languages"));
        let gaps = list_from_json::<ProofGap>(field(j, 4, 3, "gaps"));
        assert(mode == mode_in(protocol::slot(j@, names, 0)));
        assert(required.deep_view() == decoded_list::<LanguageId>(protocol::slot(j@, names, 1)));
        assert(languages.deep_view() == decoded_list::<LanguageEnrichment>(
            protocol::slot(j@, names, 2),
        ));
        assert(gaps.deep_view() == decoded_list::<ProofGap>(protocol::slot(j@, names, 3)));
        match (mode, required, languages, gaps) {
            (Some(mode), Some(required), Some(languages), Some(gaps)) => {
                assert(required.deep_view() =~= required@);
                Some(LspEnrichmentProof { mode, required, languages, gaps })
            },
            _ => None,
        }
    }

    proof fn reads_back(v: ProofView) {
        reveal_strlit("mode");
        reveal_strlit("required");
        reveal_strlit("languages");
        reveal_strlit("gaps");
        let j = Self::encoded(v);
        let names = proof_fields();
        assert("mode"@[0] != "gaps"@[0]);
        assert("mode"@.len() == 4 && "gaps"@.len() == 4 && "required"@.len() == 8
            && "languages"@.len() == 9);
        assert(protocol::slot(j, names, 0) == Some(<ProofMode as Recorded>::encoded(v.mode)));
        assert(protocol::slot(j, names, 1) == Some(encoded_list::<LanguageId>(v.required)));
        assert(protocol::slot(j, names, 2) == Some(
            encoded_list::<LanguageEnrichment>(v.languages),
        ));
        assert(protocol::slot(j, names, 3) == Some(encoded_list::<ProofGap>(v.gaps)));
        <ProofMode as Recorded>::reads_back(v.mode);
        lemma_list_reads_back::<LanguageId>(v.required);
        lemma_list_reads_back::<LanguageEnrichment>(v.languages);
        lemma_list_reads_back::<ProofGap>(v.gaps);
    }

    proof fn is_plain(v: ProofView, depth: nat) {
        let below = (depth - 1) as nat;
        lemma_list_is_plain::<LanguageId>(v.required, below);
        lemma_list_is_plain::<LanguageEnrichment>(v.languages, below);
        lemma_list_is_plain::<ProofGap>(v.gaps, below);
        <ProofMode as Recorded>::is_plain(v.mode, below);
        let fields = Self::encoded(v)->Object_0;
        assert forall|key: Seq<char>| fields.dom().contains(key) implies json::is_plain(
            #[trigger] fields[key],
            below,
        ) by {}
    }
}

// ── Texts ───────────────────────────────────────────────────────────────

/// What is said of JSON that is no proof.
pub open spec fn not_a_proof() -> LspErrorView {
    LspErrorView::Protocol("not an enrichment proof"@)
}

/// The proof that bytes spell, or why they spell none.
pub open spec fn proof_in(bytes: Seq<u8>) -> Result<ProofView, LspErrorView> {
    match json::parsed(bytes) {
        None => Err(LspErrorView::Json(json::complaint(bytes))),
        Some(j) => match <LspEnrichmentProof as Recorded>::decoded(j) {
            Some(v) => Ok(v),
            None => Err(not_a_proof()),
        },
    }
}

/// A proof is read back from its JSON form.
pub proof fn proof_reads_back(v: ProofView)
    ensures
        <LspEnrichmentProof as Recorded>::decoded(<LspEnrichmentProof as Recorded>::encoded(v))
            == Some(v),
{
    <LspEnrichmentProof as Recorded>::reads_back(v);
}

/// The JSON text of a proof, from which it is read back.
pub fn write_proof(proof: &LspEnrichmentProof) -> (r: String)
    ensures
        r@ == json::rendered(<LspEnrichmentProof as Recorded>::encoded(proof.deep_view())),
        proof_in(vstd::utf8::encode_utf8(r@)) == Ok::<ProofView, LspErrorView>(proof.deep_view()),
{
    proof {
        <LspEnrichmentProof as Recorded>::is_plain(proof.deep_view(), 127);
        proof_reads_back(proof.deep_view());
    }
    json::render(&proof.to_json())
}

/// Read a proof from its JSON text.
pub fn read_proof(bytes: &Vec<u8>) -> (r: Result<LspEnrichmentProof, LspError>)
    ensures
        match r {
            Ok(proof) => proof_in(bytes@) == Ok::<ProofView, LspErrorView>(proof.deep_view()),
            Err(error) => proof_in(bytes@) == Err::<ProofView, LspErrorView>(error.deep_view()),
        },
{
    match json::parse(bytes) {
        Err(complaint) => Err(LspError::Json(complaint)),
        Ok(j) => match LspEnrichmentProof::from_json(&j) {
            Some(proof) => Ok(proof),
            None => Err(LspError::Protocol("not an enrichment proof".to_owned())),
        },
    }
}

} // verus!
