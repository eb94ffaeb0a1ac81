//! The graph's vocabulary: languages, identifiers, relations and the evidence
//! that a relation rests on.

use std::collections::hash_map::DefaultHasher;
use std::hash::Hasher;

use vstd::prelude::*;

verus! {

/// Language identifier.
#[derive(Debug, Clone, Copy, PartialEq, Eq, Hash, Structural)]
pub enum LanguageId {
    Rust,
    Python,
    TypeScript,
    JavaScript,
    Go,
    Java,
    C,
    Cpp,
    CSharp,
    Ruby,
    Kotlin,
    Php,
    Swift,
    Hcl,
}

impl DeepView for LanguageId {
    type V = LanguageId;

    open spec fn deep_view(&self) -> LanguageId {
        *self
    }
}

/// The slug of a language: its name in lower case.
pub open spec fn language_slug(language: LanguageId) -> Seq<char> {
    match language {
        LanguageId::Rust => "rust"@,
        LanguageId::Python => "python"@,
        LanguageId::TypeScript => "typescript"@,
        LanguageId::JavaScript => "javascript"@,
        LanguageId::Go => "go"@,
        LanguageId::Java => "java"@,
        LanguageId::C => "c"@,
        LanguageId::Cpp => "cpp"@,
        LanguageId::CSharp => "csharp"@,
        LanguageId::Ruby => "ruby"@,
        LanguageId::Kotlin => "kotlin"@,
        LanguageId::Php => "php"@,
        LanguageId::Swift => "swift"@,
        LanguageId::Hcl => "hcl"@,
    }
}

impl LanguageId {
    /// The language's slug.
    pub fn as_slug(&self) -> (r: &'static str)
        ensures
            r@ == language_slug(*self),
    {
        match self {
            LanguageId::Rust => "rust",
            LanguageId::Python => "python",
            LanguageId::TypeScript => "typescript",
            LanguageId::JavaScript => "javascript",
            LanguageId::Go => "go",
            LanguageId::Java => "java",
            LanguageId::C => "c",
            LanguageId::Cpp => "cpp",
            LanguageId::CSharp => "csharp",
            LanguageId::Ruby => "ruby",
            LanguageId::Kotlin => "kotlin",
            LanguageId::Php => "php",
            LanguageId::Swift => "swift",
            LanguageId::Hcl => "hcl",
        }
    }

    /// The language as it is shown: its slug.
    pub fn to_string(&self) -> (r: String)
        ensures
            r@ == language_slug(*self),
    {
        self.as_slug().to_owned()
    }
}

/// 32-byte content hash.
#[derive(Debug, Clone, Copy, PartialEq, Eq, Hash)]
pub struct Hash256(pub [u8; 32]);

impl Hash256 {
    pub fn from_bytes(bytes: [u8; 32]) -> (r: Self)
        ensures
            r.0 == bytes,
    {
        Self(bytes)
    }

    /// Whether two hashes hold the same bytes.
    pub fn same(&self, other: &Self) -> (r: bool)
        ensures
            r == (self.0@ == other.0@),
    {
        let mut i: usize = 0;
        while i < 32
            invariant
                i <= 32,
                forall|k: int| 0 <= k < i ==> self.0@[k] == other.0@[k],
            decreases 32 - i,
        {
            if self.0[i] != other.0[i] {
                return false;
            }
            i += 1;
        }
        assert(self.0@ =~= other.0@);
        true
    }
}

/// Whether a number has the version and the variant of a random UUID: the
/// version digit is 4, and the two bits that name the variant are `10`.
pub open spec fn is_random_uuid(n: u128) -> bool {
    &&& (n >> 76) & 0xf == 4
    &&& (n >> 62) & 0x3 == 2
}

/// `uuid::Uuid::new_v4`, by the number it stands for: a random UUID, so its
/// version and variant are fixed and the other bits are up to chance.
#[verifier::external_body]
fn random_uuid() -> (r: u128)
    ensures
        is_random_uuid(r),
{
    uuid::Uuid::new_v4().as_u128()
}

/// The hexadecimal digit of a value below 16.
pub open spec fn hex_digit(d: int) -> char {
    if d < 10 {
        ((48 + d) as u32) as char
    } else {
        ((87 + d) as u32) as char
    }
}

/// The hexadecimal digit of a number at a place, counted from the highest of
/// the 32.
pub open spec fn hex_place(n: u128, place: int) -> char {
    hex_digit(((n >> ((4 * (31 - place)) as u128)) & 0xf) as int)
}

/// A UUID in its hyphenated form: groups of 8, 4, 4, 4 and 12 lower-case
/// hexadecimal digits.
pub open spec fn uuid_text(n: u128) -> Seq<char> {
    Seq::new(
        36,
        |i: int|
            if i == 8 || i == 13 || i == 18 || i == 23 {
                '-'
            } else if i < 8 {
                hex_place(n, i)
            } else if i < 13 {
                hex_place(n, i - 1)
            } else if i < 18 {
                hex_place(n, i - 2)
            } else if i < 23 {
                hex_place(n, i - 3)
            } else {
                hex_place(n, i - 4)
            },
    )
}

/// `Display` of `uuid::Uuid`: the hyphenated form in lower case.
#[verifier::external_body]
fn show_uuid(n: u128) -> (r: String)
    ensures
        r@ == uuid_text(n),
{
    uuid::Uuid::from_u128(n).to_string()
}

/// Unique entity identifier: a UUID, as a number.
#[derive(Debug, Clone, Copy, PartialEq, Eq, Hash, Structural)]
pub struct EntityId(pub u128);

impl EntityId {
    /// A fresh random identifier.
    pub fn new() -> (r: Self)
        ensures
            is_random_uuid(r.0),
    {
        Self(random_uuid())
    }

    /// The identifier as it is shown: a hyphenated UUID.
    pub fn to_string(&self) -> (r: String)
        ensures
            r@ == uuid_text(self.0),
    {
        show_uuid(self.0)
    }
}

/// Unique relation identifier: a UUID, as a number.
#[derive(Debug, Clone, Copy, PartialEq, Eq, Hash, Structural)]
pub struct RelationId(pub u128);

impl RelationId {
    /// A fresh random identifier.
    pub fn new() -> (r: Self)
        ensures
            is_random_uuid(r.0),
    {
        Self(random_uuid())
    }
}

/// Node in the graph.
#[derive(Debug, Clone, Copy, PartialEq, Eq, Hash, Structural)]
pub enum GraphNodeId {
    Entity(EntityId),
}

/// File path identifier.
#[derive(Debug, PartialEq, Eq, Hash)]
pub struct FilePathId(pub String);

impl Clone for FilePathId {
    fn clone(&self) -> (r: Self)
        ensures
            r == *self,
    {
        FilePathId(self.0.clone())
    }
}

/// Kind of relation between entities.
#[derive(Debug, Clone, Copy, PartialEq, Eq, Hash, Structural)]
pub enum RelationKind {
    Calls,
    References,
    Contains,
    Extends,
    Implements,
    Imports,
    Overrides,
    UsesType,
}

/// Origin of a relation: how it was discovered.
#[derive(Debug, Clone, Copy, PartialEq, Eq, Structural)]
pub enum RelationOrigin {
    Parsed,
    Inferred,
    Manual,
    /// A language server vouched for it.
    Lsp,
}

/// Semantic change identifier.
#[derive(Debug, Clone, Copy, PartialEq, Eq, Hash)]
pub struct SemanticChangeId(pub [u8; 32]);

/// A place in a file. Lines and columns count from zero.
#[derive(Debug, PartialEq, Eq)]
pub struct SourceSpan {
    pub file: FilePathId,
    pub start_byte: u64,
    pub end_byte: u64,
    pub start_line: u32,
    pub start_col: u32,
    pub end_line: u32,
    pub end_col: u32,
}

/// What a [`SourceSpan`] says.
pub struct SpanView {
    pub file: Seq<char>,
    pub start_byte: u64,
    pub end_byte: u64,
    pub start_line: u32,
    pub start_col: u32,
    pub end_line: u32,
    pub end_col: u32,
}

impl DeepView for SourceSpan {
    type V = SpanView;

    open spec fn deep_view(&self) -> SpanView {
        SpanView {
            file: self.file.0@,
            start_byte: self.start_byte,
            end_byte: self.end_byte,
            start_line: self.start_line,
            start_col: self.start_col,
            end_line: self.end_line,
            end_col: self.end_col,
        }
    }
}

impl Clone for SourceSpan {
    fn clone(&self) -> (r: Self)
        ensures
            r == *self,
    {
        SourceSpan { file: self.file.clone(), ..*self }
    }
}

/// What a relation rests on.
#[derive(Debug, PartialEq, Eq)]
pub struct RelationEvidence {
    pub source_span: Option<SourceSpan>,
    pub parser_rule: Option<String>,
    pub token: Option<String>,
    pub source_path: Option<String>,
    pub resolved_path: Option<String>,
    pub occurrence_count: u32,
    pub call_shape: Option<String>,
}

/// What a [`RelationEvidence`] says.
pub struct EvidenceView {
    pub source_span: Option<SpanView>,
    pub parser_rule: Option<Seq<char>>,
    pub token: Option<Seq<char>>,
    pub source_path: Option<Seq<char>>,
    pub resolved_path: Option<Seq<char>>,
    pub occurrence_count: u32,
    pub call_shape: Option<Seq<char>>,
}

impl DeepView for RelationEvidence {
    type V = EvidenceView;

    open spec fn deep_view(&self) -> EvidenceView {
        EvidenceView {
            source_span: self.source_span.deep_view(),
            parser_rule: self.parser_rule.deep_view(),
            token: self.token.deep_view(),
            source_path: self.source_path.deep_view(),
            resolved_path: self.resolved_path.deep_view(),
            occurrence_count: self.occurrence_count,
            call_shape: self.call_shape.deep_view(),
        }
    }
}

/// Evidence that says nothing.
pub open spec fn empty_evidence() -> EvidenceView {
    EvidenceView {
        source_span: None,
        parser_rule: None,
        token: None,
        source_path: None,
        resolved_path: None,
        occurrence_count: 0,
        call_shape: None,
    }
}

impl Default for RelationEvidence {
    fn default() -> (r: Self)
        ensures
            r.deep_view() == empty_evidence(),
    {
        RelationEvidence {
            source_span: None,
            parser_rule: None,
            token: None,
            source_path: None,
            resolved_path: None,
            occurrence_count: 0,
            call_shape: None,
        }
    }
}

impl Clone for RelationEvidence {
    fn clone(&self) -> (r: Self)
        ensures
            r.deep_view() == self.deep_view(),
    {
        RelationEvidence {
            source_span: self.source_span.clone(),
            parser_rule: self.parser_rule.clone(),
            token: self.token.clone(),
            source_path: self.source_path.clone(),
            resolved_path: self.resolved_path.clone(),
            occurrence_count: self.occurrence_count,
            call_shape: self.call_shape.clone(),
        }
    }
}

/// A relation between two graph nodes.
#[derive(Debug, PartialEq, Eq)]
pub struct Relation {
    pub id: RelationId,
    pub kind: RelationKind,
    pub src: GraphNodeId,
    pub dst: GraphNodeId,
    /// How sure the relation is, in hundredths.
    pub confidence: u8,
    pub origin: RelationOrigin,
    pub created_in: Option<SemanticChangeId>,
    pub import_source: Option<String>,
    pub evidence: Vec<RelationEvidence>,
}

/// What a [`Relation`] says.
pub struct RelationView {
    pub id: RelationId,
    pub kind: RelationKind,
    pub src: GraphNodeId,
    pub dst: GraphNodeId,
    pub confidence: u8,
    pub origin: RelationOrigin,
    pub created_in: Option<SemanticChangeId>,
    pub import_source: Option<Seq<char>>,
    pub evidence: Seq<EvidenceView>,
}

impl DeepView for Relation {
    type V = RelationView;

    open spec fn deep_view(&self) -> RelationView {
        RelationView {
            id: self.id,
            kind: self.kind,
            src: self.src,
            dst: self.dst,
            confidence: self.confidence,
            origin: self.origin,
            created_in: self.created_in,
            import_source: self.import_source.deep_view(),
            evidence: self.evidence.deep_view(),
        }
    }
}

// ── Relation ids ────────────────────────────────────────────────────────

/// The number that stands for a kind of relation where it is hashed.
pub open spec fn kind_number(kind: RelationKind) -> u64 {
    match kind {
        RelationKind::Calls => 0,
        RelationKind::References => 1,
        RelationKind::Contains => 2,
        RelationKind::Extends => 3,
        RelationKind::Implements => 4,
        RelationKind::Imports => 5,
        RelationKind::Overrides => 6,
        RelationKind::UsesType => 7,
    }
}

fn number_of_kind(kind: RelationKind) -> (r: u64)
    ensures
        r == kind_number(kind),
{
    match kind {
        RelationKind::Calls => 0,
        RelationKind::References => 1,
        RelationKind::Contains => 2,
        RelationKind::Extends => 3,
        RelationKind::Implements => 4,
        RelationKind::Imports => 5,
        RelationKind::Overrides => 6,
        RelationKind::UsesType => 7,
    }
}

/// What is hashed of a kind of relation.
pub open spec fn kind_writes(kind: RelationKind) -> Seq<Seq<u8>> {
    seq![vstd::bytes::spec_u64_to_le_bytes(kind_number(kind))]
}

/// What is hashed of an entity: the bytes of its id, the highest first.
pub open spec fn entity_writes(id: EntityId) -> Seq<Seq<u8>> {
    seq![vstd::bytes::spec_u128_to_le_bytes(id.0).reverse()]
}

/// `Hash` of `uuid::Uuid`, for the UUID that a number stands for: its 16 bytes, the
/// highest first, are written to the hasher in one write.
#[verifier::external_body]
fn hash_uuid(state: &mut DefaultHasher, n: u128)
    ensures
        final(state)@ == old(state)@.push(vstd::bytes::spec_u128_to_le_bytes(n).reverse()),
{
    std::hash::Hash::hash(&uuid::Uuid::from_u128(n), state);
}

/// What is hashed of the name of this crate, with the mark that ends a text.
pub open spec fn crate_writes() -> Seq<Seq<u8>> {
    seq![vstd::utf8::encode_utf8("kin-lsp"@), seq![0xffu8]]
}

/// The hash of a series of writes.
pub open spec fn hash_of(writes: Seq<Seq<u8>>) -> u64 {
    <DefaultHasher as vstd::std_specs::hash::DefaultHasherAdditionalSpecFns>::spec_finish(writes)
}

/// The id of the relation of a kind between two entities: the bytes of two
/// hashes, one after the other.
pub open spec fn relation_id(kind: RelationKind, src: EntityId, dst: EntityId) -> RelationId {
    let first = hash_of(kind_writes(kind) + entity_writes(src) + entity_writes(dst) + crate_writes());
    let second = hash_of(crate_writes() + entity_writes(dst) + entity_writes(src) + kind_writes(kind));
    let bytes = vstd::bytes::spec_u64_to_le_bytes(first) + vstd::bytes::spec_u64_to_le_bytes(second);
    RelationId(vstd::bytes::spec_u128_from_le_bytes(bytes.reverse()))
}

fn hash_kind(state: &mut DefaultHasher, kind: RelationKind)
    ensures
        final(state)@ == old(state)@ + kind_writes(kind),
{
    state.write(vstd::bytes::u64_to_le_bytes(number_of_kind(kind)).as_slice());
    assert(state@ =~= old(state)@ + kind_writes(kind));
}

/// Bytes in reverse order.
fn reversed(bytes: &Vec<u8>) -> (r: Vec<u8>)
    ensures
        r@ == bytes@.reverse(),
{
    let n: usize = bytes.len();
    let mut r: Vec<u8> = Vec::new();
    let mut i: usize = n;
    while i > 0
        invariant
            i <= n == bytes@.len(),
            r@.len() == n - i,
            forall|k: int| 0 <= k < r@.len() ==> r@[k] == bytes@[n - 1 - k],
        decreases i,
    {
        i -= 1;
        r.push(bytes[i]);
    }
    assert(r@ =~= bytes@.reverse());
    r
}

fn hash_entity(state: &mut DefaultHasher, id: EntityId)
    ensures
        final(state)@ == old(state)@ + entity_writes(id),
{
    hash_uuid(state, id.0);
    assert(state@ =~= old(state)@ + entity_writes(id));
}

fn hash_crate(state: &mut DefaultHasher)
    ensures
        final(state)@ == old(state)@ + crate_writes(),
{
    state.write("kin-lsp".as_bytes());
    let end: Vec<u8> = vec![0xffu8];
    state.write(end.as_slice());
    assert(end@ =~= seq![0xffu8]);
    assert(state@ =~= old(state)@ + crate_writes());
}

/// The id of the relation of a kind between two entities. The same edge gets the
/// same id whenever it is discovered, so discovering it again changes nothing.
pub fn deterministic_relation_id(kind: RelationKind, src: EntityId, dst: EntityId) -> (r: RelationId)
    ensures
        r == relation_id(kind, src, dst),
{
    let mut first = DefaultHasher::new();
    hash_kind(&mut first, kind);
    hash_entity(&mut first, src);
    hash_entity(&mut first, dst);
    hash_crate(&mut first);
    assert(first@ =~= kind_writes(kind) + entity_writes(src) + entity_writes(dst)
        + crate_writes());
    let mut second = DefaultHasher::new();
    hash_crate(&mut second);
    hash_entity(&mut second, dst);
    hash_entity(&mut second, src);
    hash_kind(&mut second, kind);
    assert(second@ =~= crate_writes() + entity_writes(dst) + entity_writes(src)
        + kind_writes(kind));
    let mut bytes = vstd::bytes::u64_to_le_bytes(first.finish());
    let mut rest = vstd::bytes::u64_to_le_bytes(second.finish());
    bytes.append(&mut rest);
    let turned = reversed(&bytes);
    RelationId(vstd::bytes::u128_from_le_bytes(turned.as_slice()))
}

/// Whether a series of writes begins with those that tell an edge: its kind, what it
/// leads from, and what it leads to.
pub open spec fn tells_edge(
    writes: Seq<Seq<u8>>,
    kind: RelationKind,
    src: EntityId,
    dst: EntityId,
) -> bool {
    &&& writes.len() >= 3
    &&& writes[0] == vstd::bytes::spec_u64_to_le_bytes(kind_number(kind))
    &&& writes[1] == vstd::bytes::spec_u128_to_le_bytes(src.0).reverse()
    &&& writes[2] == vstd::bytes::spec_u128_to_le_bytes(dst.0).reverse()
}

/// Different edges are hashed from different bytes, so they share an id only where the
/// hasher gives two different series of writes the same hash: the kind and both ends,
/// each in its role, go into the id.
pub proof fn edges_are_hashed_apart(
    kind: RelationKind,
    src: EntityId,
    dst: EntityId,
    other_kind: RelationKind,
    other_src: EntityId,
    other_dst: EntityId,
)
    requires
        relation_id(kind, src, dst) == relation_id(other_kind, other_src, other_dst),
        (kind, src, dst) != (other_kind, other_src, other_dst),
    ensures
        exists|a: Seq<Seq<u8>>, b: Seq<Seq<u8>>|
            {
                &&& #[trigger] tells_edge(a, kind, src, dst)
                &&& #[trigger] tells_edge(b, other_kind, other_src, other_dst)
                &&& a != b
                &&& hash_of(a) == hash_of(b)
            },
{
    vstd::bytes::lemma_auto_spec_u64_to_from_le_bytes();
    vstd::bytes::lemma_auto_spec_u128_to_from_le_bytes();
    let a = kind_writes(kind) + entity_writes(src) + entity_writes(dst) + crate_writes();
    let b = kind_writes(other_kind) + entity_writes(other_src) + entity_writes(other_dst)
        + crate_writes();
    let x = vstd::bytes::spec_u64_to_le_bytes(hash_of(a)) + vstd::bytes::spec_u64_to_le_bytes(
        hash_of(crate_writes() + entity_writes(dst) + entity_writes(src) + kind_writes(kind)),
    );
    let y = vstd::bytes::spec_u64_to_le_bytes(hash_of(b)) + vstd::bytes::spec_u64_to_le_bytes(
        hash_of(
            crate_writes() + entity_writes(other_dst) + entity_writes(other_src) + kind_writes(
                other_kind,
            ),
        ),
    );
    assert(x.reverse().len() == 16 && y.reverse().len() == 16);
    assert(vstd::bytes::spec_u128_to_le_bytes(vstd::bytes::spec_u128_from_le_bytes(x.reverse()))
        == x.reverse());
    assert(vstd::bytes::spec_u128_to_le_bytes(vstd::bytes::spec_u128_from_le_bytes(y.reverse()))
        == y.reverse());
    assert(x =~= x.reverse().reverse());
    assert(y =~= y.reverse().reverse());
    assert(x.take(8) =~= vstd::bytes::spec_u64_to_le_bytes(hash_of(a)));
    assert(y.take(8) =~= vstd::bytes::spec_u64_to_le_bytes(hash_of(b)));
    assert(hash_of(a) == hash_of(b));
    assert(tells_edge(a, kind, src, dst));
    assert(tells_edge(b, other_kind, other_src, other_dst));
    if a == b {
        assert(kind_number(kind) == kind_number(other_kind));
        let p = vstd::bytes::spec_u128_to_le_bytes(src.0);
        let q = vstd::bytes::spec_u128_to_le_bytes(other_src.0);
        assert(p =~= p.reverse().reverse());
        assert(q =~= q.reverse().reverse());
        let r = vstd::bytes::spec_u128_to_le_bytes(dst.0);
        let s = vstd::bytes::spec_u128_to_le_bytes(other_dst.0);
        assert(r =~= r.reverse().reverse());
        assert(s =~= s.reverse().reverse());
        assert(a[0] == b[0] && a[1] == b[1] && a[2] == b[2]);
    }
}

} // verus!
