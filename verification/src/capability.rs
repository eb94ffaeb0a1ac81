//! The capabilities of a language server that enrichment consumes.

use vstd::prelude::*;

use crate::text::same;

verus! {

/// A capability an LSP server can provide that Kin enrichment consumes. Each
/// variant maps to a concrete LSP request the enrichment pipeline issues.
#[derive(Debug, Clone, Copy, PartialEq, Eq, Hash, PartialOrd, Ord, Structural)]
pub enum LspCapability {
    /// `textDocument/definition`.
    Definition,
    /// `textDocument/typeDefinition`.
    TypeDefinition,
    /// `textDocument/references`.
    References,
    /// `textDocument/prepareCallHierarchy` + `callHierarchy/outgoingCalls`.
    CallHierarchy,
    /// `textDocument/prepareTypeHierarchy` + `typeHierarchy/supertypes`.
    TypeHierarchy,
}

impl DeepView for LspCapability {
    type V = LspCapability;

    open spec fn deep_view(&self) -> LspCapability {
        *self
    }
}

/// The slug of a capability.
pub open spec fn capability_slug(capability: LspCapability) -> Seq<char> {
    match capability {
        LspCapability::Definition => "definition"@,
        LspCapability::TypeDefinition => "typeDefinition"@,
        LspCapability::References => "references"@,
        LspCapability::CallHierarchy => "callHierarchy"@,
        LspCapability::TypeHierarchy => "typeHierarchy"@,
    }
}

/// The LSP method a capability is exercised through.
pub open spec fn capability_method(capability: LspCapability) -> Seq<char> {
    match capability {
        LspCapability::Definition => "textDocument/definition"@,
        LspCapability::TypeDefinition => "textDocument/typeDefinition"@,
        LspCapability::References => "textDocument/references"@,
        LspCapability::CallHierarchy => "textDocument/prepareCallHierarchy"@,
        LspCapability::TypeHierarchy => "textDocument/prepareTypeHierarchy"@,
    }
}

/// No two capabilities share a slug.
pub proof fn capability_slugs_are_distinct(a: LspCapability, b: LspCapability)
    requires
        capability_slug(a) == capability_slug(b),
    ensures
        a == b,
{
    reveal_strlit("definition");
    reveal_strlit("typeDefinition");
    reveal_strlit("references");
    reveal_strlit("callHierarchy");
    reveal_strlit("typeHierarchy");
    let s = capability_slug(a);
    assert(s[0] == capability_slug(b)[0]);
    assert(s[4] == capability_slug(b)[4]);
}

impl LspCapability {
    /// Every capability Kin enrichment knows how to consume.
    pub const ALL: [LspCapability; 5] = [
        LspCapability::Definition,
        LspCapability::TypeDefinition,
        LspCapability::References,
        LspCapability::CallHierarchy,
        LspCapability::TypeHierarchy,
    ];

    /// The minimum capability floor a required language's live server must meet
    /// for a citable enrichment run: without go-to-definition and find-refs the
    /// pass produces effectively nothing, so a required server below this floor
    /// is a fail-loud gap rather than a degraded-but-acceptable run.
    pub const CITABLE_MINIMUM: [LspCapability; 2] = [
        LspCapability::Definition,
        LspCapability::References,
    ];

    /// Stable slug used in provenance encoding and proof records.
    pub fn as_slug(&self) -> (r: &'static str)
        ensures
            r@ == capability_slug(*self),
    {
        match self {
            LspCapability::Definition => "definition",
            LspCapability::TypeDefinition => "typeDefinition",
            LspCapability::References => "references",
            LspCapability::CallHierarchy => "callHierarchy",
            LspCapability::TypeHierarchy => "typeHierarchy",
        }
    }

    /// Parse a slug produced by [`LspCapability::as_slug`].
    pub fn from_slug(slug: &str) -> (r: Option<Self>)
        ensures
            r == capability_of_slug(slug@),
            match r {
                Some(capability) => capability_slug(capability) == slug@,
                None => forall|capability: LspCapability|
                    #[trigger] capability_slug(capability) != slug@,
            },
    {
        let mut i: usize = 0;
        while i < 5
            invariant
                i <= 5,
                forall|k: int|
                    0 <= k < i ==> capability_slug(#[trigger] LspCapability::ALL[k]) != slug@,
            decreases 5 - i,
        {
            let capability = LspCapability::ALL[i];
            if same(capability.as_slug(), slug) {
                proof {
                    lemma_capability_of_slug(capability);
                }
                return Some(capability);
            }
            i += 1;
        }
        proof {
            assert forall|capability: LspCapability| #[trigger]
                capability_slug(capability) != slug@ by {
                lemma_all_capabilities(capability);
            }
        }
        None
    }

    /// The primary LSP method this capability is exercised through.
    pub fn lsp_method(&self) -> (r: &'static str)
        ensures
            r@ == capability_method(*self),
    {
        match self {
            LspCapability::Definition => "textDocument/definition",
            LspCapability::TypeDefinition => "textDocument/typeDefinition",
            LspCapability::References => "textDocument/references",
            LspCapability::CallHierarchy => "textDocument/prepareCallHierarchy",
            LspCapability::TypeHierarchy => "textDocument/prepareTypeHierarchy",
        }
    }

    /// The capability as it is shown: its slug.
    pub fn to_string(&self) -> (r: String)
        ensures
            r@ == capability_slug(*self),
    {
        self.as_slug().to_owned()
    }
}

/// The capability that a slug names.
pub open spec fn capability_of_slug(slug: Seq<char>) -> Option<LspCapability> {
    if exists|c: LspCapability| #[trigger] capability_slug(c) == slug {
        Some(choose|c: LspCapability| #[trigger] capability_slug(c) == slug)
    } else {
        None
    }
}

/// Reading a capability back from its slug gives the capability.
pub proof fn lemma_capability_of_slug(capability: LspCapability)
    ensures
        capability_of_slug(capability_slug(capability)) == Some(capability),
{
    let slug = capability_slug(capability);
    let found = choose|c: LspCapability| #[trigger] capability_slug(c) == slug;
    capability_slugs_are_distinct(found, capability);
}

proof fn lemma_all_capabilities(capability: LspCapability)
    ensures
        exists|k: int| 0 <= k < 5 && #[trigger] LspCapability::ALL[k] == capability,
{
    match capability {
        LspCapability::Definition => assert(LspCapability::ALL[0] == capability),
        LspCapability::TypeDefinition => assert(LspCapability::ALL[1] == capability),
        LspCapability::References => assert(LspCapability::ALL[2] == capability),
        LspCapability::CallHierarchy => assert(LspCapability::ALL[3] == capability),
        LspCapability::TypeHierarchy => assert(LspCapability::ALL[4] == capability),
    }
}

/// A set of capabilities.
#[derive(Debug, Clone, Copy, PartialEq, Eq, Structural)]
pub struct CapabilitySet {
    definition: bool,
    type_definition: bool,
    references: bool,
    call_hierarchy: bool,
    type_hierarchy: bool,
}

impl View for CapabilitySet {
    type V = Set<LspCapability>;

    closed spec fn view(&self) -> Set<LspCapability> {
        Set::new(|c: LspCapability| self.holds(c))
    }
}

impl CapabilitySet {
    spec fn holds(&self, capability: LspCapability) -> bool {
        match capability {
            LspCapability::Definition => self.definition,
            LspCapability::TypeDefinition => self.type_definition,
            LspCapability::References => self.references,
            LspCapability::CallHierarchy => self.call_hierarchy,
            LspCapability::TypeHierarchy => self.type_hierarchy,
        }
    }

    /// The empty set.
    pub fn new() -> (r: Self)
        ensures
            r@ == Set::<LspCapability>::empty(),
    {
        let r = CapabilitySet {
            definition: false,
            type_definition: false,
            references: false,
            call_hierarchy: false,
            type_hierarchy: false,
        };
        assert(r@ =~= Set::<LspCapability>::empty());
        r
    }

    /// The capabilities of a list.
    pub fn of(list: &[LspCapability]) -> (r: Self)
        ensures
            r@ == list@.to_set(),
    {
        let mut r = Self::new();
        let mut i: usize = 0;
        while i < list.len()
            invariant
                i <= list@.len(),
                r@ == list@.take(i as int).to_set(),
            decreases list@.len() - i,
        {
            r.insert(list[i]);
            proof {
                lemma_take_set(list@, i as int);
            }
            i += 1;
        }
        assert(list@.take(i as int) =~= list@);
        r
    }

    /// Add a capability.
    pub fn insert(&mut self, capability: LspCapability)
        ensures
            final(self)@ == old(self)@.insert(capability),
    {
        match capability {
            LspCapability::Definition => self.definition = true,
            LspCapability::TypeDefinition => self.type_definition = true,
            LspCapability::References => self.references = true,
            LspCapability::CallHierarchy => self.call_hierarchy = true,
            LspCapability::TypeHierarchy => self.type_hierarchy = true,
        }
        assert(self@ =~= old(self)@.insert(capability));
    }

    /// Whether the set has a capability.
    pub fn contains(&self, capability: &LspCapability) -> (r: bool)
        ensures
            r == self@.contains(*capability),
    {
        match capability {
            LspCapability::Definition => self.definition,
            LspCapability::TypeDefinition => self.type_definition,
            LspCapability::References => self.references,
            LspCapability::CallHierarchy => self.call_hierarchy,
            LspCapability::TypeHierarchy => self.type_hierarchy,
        }
    }

    /// Whether the set has no capability.
    pub fn is_empty(&self) -> (r: bool)
        ensures
            r == (self@ == Set::<LspCapability>::empty()),
    {
        let r = !(self.definition || self.type_definition || self.references || self.call_hierarchy
            || self.type_hierarchy);
        proof {
            if r {
                assert(self@ =~= Set::<LspCapability>::empty());
            } else {
                assert(exists|c: LspCapability| self@.contains(c)) by {
                    if self.definition {
                        assert(self@.contains(LspCapability::Definition));
                    } else if self.type_definition {
                        assert(self@.contains(LspCapability::TypeDefinition));
                    } else if self.references {
                        assert(self@.contains(LspCapability::References));
                    } else if self.call_hierarchy {
                        assert(self@.contains(LspCapability::CallHierarchy));
                    } else {
                        assert(self@.contains(LspCapability::TypeHierarchy));
                    }
                }
            }
        }
        r
    }

    /// The capabilities of this set that another lacks.
    pub fn difference(&self, other: &Self) -> (r: Self)
        ensures
            r@ == self@.difference(other@),
    {
        let r = CapabilitySet {
            definition: self.definition && !other.definition,
            type_definition: self.type_definition && !other.type_definition,
            references: self.references && !other.references,
            call_hierarchy: self.call_hierarchy && !other.call_hierarchy,
            type_hierarchy: self.type_hierarchy && !other.type_hierarchy,
        };
        assert(r@ =~= self@.difference(other@));
        r
    }

    /// The capabilities of the set, in the order of [`LspCapability::ALL`].
    pub fn to_vec(&self) -> (r: Vec<LspCapability>)
        ensures
            r@ == capability_list(self@),
    {
        let mut r: Vec<LspCapability> = Vec::new();
        let mut i: usize = 0;
        while i < 5
            invariant
                i <= 5,
                r@ + capabilities_from(self@, i as int) == capability_list(self@),
            decreases 5 - i,
        {
            let capability = LspCapability::ALL[i];
            let ghost before = r@;
            if self.contains(&capability) {
                r.push(capability);
            }
            proof {
                assert(before + capabilities_from(self@, i as int) =~= r@ + capabilities_from(
                    self@,
                    i + 1,
                ));
            }
            i += 1;
        }
        assert(r@ + capabilities_from(self@, 5) =~= r@);
        r
    }
}

/// The capabilities of a set in the order of [`LspCapability::ALL`], from a
/// place in it on.
pub open spec fn capabilities_from(set: Set<LspCapability>, from: int) -> Seq<LspCapability>
    decreases 5 - from,
{
    if from < 0 || from >= 5 {
        Seq::empty()
    } else if set.contains(LspCapability::ALL[from]) {
        seq![LspCapability::ALL[from]] + capabilities_from(set, from + 1)
    } else {
        capabilities_from(set, from + 1)
    }
}

/// The capabilities of a set in the order of [`LspCapability::ALL`].
pub open spec fn capability_list(set: Set<LspCapability>) -> Seq<LspCapability> {
    capabilities_from(set, 0)
}

/// The place of a capability in [`LspCapability::ALL`].
spec fn capability_rank(capability: LspCapability) -> int {
    match capability {
        LspCapability::Definition => 0,
        LspCapability::TypeDefinition => 1,
        LspCapability::References => 2,
        LspCapability::CallHierarchy => 3,
        LspCapability::TypeHierarchy => 4,
    }
}

proof fn lemma_listed_from(set: Set<LspCapability>, from: int, c: LspCapability)
    requires
        0 <= from <= 5,
    ensures
        capabilities_from(set, from).contains(c) <==> set.contains(c) && capability_rank(c)
            >= from,
    decreases 5 - from,
{
    let list = capabilities_from(set, from);
    if from < 5 {
        lemma_listed_from(set, from + 1, c);
        let rest = capabilities_from(set, from + 1);
        let first = LspCapability::ALL[from];
        assert(capability_rank(c) == from <==> c == first);
        if set.contains(first) {
            assert(list == seq![first] + rest);
            assert(list[0] == first);
            if rest.contains(c) {
                let k = choose|k: int| 0 <= k < rest.len() && rest[k] == c;
                assert(list[k + 1] == c);
            }
            if list.contains(c) && c != first {
                let k = choose|k: int| 0 <= k < list.len() && list[k] == c;
                assert(rest[k - 1] == c);
            }
        }
    } else {
        assert(list =~= Seq::empty());
    }
}

/// The list of a set holds what the set holds.
pub proof fn capability_list_is_the_set(set: Set<LspCapability>)
    ensures
        capability_list(set).to_set() == set,
{
    let list = capability_list(set);
    assert forall|c: LspCapability| set.contains(c) implies list.contains(c) by {
        lemma_listed_from(set, 0, c);
    }
    assert forall|c: LspCapability| list.contains(c) implies set.contains(c) by {
        lemma_listed_from(set, 0, c);
    }
    assert(list.to_set() =~= set);
}

proof fn lemma_take_set<A>(s: Seq<A>, i: int)
    requires
        0 <= i < s.len(),
    ensures
        s.take(i + 1).to_set() == s.take(i).to_set().insert(s[i]),
{
    let bigger = s.take(i + 1);
    let smaller = s.take(i);
    assert forall|a: A| bigger.to_set().contains(a) implies smaller.to_set().insert(s[i]).contains(
        a,
    ) by {
        let k = choose|k: int| 0 <= k < bigger.len() && bigger[k] == a;
        if k < i {
            assert(smaller[k] == a);
        }
    }
    assert forall|a: A| smaller.to_set().insert(s[i]).contains(a) implies bigger.to_set().contains(
        a,
    ) by {
        if a == s[i] {
            assert(bigger[i] == a);
        } else {
            let k = choose|k: int| 0 <= k < smaller.len() && smaller[k] == a;
            assert(bigger[k] == a);
        }
    }
    assert(bigger.to_set() =~= smaller.to_set().insert(s[i]));
}

} // verus!
