//! Cache for LSP enrichment results, keyed by file content hash.
//!
//! When a file hasn't changed (same content hash), we reuse the cached
//! enrichment results instead of re-querying the LSP server.

use vstd::prelude::*;

use crate::enrichment::{EnrichmentResult, EnrichmentResultView};
use crate::types::Hash256;

verus! {

#[derive(Debug)]
struct CachedEnrichment {
    content_hash: Hash256,
    _file_path: String,
    result: EnrichmentResult,
}

/// In-memory cache for LSP enrichment results.
#[derive(Debug)]
pub struct EnrichmentCache {
    /// Cached enrichments, one per content hash.
    entries: Vec<CachedEnrichment>,
}

/// What some cache entries hold, by the bytes of their content hash.
spec fn entries_map(entries: Seq<CachedEnrichment>) -> Map<Seq<u8>, EnrichmentResultView>
    decreases entries.len(),
{
    if entries.len() == 0 {
        Map::empty()
    } else {
        entries_map(entries.drop_last()).insert(
            entries.last().content_hash.0@,
            entries.last().result.deep_view(),
        )
    }
}

/// Whether no two cache entries have the same content hash.
spec fn distinct_hashes(entries: Seq<CachedEnrichment>) -> bool {
    forall|i: int, j: int|
        0 <= i < j < entries.len() ==> (#[trigger] entries[i]).content_hash.0@ != (
        #[trigger] entries[j]).content_hash.0@
}

impl View for EnrichmentCache {
    type V = Map<Seq<u8>, EnrichmentResultView>;

    closed spec fn view(&self) -> Map<Seq<u8>, EnrichmentResultView> {
        entries_map(self.entries@)
    }
}

/// The map holds exactly the entries.
proof fn lemma_entries_map(entries: Seq<CachedEnrichment>, hash: Seq<u8>)
    requires
        distinct_hashes(entries),
    ensures
        entries_map(entries).dom().finite(),
        entries_map(entries).len() == entries.len(),
        forall|i: int|
            0 <= i < entries.len() && (#[trigger] entries[i]).content_hash.0@ == hash
                ==> entries_map(entries).dom().contains(hash) && entries_map(entries)[hash]
                == entries[i].result.deep_view(),
        entries_map(entries).dom().contains(hash) ==> exists|i: int|
            0 <= i < entries.len() && (#[trigger] entries[i]).content_hash.0@ == hash,
    decreases entries.len(),
{
    if entries.len() > 0 {
        let rest = entries.drop_last();
        let last = entries.last();
        assert forall|i: int, j: int| 0 <= i < j < rest.len() implies (
        #[trigger] rest[i]).content_hash.0@ != (#[trigger] rest[j]).content_hash.0@ by {
            assert(rest[i] == entries[i] && rest[j] == entries[j]);
        }
        lemma_entries_map(rest, hash);
        lemma_entries_map(rest, last.content_hash.0@);
        assert(!entries_map(rest).dom().contains(last.content_hash.0@)) by {
            if entries_map(rest).dom().contains(last.content_hash.0@) {
                let i = choose|i: int|
                    0 <= i < rest.len() && (#[trigger] rest[i]).content_hash.0@
                        == last.content_hash.0@;
                assert(entries[i] == rest[i]);
                assert(entries[entries.len() - 1] == last);
            }
        }
        assert forall|i: int|
            0 <= i < entries.len() && (#[trigger] entries[i]).content_hash.0@
                == hash implies entries_map(entries).dom().contains(hash) && entries_map(
            entries,
        )[hash] == entries[i].result.deep_view() by {
            if i < rest.len() {
                assert(rest[i] == entries[i]);
            }
        }
        if entries_map(entries).dom().contains(hash) {
            if hash == last.content_hash.0@ {
                assert(entries[entries.len() - 1].content_hash.0@ == hash);
            } else {
                let i = choose|i: int|
                    0 <= i < rest.len() && (#[trigger] rest[i]).content_hash.0@ == hash;
                assert(entries[i] == rest[i]);
            }
        }
    }
}

impl EnrichmentCache {
    /// Whether no two entries have the same content hash.
    #[verifier::type_invariant]
    spec fn wf(self) -> bool {
        distinct_hashes(self.entries@)
    }

    pub fn new() -> (r: Self)
        ensures
            r@ == Map::<Seq<u8>, EnrichmentResultView>::empty(),
    {
        EnrichmentCache { entries: Vec::new() }
    }

    /// The position of the entry for a content hash.
    fn position(&self, content_hash: &Hash256) -> (r: Option<usize>)
        ensures
            match r {
                Some(i) => i < self.entries@.len() && self.entries@[i as int].content_hash.0@
                    == content_hash.0@,
                None => forall|i: int|
                    0 <= i < self.entries@.len() ==> (
                    #[trigger] self.entries@[i]).content_hash.0@ != content_hash.0@,
            },
    {
        let mut i: usize = 0;
        while i < self.entries.len()
            invariant
                i <= self.entries@.len(),
                forall|k: int|
                    0 <= k < i ==> (#[trigger] self.entries@[k]).content_hash.0@
                        != content_hash.0@,
            decreases self.entries@.len() - i,
        {
            if self.entries[i].content_hash.same(content_hash) {
                return Some(i);
            }
            i += 1;
        }
        None
    }

    /// Check if we have a cached result for a file with the given content hash.
    pub fn get(&self, content_hash: &Hash256) -> (r: Option<&EnrichmentResult>)
        ensures
            match r {
                Some(result) => self@.dom().contains(content_hash.0@) && self@[content_hash.0@]
                    == result.deep_view(),
                None => !self@.dom().contains(content_hash.0@),
            },
    {
        proof {
            use_type_invariant(self);
            lemma_entries_map(self.entries@, content_hash.0@);
        }
        match self.position(content_hash) {
            Some(i) => Some(&self.entries[i].result),
            None => None,
        }
    }

    /// Take the entry for a content hash out of some entries.
    fn without(entries: Vec<CachedEnrichment>, content_hash: &Hash256) -> (r: Vec<CachedEnrichment>)
        requires
            distinct_hashes(entries@),
        ensures
            distinct_hashes(r@),
            entries_map(r@) == entries_map(entries@).remove(content_hash.0@),
            forall|i: int|
                0 <= i < r@.len() ==> (#[trigger] r@[i]).content_hash.0@ != content_hash.0@,
    {
        let ghost before = entries@;
        let mut entries = entries;
        let mut i: usize = 0;
        while i < entries.len() && !entries[i].content_hash.same(content_hash)
            invariant
                i <= entries@.len(),
                entries@ == before,
                forall|k: int|
                    0 <= k < i ==> (#[trigger] before[k]).content_hash.0@ != content_hash.0@,
            decreases entries@.len() - i,
        {
            i += 1;
        }
        if i < entries.len() {
            entries.remove(i);
        }
        proof {
            let after = entries@;
            assert forall|p: int, q: int| 0 <= p < q < after.len() implies (
            #[trigger] after[p]).content_hash.0@ != (#[trigger] after[q]).content_hash.0@ by {
                let p2 = if p < i {
                    p
                } else {
                    p + 1
                };
                let q2 = if q < i {
                    q
                } else {
                    q + 1
                };
                assert(after[p] == before[p2] && after[q] == before[q2]);
            }
            assert forall|k: int| 0 <= k < after.len() implies (
            #[trigger] after[k]).content_hash.0@ != content_hash.0@ by {
                if k < i {
                    assert(after[k] == before[k]);
                } else {
                    assert(after[k] == before[k + 1]);
                    assert(before[i as int].content_hash.0@ == content_hash.0@);
                }
            }
            assert forall|hash: Seq<u8>| #[trigger]
                entries_map(after).dom().contains(hash) <==> entries_map(before).remove(
                    content_hash.0@,
                ).dom().contains(hash) by {
                lemma_entries_map(before, hash);
                lemma_entries_map(after, hash);
                if entries_map(after).dom().contains(hash) {
                    let k = choose|k: int|
                        0 <= k < after.len() && (#[trigger] after[k]).content_hash.0@ == hash;
                    let k2 = if k < i {
                        k
                    } else {
                        k + 1
                    };
                    assert(before[k2] == after[k]);
                }
                if entries_map(before).remove(content_hash.0@).dom().contains(hash) {
                    let k = choose|k: int|
                        0 <= k < before.len() && (#[trigger] before[k]).content_hash.0@ == hash;
                    let k2 = if k < i {
                        k
                    } else {
                        k - 1
                    };
                    assert(after[k2] == before[k]);
                }
            }
            assert forall|hash: Seq<u8>| #[trigger]
                entries_map(after).dom().contains(hash) implies entries_map(after)[hash]
                == entries_map(before)[hash] by {
                lemma_entries_map(before, hash);
                lemma_entries_map(after, hash);
                let k = choose|k: int|
                    0 <= k < after.len() && (#[trigger] after[k]).content_hash.0@ == hash;
                let k2 = if k < i {
                    k
                } else {
                    k + 1
                };
                assert(before[k2] == after[k]);
            }
            assert(entries_map(after) =~= entries_map(before).remove(content_hash.0@));
        }
        entries
    }

    /// Store an enrichment result for a file.
    pub fn insert(&mut self, content_hash: Hash256, file_path: &str, result: EnrichmentResult)
        ensures
            final(self)@ == old(self)@.insert(content_hash.0@, result.deep_view()),
    {
        proof {
            use_type_invariant(&*self);
        }
        let mut entries: Vec<CachedEnrichment> = Vec::new();
        std::mem::swap(&mut entries, &mut self.entries);
        let ghost before = entries@;
        let mut kept = Self::without(entries, &content_hash);
        let ghost rest = kept@;
        let ghost view = result.deep_view();
        kept.push(
            CachedEnrichment { content_hash, _file_path: file_path.to_owned(), result },
        );
        assert(kept@.drop_last() =~= rest);
        assert(entries_map(kept@) =~= entries_map(before).insert(content_hash.0@, view));
        assert forall|p: int, q: int| 0 <= p < q < kept@.len() implies (
        #[trigger] kept@[p]).content_hash.0@ != (#[trigger] kept@[q]).content_hash.0@ by {
            assert(kept@[p] == rest[p]);
            if q < rest.len() {
                assert(kept@[q] == rest[q]);
            }
        }
        self.entries = kept;
    }

    /// Invalidate the cache entry for a specific file hash.
    pub fn invalidate(&mut self, content_hash: &Hash256)
        ensures
            final(self)@ == old(self)@.remove(content_hash.0@),
    {
        proof {
            use_type_invariant(&*self);
        }
        let mut entries: Vec<CachedEnrichment> = Vec::new();
        std::mem::swap(&mut entries, &mut self.entries);
        let kept = Self::without(entries, content_hash);
        self.entries = kept;
    }

    /// Clear the entire cache.
    pub fn clear(&mut self)
        ensures
            final(self)@ == Map::<Seq<u8>, EnrichmentResultView>::empty(),
    {
        self.entries = Vec::new();
    }

    /// Number of cached entries.
    pub fn len(&self) -> (r: usize)
        ensures
            self@.dom().finite(),
            r == self@.len(),
    {
        proof {
            use_type_invariant(self);
            lemma_entries_map(self.entries@, Seq::empty());
        }
        self.entries.len()
    }

    pub fn is_empty(&self) -> (r: bool)
        ensures
            r == (self@ == Map::<Seq<u8>, EnrichmentResultView>::empty()),
    {
        proof {
            use_type_invariant(self);
            lemma_entries_map(self.entries@, Seq::empty());
            if self.entries@.len() > 0 {
                lemma_entries_map(self.entries@, self.entries@[0].content_hash.0@);
                assert(self@.dom().contains(self.entries@[0].content_hash.0@));
            }
        }
        self.entries.len() == 0
    }
}

impl Default for EnrichmentCache {
    fn default() -> (r: Self)
        ensures
            r@ == Map::<Seq<u8>, EnrichmentResultView>::empty(),
    {
        Self::new()
    }
}

/// A result that is stored is read back under its hash until that hash is
/// invalidated, and nothing else in the cache changes with it.
pub proof fn stored_result_reads_back(
    cache: Map<Seq<u8>, EnrichmentResultView>,
    hash: Seq<u8>,
    result: EnrichmentResultView,
    other: Seq<u8>,
)
    ensures
        cache.insert(hash, result).dom().contains(hash),
        cache.insert(hash, result)[hash] == result,
        !cache.insert(hash, result).remove(hash).dom().contains(hash),
        other != hash ==> (cache.insert(hash, result).dom().contains(other)
            <==> cache.dom().contains(other)),
        other != hash && cache.dom().contains(other) ==> cache.insert(hash, result)[other]
            == cache[other] && cache.remove(hash)[other] == cache[other],
{
}

} // verus!
