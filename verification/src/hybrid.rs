//! The decisions of hybrid (lexical + semantic) search: retrieving the
//! candidates of both legs, merging them by passage, and deciding whether
//! and on what the re-ranker runs.
//!
//! Scores cross the port as the bit patterns of their `f64` values
//! (`f64::to_bits`); fusing and ordering by score is floating-point work
//! done by the caller between the retrieval and the re-ranking steps.
use vstd::prelude::*;
use crate::collection::CollectionName;
use crate::embedding::{Embedding, EmbeddingModel};
use crate::errors::{HybridError, HybridSearchStoreError, RerankError};
use crate::fusion::{free_text_to_fts5, fts5_query, PassageKey};
use crate::passage::PassageKind;
use crate::ports::{opt_model, opt_reranker, EmbeddingGenerator, Reranker, SearchScope};
use crate::search::scope_key;
use crate::reranking::RerankerModel;
use crate::text::{trim, trimmed};

verus! {

/// Where a passage sits in its file: its byte offset and length, and its
/// one-based line range.
#[derive(Clone, Copy, Debug, PartialEq, Eq, Structural)]
pub struct Position {
    byte_offset: usize,
    byte_length: usize,
    line_start: usize,
    line_end: usize,
}

impl View for Position {
    /// The byte offset and length, and the first and last line.
    type V = (usize, usize, usize, usize);

    closed spec fn view(&self) -> (usize, usize, usize, usize) {
        (self.byte_offset, self.byte_length, self.line_start, self.line_end)
    }
}

impl Position {
    /// Creates a position from its byte offset and length and its line
    /// range.
    pub fn new(byte_offset: usize, byte_length: usize, line_start: usize, line_end: usize) -> (p:
        Position)
        ensures
            p@ == (byte_offset, byte_length, line_start, line_end),
    {
        Position { byte_offset, byte_length, line_start, line_end }
    }

    /// Returns the byte offset at which the passage starts.
    pub fn byte_offset(self) -> (n: usize)
        ensures
            n == self@.0,
    {
        self.byte_offset
    }

    /// Returns the passage's length in bytes.
    pub fn byte_length(self) -> (n: usize)
        ensures
            n == self@.1,
    {
        self.byte_length
    }

    /// Returns the first line of the passage.
    pub fn line_start(self) -> (n: usize)
        ensures
            n == self@.2,
    {
        self.line_start
    }

    /// Returns the last line of the passage.
    pub fn line_end(self) -> (n: usize)
        ensures
            n == self@.3,
    {
        self.line_end
    }
}

/// One candidate passage retrieved by a hybrid search leg.
#[derive(Clone, Debug)]
pub struct HybridCandidate {
    key: PassageKey,
    collection: CollectionName,
    path: String,
    kind: PassageKind,
    text: String,
    score: u64,
    position: Position,
}

impl View for HybridCandidate {
    /// The fusion key, the collection, the file path, the passage kind, the
    /// text, the score's bit pattern and the position.
    type V = (PassageKey, (Seq<char>, Seq<char>), Seq<char>, PassageKind, Seq<char>, u64, Position);

    closed spec fn view(&self) -> (
        PassageKey,
        (Seq<char>, Seq<char>),
        Seq<char>,
        PassageKind,
        Seq<char>,
        u64,
        Position,
    ) {
        (self.key, self.collection@, self.path@, self.kind, self.text@, self.score, self.position)
    }
}

impl HybridCandidate {
    /// Creates a candidate from its logical identity, provenance, score (the
    /// bit pattern of the per-leg score) and position.
    pub fn new(
        key: PassageKey,
        collection: CollectionName,
        path: String,
        kind: PassageKind,
        text: String,
        score: u64,
        position: Position,
    ) -> (c: HybridCandidate)
        ensures
            c@ == (key, collection@, path@, kind, text@, score, position),
    {
        HybridCandidate { key, collection, path, kind, text, score, position }
    }

    /// Returns the passage's logical fusion key.
    pub fn key(&self) -> (k: PassageKey)
        ensures
            k == self@.0,
    {
        self.key
    }

    /// Returns the collection the passage belongs to.
    pub fn collection(&self) -> (c: &CollectionName)
        ensures
            c@ == self@.1,
    {
        &self.collection
    }

    /// Returns the file path of the passage.
    pub fn path(&self) -> (p: &str)
        ensures
            p@ == self@.2,
    {
        self.path.as_str()
    }

    /// Returns the passage kind.
    pub fn kind(&self) -> (k: PassageKind)
        ensures
            k == self@.3,
    {
        self.kind
    }

    /// Returns the passage text.
    pub fn text(&self) -> (t: &str)
        ensures
            t@ == self@.4,
    {
        self.text.as_str()
    }

    /// Returns the bit pattern of the per-leg score (negated BM25 or cosine
    /// similarity, higher is better).
    pub fn score(&self) -> (s: u64)
        ensures
            s == self@.5,
    {
        self.score
    }

    /// Returns the passage's position in its file.
    pub fn position(&self) -> (p: Position)
        ensures
            p == self@.6,
    {
        self.position
    }

    /// A copy of this candidate.
    pub fn duplicate(&self) -> (c: HybridCandidate)
        ensures
            c == *self,
    {
        HybridCandidate {
            key: self.key,
            collection: self.collection.duplicate(),
            path: self.path.clone(),
            kind: self.kind,
            text: self.text.clone(),
            score: self.score,
            position: self.position,
        }
    }
}

/// The oversampled lexical and semantic candidate lists of one hybrid
/// search, each in the ranked order its leg produced.
#[derive(Clone, Debug)]
pub struct HybridCandidates {
    lexical: Vec<HybridCandidate>,
    semantic: Vec<HybridCandidate>,
}

impl HybridCandidates {
    /// The ranked lexical candidates.
    pub closed spec fn lexical_seq(&self) -> Seq<HybridCandidate> {
        self.lexical@
    }

    /// The ranked semantic candidates.
    pub closed spec fn semantic_seq(&self) -> Seq<HybridCandidate> {
        self.semantic@
    }

    /// Creates a candidate set from its two ranked lists.
    pub fn new(lexical: Vec<HybridCandidate>, semantic: Vec<HybridCandidate>) -> (c:
        HybridCandidates)
        ensures
            c.lexical_seq() == lexical@,
            c.semantic_seq() == semantic@,
    {
        HybridCandidates { lexical, semantic }
    }

    /// Returns the ranked lexical candidates.
    pub fn lexical(&self) -> (s: &[HybridCandidate])
        ensures
            s@ == self.lexical_seq(),
    {
        self.lexical.as_slice()
    }

    /// Returns the ranked semantic candidates.
    pub fn semantic(&self) -> (s: &[HybridCandidate])
        ensures
            s@ == self.semantic_seq(),
    {
        self.semantic.as_slice()
    }
}

/// Retrieves hybrid search candidates and the models they depend on.
pub trait HybridSearchStore {
    /// What reading the recorded global embedding model answers. Each store
    /// describes its own state; nothing is assumed of one that does not.
    closed spec fn recorded_model(&self) -> Result<Option<Seq<char>>, HybridSearchStoreError> {
        arbitrary()
    }

    /// What asking for `pool` candidates per leg answers, for the FTS5
    /// expression `fts5`, the query vector `embedding` (the semantic leg is
    /// skipped without one) and the collection `scope` names (every
    /// collection when it names none).
    closed spec fn pool_answer(
        &self,
        fts5: Seq<char>,
        embedding: Option<Seq<u32>>,
        scope: Option<(Seq<char>, Seq<char>)>,
        pool: usize,
    ) -> Result<HybridCandidates, HybridSearchStoreError> {
        arbitrary()
    }

    /// Returns the recorded global embedding model, if any.
    fn global_model(&self) -> (r: Result<Option<EmbeddingModel>, HybridSearchStoreError>)
        ensures
            match r {
                Ok(m) => self.recorded_model() == Ok::<Option<Seq<char>>, HybridSearchStoreError>(
                    opt_model(m),
                ),
                Err(e) => self.recorded_model() == Err::<Option<Seq<char>>, HybridSearchStoreError>(e),
            },
    ;

    /// What reading the recorded global re-ranker model answers. Each store
    /// describes its own state; nothing is assumed of one that does not.
    closed spec fn recorded_reranker(&self) -> Result<Option<Seq<char>>, HybridSearchStoreError> {
        arbitrary()
    }

    /// Returns the recorded global re-ranker model, if any.
    fn reranker_model(&self) -> (r: Result<Option<RerankerModel>, HybridSearchStoreError>)
        ensures
            match r {
                Ok(m) => self.recorded_reranker() == Ok::<Option<Seq<char>>, HybridSearchStoreError>(
                    opt_reranker(m),
                ),
                Err(e) => self.recorded_reranker() == Err::<Option<Seq<char>>, HybridSearchStoreError>(
                    e,
                ),
            },
    ;

    /// Retrieves up to `pool` ranked lexical and semantic candidates within
    /// `scope`. The lexical leg runs the `fts5_query` match; the semantic
    /// leg runs against the stored vectors with `query_embedding`, and is
    /// skipped when that is `None`. For `SearchScope::All`, collections
    /// without a built lexical index are skipped; for
    /// `SearchScope::Collection`, an unknown collection or one without a
    /// built index is an error. A stale in-scope semantic index fails the
    /// call.
    fn candidates(
        &self,
        fts5_query: &str,
        query_embedding: Option<&Embedding>,
        scope: SearchScope<'_>,
        pool: usize,
    ) -> (r: Result<HybridCandidates, HybridSearchStoreError>)
        ensures
            r == self.pool_answer(fts5_query@, opt_vector(query_embedding), scope_key(scope), pool),
    ;
}

/// The view of an optional borrowed embedding.
pub open spec fn opt_vector(e: Option<&Embedding>) -> Option<Seq<u32>> {
    match e {
        Some(v) => Some(v@),
        None => None,
    }
}

/// The query vector the semantic leg runs with: none without a recorded
/// model, else the first vector the generator answers for the query under
/// that model (none when it answers none), or the generator's failure.
pub open spec fn query_vector<G: EmbeddingGenerator>(gen: G, model: Option<Seq<char>>, query: Seq<char>) -> Result<
    Option<Seq<u32>>,
    crate::errors::EmbeddingError,
> {
    match model {
        None => Ok(None),
        Some(m) => match gen.embeddings(m, seq![query]) {
            Ok(vs) => if vs.len() > 0 {
                Ok(Some(vs[0]))
            } else {
                Ok(None)
            },
            Err(e) => Err(e),
        },
    }
}

/// The lexical and semantic candidate of one passage.
#[derive(Clone, Debug)]
pub struct MergedCandidate {
    /// The passage's fusion key.
    pub key: PassageKey,
    /// The passage's lexical candidate, if the lexical leg retrieved it.
    pub lexical: Option<HybridCandidate>,
    /// The passage's semantic candidate, if the semantic leg retrieved it.
    pub semantic: Option<HybridCandidate>,
}

/// The last candidate of `cs` with key `k`: the one a merge by key keeps.
pub open spec fn last_with_key(cs: Seq<HybridCandidate>, k: PassageKey) -> Option<HybridCandidate>
    decreases cs.len(),
{
    if cs.len() == 0 {
        None
    } else if cs.last()@.0 == k {
        Some(cs.last())
    } else {
        last_with_key(cs.drop_last(), k)
    }
}

/// Whether some entry of `merged` has key `k`.
pub open spec fn has_entry(merged: Seq<MergedCandidate>, k: PassageKey) -> bool {
    exists|j: int| 0 <= j < merged.len() && (#[trigger] merged[j]).key == k
}

/// Whether `merged` is the merge of the two ranked lists by passage key: one
/// entry per key that either list holds, carrying the last candidate of each
/// list with that key.
pub open spec fn merged_by_key(
    merged: Seq<MergedCandidate>,
    lexical: Seq<HybridCandidate>,
    semantic: Seq<HybridCandidate>,
) -> bool {
    &&& forall|i: int, j: int| 0 <= i < j < merged.len() ==> (#[trigger] merged[i]).key != (#[trigger] merged[j]).key
    &&& forall|i: int|
        0 <= i < merged.len() ==> (#[trigger] merged[i]).lexical == last_with_key(lexical, merged[i].key)
            && merged[i].semantic == last_with_key(semantic, merged[i].key)
            && (merged[i].lexical is Some || merged[i].semantic is Some)
    &&& forall|p: int| 0 <= p < lexical.len() ==> has_entry(merged, (#[trigger] lexical[p])@.0)
    &&& forall|p: int| 0 <= p < semantic.len() ==> has_entry(merged, (#[trigger] semantic[p])@.0)
}

/// Pushing a candidate makes it the last with its key.
proof fn lemma_last_with_key_push(s: Seq<HybridCandidate>, c: HybridCandidate, k: PassageKey)
    ensures
        last_with_key(s.push(c), k) == if c@.0 == k {
            Some(c)
        } else {
            last_with_key(s, k)
        },
{
    assert(s.push(c).drop_last() =~= s);
}

/// A list with no candidate of key `k` has no last candidate with it, and a
/// last candidate with key `k` has key `k`.
proof fn lemma_last_with_key_shape(s: Seq<HybridCandidate>, k: PassageKey)
    ensures
        (forall|p: int| 0 <= p < s.len() ==> (#[trigger] s[p])@.0 != k) ==> last_with_key(s, k) is None,
        last_with_key(s, k) matches Some(c) ==> c@.0 == k,
    decreases s.len(),
{
    if s.len() > 0 {
        lemma_last_with_key_shape(s.drop_last(), k);
        if forall|p: int| 0 <= p < s.len() ==> (#[trigger] s[p])@.0 != k {
            assert forall|p: int| 0 <= p < s.drop_last().len() implies (#[trigger] s.drop_last()[p])@.0 != k by {
                assert(s.drop_last()[p] == s[p]);
            }
            assert(s[s.len() - 1] == s.last());
        }
    }
}

/// A copy of an optional candidate.
fn copy_candidate(o: &Option<HybridCandidate>) -> (r: Option<HybridCandidate>)
    ensures
        r == *o,
{
    match o {
        Some(c) => Some(c.duplicate()),
        None => None,
    }
}

/// The first entry of `merged` with key `k`, if any.
pub open spec fn entry_for(merged: Seq<MergedCandidate>, k: PassageKey) -> Option<MergedCandidate>
    decreases merged.len(),
{
    if merged.len() == 0 {
        None
    } else if merged[0].key == k {
        Some(merged[0])
    } else {
        entry_for(merged.drop_first(), k)
    }
}

/// The index of the first entry with key `k`, if any.
fn entry_index(merged: &[MergedCandidate], k: PassageKey) -> (r: Option<usize>)
    ensures
        r matches Some(j) ==> j < merged@.len() && merged@[j as int].key == k && entry_for(merged@, k)
            == Some(merged@[j as int]),
        r is None ==> !has_entry(merged@, k) && entry_for(merged@, k) is None,
{
    let mut j: usize = 0;
    assert(merged@.skip(0) =~= merged@);
    while j < merged.len()
        invariant
            0 <= j <= merged@.len(),
            forall|q: int| 0 <= q < j ==> (#[trigger] merged@[q]).key != k,
            entry_for(merged@, k) == entry_for(merged@.skip(j as int), k),
        decreases merged@.len() - j,
    {
        assert(merged@.skip(j as int)[0] == merged@[j as int]);
        assert(merged@.skip(j as int).drop_first() =~= merged@.skip(j + 1));
        if merged[j].key == k {
            return Some(j);
        }
        j = j + 1;
    }
    None
}

/// Merges the two candidate lists by passage key: one entry per passage
/// that either leg retrieved, holding that passage's candidate from each leg
/// (the last one when a leg lists a passage twice).
pub fn merge_candidates(candidates: &HybridCandidates) -> (merged: Vec<MergedCandidate>)
    ensures
        merged_by_key(merged@, candidates.lexical_seq(), candidates.semantic_seq()),
{
    let lex = candidates.lexical();
    let sem = candidates.semantic();
    let mut merged: Vec<MergedCandidate> = Vec::new();
    let mut i: usize = 0;
    while i < lex.len()
        invariant
            0 <= i <= lex@.len(),
            forall|a: int, b: int| 0 <= a < b < merged@.len() ==> (#[trigger] merged@[a]).key != (#[trigger] merged@[b]).key,
            forall|a: int|
                0 <= a < merged@.len() ==> (#[trigger] merged@[a]).lexical == last_with_key(lex@.take(i as int), merged@[a].key)
                    && merged@[a].semantic is None && merged@[a].lexical is Some,
            forall|p: int| 0 <= p < i ==> has_entry(merged@, (#[trigger] lex@[p])@.0),
        decreases lex@.len() - i,
    {
        let c = &lex[i];
        let k = c.key();
        let ghost before = merged@;
        proof {
            assert(lex@.take(i + 1) =~= lex@.take(i as int).push(*c));
            assert forall|kk: PassageKey| true implies last_with_key(lex@.take(i + 1), kk) == if c@.0 == kk {
                Some(*c)
            } else {
                last_with_key(lex@.take(i as int), kk)
            } by {
                lemma_last_with_key_push(lex@.take(i as int), *c, kk);
            }
        }
        match entry_index(merged.as_slice(), k) {
            Some(j) => {
                let entry = MergedCandidate {
                    key: merged[j].key,
                    lexical: Some(c.duplicate()),
                    semantic: copy_candidate(&merged[j].semantic),
                };
                merged.set(j, entry);
                proof {
                    assert forall|p: int| 0 <= p < i + 1 implies has_entry(merged@, (#[trigger] lex@[p])@.0) by {
                        if p < i {
                            let q = choose|q: int| 0 <= q < before.len() && (#[trigger] before[q]).key == lex@[p]@.0;
                            assert(merged@[q].key == before[q].key);
                        } else {
                            assert(merged@[j as int].key == k);
                        }
                    }
                }
            },
            None => {
                let entry = MergedCandidate { key: k, lexical: Some(c.duplicate()), semantic: None };
                merged.push(entry);
                proof {
                    assert forall|p: int| 0 <= p < i + 1 implies has_entry(merged@, (#[trigger] lex@[p])@.0) by {
                        if p < i {
                            let q = choose|q: int| 0 <= q < before.len() && (#[trigger] before[q]).key == lex@[p]@.0;
                            assert(merged@[q] == before[q]);
                        } else {
                            assert(merged@[before.len() as int].key == k);
                        }
                    }
                }
            },
        }
        i = i + 1;
    }
    assert(lex@.take(lex@.len() as int) =~= lex@);
    let mut i: usize = 0;
    while i < sem.len()
        invariant
            0 <= i <= sem@.len(),
            lex@ == candidates.lexical_seq(),
            forall|a: int, b: int| 0 <= a < b < merged@.len() ==> (#[trigger] merged@[a]).key != (#[trigger] merged@[b]).key,
            forall|a: int|
                0 <= a < merged@.len() ==> (#[trigger] merged@[a]).lexical == last_with_key(lex@, merged@[a].key)
                    && merged@[a].semantic == last_with_key(sem@.take(i as int), merged@[a].key)
                    && (merged@[a].lexical is Some || merged@[a].semantic is Some),
            forall|p: int| 0 <= p < lex@.len() ==> has_entry(merged@, (#[trigger] lex@[p])@.0),
            forall|p: int| 0 <= p < i ==> has_entry(merged@, (#[trigger] sem@[p])@.0),
        decreases sem@.len() - i,
    {
        let c = &sem[i];
        let k = c.key();
        let ghost before = merged@;
        proof {
            assert(sem@.take(i + 1) =~= sem@.take(i as int).push(*c));
            assert forall|kk: PassageKey| true implies last_with_key(sem@.take(i + 1), kk) == if c@.0 == kk {
                Some(*c)
            } else {
                last_with_key(sem@.take(i as int), kk)
            } by {
                lemma_last_with_key_push(sem@.take(i as int), *c, kk);
            }
        }
        match entry_index(merged.as_slice(), k) {
            Some(j) => {
                let entry = MergedCandidate {
                    key: merged[j].key,
                    lexical: copy_candidate(&merged[j].lexical),
                    semantic: Some(c.duplicate()),
                };
                merged.set(j, entry);
                proof {
                    assert forall|p: int| 0 <= p < lex@.len() implies has_entry(merged@, (#[trigger] lex@[p])@.0) by {
                        let q = choose|q: int| 0 <= q < before.len() && (#[trigger] before[q]).key == lex@[p]@.0;
                        assert(merged@[q].key == before[q].key);
                    }
                    assert forall|p: int| 0 <= p < i + 1 implies has_entry(merged@, (#[trigger] sem@[p])@.0) by {
                        if p < i {
                            let q = choose|q: int| 0 <= q < before.len() && (#[trigger] before[q]).key == sem@[p]@.0;
                            assert(merged@[q].key == before[q].key);
                        } else {
                            assert(merged@[j as int].key == k);
                        }
                    }
                }
            },
            None => {
                proof {
                    assert forall|p: int| 0 <= p < lex@.len() implies (#[trigger] lex@[p])@.0 != k by {
                        if lex@[p]@.0 == k {
                            assert(has_entry(before, lex@[p]@.0));
                        }
                    }
                    lemma_last_with_key_shape(lex@, k);
                }
                let entry = MergedCandidate { key: k, lexical: None, semantic: Some(c.duplicate()) };
                merged.push(entry);
                proof {
                    assert forall|p: int| 0 <= p < lex@.len() implies has_entry(merged@, (#[trigger] lex@[p])@.0) by {
                        let q = choose|q: int| 0 <= q < before.len() && (#[trigger] before[q]).key == lex@[p]@.0;
                        assert(merged@[q] == before[q]);
                    }
                    assert forall|p: int| 0 <= p < i + 1 implies has_entry(merged@, (#[trigger] sem@[p])@.0) by {
                        if p < i {
                            let q = choose|q: int| 0 <= q < before.len() && (#[trigger] before[q]).key == sem@[p]@.0;
                            assert(merged@[q] == before[q]);
                        } else {
                            assert(merged@[before.len() as int].key == k);
                        }
                    }
                }
            },
        }
        i = i + 1;
    }
    assert(sem@.take(sem@.len() as int) =~= sem@);
    merged
}

/// The candidate that stands for an entry: its lexical one, else its
/// semantic one.
pub open spec fn representative(e: MergedCandidate) -> Option<HybridCandidate> {
    match e.lexical {
        Some(c) => Some(c),
        None => e.semantic,
    }
}

/// The texts the re-ranker scores: for each fused key in order, the text of
/// the candidate that stands for its entry; a key without one is skipped.
pub open spec fn rerank_texts(merged: Seq<MergedCandidate>, fused: Seq<PassageKey>) -> Seq<
    Seq<char>,
>
    decreases fused.len(),
{
    if fused.len() == 0 {
        Seq::empty()
    } else {
        let rest = rerank_texts(merged, fused.drop_last());
        match entry_for(merged, fused.last()) {
            Some(e) => match representative(e) {
                Some(c) => rest.push(c@.4),
                None => rest,
            },
            None => rest,
        }
    }
}

/// Collects the texts the re-ranker scores, in fused order.
pub fn rerank_documents<'a>(merged: &'a [MergedCandidate], fused: &[PassageKey]) -> (docs: Vec<
    &'a str,
>)
    ensures
        docs@.map_values(|d: &str| d@) == rerank_texts(merged@, fused@),
{
    let mut docs: Vec<&'a str> = Vec::new();
    let mut i: usize = 0;
    assert(fused@.take(0) =~= Seq::<PassageKey>::empty());
    while i < fused.len()
        invariant
            0 <= i <= fused@.len(),
            docs@.map_values(|d: &str| d@) == rerank_texts(merged@, fused@.take(i as int)),
        decreases fused@.len() - i,
    {
        let ghost before = docs@;
        proof {
            assert(fused@.take(i + 1).drop_last() =~= fused@.take(i as int));
            assert(fused@.take(i + 1).last() == fused@[i as int]);
        }
        match entry_index(merged, fused[i]) {
            Some(j) => {
                match &merged[j].lexical {
                    Some(c) => {
                        docs.push(c.text());
                        assert(docs@.map_values(|d: &str| d@) =~= before.map_values(|d: &str| d@).push(c@.4));
                    },
                    None => match &merged[j].semantic {
                        Some(c) => {
                            docs.push(c.text());
                            assert(docs@.map_values(|d: &str| d@) =~= before.map_values(|d: &str| d@).push(c@.4));
                        },
                        None => {},
                    },
                }
            },
            None => {},
        }
        i = i + 1;
    }
    assert(fused@.take(fused@.len() as int) =~= fused@);
    docs
}

/// An entry with key `k` is found by `entry_for`, and the entry found is one
/// of `merged` with that key.
proof fn lemma_entry_for_found(merged: Seq<MergedCandidate>, k: PassageKey)
    requires
        has_entry(merged, k),
    ensures
        entry_for(merged, k) matches Some(e) && e.key == k && exists|j: int|
            0 <= j < merged.len() && merged[j] == e,
    decreases merged.len(),
{
    if merged[0].key != k {
        let j = choose|j: int| 0 <= j < merged.len() && (#[trigger] merged[j]).key == k;
        assert(merged.drop_first()[j - 1] == merged[j]);
        assert(has_entry(merged.drop_first(), k));
        lemma_entry_for_found(merged.drop_first(), k);
        let e = entry_for(merged, k)->0;
        let i = choose|i: int| 0 <= i < merged.drop_first().len() && merged.drop_first()[i] == e;
        assert(merged[i + 1] == e);
    } else {
        assert(merged[0] == merged[0]);
    }
}

/// Whether either leg retrieved a candidate with key `k`.
pub open spec fn retrieved(lexical: Seq<HybridCandidate>, semantic: Seq<HybridCandidate>, k: PassageKey) -> bool {
    (exists|p: int| 0 <= p < lexical.len() && (#[trigger] lexical[p])@.0 == k) || (exists|p: int|
        0 <= p < semantic.len() && (#[trigger] semantic[p])@.0 == k)
}

/// When every fused key was retrieved by one of the legs that were merged,
/// the re-ranker is handed exactly one text per fused key, so the scores it
/// returns line up with the fused ranks.
pub proof fn lemma_rerank_texts_align(
    merged: Seq<MergedCandidate>,
    lexical: Seq<HybridCandidate>,
    semantic: Seq<HybridCandidate>,
    fused: Seq<PassageKey>,
)
    requires
        merged_by_key(merged, lexical, semantic),
        forall|i: int| 0 <= i < fused.len() ==> retrieved(lexical, semantic, #[trigger] fused[i]),
    ensures
        rerank_texts(merged, fused).len() == fused.len(),
    decreases fused.len(),
{
    if fused.len() > 0 {
        let shorter = fused.drop_last();
        assert forall|i: int| 0 <= i < shorter.len() implies retrieved(lexical, semantic, #[trigger] shorter[i]) by {
            assert(shorter[i] == fused[i]);
        }
        lemma_rerank_texts_align(merged, lexical, semantic, shorter);
        let k = fused.last();
        assert(fused[fused.len() - 1] == k);
        if exists|p: int| 0 <= p < lexical.len() && (#[trigger] lexical[p])@.0 == k {
            let p = choose|p: int| 0 <= p < lexical.len() && (#[trigger] lexical[p])@.0 == k;
            assert(has_entry(merged, lexical[p]@.0));
        } else {
            let p = choose|p: int| 0 <= p < semantic.len() && (#[trigger] semantic[p])@.0 == k;
            assert(has_entry(merged, semantic[p]@.0));
        }
        lemma_entry_for_found(merged, k);
        let e = entry_for(merged, k)->0;
        let j = choose|j: int| 0 <= j < merged.len() && merged[j] == e;
        assert(merged[j].lexical is Some || merged[j].semantic is Some);
    }
}

/// How many candidates each leg is asked for: three times the limit,
/// saturating at the largest `usize`.
pub open spec fn pool_of(limit: usize) -> usize {
    if limit * 3 <= usize::MAX {
        (limit * 3) as usize
    } else {
        usize::MAX
    }
}

/// How many candidates each leg is asked for: three times the limit,
/// saturating at the largest `usize`.
pub fn pool_size(limit: usize) -> (p: usize)
    ensures
        p == pool_of(limit),
{
    match limit.checked_mul(3) {
        Some(p) => p,
        None => usize::MAX,
    }
}

/// Searches the hybrid (lexical + semantic) index with optional re-ranking.
pub struct HybridSearch<G, S, R> {
    generator: G,
    store: S,
    reranker: R,
}

impl<G: EmbeddingGenerator, S: HybridSearchStore, R: Reranker> HybridSearch<G, S, R> {
    /// The embedding generator port.
    pub closed spec fn generator_port(&self) -> G {
        self.generator
    }

    /// The store port.
    pub closed spec fn store_port(&self) -> S {
        self.store
    }

    /// The re-ranker port.
    pub closed spec fn reranker_port(&self) -> R {
        self.reranker
    }

    /// Creates a hybrid-search use case with its generator, store, and
    /// re-ranker ports.
    pub fn new(generator: G, store: S, reranker: R) -> (u: HybridSearch<G, S, R>)
        ensures
            u.generator_port() == generator,
            u.store_port() == store,
            u.reranker_port() == reranker,
    {
        HybridSearch { generator, store, reranker }
    }

    /// Retrieves the candidates of both legs for `query` within `scope`: the
    /// lexical leg matches the query's quoted, `AND`-joined FTS5 expression;
    /// the semantic leg runs with the query's embedding under the recorded
    /// global model, and is skipped when none is recorded; each leg is asked
    /// for `pool_size(limit)` candidates. A blank query is an empty-query
    /// error and reaches no port; generator and store failures are passed
    /// on.
    pub fn gather_candidates(&self, query: &str, limit: usize, scope: SearchScope<'_>) -> (r: Result<
        HybridCandidates,
        HybridError,
    >)
        ensures
            trim(query@).len() == 0 ==> r matches Err(HybridError::EmptyQuery),
            trim(query@).len() > 0 ==> match self.store_port().recorded_model() {
                Err(e) => r == Err::<HybridCandidates, HybridError>(HybridError::Store(e)),
                Ok(m) => match query_vector(self.generator_port(), m, query@) {
                    Err(e) => r == Err::<HybridCandidates, HybridError>(HybridError::Generator(e)),
                    Ok(v) => match self.store_port().pool_answer(
                        fts5_query(query@)->Some_0,
                        v,
                        scope_key(scope),
                        pool_of(limit),
                    ) {
                        Ok(c) => r == Ok::<HybridCandidates, HybridError>(c),
                        Err(e) => r == Err::<HybridCandidates, HybridError>(HybridError::Store(e)),
                    },
                },
            },
    {
        let t = trimmed(query);
        if t.as_str().is_empty() {
            return Err(HybridError::EmptyQuery);
        }
        proof {
            crate::fusion::lemma_words_shape(query@);
            crate::text::lemma_trim_empty(query@);
        }
        let fts5 = match free_text_to_fts5(query) {
            Some(s) => s,
            None => return Err(HybridError::EmptyQuery),
        };
        let pool = pool_size(limit);
        let model = match self.store.global_model() {
            Ok(m) => m,
            Err(e) => return Err(HybridError::Store(e)),
        };
        let query_embedding = match model {
            Some(m) => {
                let texts: Vec<&str> = vec![query];
                assert(texts@.map_values(|t: &str| t@) =~= seq![query@]);
                let mut vectors = match self.generator.embed(&m, texts.as_slice()) {
                    Ok(v) => v,
                    Err(e) => return Err(HybridError::Generator(e)),
                };
                if vectors.len() > 0 {
                    Some(vectors.remove(0))
                } else {
                    None
                }
            },
            None => None,
        };
        match self.store.candidates(fts5.as_str(), query_embedding.as_ref(), scope, pool) {
            Ok(c) => Ok(c),
            Err(e) => Err(HybridError::Store(e)),
        }
    }

    /// Decides whether the re-ranking stage runs, and runs it: it is skipped
    /// silently when not requested or when nothing was fused; it is skipped
    /// with a warning when no re-ranker model is recorded or the model is not
    /// cached locally; otherwise the re-ranker scores `rerank_documents` of
    /// the fused keys against `query`. The answer is whether re-ranking ran,
    /// its scores (bit patterns), and whether it was skipped with a warning.
    /// Other re-ranker and store failures are passed on.
    pub fn rerank_if_requested(
        &self,
        rerank: bool,
        query: &str,
        merged: &[MergedCandidate],
        fused: &[PassageKey],
    ) -> (r: Result<(bool, Option<Vec<u64>>, bool), HybridError>)
        ensures
            (!rerank || fused@.len() == 0) ==> (r matches Ok(o) && !o.0 && o.1 is None && !o.2),
            (rerank && fused@.len() > 0) ==> match self.store_port().recorded_reranker() {
                Err(e) => r == Err::<(bool, Option<Vec<u64>>, bool), HybridError>(HybridError::Store(e)),
                Ok(None) => r matches Ok(o) && !o.0 && o.1 is None && o.2,
                Ok(Some(m)) => match self.reranker_port().availability(m, false) {
                    Err(RerankError::ModelNotCached { .. }) => r matches Ok(o) && !o.0 && o.1 is None && o.2,
                    Err(e) => r == Err::<(bool, Option<Vec<u64>>, bool), HybridError>(HybridError::Rerank(e)),
                    Ok(()) => match self.reranker_port().scores(m, query@, rerank_texts(merged@, fused@)) {
                        Ok(v) => r matches Ok(o) && o.0 && !o.2 && (o.1 matches Some(s) && s@ == v),
                        Err(e) => r == Err::<(bool, Option<Vec<u64>>, bool), HybridError>(HybridError::Rerank(e)),
                    },
                },
            },
    {
        if !rerank || fused.len() == 0 {
            return Ok((false, None, false));
        }
        let model = match self.store.reranker_model() {
            Ok(Some(m)) => m,
            Ok(None) => return Ok((false, None, true)),
            Err(e) => return Err(HybridError::Store(e)),
        };
        match self.reranker.ensure_available(&model, false) {
            Ok(()) => {},
            Err(RerankError::ModelNotCached { .. }) => return Ok((false, None, true)),
            Err(e) => return Err(HybridError::Rerank(e)),
        }
        let documents = rerank_documents(merged, fused);
        match self.reranker.rerank(&model, query, documents.as_slice()) {
            Ok(scores) => Ok((true, Some(scores), false)),
            Err(e) => Err(HybridError::Rerank(e)),
        }
    }
}

} // verus!
