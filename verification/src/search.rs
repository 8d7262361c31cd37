//! The lexical-search use case, its port and the records that cross it.
//!
//! Scores cross the port as the bit patterns of their `f64` values
//! (`f64::to_bits`): the use case passes them through without reading them.
use vstd::prelude::*;
use crate::collection::CollectionName;
use crate::errors::{SearchError, SearchStoreError};
use crate::fusion::{free_text_to_fts5, fts5_query};
use crate::passage::PassageKind;
use crate::ports::SearchScope;
use crate::text::{trim, trimmed};

verus! {

/// One ranked passage match.
#[derive(Clone, Debug, PartialEq, Eq)]
pub struct SearchResult {
    collection: CollectionName,
    path: String,
    kind: PassageKind,
    text: String,
    score: u64,
}

impl View for SearchResult {
    /// The collection, the file path, the passage kind, the text and the
    /// score's bit pattern.
    type V = ((Seq<char>, Seq<char>), Seq<char>, PassageKind, Seq<char>, u64);

    closed spec fn view(&self) -> ((Seq<char>, Seq<char>), Seq<char>, PassageKind, Seq<char>, u64) {
        (self.collection@, self.path@, self.kind, self.text@, self.score)
    }
}

impl SearchResult {
    /// Creates a search result record; `score` is the bit pattern of the
    /// BM25 score.
    pub fn new(
        collection: CollectionName,
        path: String,
        kind: PassageKind,
        text: String,
        score: u64,
    ) -> (r: SearchResult)
        ensures
            r@ == (collection@, path@, kind, text@, score),
    {
        SearchResult { collection, path, kind, text, score }
    }

    /// Returns the collection the passage belongs to.
    pub fn collection(&self) -> (c: &CollectionName)
        ensures
            c@ == self@.0,
    {
        &self.collection
    }

    /// Returns the file path of the passage.
    pub fn path(&self) -> (p: &str)
        ensures
            p@ == self@.1,
    {
        self.path.as_str()
    }

    /// Returns the passage kind.
    pub fn kind(&self) -> (k: PassageKind)
        ensures
            k == self@.2,
    {
        self.kind
    }

    /// Returns the passage text.
    pub fn text(&self) -> (t: &str)
        ensures
            t@ == self@.3,
    {
        self.text.as_str()
    }

    /// Returns the bit pattern of the BM25 score (higher is better).
    pub fn score(&self) -> (s: u64)
        ensures
            s == self@.4,
    {
        self.score
    }
}

/// The ranked results of a lexical search and the total match count.
#[derive(Clone, Debug, PartialEq, Eq)]
pub struct SearchResultSet {
    results: Vec<SearchResult>,
    total: usize,
}

impl SearchResultSet {
    /// The ranked results.
    pub closed spec fn result_seq(&self) -> Seq<SearchResult> {
        self.results@
    }

    /// The total number of matching passages.
    pub closed spec fn total_count(&self) -> usize {
        self.total
    }

    /// Creates a result set with its ranked results and total count.
    pub fn new(results: Vec<SearchResult>, total: usize) -> (s: SearchResultSet)
        ensures
            s.result_seq() == results@,
            s.total_count() == total,
    {
        SearchResultSet { results, total }
    }

    /// Returns the ranked results, capped at the search limit.
    pub fn results(&self) -> (r: &[SearchResult])
        ensures
            r@ == self.result_seq(),
    {
        self.results.as_slice()
    }

    /// Returns the total number of matching passages.
    pub fn total(&self) -> (n: usize)
        ensures
            n == self.total_count(),
    {
        self.total
    }
}

/// The collection a search scope names, if it names one.
pub open spec fn scope_key<'a>(scope: SearchScope<'a>) -> Option<(Seq<char>, Seq<char>)> {
    match scope {
        SearchScope::All => None,
        SearchScope::Collection(c) => Some(c@),
    }
}

/// Searches the built lexical index.
pub trait LexicalSearchStore {
    /// What searching for the FTS5 expression `query` with `limit` within
    /// the collection `scope` names (every collection when it names none)
    /// answers. Each store describes its own index; nothing is assumed of
    /// one that does not.
    closed spec fn answer(&self, query: Seq<char>, limit: usize, scope: Option<(Seq<char>, Seq<char>)>) -> Result<
        SearchResultSet,
        SearchStoreError,
    > {
        arbitrary()
    }

    /// Searches the lexical index within `scope`, returning up to `limit`
    /// ranked results ordered by BM25 score (highest first) and the total
    /// number of matching passages. For `SearchScope::All`, collections
    /// without a built index are skipped; for `SearchScope::Collection`, an
    /// unknown collection or one without a built index is an error.
    fn search(&self, query: &str, limit: usize, scope: SearchScope<'_>) -> (r: Result<
        SearchResultSet,
        SearchStoreError,
    >)
        ensures
            r == self.answer(query@, limit, scope_key(scope)),
    ;
}

/// The FTS5 expression a literal free-text query is searched with: its
/// terms quoted and `AND`-joined, so operator characters match literally.
/// A blank query is an empty-query error.
pub fn lexical_query(query: &str) -> (r: Result<String, SearchError>)
    ensures
        trim(query@).len() == 0 ==> r == Err::<String, SearchError>(SearchError::EmptyQuery),
        trim(query@).len() > 0 ==> (r matches Ok(s) && fts5_query(query@) == Some(s@)),
{
    let t = trimmed(query);
    if t.as_str().is_empty() {
        return Err(SearchError::EmptyQuery);
    }
    proof {
        crate::fusion::lemma_words_shape(query@);
        crate::text::lemma_trim_empty(query@);
    }
    match free_text_to_fts5(query) {
        Some(s) => Ok(s),
        None => Err(SearchError::EmptyQuery),
    }
}

/// Searches the built lexical index for ranked passages.
pub struct SearchLexical<S> {
    store: S,
}

impl<S: LexicalSearchStore> SearchLexical<S> {
    /// The store port.
    pub closed spec fn store_port(&self) -> S {
        self.store
    }

    /// Creates a lexical-search use case with its store port.
    pub fn new(store: S) -> (u: SearchLexical<S>)
        ensures
            u.store_port() == store,
    {
        SearchLexical { store }
    }

    /// Returns ranked passages matching `query` within `scope`. The query is
    /// literal free text: the store is asked for its quoted, `AND`-joined
    /// FTS5 expression (`lexical_query`) with `limit` and `scope`, and its
    /// answer is passed on. A blank query is an empty-query error and
    /// reaches no store; a store failure is passed on.
    pub fn execute(&self, query: &str, limit: usize, scope: SearchScope<'_>) -> (r: Result<
        SearchResultSet,
        SearchError,
    >)
        ensures
            trim(query@).len() == 0 ==> r == Err::<SearchResultSet, SearchError>(
                SearchError::EmptyQuery,
            ),
            trim(query@).len() > 0 ==> match self.store_port().answer(
                fts5_query(query@)->Some_0,
                limit,
                scope_key(scope),
            ) {
                Ok(set) => r == Ok::<SearchResultSet, SearchError>(set),
                Err(e) => r == Err::<SearchResultSet, SearchError>(SearchError::Store(e)),
            },
    {
        let fts5 = match lexical_query(query) {
            Ok(s) => s,
            Err(e) => return Err(e),
        };
        match self.store.search(fts5.as_str(), limit, scope) {
            Ok(set) => Ok(set),
            Err(e) => Err(SearchError::Store(e)),
        }
    }
}

} // verus!
