use std::cell::RefCell;
use std::collections::HashMap;
use std::error::Error;
use std::rc::Rc;

use mdsearch::collection::CollectionName;
use mdsearch::embedding::{Embedding, EmbeddingModel};
use mdsearch::errors::{EmbeddingError, HybridError, HybridSearchStoreError, RerankError};
use mdsearch::file_id::FileId;
use mdsearch::fusion::PassageKey;
use mdsearch::hybrid::{
    merge_candidates, pool_size, rerank_documents, HybridCandidate, HybridCandidates,
    HybridSearch, HybridSearchStore, MergedCandidate, Position,
};
use mdsearch::passage::PassageKind;
use mdsearch::ports::{EmbeddingGenerator, Reranker, SearchScope};
use mdsearch::reranking::RerankerModel;

fn dbg<E: std::fmt::Debug>(error: E) -> String {
    format!("{error:?}")
}

fn model(name: &str) -> Result<EmbeddingModel, String> {
    EmbeddingModel::try_new(name).map_err(dbg)
}

fn reranker_model(name: &str) -> Result<RerankerModel, String> {
    RerankerModel::try_new(name).map_err(dbg)
}

fn collection(name: &str) -> Result<CollectionName, String> {
    CollectionName::try_from(name).map_err(dbg)
}

fn key(file: u64, position: usize) -> Result<PassageKey, Box<dyn Error>> {
    Ok(PassageKey::new(FileId::try_new(file).map_err(dbg)?, PassageKind::Body, position))
}

fn candidate(file: u64, text: &str, score: f64, position: usize) -> Result<HybridCandidate, Box<dyn Error>> {
    Ok(HybridCandidate::new(
        key(file, position)?,
        collection("Notes")?,
        format!("/{file}.md"),
        PassageKind::Body,
        text.to_owned(),
        score.to_bits(),
        Position::new(0, 0, position + 1, position + 1),
    ))
}

fn entry<'a>(merged: &'a [MergedCandidate], k: &PassageKey) -> Option<&'a MergedCandidate> {
    merged.iter().find(|e| &e.key == k)
}

#[derive(Default)]
struct FakeGenerator {
    supported: Vec<String>,
    cached: bool,
    vectors: HashMap<String, Vec<f32>>,
    embedded: Rc<RefCell<Vec<String>>>,
}

impl EmbeddingGenerator for FakeGenerator {
    fn ensure_available(&self, model: &EmbeddingModel, download: bool) -> Result<(), EmbeddingError> {
        if !self.supported.iter().any(|name| name == model.as_str()) {
            return Err(EmbeddingError::UnsupportedModel { model: model.as_str().to_owned() });
        }
        if self.cached || download {
            Ok(())
        } else {
            Err(EmbeddingError::ModelNotCached { model: model.as_str().to_owned() })
        }
    }

    fn embed(&self, _model: &EmbeddingModel, texts: &[&str]) -> Result<Vec<Embedding>, EmbeddingError> {
        self.embedded.borrow_mut().extend(texts.iter().map(|t| (*t).to_owned()));
        Ok(texts
            .iter()
            .map(|text| {
                let values = self.vectors.get(*text).cloned().unwrap_or_else(|| vec![1.0; 3]);
                Embedding::new(values.into_iter().map(f32::to_bits).collect())
            })
            .collect())
    }
}

type Request = (String, Option<usize>, Option<String>, usize);

#[derive(Default)]
struct FakeStore {
    global: Option<String>,
    reranker: Option<String>,
    candidates: Option<HybridCandidates>,
    fail_not_found: bool,
    fail_not_built: bool,
    fail_stale: bool,
    requests: Rc<RefCell<Vec<Request>>>,
}

impl FakeStore {
    fn set_candidates(&mut self, candidates: HybridCandidates) {
        self.candidates = Some(candidates);
    }
}

impl HybridSearchStore for FakeStore {
    fn global_model(&self) -> Result<Option<EmbeddingModel>, HybridSearchStoreError> {
        self.global
            .as_deref()
            .map(model)
            .transpose()
            .map_err(HybridSearchStoreError::Storage)
    }

    fn reranker_model(&self) -> Result<Option<RerankerModel>, HybridSearchStoreError> {
        self.reranker
            .as_deref()
            .map(reranker_model)
            .transpose()
            .map_err(HybridSearchStoreError::Storage)
    }

    fn candidates(
        &self,
        fts5_query: &str,
        query_embedding: Option<&Embedding>,
        scope: SearchScope<'_>,
        pool: usize,
    ) -> Result<HybridCandidates, HybridSearchStoreError> {
        let scoped = match scope {
            SearchScope::All => None,
            SearchScope::Collection(name) => Some(name.display_name().to_owned()),
        };
        self.requests
            .borrow_mut()
            .push((fts5_query.to_owned(), query_embedding.map(Embedding::len), scoped, pool));
        if self.fail_not_found {
            return Err(HybridSearchStoreError::CollectionNotFound);
        }
        if self.fail_not_built {
            return Err(HybridSearchStoreError::IndexNotBuilt);
        }
        if self.fail_stale {
            return Err(HybridSearchStoreError::StaleSemanticIndex);
        }
        self.candidates
            .clone()
            .ok_or_else(|| HybridSearchStoreError::Storage("none".to_owned()))
    }
}

#[derive(Default)]
struct FakeReranker {
    supported: Vec<String>,
    cached: bool,
    scores: HashMap<String, f64>,
    documents: Rc<RefCell<Vec<String>>>,
}

impl Reranker for FakeReranker {
    fn ensure_available(&self, model: &RerankerModel, download: bool) -> Result<(), RerankError> {
        if !self.supported.iter().any(|name| name == model.as_str()) {
            return Err(RerankError::UnsupportedModel { model: model.as_str().to_owned() });
        }
        if self.cached || download {
            Ok(())
        } else {
            Err(RerankError::ModelNotCached { model: model.as_str().to_owned() })
        }
    }

    fn rerank(&self, _model: &RerankerModel, _query: &str, documents: &[&str]) -> Result<Vec<u64>, RerankError> {
        self.documents.borrow_mut().extend(documents.iter().map(|d| (*d).to_owned()));
        Ok(documents
            .iter()
            .map(|document| self.scores.get(*document).copied().unwrap_or(0.0).to_bits())
            .collect())
    }
}

fn keys_of(merged: &[MergedCandidate]) -> Vec<PassageKey> {
    merged.iter().map(|e| e.key).collect()
}

#[test]
fn merging_keys_each_leg_by_passage_key() -> Result<(), Box<dyn Error>> {
    let candidates = HybridCandidates::new(
        vec![candidate(1, "lexical", 0.5, 0)?],
        vec![candidate(1, "semantic", 0.9, 0)?],
    );

    let merged = merge_candidates(&candidates);

    let entry = entry(&merged, &key(1, 0)?).ok_or_else(|| std::io::Error::other("expected the key"))?;
    assert!(entry.lexical.is_some());
    assert!(entry.semantic.is_some());

    Ok(())
}

#[test]
fn merging_keeps_single_leg_candidates() -> Result<(), Box<dyn Error>> {
    let candidates = HybridCandidates::new(vec![candidate(1, "lexical only", 0.5, 0)?], Vec::new());

    let merged = merge_candidates(&candidates);

    let entry = entry(&merged, &key(1, 0)?).ok_or_else(|| std::io::Error::other("expected the key"))?;
    assert!(entry.lexical.is_some());
    assert!(entry.semantic.is_none());

    Ok(())
}

#[test]
fn merging_gives_one_entry_per_passage_and_keeps_the_last_duplicate() -> Result<(), Box<dyn Error>> {
    let candidates = HybridCandidates::new(
        vec![candidate(1, "first", 0.5, 0)?, candidate(2, "two", 0.4, 0)?, candidate(1, "again", 0.3, 0)?],
        vec![candidate(3, "three", 0.9, 1)?, candidate(2, "two semantic", 0.8, 0)?],
    );

    let merged = merge_candidates(&candidates);

    assert_eq!(merged.len(), 3);
    let one = entry(&merged, &key(1, 0)?).ok_or("missing 1")?;
    assert_eq!(one.lexical.as_ref().map(HybridCandidate::text), Some("again"));
    assert!(one.semantic.is_none());
    let two = entry(&merged, &key(2, 0)?).ok_or("missing 2")?;
    assert_eq!(two.lexical.as_ref().map(HybridCandidate::text), Some("two"));
    assert_eq!(two.semantic.as_ref().map(HybridCandidate::text), Some("two semantic"));
    let three = entry(&merged, &key(3, 1)?).ok_or("missing 3")?;
    assert!(three.lexical.is_none());
    assert_eq!(three.semantic.as_ref().map(HybridCandidate::score), Some(0.9f64.to_bits()));
    Ok(())
}

#[test]
fn rerank_documents_follow_the_fused_order_and_prefer_lexical_text() -> Result<(), Box<dyn Error>> {
    let candidates = HybridCandidates::new(
        vec![candidate(1, "one lexical", 0.5, 0)?],
        vec![candidate(1, "one semantic", 0.9, 0)?, candidate(2, "two semantic", 0.8, 0)?],
    );
    let merged = merge_candidates(&candidates);
    let fused = vec![key(2, 0)?, key(9, 9)?, key(1, 0)?];
    assert_eq!(rerank_documents(&merged, &fused), vec!["two semantic", "one lexical"]);
    assert!(rerank_documents(&merged, &[]).is_empty());
    Ok(())
}

#[test]
fn pool_is_three_times_the_limit_saturating() {
    assert_eq!(pool_size(10), 30);
    assert_eq!(pool_size(0), 0);
    assert_eq!(pool_size(usize::MAX / 3 + 1), usize::MAX);
}

#[test]
fn hybrid_search_rejects_an_empty_query() {
    let store = FakeStore::default();
    let requests = Rc::clone(&store.requests);
    let use_case = HybridSearch::new(FakeGenerator::default(), store, FakeReranker::default());

    assert!(matches!(
        use_case.gather_candidates("   ", 10, SearchScope::All),
        Err(HybridError::EmptyQuery)
    ));
    assert!(requests.borrow().is_empty());
}

#[test]
fn a_stale_semantic_index_fails() {
    let store = FakeStore { fail_stale: true, ..FakeStore::default() };
    let use_case = HybridSearch::new(FakeGenerator::default(), store, FakeReranker::default());

    assert!(matches!(
        use_case.gather_candidates("borrowing", 10, SearchScope::All),
        Err(HybridError::Store(HybridSearchStoreError::StaleSemanticIndex))
    ));
}

#[test]
fn an_unknown_collection_fails() -> Result<(), Box<dyn Error>> {
    let store = FakeStore { fail_not_found: true, ..FakeStore::default() };
    let use_case = HybridSearch::new(FakeGenerator::default(), store, FakeReranker::default());
    let journal = collection("Journal")?;

    assert!(matches!(
        use_case.gather_candidates("borrowing", 10, SearchScope::Collection(&journal)),
        Err(HybridError::Store(HybridSearchStoreError::CollectionNotFound))
    ));

    Ok(())
}

#[test]
fn an_unbuilt_lexical_index_fails() -> Result<(), Box<dyn Error>> {
    let store = FakeStore { fail_not_built: true, ..FakeStore::default() };
    let use_case = HybridSearch::new(FakeGenerator::default(), store, FakeReranker::default());
    let notes = collection("Notes")?;

    assert!(matches!(
        use_case.gather_candidates("borrowing", 10, SearchScope::Collection(&notes)),
        Err(HybridError::Store(HybridSearchStoreError::IndexNotBuilt))
    ));

    Ok(())
}

#[test]
fn the_query_is_forwarded_to_the_store() -> Result<(), Box<dyn Error>> {
    let mut store = FakeStore { global: Some("all-MiniLM-L6-v2".to_owned()), ..FakeStore::default() };
    store.set_candidates(HybridCandidates::new(
        vec![candidate(1, "borrowing rust", 0.5, 0)?],
        vec![candidate(1, "borrowing rust", 0.9, 0)?],
    ));
    let requests = Rc::clone(&store.requests);
    let generator = FakeGenerator {
        supported: vec!["all-MiniLM-L6-v2".to_owned()],
        cached: true,
        ..FakeGenerator::default()
    };
    let embedded = Rc::clone(&generator.embedded);
    let use_case = HybridSearch::new(generator, store, FakeReranker::default());

    let candidates = use_case.gather_candidates("borrowing rust", 10, SearchScope::All).map_err(dbg)?;
    let merged = merge_candidates(&candidates);

    assert_eq!(merged.len(), 1);
    let first = merged.first().ok_or_else(|| std::io::Error::other("expected a result"))?;
    assert_eq!(first.lexical.as_ref().map(HybridCandidate::text), Some("borrowing rust"));
    assert_eq!(
        *requests.borrow(),
        vec![("\"borrowing\" AND \"rust\"".to_owned(), Some(3), None, 30)]
    );
    assert_eq!(*embedded.borrow(), vec!["borrowing rust".to_owned()]);

    Ok(())
}

#[test]
fn without_a_global_model_the_semantic_leg_gets_no_embedding() -> Result<(), Box<dyn Error>> {
    let mut store = FakeStore::default();
    store.set_candidates(HybridCandidates::new(Vec::new(), Vec::new()));
    let requests = Rc::clone(&store.requests);
    let generator = FakeGenerator::default();
    let embedded = Rc::clone(&generator.embedded);
    let use_case = HybridSearch::new(generator, store, FakeReranker::default());
    let notes = collection("Notes")?;

    let candidates = use_case.gather_candidates("zzznotaword", 4, SearchScope::Collection(&notes)).map_err(dbg)?;

    assert!(merge_candidates(&candidates).is_empty());
    assert_eq!(
        *requests.borrow(),
        vec![("\"zzznotaword\"".to_owned(), None, Some("Notes".to_owned()), 12)]
    );
    assert!(embedded.borrow().is_empty());
    Ok(())
}

fn rerank_fixture(
    reranker: FakeReranker,
    reranker_model_name: Option<&str>,
    rerank: bool,
) -> Result<Result<(bool, Option<Vec<u64>>, bool), HybridError>, Box<dyn Error>> {
    let mut store = FakeStore {
        global: Some("all-MiniLM-L6-v2".to_owned()),
        reranker: reranker_model_name.map(str::to_owned),
        ..FakeStore::default()
    };
    store.set_candidates(HybridCandidates::new(
        vec![candidate(1, "a", 1.0, 0)?, candidate(2, "b", 0.1, 0)?],
        vec![candidate(1, "a", 0.9, 0)?],
    ));
    let generator = FakeGenerator {
        supported: vec!["all-MiniLM-L6-v2".to_owned()],
        cached: true,
        ..FakeGenerator::default()
    };
    let use_case = HybridSearch::new(generator, store, reranker);
    let candidates = use_case.gather_candidates("borrowing", 10, SearchScope::All).map_err(dbg)?;
    let merged = merge_candidates(&candidates);
    let fused = keys_of(&merged);
    Ok(use_case.rerank_if_requested(rerank, "borrowing", &merged, &fused))
}

#[test]
fn uncached_reranker_falls_back_with_a_warning() -> Result<(), Box<dyn Error>> {
    let reranker = FakeReranker {
        supported: vec!["bge-reranker-base".to_owned()],
        cached: false,
        ..FakeReranker::default()
    };
    let (reranked, scores, warning) = rerank_fixture(reranker, Some("bge-reranker-base"), true)?.map_err(dbg)?;

    assert!(!reranked);
    assert!(scores.is_none());
    assert!(warning);

    Ok(())
}

#[test]
fn no_rerank_produces_no_warning() -> Result<(), Box<dyn Error>> {
    let reranker = FakeReranker { cached: false, ..FakeReranker::default() };
    let (reranked, scores, warning) = rerank_fixture(reranker, None, false)?.map_err(dbg)?;

    assert!(!reranked);
    assert!(scores.is_none());
    assert!(!warning);

    Ok(())
}

#[test]
fn a_missing_reranker_model_falls_back_with_a_warning() -> Result<(), Box<dyn Error>> {
    let (reranked, scores, warning) = rerank_fixture(FakeReranker::default(), None, true)?.map_err(dbg)?;
    assert!(!reranked);
    assert!(scores.is_none());
    assert!(warning);
    Ok(())
}

#[test]
fn an_unsupported_reranker_model_is_an_error() -> Result<(), Box<dyn Error>> {
    let outcome = rerank_fixture(FakeReranker::default(), Some("bge-reranker-base"), true)?;
    assert_eq!(
        outcome,
        Err(HybridError::Rerank(RerankError::UnsupportedModel { model: "bge-reranker-base".to_owned() }))
    );
    Ok(())
}

#[test]
fn cached_reranker_scores_each_fused_passage_in_order() -> Result<(), Box<dyn Error>> {
    let reranker = FakeReranker {
        supported: vec!["bge-reranker-base".to_owned()],
        cached: true,
        scores: HashMap::from([("a".to_owned(), 0.1), ("b".to_owned(), 0.9)]),
        ..FakeReranker::default()
    };
    let documents = Rc::clone(&reranker.documents);
    let (reranked, scores, warning) = rerank_fixture(reranker, Some("bge-reranker-base"), true)?.map_err(dbg)?;

    assert!(reranked);
    assert!(!warning);
    assert_eq!(scores, Some(vec![0.1f64.to_bits(), 0.9f64.to_bits()]));
    assert_eq!(*documents.borrow(), vec!["a".to_owned(), "b".to_owned()]);
    Ok(())
}

#[test]
fn nothing_fused_skips_reranking_silently() -> Result<(), Box<dyn Error>> {
    let reranker = FakeReranker {
        supported: vec!["bge-reranker-base".to_owned()],
        cached: true,
        ..FakeReranker::default()
    };
    let store = FakeStore { reranker: Some("bge-reranker-base".to_owned()), ..FakeStore::default() };
    let use_case = HybridSearch::new(FakeGenerator::default(), store, reranker);
    assert_eq!(use_case.rerank_if_requested(true, "q", &[], &[]), Ok((false, None, false)));
    Ok(())
}

#[test]
fn positions_and_candidates_keep_their_fields() -> Result<(), Box<dyn Error>> {
    let p = Position::new(3, 9, 2, 4);
    assert_eq!((p.byte_offset(), p.byte_length(), p.line_start(), p.line_end()), (3, 9, 2, 4));
    let c = candidate(7, "text", 0.25, 2)?;
    assert_eq!(c.key(), key(7, 2)?);
    assert_eq!(c.collection().display_name(), "Notes");
    assert_eq!(c.path(), "/7.md");
    assert_eq!(c.kind(), PassageKind::Body);
    assert_eq!(c.text(), "text");
    assert_eq!(f64::from_bits(c.score()), 0.25);
    assert_eq!(c.position(), Position::new(0, 0, 3, 3));
    Ok(())
}
