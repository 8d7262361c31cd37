use std::cell::RefCell;
use std::collections::HashMap;
use std::error::Error;
use std::rc::Rc;

use mdsearch::collection::CollectionName;
use mdsearch::content_hash::ContentHash;
use mdsearch::embed_collections::{
    build_pairs, default_model, group_by_file, EmbedCollections, EmbedOutcome, EmbedProgress,
    EmbedProgressSink, EmbedReport, EmbedScope, SkipReason,
};
use mdsearch::embedding::{Embedding, EmbeddingModel, SemanticIndexStatus, SemanticPassage};
use mdsearch::errors::{ClockError, EmbedError, EmbeddingError, RerankError, SemanticIndexStoreError};
use mdsearch::file_id::FileId;
use mdsearch::passage::PassageKind;
use mdsearch::ports::{Clock, EmbedTarget, EmbeddingGenerator, Reranker, SemanticIndexStore};
use mdsearch::reranking::RerankerModel;
use mdsearch::timestamp::Timestamp;

fn dbg<E: std::fmt::Debug>(error: E) -> String {
    format!("{error:?}")
}

fn storage<E: std::fmt::Debug>(error: E) -> SemanticIndexStoreError {
    SemanticIndexStoreError::Storage(dbg(error))
}

#[derive(Default)]
struct FakeClock {
    now: u64,
}

impl Clock for FakeClock {
    fn now(&self) -> Result<Timestamp, ClockError> {
        Ok(Timestamp::from_unix_seconds(self.now))
    }
}

#[derive(Default)]
struct FakeGenerator {
    available: bool,
    download_allowed: bool,
    supported: Vec<String>,
    vectors: HashMap<String, Vec<f32>>,
    fail_embed: bool,
}

fn model(name: &str) -> Result<EmbeddingModel, String> {
    EmbeddingModel::try_new(name).map_err(dbg)
}

impl EmbeddingGenerator for FakeGenerator {
    fn ensure_available(&self, model: &EmbeddingModel, download: bool) -> Result<(), EmbeddingError> {
        if !self.supported.iter().any(|name| name == model.as_str()) {
            return Err(EmbeddingError::UnsupportedModel { model: model.as_str().to_owned() });
        }
        if self.available || (download && self.download_allowed) {
            Ok(())
        } else {
            Err(EmbeddingError::ModelNotCached { model: model.as_str().to_owned() })
        }
    }

    fn embed(&self, _model: &EmbeddingModel, texts: &[&str]) -> Result<Vec<Embedding>, EmbeddingError> {
        if self.fail_embed {
            return Err(EmbeddingError::Storage(String::from("embedding failed")));
        }
        Ok(texts
            .iter()
            .map(|text| {
                let values = self.vectors.get(*text).cloned().unwrap_or_else(|| vec![1.0; 2]);
                Embedding::new(values.into_iter().map(f32::to_bits).collect())
            })
            .collect())
    }
}

#[derive(Default)]
struct FakeReranker {
    supported: Vec<String>,
    cached: bool,
    download_allowed: bool,
}

impl Reranker for FakeReranker {
    fn ensure_available(&self, model: &RerankerModel, download: bool) -> Result<(), RerankError> {
        if !self.supported.iter().any(|name| name == model.as_str()) {
            return Err(RerankError::UnsupportedModel { model: model.as_str().to_owned() });
        }
        if self.cached || (download && self.download_allowed) {
            Ok(())
        } else {
            Err(RerankError::ModelNotCached { model: model.as_str().to_owned() })
        }
    }

    fn rerank(&self, _model: &RerankerModel, _query: &str, documents: &[&str]) -> Result<Vec<u64>, RerankError> {
        Ok(documents.iter().map(|_| 0.0f64.to_bits()).collect())
    }
}

#[derive(Default)]
struct FakeStore {
    targets: Vec<(String, bool, bool)>,
    global: Option<String>,
    reranker: Option<String>,
    statuses: HashMap<String, Option<(String, String, usize, u64)>>,
    fingerprints: HashMap<String, String>,
    passages: HashMap<String, Vec<(u64, String, usize, String)>>,
    embedded: Vec<String>,
    rebuilds: RefCell<Vec<(String, String, usize)>>,
    fail_store: bool,
    fail_rebuild: bool,
    recorded_model: RefCell<Option<String>>,
    recorded_reranker: Rc<RefCell<Option<String>>>,
    recorded_dimension: RefCell<Option<usize>>,
}

fn store_failed() -> SemanticIndexStoreError {
    SemanticIndexStoreError::Storage(String::from("store failed"))
}

impl SemanticIndexStore for FakeStore {
    fn targets(&self) -> Result<Vec<EmbedTarget>, SemanticIndexStoreError> {
        self.targets
            .iter()
            .map(|(name, has_files, lexical_built)| {
                let collection = CollectionName::try_from(name.as_str()).map_err(storage)?;
                Ok(EmbedTarget::new(collection, *has_files, *lexical_built))
            })
            .collect()
    }

    fn resolve(&self, collection: &CollectionName) -> Result<EmbedTarget, SemanticIndexStoreError> {
        self.targets
            .iter()
            .find(|(name, _, _)| name.eq_ignore_ascii_case(collection.display_name()))
            .map(|(name, has_files, lexical_built)| {
                Ok(EmbedTarget::new(
                    CollectionName::try_from(name.as_str()).map_err(storage)?,
                    *has_files,
                    *lexical_built,
                ))
            })
            .transpose()?
            .ok_or(SemanticIndexStoreError::CollectionNotFound)
    }

    fn global_model(&self) -> Result<Option<EmbeddingModel>, SemanticIndexStoreError> {
        self.global.as_deref().map(EmbeddingModel::try_new).transpose().map_err(storage)
    }

    fn set_global_model(&mut self, model: &EmbeddingModel) -> Result<(), SemanticIndexStoreError> {
        if self.fail_store {
            return Err(store_failed());
        }
        *self.recorded_model.borrow_mut() = Some(model.as_str().to_owned());
        Ok(())
    }

    fn reranker_model(&self) -> Result<Option<RerankerModel>, SemanticIndexStoreError> {
        self.reranker.as_deref().map(RerankerModel::try_new).transpose().map_err(storage)
    }

    fn set_reranker_model(&mut self, model: &RerankerModel) -> Result<(), SemanticIndexStoreError> {
        if self.fail_store {
            return Err(store_failed());
        }
        *self.recorded_reranker.borrow_mut() = Some(model.as_str().to_owned());
        Ok(())
    }

    fn ensure_dimension(&mut self, dimension: usize) -> Result<(), SemanticIndexStoreError> {
        if self.fail_store {
            return Err(store_failed());
        }
        *self.recorded_dimension.borrow_mut() = Some(dimension);
        Ok(())
    }

    fn status(&self, collection: &CollectionName) -> Result<Option<SemanticIndexStatus>, SemanticIndexStoreError> {
        if self.fail_store {
            return Err(store_failed());
        }
        self.statuses
            .get(collection.display_name())
            .cloned()
            .flatten()
            .map(|(fingerprint, model, count, at)| {
                Ok(SemanticIndexStatus::new(
                    ContentHash::from_content(fingerprint.as_bytes()),
                    EmbeddingModel::try_new(&model).map_err(storage)?,
                    count,
                    Timestamp::from_unix_seconds(at),
                ))
            })
            .transpose()
    }

    fn embedded_collections(&self) -> Result<Vec<CollectionName>, SemanticIndexStoreError> {
        self.embedded
            .iter()
            .map(|name| CollectionName::try_from(name.as_str()).map_err(storage))
            .collect()
    }

    fn file_set_fingerprint(&self, collection: &CollectionName) -> Result<ContentHash, SemanticIndexStoreError> {
        if self.fail_store {
            return Err(store_failed());
        }
        self.fingerprints
            .get(collection.display_name())
            .map(|value| ContentHash::from_content(value.as_bytes()))
            .ok_or(SemanticIndexStoreError::CollectionNotFound)
    }

    fn passages(&self, collection: &CollectionName) -> Result<Vec<SemanticPassage>, SemanticIndexStoreError> {
        if self.fail_store {
            return Err(store_failed());
        }
        self.passages
            .get(collection.display_name())
            .cloned()
            .unwrap_or_default()
            .into_iter()
            .map(|(file, kind, position, text)| {
                let file = FileId::try_new(file).map_err(storage)?;
                let kind = PassageKind::from_key(&kind)
                    .ok_or_else(|| SemanticIndexStoreError::Storage(String::from("unknown kind")))?;
                Ok(SemanticPassage::new(file, kind, position, text))
            })
            .collect()
    }

    fn rebuild(
        &mut self,
        collection: &CollectionName,
        model: &EmbeddingModel,
        _embedded_at: Timestamp,
        embeddings: &[(SemanticPassage, Embedding)],
    ) -> Result<usize, SemanticIndexStoreError> {
        if self.fail_rebuild {
            return Err(SemanticIndexStoreError::Storage(String::from("rebuild failed")));
        }
        if self.fail_store {
            return Err(store_failed());
        }
        let count = embeddings.len();
        self.rebuilds.borrow_mut().push((
            collection.display_name().to_owned(),
            model.as_str().to_owned(),
            count,
        ));
        Ok(count)
    }
}

struct NoProgress;

impl EmbedProgressSink for NoProgress {
    fn report(&mut self, _event: EmbedProgress) {}
}

struct Recorder(Rc<RefCell<Vec<String>>>);

impl EmbedProgressSink for Recorder {
    fn report(&mut self, event: EmbedProgress) {
        match event {
            EmbedProgress::Files { collection, completed_files, total_files } => {
                self.0.borrow_mut().push(format!(
                    "{}:{}/{}",
                    collection.display_name(),
                    completed_files,
                    total_files
                ));
            }
            EmbedProgress::Writing { collection } => {
                self.0.borrow_mut().push(format!("writing:{}", collection.display_name()));
            }
        }
    }
}

fn collection(name: &str) -> Result<CollectionName, String> {
    CollectionName::try_from(name).map_err(dbg)
}

fn supported(name: &str) -> Vec<String> {
    vec![name.to_owned()]
}

fn fingerprint(value: &str) -> String {
    value.to_owned()
}

fn ready_generator() -> FakeGenerator {
    FakeGenerator { available: true, supported: supported("all-MiniLM-L6-v2"), ..FakeGenerator::default() }
}

fn passage(file: u64, position: usize, text: &str) -> (u64, String, usize, String) {
    (file, "body".to_owned(), position, text.to_owned())
}

#[test]
fn embeds_every_eligible_collection() -> Result<(), Box<dyn Error>> {
    let mut store = FakeStore::default();
    store.targets.push(("Notes".to_owned(), true, true));
    store.passages.insert("Notes".to_owned(), vec![passage(1, 0, "borrowing")]);
    store.fingerprints.insert("Notes".to_owned(), fingerprint("files"));
    let mut use_case = EmbedCollections::new(ready_generator(), store, FakeClock { now: 1 }, FakeReranker::default());
    let report = use_case.execute(EmbedScope::All, None, None, false, &mut NoProgress).map_err(dbg)?;
    assert_eq!(report.outcomes().len(), 1);
    assert!(!report.any_failed());
    assert!(matches!(
        report.outcomes().first(),
        Some(EmbedOutcome::Embedded { collection, passage_count: 1 }) if collection.display_name() == "Notes"
    ));
    Ok(())
}

#[test]
fn reports_an_unchanged_collection_as_already_current() -> Result<(), Box<dyn Error>> {
    let mut store = FakeStore::default();
    store.targets.push(("Notes".to_owned(), true, true));
    store.fingerprints.insert("Notes".to_owned(), fingerprint("files"));
    store.statuses.insert("Notes".to_owned(), Some(("files".to_owned(), "all-MiniLM-L6-v2".to_owned(), 1, 1)));
    store.global = Some("all-MiniLM-L6-v2".to_owned());
    let mut use_case = EmbedCollections::new(ready_generator(), store, FakeClock { now: 2 }, FakeReranker::default());
    let report = use_case.execute(EmbedScope::All, None, None, false, &mut NoProgress).map_err(dbg)?;
    assert!(matches!(
        report.outcomes().first(),
        Some(EmbedOutcome::AlreadyCurrent { collection }) if collection.display_name() == "Notes"
    ));
    Ok(())
}

#[test]
fn rebuilds_when_the_file_set_changed() -> Result<(), Box<dyn Error>> {
    let mut store = FakeStore::default();
    store.targets.push(("Notes".to_owned(), true, true));
    store.fingerprints.insert("Notes".to_owned(), fingerprint("new-files"));
    store.statuses.insert("Notes".to_owned(), Some(("old-files".to_owned(), "all-MiniLM-L6-v2".to_owned(), 1, 1)));
    store.passages.insert("Notes".to_owned(), vec![passage(1, 0, "borrowing")]);
    store.global = Some("all-MiniLM-L6-v2".to_owned());
    let mut use_case = EmbedCollections::new(ready_generator(), store, FakeClock { now: 2 }, FakeReranker::default());
    let report = use_case.execute(EmbedScope::All, None, None, false, &mut NoProgress).map_err(dbg)?;
    assert!(matches!(report.outcomes().first(), Some(EmbedOutcome::Embedded { passage_count: 1, .. })));
    Ok(())
}

fn switch_store() -> FakeStore {
    let mut store = FakeStore::default();
    store.targets.push(("Notes".to_owned(), true, true));
    store.embedded.push("Archive".to_owned());
    store.fingerprints.insert("Notes".to_owned(), fingerprint("files"));
    store.statuses.insert("Notes".to_owned(), Some(("files".to_owned(), "alpha".to_owned(), 1, 1)));
    store.passages.insert("Notes".to_owned(), vec![passage(1, 0, "borrowing")]);
    store.global = Some("alpha".to_owned());
    store
}

fn switch_generator() -> FakeGenerator {
    FakeGenerator {
        available: true,
        supported: vec!["alpha".to_owned(), "beta".to_owned()],
        ..FakeGenerator::default()
    }
}

#[test]
fn model_switch_rebuilds_every_embedded_collection() -> Result<(), Box<dyn Error>> {
    let mut use_case = EmbedCollections::new(switch_generator(), switch_store(), FakeClock { now: 2 }, FakeReranker::default());
    let beta = model("beta")?;
    let report = use_case.execute(EmbedScope::All, Some(&beta), None, false, &mut NoProgress).map_err(dbg)?;
    let names = report.outcomes().iter().map(EmbedOutcome::collection).map(CollectionName::display_name).collect::<Vec<_>>();
    assert!(names.contains(&"Notes"));
    assert!(names.contains(&"Archive"));
    Ok(())
}

#[test]
fn model_switch_rebuilds_embedded_collections_even_under_a_narrow_scope() -> Result<(), Box<dyn Error>> {
    let mut use_case = EmbedCollections::new(switch_generator(), switch_store(), FakeClock { now: 2 }, FakeReranker::default());
    let beta = model("beta")?;
    let notes = collection("Notes")?;
    let report = use_case
        .execute(EmbedScope::Collection(&notes), Some(&beta), None, false, &mut NoProgress)
        .map_err(dbg)?;
    let names = report.outcomes().iter().map(EmbedOutcome::collection).map(CollectionName::display_name).collect::<Vec<_>>();
    assert!(names.contains(&"Notes"));
    assert!(names.contains(&"Archive"));
    Ok(())
}

#[test]
fn unsupported_model_fails_before_any_collection_work() -> Result<(), Box<dyn Error>> {
    let generator = FakeGenerator { supported: Vec::new(), ..FakeGenerator::default() };
    let mut use_case = EmbedCollections::new(generator, FakeStore::default(), FakeClock::default(), FakeReranker::default());
    let bogus = model("bogus")?;
    assert!(use_case.execute(EmbedScope::All, Some(&bogus), None, false, &mut NoProgress).is_err());
    Ok(())
}

#[test]
fn missing_local_model_fails_before_any_collection_work() {
    let generator = FakeGenerator {
        available: false,
        download_allowed: false,
        supported: supported("all-MiniLM-L6-v2"),
        ..FakeGenerator::default()
    };
    let mut use_case = EmbedCollections::new(generator, FakeStore::default(), FakeClock::default(), FakeReranker::default());
    assert!(use_case.execute(EmbedScope::All, None, None, false, &mut NoProgress).is_err());
}

#[test]
fn download_allows_an_uncached_model() -> Result<(), Box<dyn Error>> {
    let mut store = FakeStore::default();
    store.targets.push(("Notes".to_owned(), true, true));
    store.fingerprints.insert("Notes".to_owned(), fingerprint("files"));
    store.passages.insert("Notes".to_owned(), vec![passage(1, 0, "borrowing")]);
    let generator = FakeGenerator {
        available: false,
        download_allowed: true,
        supported: supported("all-MiniLM-L6-v2"),
        ..FakeGenerator::default()
    };
    let mut use_case = EmbedCollections::new(generator, store, FakeClock { now: 1 }, FakeReranker::default());
    let report = use_case.execute(EmbedScope::All, None, None, true, &mut NoProgress).map_err(dbg)?;
    assert!(!report.any_failed());
    assert!(matches!(report.outcomes().first(), Some(EmbedOutcome::Embedded { .. })));
    Ok(())
}

#[test]
fn skips_a_collection_without_a_built_lexical_index() -> Result<(), Box<dyn Error>> {
    let mut store = FakeStore::default();
    store.targets.push(("Notes".to_owned(), true, false));
    let mut use_case = EmbedCollections::new(ready_generator(), store, FakeClock { now: 1 }, FakeReranker::default());
    let report = use_case.execute(EmbedScope::All, None, None, false, &mut NoProgress).map_err(dbg)?;
    assert!(matches!(
        report.outcomes().first(),
        Some(EmbedOutcome::Skipped { reason: SkipReason::LexicalNotBuilt, .. })
    ));
    Ok(())
}

#[test]
fn unbuilt_lexical_index_fails_when_explicitly_targeted() -> Result<(), Box<dyn Error>> {
    let mut store = FakeStore::default();
    store.targets.push(("Archive".to_owned(), true, false));
    let mut use_case = EmbedCollections::new(ready_generator(), store, FakeClock { now: 1 }, FakeReranker::default());
    let archive = collection("Archive")?;
    assert!(matches!(
        use_case.execute(EmbedScope::Collection(&archive), None, None, false, &mut NoProgress),
        Err(EmbedError::IndexNotBuilt)
    ));
    Ok(())
}

#[test]
fn skips_a_collection_with_no_files() -> Result<(), Box<dyn Error>> {
    let mut store = FakeStore::default();
    store.targets.push(("Empty".to_owned(), false, true));
    let mut use_case = EmbedCollections::new(ready_generator(), store, FakeClock { now: 1 }, FakeReranker::default());
    let report = use_case.execute(EmbedScope::All, None, None, false, &mut NoProgress).map_err(dbg)?;
    assert!(matches!(report.outcomes().first(), Some(EmbedOutcome::Skipped { reason: SkipReason::NoFiles, .. })));
    Ok(())
}

#[test]
fn skips_a_no_files_collection_even_when_targeted() -> Result<(), Box<dyn Error>> {
    let mut store = FakeStore::default();
    store.targets.push(("Empty".to_owned(), false, true));
    let mut use_case = EmbedCollections::new(ready_generator(), store, FakeClock { now: 1 }, FakeReranker::default());
    let empty = collection("Empty")?;
    let report = use_case
        .execute(EmbedScope::Collection(&empty), None, None, false, &mut NoProgress)
        .map_err(dbg)?;
    assert!(matches!(report.outcomes().first(), Some(EmbedOutcome::Skipped { reason: SkipReason::NoFiles, .. })));
    Ok(())
}

#[test]
fn unknown_collection_fails_when_explicitly_targeted() -> Result<(), Box<dyn Error>> {
    let mut use_case = EmbedCollections::new(ready_generator(), FakeStore::default(), FakeClock { now: 1 }, FakeReranker::default());
    let journal = collection("Journal")?;
    assert!(matches!(
        use_case.execute(EmbedScope::Collection(&journal), None, None, false, &mut NoProgress),
        Err(EmbedError::CollectionNotFound)
    ));
    Ok(())
}

#[test]
fn per_collection_failure_is_reported_and_processing_continues() -> Result<(), Box<dyn Error>> {
    let mut store = FakeStore::default();
    store.targets.push(("Notes".to_owned(), true, true));
    store.targets.push(("Archive".to_owned(), true, true));
    store.fingerprints.insert("Notes".to_owned(), fingerprint("files"));
    store.fingerprints.insert("Archive".to_owned(), fingerprint("files"));
    store.passages.insert("Notes".to_owned(), vec![passage(1, 0, "borrowing")]);
    store.passages.insert("Archive".to_owned(), vec![passage(1, 0, "borrowing")]);
    let generator = FakeGenerator { fail_embed: true, ..ready_generator() };
    let mut use_case = EmbedCollections::new(generator, store, FakeClock { now: 1 }, FakeReranker::default());
    let report = use_case.execute(EmbedScope::All, None, None, false, &mut NoProgress).map_err(dbg)?;
    assert_eq!(report.outcomes().len(), 2);
    assert!(report.any_failed());
    assert_eq!(report.outcomes().iter().filter(|outcome| outcome.is_failed()).count(), 2);
    Ok(())
}

#[test]
fn failed_rebuild_reports_a_failure() -> Result<(), Box<dyn Error>> {
    let mut store = FakeStore::default();
    store.targets.push(("Notes".to_owned(), true, true));
    store.fingerprints.insert("Notes".to_owned(), fingerprint("files"));
    store.passages.insert("Notes".to_owned(), vec![passage(1, 0, "borrowing")]);
    store.fail_rebuild = true;
    let mut use_case = EmbedCollections::new(ready_generator(), store, FakeClock { now: 1 }, FakeReranker::default());
    let report = use_case.execute(EmbedScope::All, None, None, false, &mut NoProgress).map_err(dbg)?;
    assert!(report.any_failed());
    assert!(matches!(
        report.outcomes().first(),
        Some(EmbedOutcome::Failed { collection, .. }) if collection.display_name() == "Notes"
    ));
    Ok(())
}

#[test]
fn empty_report_when_no_collections_are_eligible() -> Result<(), Box<dyn Error>> {
    let mut use_case = EmbedCollections::new(ready_generator(), FakeStore::default(), FakeClock { now: 1 }, FakeReranker::default());
    let report = use_case.execute(EmbedScope::All, None, None, false, &mut NoProgress).map_err(dbg)?;
    assert!(report.outcomes().is_empty());
    Ok(())
}

#[test]
fn provisions_and_records_a_reranker() -> Result<(), Box<dyn Error>> {
    let mut store = FakeStore { global: Some("all-MiniLM-L6-v2".to_owned()), ..FakeStore::default() };
    store.fingerprints.insert("Notes".to_owned(), fingerprint("files"));
    let recorded = store.recorded_reranker.clone();
    let reranker = FakeReranker { supported: supported("bge-reranker-base"), cached: true, ..FakeReranker::default() };
    let mut use_case = EmbedCollections::new(ready_generator(), store, FakeClock { now: 1 }, reranker);
    let reranker_name = RerankerModel::try_new("bge-reranker-base").map_err(dbg)?;
    use_case.execute(EmbedScope::All, None, Some(&reranker_name), false, &mut NoProgress).map_err(dbg)?;
    assert_eq!(*recorded.borrow(), Some("bge-reranker-base".to_owned()));
    Ok(())
}

#[test]
fn an_unsupported_reranker_fails() -> Result<(), Box<dyn Error>> {
    let generator = FakeGenerator { supported: supported("all-MiniLM-L6-v2"), ..FakeGenerator::default() };
    let reranker = FakeReranker { supported: Vec::new(), ..FakeReranker::default() };
    let mut use_case = EmbedCollections::new(generator, FakeStore::default(), FakeClock::default(), reranker);
    let bogus = RerankerModel::try_new("bogus").map_err(dbg)?;
    assert!(matches!(
        use_case.execute(EmbedScope::All, None, Some(&bogus), false, &mut NoProgress),
        Err(EmbedError::Reranker(RerankError::UnsupportedModel { .. }))
    ));
    Ok(())
}

#[test]
fn an_uncached_reranker_fails_without_download() -> Result<(), Box<dyn Error>> {
    let reranker = FakeReranker { supported: supported("bge-reranker-base"), cached: false, download_allowed: false };
    let mut use_case = EmbedCollections::new(FakeGenerator::default(), FakeStore::default(), FakeClock::default(), reranker);
    let name = RerankerModel::try_new("bge-reranker-base").map_err(dbg)?;
    assert!(matches!(
        use_case.execute(EmbedScope::All, None, Some(&name), false, &mut NoProgress),
        Err(EmbedError::Reranker(RerankError::ModelNotCached { .. }))
    ));
    Ok(())
}

#[test]
fn download_allows_an_uncached_reranker() -> Result<(), Box<dyn Error>> {
    let mut store = FakeStore { global: Some("all-MiniLM-L6-v2".to_owned()), ..FakeStore::default() };
    store.fingerprints.insert("Notes".to_owned(), fingerprint("files"));
    let reranker = FakeReranker { supported: supported("bge-reranker-base"), cached: false, download_allowed: true };
    let mut use_case = EmbedCollections::new(ready_generator(), store, FakeClock { now: 1 }, reranker);
    let name = RerankerModel::try_new("bge-reranker-base").map_err(dbg)?;
    let report = use_case.execute(EmbedScope::All, None, Some(&name), true, &mut NoProgress).map_err(dbg)?;
    assert!(!report.any_failed());
    Ok(())
}

#[test]
fn empty_report_has_no_failures() {
    let report = EmbedReport::new();
    assert!(!report.any_failed());
    assert!(report.outcomes().is_empty());
}

#[test]
fn reports_per_file_progress_during_embedding() -> Result<(), Box<dyn Error>> {
    let mut store = FakeStore::default();
    store.targets.push(("Notes".to_owned(), true, true));
    store.passages.insert(
        "Notes".to_owned(),
        vec![passage(1, 0, "borrowing"), passage(1, 1, "ownership"), passage(2, 0, "lifetimes"), passage(3, 0, "traits")],
    );
    store.fingerprints.insert("Notes".to_owned(), fingerprint("files"));
    let mut use_case = EmbedCollections::new(ready_generator(), store, FakeClock { now: 1 }, FakeReranker::default());
    let events: Rc<RefCell<Vec<String>>> = Rc::default();
    let mut progress = Recorder(events.clone());
    let report = use_case.execute(EmbedScope::All, None, None, false, &mut progress).map_err(dbg)?;
    assert_eq!(
        *events.borrow(),
        vec!["Notes:1/3".to_owned(), "Notes:2/3".to_owned(), "Notes:3/3".to_owned(), "writing:Notes".to_owned()]
    );
    assert_eq!(report.outcomes().len(), 1);
    Ok(())
}

#[test]
fn emits_no_progress_for_skipped_or_current_collections() -> Result<(), Box<dyn Error>> {
    let mut store = FakeStore::default();
    store.targets.push(("Empty".to_owned(), false, true));
    store.targets.push(("Current".to_owned(), true, true));
    store.fingerprints.insert("Current".to_owned(), fingerprint("files"));
    store.statuses.insert("Current".to_owned(), Some(("files".to_owned(), "all-MiniLM-L6-v2".to_owned(), 1, 1)));
    store.global = Some("all-MiniLM-L6-v2".to_owned());
    let mut use_case = EmbedCollections::new(ready_generator(), store, FakeClock { now: 1 }, FakeReranker::default());
    let events: Rc<RefCell<Vec<String>>> = Rc::default();
    let mut progress = Recorder(events.clone());
    let report = use_case.execute(EmbedScope::All, None, None, false, &mut progress).map_err(dbg)?;
    assert!(events.borrow().is_empty());
    assert_eq!(report.outcomes().len(), 2);
    Ok(())
}

struct FailOnTextGenerator {
    inner: FakeGenerator,
    fail_on_text: String,
}

impl EmbeddingGenerator for FailOnTextGenerator {
    fn ensure_available(&self, model: &EmbeddingModel, download: bool) -> Result<(), EmbeddingError> {
        self.inner.ensure_available(model, download)
    }

    fn embed(&self, model: &EmbeddingModel, texts: &[&str]) -> Result<Vec<Embedding>, EmbeddingError> {
        if texts.iter().any(|text| text.contains(&self.fail_on_text)) {
            return Err(EmbeddingError::Storage(String::from("embedding failed")));
        }
        self.inner.embed(model, texts)
    }
}

#[test]
fn stops_progress_events_when_embedding_fails() -> Result<(), Box<dyn Error>> {
    let mut store = FakeStore::default();
    store.targets.push(("Notes".to_owned(), true, true));
    store.passages.insert(
        "Notes".to_owned(),
        vec![passage(1, 0, "alpha"), passage(2, 0, "boom text"), passage(3, 0, "gamma")],
    );
    store.fingerprints.insert("Notes".to_owned(), fingerprint("files"));
    let generator = FailOnTextGenerator { inner: ready_generator(), fail_on_text: "boom text".to_owned() };
    let mut use_case = EmbedCollections::new(generator, store, FakeClock { now: 1 }, FakeReranker::default());
    let events: Rc<RefCell<Vec<String>>> = Rc::default();
    let mut progress = Recorder(events.clone());
    let report = use_case.execute(EmbedScope::All, None, None, false, &mut progress).map_err(dbg)?;
    assert_eq!(*events.borrow(), vec!["Notes:1/3".to_owned()]);
    assert!(matches!(
        report.outcomes().first(),
        Some(EmbedOutcome::Failed { collection, .. }) if collection.display_name() == "Notes"
    ));
    Ok(())
}

#[test]
fn groups_passages_by_file_in_first_appearance_order() -> Result<(), Box<dyn Error>> {
    let p = |file: u64, position: usize| -> Result<SemanticPassage, String> {
        Ok(SemanticPassage::new(FileId::try_new(file).map_err(dbg)?, PassageKind::Body, position, String::new()))
    };
    let passages = vec![p(2, 0)?, p(1, 0)?, p(2, 1)?, p(3, 0)?, p(1, 1)?];
    let (ids, groups) = group_by_file(passages);
    let ids: Vec<u64> = ids.into_iter().map(FileId::as_u64).collect();
    assert_eq!(ids, vec![2, 1, 3]);
    let positions: Vec<Vec<usize>> = groups.iter().map(|g| g.iter().map(SemanticPassage::position).collect()).collect();
    assert_eq!(positions, vec![vec![0, 1], vec![0, 1], vec![0]]);
    Ok(())
}

#[test]
fn pairs_need_one_vector_per_passage() -> Result<(), Box<dyn Error>> {
    let one = SemanticPassage::new(FileId::try_new(1).map_err(dbg)?, PassageKind::Body, 0, String::from("x"));
    assert!(build_pairs(vec![one.clone()], Vec::new()).is_none());
    let pairs = build_pairs(vec![one], vec![Embedding::new(vec![7, 8])]).ok_or("expected pairs")?;
    assert_eq!(pairs.len(), 1);
    assert_eq!(pairs[0].1.as_slice(), &[7, 8]);
    Ok(())
}

#[test]
fn default_model_is_the_minilm_model() -> Result<(), Box<dyn Error>> {
    let model = default_model().map_err(dbg)?;
    assert_eq!(model.as_str(), "all-MiniLM-L6-v2");
    Ok(())
}
