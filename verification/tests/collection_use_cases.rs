use std::error::Error;

use mdsearch::collection::CollectionName;
use mdsearch::collections::{CreateCollection, DestroyCollection, ListCollections, ReadIndexStatus};
use mdsearch::search::lexical_query;
use mdsearch::embedding::EmbeddingModel;
use mdsearch::errors::{
    ClockError, CollectionStoreError, CreateCollectionError, DestroyCollectionError,
    IndexStatusError, IndexStoreError, SearchError,
};
use mdsearch::ports::{
    Clock, CollectionStore, IndexState, IndexStatus, LexicalIndexStore, SemanticStatus,
};
use mdsearch::timestamp::Timestamp;

fn dbg<E: std::fmt::Debug>(error: E) -> String {
    format!("{error:?}")
}

#[derive(Default)]
struct InMemoryStore {
    names: Vec<String>,
}

impl CollectionStore for InMemoryStore {
    fn create_collection(
        &mut self,
        name: &CollectionName,
        _created_at: Timestamp,
    ) -> Result<(), CollectionStoreError> {
        self.names.push(name.display_name().to_owned());
        Ok(())
    }

    fn list_collections(&self) -> Result<Vec<CollectionName>, CollectionStoreError> {
        self.names
            .iter()
            .map(|name| CollectionName::try_from(name.as_str()))
            .collect::<Result<Vec<_>, _>>()
            .map_err(|error| CollectionStoreError::Storage(error.message().to_owned()))
    }

    fn destroy_collection(
        &mut self,
        name: &CollectionName,
    ) -> Result<CollectionName, CollectionStoreError> {
        let index = self
            .names
            .iter()
            .position(|stored| stored.eq_ignore_ascii_case(name.display_name()))
            .ok_or(CollectionStoreError::CollectionNotFound)?;
        let display_name = self.names.remove(index);
        CollectionName::try_from(display_name.as_str())
            .map_err(|error| CollectionStoreError::Storage(error.message().to_owned()))
    }
}

struct FixedClock;

impl Clock for FixedClock {
    fn now(&self) -> Result<Timestamp, ClockError> {
        Ok(Timestamp::from_unix_seconds(1_700_000_000))
    }
}

struct BrokenClock;

impl Clock for BrokenClock {
    fn now(&self) -> Result<Timestamp, ClockError> {
        Err(ClockError::Unavailable(String::from("no clock")))
    }
}

#[test]
fn creates_a_collection_through_the_application_use_case() -> Result<(), Box<dyn Error>> {
    let name = CollectionName::try_from("Notes").map_err(dbg)?;
    let mut use_case = CreateCollection::new(InMemoryStore::default(), FixedClock);
    let created_name = use_case.execute(name).map_err(dbg)?;
    assert_eq!(created_name.display_name(), "Notes");
    assert_eq!(use_case.store().names, ["Notes"]);
    Ok(())
}

#[test]
fn creation_fails_with_the_clock_error() -> Result<(), Box<dyn Error>> {
    let name = CollectionName::try_from("Notes").map_err(dbg)?;
    let mut use_case = CreateCollection::new(InMemoryStore::default(), BrokenClock);
    let error = use_case.execute(name).err().ok_or("the clock failure should fail creation")?;
    assert!(matches!(error, CreateCollectionError::Clock(_)));
    assert_eq!(error.message(), "system clock is unavailable");
    assert!(use_case.store().names.is_empty());
    Ok(())
}

#[test]
fn lists_collections_through_the_application_use_case() -> Result<(), Box<dyn Error>> {
    let mut store = InMemoryStore::default();
    store
        .create_collection(
            &CollectionName::try_from("Notes").map_err(dbg)?,
            Timestamp::from_unix_seconds(1_700_000_000),
        )
        .map_err(dbg)?;
    let use_case = ListCollections::new(store);
    let collections = use_case.execute().map_err(dbg)?;
    let names = collections.iter().map(CollectionName::display_name).collect::<Vec<_>>();
    assert_eq!(names, ["Notes"]);
    Ok(())
}

#[test]
fn lists_no_collections_when_the_store_is_empty() -> Result<(), Box<dyn Error>> {
    let use_case = ListCollections::new(InMemoryStore::default());
    assert!(use_case.execute().map_err(dbg)?.is_empty());
    Ok(())
}

#[test]
fn destroys_a_collection_and_returns_the_retained_spelling() -> Result<(), Box<dyn Error>> {
    let mut store = InMemoryStore::default();
    store
        .create_collection(
            &CollectionName::try_from("Notes").map_err(dbg)?,
            Timestamp::from_unix_seconds(1_700_000_000),
        )
        .map_err(dbg)?;
    let mut use_case = DestroyCollection::new(store);
    let destroyed = use_case.execute(&CollectionName::try_from("notes").map_err(dbg)?).map_err(dbg)?;
    assert_eq!(destroyed.display_name(), "Notes");
    Ok(())
}

#[test]
fn reports_not_found_when_the_collection_is_absent() -> Result<(), Box<dyn Error>> {
    let mut use_case = DestroyCollection::new(InMemoryStore::default());
    let error = use_case
        .execute(&CollectionName::try_from("Missing").map_err(dbg)?)
        .err()
        .ok_or("an absent collection should fail to destroy")?;
    assert!(matches!(
        error,
        DestroyCollectionError::Store(CollectionStoreError::CollectionNotFound)
    ));
    Ok(())
}

struct FakeIndexStore {
    result: Result<Vec<IndexStatus>, IndexStoreError>,
}

impl LexicalIndexStore for FakeIndexStore {
    fn status(&self) -> Result<Vec<IndexStatus>, IndexStoreError> {
        self.result.clone()
    }
}

#[test]
fn reports_a_built_index_with_counts_and_timestamp() -> Result<(), Box<dyn Error>> {
    let collection = CollectionName::try_from("Notes").map_err(dbg)?;
    let model = EmbeddingModel::try_new("all-MiniLM-L6-v2").map_err(dbg)?;
    let status = IndexStatus::new(
        collection,
        3,
        12,
        Some(Timestamp::from_unix_seconds(1_700_000_000)),
        Some(SemanticStatus::new(model, 384)),
    );
    let use_case = ReadIndexStatus::new(FakeIndexStore { result: Ok(vec![status]) });
    let statuses = use_case.execute().map_err(dbg)?;
    let first = statuses.first().ok_or("expected one status")?;
    assert_eq!(first.collection().display_name(), "Notes");
    assert_eq!(first.file_count(), 3);
    assert_eq!(first.passage_count(), 12);
    assert_eq!(first.built_at(), Some(Timestamp::from_unix_seconds(1_700_000_000)));
    assert_eq!(first.state(), IndexState::Built);
    let semantic = first.semantic().ok_or("expected a semantic status")?;
    assert_eq!(semantic.model().as_str(), "all-MiniLM-L6-v2");
    assert_eq!(semantic.dimension(), 384);
    Ok(())
}

#[test]
fn reports_a_not_built_index() -> Result<(), Box<dyn Error>> {
    let collection = CollectionName::try_from("Notes").map_err(dbg)?;
    let status = IndexStatus::new(collection, 0, 0, None, None);
    assert_eq!(status.state(), IndexState::NotBuilt);
    assert!(status.semantic().is_none());
    Ok(())
}

#[test]
fn reports_nothing_for_no_collections() -> Result<(), Box<dyn Error>> {
    let use_case = ReadIndexStatus::new(FakeIndexStore { result: Ok(Vec::new()) });
    assert!(use_case.execute().map_err(dbg)?.is_empty());
    Ok(())
}

#[test]
fn propagates_an_index_store_error() {
    let use_case = ReadIndexStatus::new(FakeIndexStore {
        result: Err(IndexStoreError::Storage(String::from("broken"))),
    });
    assert!(matches!(use_case.execute(), Err(IndexStatusError::Store(IndexStoreError::Storage(_)))));
}

#[test]
fn a_blank_query_has_no_lexical_expression() {
    assert_eq!(lexical_query(""), Err(SearchError::EmptyQuery));
    assert_eq!(lexical_query("  \t "), Err(SearchError::EmptyQuery));
}

#[test]
fn the_query_is_forwarded_as_quoted_terms() {
    assert_eq!(lexical_query("borrow checker"), Ok(String::from("\"borrow\" AND \"checker\"")));
}
