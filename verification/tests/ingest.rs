use std::collections::BTreeMap;
use std::error::Error;

use mdsearch::add_files::AddFiles;
use mdsearch::collection::CollectionName;
use mdsearch::errors::{
    AddFilesError, ClockError, FileStoreError, FileSystemError, UpdateCollectionError,
};
use mdsearch::ports::{Clock, FileRecord, FileStore, FileSystem, ReconcileOutcome, StoredFile};
use mdsearch::timestamp::Timestamp;
use mdsearch::update_collection::{
    classify_on_disk, settle_presence, settle_reread, PresenceStep, RereadStep, UpdateCollection,
    UpdateTarget,
};

fn dbg<E: std::fmt::Debug>(error: E) -> String {
    format!("{error:?}")
}

struct FixedClock;

impl Clock for FixedClock {
    fn now(&self) -> Result<Timestamp, ClockError> {
        Ok(Timestamp::from_unix_seconds(1_700_000_000))
    }
}

#[derive(Default)]
struct InMemoryFileSystem {
    files: BTreeMap<String, Vec<u8>>,
}

impl InMemoryFileSystem {
    fn insert(&mut self, path: &str, content: &[u8]) {
        self.files.insert(path.to_owned(), content.to_vec());
    }
}

fn unreadable(path: &str) -> FileSystemError {
    FileSystemError::Unreadable { path: path.to_owned(), detail: String::from("not found") }
}

impl FileSystem for InMemoryFileSystem {
    fn expand(&self, path: &str) -> Result<Vec<String>, FileSystemError> {
        if !self.files.contains_key(path) {
            return Err(unreadable(path));
        }
        Ok(vec![path.to_owned()])
    }

    fn read(&self, path: &str) -> Result<Vec<u8>, FileSystemError> {
        self.files.get(path).cloned().ok_or_else(|| unreadable(path))
    }

    fn path_exists(&self, path: &str) -> Result<bool, FileSystemError> {
        Ok(self.files.contains_key(path))
    }
}

#[derive(Default)]
struct InMemoryFileStore {
    collections: BTreeMap<String, Vec<FileRecord>>,
}

impl InMemoryFileStore {
    fn add_collection(&mut self, collection: &CollectionName) {
        self.collections.entry(collection.name_key().to_owned()).or_default();
    }

    fn store_file(&mut self, collection: &CollectionName, path: &str, content: &[u8]) {
        self.collections
            .entry(collection.name_key().to_owned())
            .or_default()
            .push(FileRecord::new(path.to_owned(), content.to_vec()));
    }
}

impl FileStore for InMemoryFileStore {
    fn upsert_files(
        &mut self,
        collection: &CollectionName,
        files: &[FileRecord],
        _ingested_at: Timestamp,
    ) -> Result<(), FileStoreError> {
        let stored = self
            .collections
            .get_mut(collection.name_key())
            .ok_or(FileStoreError::CollectionNotFound)?;
        stored.clear();
        stored.extend(files.iter().cloned());
        Ok(())
    }

    fn list_files(&self, collection: &CollectionName) -> Result<Vec<StoredFile>, FileStoreError> {
        let stored = self
            .collections
            .get(collection.name_key())
            .ok_or(FileStoreError::CollectionNotFound)?;
        Ok(stored
            .iter()
            .map(|record| StoredFile::new(record.path().to_owned(), record.content_hash().clone()))
            .collect())
    }

    fn reconcile(
        &mut self,
        collection: &CollectionName,
        upsert: &[FileRecord],
        delete: &[String],
        _ingested_at: Timestamp,
    ) -> Result<ReconcileOutcome, FileStoreError> {
        let stored = self
            .collections
            .get_mut(collection.name_key())
            .ok_or(FileStoreError::CollectionNotFound)?;
        for path in delete {
            stored.retain(|record| record.path() != path.as_str());
        }
        for record in upsert {
            match stored.iter_mut().find(|existing| existing.path() == record.path()) {
                Some(existing) => *existing = record.clone(),
                None => stored.push(record.clone()),
            }
        }
        Ok(ReconcileOutcome::new(0))
    }
}

fn collection() -> Result<CollectionName, String> {
    CollectionName::try_from("Notes").map_err(dbg)
}

fn paths(list: &[&str]) -> Vec<String> {
    list.iter().map(|p| (*p).to_owned()).collect()
}

#[test]
fn adds_discovered_files_and_reports_the_count() -> Result<(), Box<dyn Error>> {
    let collection = collection()?;
    let mut filesystem = InMemoryFileSystem::default();
    filesystem.insert("a.md", b"alpha");
    filesystem.insert("b.md", b"beta");
    let mut store = InMemoryFileStore::default();
    store.add_collection(&collection);
    let mut use_case = AddFiles::new(filesystem, store, FixedClock);
    let outcome = use_case.execute(&collection, &paths(&["a.md", "b.md"]), false).map_err(dbg)?;
    assert_eq!(outcome.added(), 2);
    assert_eq!(outcome.skipped(), 0);
    Ok(())
}

#[test]
fn fails_without_ingesting_when_a_path_is_unreadable() -> Result<(), Box<dyn Error>> {
    let collection = collection()?;
    let mut store = InMemoryFileStore::default();
    store.add_collection(&collection);
    let mut use_case = AddFiles::new(InMemoryFileSystem::default(), store, FixedClock);
    let error = use_case
        .execute(&collection, &paths(&["missing.md"]), false)
        .err()
        .ok_or("an unreadable path should fail")?;
    assert!(matches!(error, AddFilesError::FileSystem(FileSystemError::Unreadable { .. })));
    Ok(())
}

#[test]
fn add_files_skips_unreadable_paths_when_forced() -> Result<(), Box<dyn Error>> {
    let collection = collection()?;
    let mut filesystem = InMemoryFileSystem::default();
    filesystem.insert("notes.md", b"content");
    let mut store = InMemoryFileStore::default();
    store.add_collection(&collection);
    let mut use_case = AddFiles::new(filesystem, store, FixedClock);
    let outcome =
        use_case.execute(&collection, &paths(&["missing.md", "notes.md"]), true).map_err(dbg)?;
    assert_eq!(outcome.added(), 1);
    assert_eq!(outcome.skipped(), 1);
    Ok(())
}

#[test]
fn reports_collection_not_found() -> Result<(), Box<dyn Error>> {
    let collection = collection()?;
    let mut filesystem = InMemoryFileSystem::default();
    filesystem.insert("a.md", b"content");
    let mut use_case = AddFiles::new(filesystem, InMemoryFileStore::default(), FixedClock);
    let error = use_case
        .execute(&collection, &paths(&["a.md"]), false)
        .err()
        .ok_or("an absent collection should fail")?;
    assert!(matches!(error, AddFilesError::FileStore(FileStoreError::CollectionNotFound)));
    Ok(())
}

#[test]
fn adds_new_files() -> Result<(), Box<dyn Error>> {
    let collection = collection()?;
    let mut filesystem = InMemoryFileSystem::default();
    filesystem.insert("b.md", b"beta");
    let mut store = InMemoryFileStore::default();
    store.add_collection(&collection);
    let mut use_case = UpdateCollection::new(filesystem, store, FixedClock);
    let targets = paths(&["b.md"]);
    let outcome = use_case.execute(&collection, UpdateTarget::Paths(&targets), false).map_err(dbg)?;
    assert_eq!(outcome.added(), 1);
    assert_eq!(outcome.modified(), 0);
    assert_eq!(outcome.deleted(), 0);
    Ok(())
}

#[test]
fn modifies_changed_files() -> Result<(), Box<dyn Error>> {
    let collection = collection()?;
    let mut filesystem = InMemoryFileSystem::default();
    filesystem.insert("a.md", b"new content");
    let mut store = InMemoryFileStore::default();
    store.add_collection(&collection);
    store.store_file(&collection, "a.md", b"old content");
    let mut use_case = UpdateCollection::new(filesystem, store, FixedClock);
    let targets = paths(&["a.md"]);
    let outcome = use_case.execute(&collection, UpdateTarget::Paths(&targets), false).map_err(dbg)?;
    assert_eq!(outcome.modified(), 1);
    Ok(())
}

#[test]
fn removes_deleted_files() -> Result<(), Box<dyn Error>> {
    let collection = collection()?;
    let mut store = InMemoryFileStore::default();
    store.add_collection(&collection);
    store.store_file(&collection, "a.md", b"content");
    let mut use_case = UpdateCollection::new(InMemoryFileSystem::default(), store, FixedClock);
    let outcome = use_case.execute(&collection, UpdateTarget::Paths(&[]), false).map_err(dbg)?;
    assert_eq!(outcome.deleted(), 1);
    Ok(())
}

#[test]
fn leaves_unchanged_files_alone() -> Result<(), Box<dyn Error>> {
    let collection = collection()?;
    let mut filesystem = InMemoryFileSystem::default();
    filesystem.insert("a.md", b"same");
    let mut store = InMemoryFileStore::default();
    store.add_collection(&collection);
    store.store_file(&collection, "a.md", b"same");
    let mut use_case = UpdateCollection::new(filesystem, store, FixedClock);
    let targets = paths(&["a.md"]);
    let outcome = use_case.execute(&collection, UpdateTarget::Paths(&targets), false).map_err(dbg)?;
    assert_eq!(outcome.added(), 0);
    assert_eq!(outcome.modified(), 0);
    assert_eq!(outcome.deleted(), 0);
    Ok(())
}

#[test]
fn detects_modifications_for_the_stored_target() -> Result<(), Box<dyn Error>> {
    let collection = collection()?;
    let mut filesystem = InMemoryFileSystem::default();
    filesystem.insert("a.md", b"edited");
    let mut store = InMemoryFileStore::default();
    store.add_collection(&collection);
    store.store_file(&collection, "a.md", b"original");
    let mut use_case = UpdateCollection::new(filesystem, store, FixedClock);
    let outcome = use_case.execute(&collection, UpdateTarget::Stored, false).map_err(dbg)?;
    assert_eq!(outcome.modified(), 1);
    Ok(())
}

#[test]
fn fails_when_a_path_is_unreadable() -> Result<(), Box<dyn Error>> {
    let collection = collection()?;
    let mut store = InMemoryFileStore::default();
    store.add_collection(&collection);
    let mut use_case = UpdateCollection::new(InMemoryFileSystem::default(), store, FixedClock);
    let targets = paths(&["missing.md"]);
    let error = use_case
        .execute(&collection, UpdateTarget::Paths(&targets), false)
        .err()
        .ok_or("an unreadable path should fail")?;
    assert!(matches!(
        error,
        UpdateCollectionError::FileSystem(FileSystemError::Unreadable { .. })
    ));
    Ok(())
}

#[test]
fn update_collection_skips_unreadable_paths_when_forced() -> Result<(), Box<dyn Error>> {
    let collection = collection()?;
    let mut filesystem = InMemoryFileSystem::default();
    filesystem.insert("b.md", b"beta");
    let mut store = InMemoryFileStore::default();
    store.add_collection(&collection);
    let mut use_case = UpdateCollection::new(filesystem, store, FixedClock);
    let targets = paths(&["missing.md", "b.md"]);
    let outcome = use_case.execute(&collection, UpdateTarget::Paths(&targets), true).map_err(dbg)?;
    assert_eq!(outcome.added(), 1);
    assert_eq!(outcome.skipped(), 1);
    Ok(())
}

#[test]
fn classifies_records_against_stored_hashes() {
    let records = vec![
        FileRecord::new(String::from("same.md"), b"same".to_vec()),
        FileRecord::new(String::from("changed.md"), b"new".to_vec()),
        FileRecord::new(String::from("new.md"), b"fresh".to_vec()),
    ];
    let stored = vec![
        StoredFile::new(String::from("same.md"), FileRecord::new(String::new(), b"same".to_vec()).content_hash().clone()),
        StoredFile::new(String::from("changed.md"), FileRecord::new(String::new(), b"old".to_vec()).content_hash().clone()),
    ];
    let (upsert, added, modified) = classify_on_disk(&records, &stored);
    let upserted: Vec<&str> = upsert.iter().map(FileRecord::path).collect();
    assert_eq!(upserted, vec!["changed.md", "new.md"]);
    assert_eq!(added, 1);
    assert_eq!(modified, 1);
    assert_eq!(upsert.len(), added + modified);
}

#[test]
fn unreadable_error_names_its_path() {
    assert_eq!(unreadable("x.md").message(), "path is unreadable: x.md");
}

#[test]
fn stored_paths_match_records_component_wise() {
    let records = vec![
        FileRecord::new(String::from("notes//a.md"), b"same".to_vec()),
        FileRecord::new(String::from("notes/./b.md"), b"new".to_vec()),
    ];
    let stored = vec![
        StoredFile::new(String::from("notes/a.md"), FileRecord::new(String::new(), b"same".to_vec()).content_hash().clone()),
        StoredFile::new(String::from("notes/b.md"), FileRecord::new(String::new(), b"old".to_vec()).content_hash().clone()),
    ];
    let (upsert, added, modified) = classify_on_disk(&records, &stored);
    let upserted: Vec<&str> = upsert.iter().map(FileRecord::path).collect();
    assert_eq!(upserted, vec!["notes/./b.md"]);
    assert_eq!(added, 0);
    assert_eq!(modified, 1);
}

#[test]
fn presence_answers_decide_the_step() {
    assert_eq!(settle_presence(Ok(false), false, false), Ok(PresenceStep::Delete));
    assert_eq!(settle_presence(Ok(true), false, false), Ok(PresenceStep::Keep));
    assert_eq!(settle_presence(Ok(true), true, false), Ok(PresenceStep::Reread));
    assert_eq!(settle_presence(Err(unreadable("gone.md")), true, true), Ok(PresenceStep::Skip));
    assert_eq!(settle_presence(Err(unreadable("gone.md")), true, false), Err(unreadable("gone.md")));
}

#[test]
fn reread_content_decides_the_step() {
    let stored = StoredFile::new(
        String::from("notes/a.md"),
        FileRecord::new(String::new(), b"old".to_vec()).content_hash().clone(),
    );
    match settle_reread(&stored, Ok(b"new".to_vec()), false) {
        Ok(RereadStep::Changed(record)) => {
            assert_eq!(record.path(), "notes/a.md");
            assert_eq!(record.content(), b"new");
        }
        _ => panic!("a changed file is upserted"),
    }
    assert!(matches!(settle_reread(&stored, Ok(b"old".to_vec()), false), Ok(RereadStep::Unchanged)));
    assert!(matches!(settle_reread(&stored, Err(unreadable("notes/a.md")), true), Ok(RereadStep::Skip)));
    assert!(matches!(settle_reread(&stored, Err(unreadable("notes/a.md")), false), Err(_)));
}
