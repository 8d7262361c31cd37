use std::collections::BTreeMap;
use std::error::Error;
use std::path::Path;

use mdsearch::collection::CollectionName;
use mdsearch::errors::{FileRetrievalStoreError, GetFileError};
use mdsearch::file_id::FileId;
use mdsearch::get_file::{file_id_argument, parse_u64, settle_candidates, GetFile};
use mdsearch::ports::{FileRetrievalStore, RetrievedFile};

fn dbg<E: std::fmt::Debug>(error: E) -> String {
    format!("{error:?}")
}

#[derive(Default)]
struct InMemoryRetrievalStore {
    files: BTreeMap<String, Vec<RetrievedFile>>,
}

impl InMemoryRetrievalStore {
    fn store(&mut self, collection: &str, path: &str, content: &str) {
        self.files
            .entry(collection.to_owned())
            .or_default()
            .push(RetrievedFile::new(path.to_owned(), content.as_bytes().to_vec()));
    }
}

impl FileRetrievalStore for InMemoryRetrievalStore {
    fn get_by_path(
        &self,
        collection: &CollectionName,
        path: &str,
    ) -> Result<Option<RetrievedFile>, FileRetrievalStoreError> {
        Ok(self
            .files
            .get(collection.name_key())
            .and_then(|files| files.iter().find(|file| file.path() == path).cloned()))
    }

    fn get_by_id(
        &self,
        collection: &CollectionName,
        id: FileId,
    ) -> Result<Option<RetrievedFile>, FileRetrievalStoreError> {
        let index = usize::try_from(id.as_u64()).ok().and_then(|index| index.checked_sub(1));
        Ok(index.and_then(|index| {
            self.files.get(collection.name_key()).and_then(|files| files.get(index).cloned())
        }))
    }

    fn list_by_basename(
        &self,
        collection: &CollectionName,
        basename: &str,
    ) -> Result<Vec<RetrievedFile>, FileRetrievalStoreError> {
        Ok(self
            .files
            .get(collection.name_key())
            .map(|files| {
                files
                    .iter()
                    .filter(|file| {
                        Path::new(file.path()).file_name().and_then(|name| name.to_str())
                            == Some(basename)
                    })
                    .cloned()
                    .collect()
            })
            .unwrap_or_default())
    }
}

fn collection() -> Result<CollectionName, String> {
    CollectionName::try_from("Notes").map_err(dbg)
}

#[test]
fn retrieves_by_exact_path() -> Result<(), Box<dyn Error>> {
    let mut store = InMemoryRetrievalStore::default();
    store.store("notes", "/vault/notes.md", "alpha");
    let use_case = GetFile::new(store);
    let file = use_case.execute(&collection()?, "/vault/notes.md").map_err(dbg)?;
    assert_eq!(file.content(), b"alpha");
    Ok(())
}

#[test]
fn retrieves_by_unique_basename() -> Result<(), Box<dyn Error>> {
    let mut store = InMemoryRetrievalStore::default();
    store.store("notes", "/vault/notes.md", "alpha");
    let use_case = GetFile::new(store);
    let file = use_case.execute(&collection()?, "notes.md").map_err(dbg)?;
    assert_eq!(file.content(), b"alpha");
    Ok(())
}

#[test]
fn retrieves_by_id() -> Result<(), Box<dyn Error>> {
    let mut store = InMemoryRetrievalStore::default();
    store.store("notes", "/vault/notes.md", "alpha");
    store.store("notes", "/vault/other.md", "beta");
    let use_case = GetFile::new(store);
    let file = use_case.execute(&collection()?, "1").map_err(dbg)?;
    assert_eq!(file.content(), b"alpha");
    Ok(())
}

#[test]
fn reports_an_ambiguous_basename_with_candidates() -> Result<(), Box<dyn Error>> {
    let mut store = InMemoryRetrievalStore::default();
    store.store("notes", "/a/x.md", "one");
    store.store("notes", "/b/x.md", "two");
    let use_case = GetFile::new(store);
    let error = use_case
        .execute(&collection()?, "x.md")
        .err()
        .ok_or("an ambiguous basename should fail")?;
    match &error {
        GetFileError::Ambiguous(paths) => {
            assert_eq!(paths.len(), 2);
            assert!(paths.iter().any(|path| path.ends_with("/a/x.md")));
            assert!(paths.iter().any(|path| path.ends_with("/b/x.md")));
        }
        other => return Err(format!("unexpected error: {other:?}").into()),
    }
    assert_eq!(
        error.message(),
        "ambiguous basename; candidate paths: [\"/a/x.md\", \"/b/x.md\"]"
    );
    Ok(())
}

#[test]
fn reports_not_found_by_name() -> Result<(), Box<dyn Error>> {
    let mut store = InMemoryRetrievalStore::default();
    store.store("notes", "/vault/notes.md", "alpha");
    let use_case = GetFile::new(store);
    let error = use_case
        .execute(&collection()?, "missing.md")
        .err()
        .ok_or("a missing file should fail")?;
    assert!(matches!(error, GetFileError::FileNotFound));
    Ok(())
}

#[test]
fn reports_not_found_by_id() -> Result<(), Box<dyn Error>> {
    let mut store = InMemoryRetrievalStore::default();
    store.store("notes", "/vault/notes.md", "alpha");
    let use_case = GetFile::new(store);
    let error = use_case.execute(&collection()?, "999").err().ok_or("a missing file should fail")?;
    assert!(matches!(error, GetFileError::FileNotFound));
    Ok(())
}

#[test]
fn parses_decimal_ids_like_the_standard_library() {
    for text in ["0", "7", "+12", "007", "18446744073709551615", "", "+", "-1", " 1", "1a", "18446744073709551616"] {
        assert_eq!(parse_u64(text), text.parse::<u64>().ok(), "{text:?}");
    }
}

#[test]
fn only_positive_numbers_are_ids() {
    assert_eq!(file_id_argument("12").map(FileId::as_u64), Some(12));
    assert_eq!(file_id_argument("0"), None);
    assert_eq!(file_id_argument("notes.md"), None);
    assert_eq!(file_id_argument("+7"), None);
}

#[test]
fn settling_candidates_counts_them() {
    assert!(matches!(settle_candidates(Vec::new()), Err(GetFileError::FileNotFound)));
    let one = vec![RetrievedFile::new(String::from("/x.md"), b"x".to_vec())];
    assert!(matches!(settle_candidates(one), Ok(file) if file.path() == "/x.md"));
}
