//! The ports the use cases drive, and the records that cross them.
//!
//! Paths cross the ports as strings.
use vstd::prelude::*;
use crate::collection::CollectionName;
use crate::content_hash::{hex_of, sha256_of, ContentHash};
use crate::embedding::{Embedding, EmbeddingModel, SemanticIndexStatus, SemanticPassage};
use crate::errors::{
    ClockError, CollectionStoreError, EmbeddingError, FileRetrievalStoreError, FileStoreError,
    FileSystemError, IndexStoreError, RerankError, SemanticIndexStoreError,
};
use crate::file_id::FileId;
use crate::order::str_lt;
use crate::reranking::RerankerModel;
use crate::sorted::views;
use crate::timestamp::Timestamp;

verus! {

/// Supplies the current time to application use cases.
pub trait Clock {
    /// Returns the current UTC timestamp, or an error when the time source
    /// is unavailable.
    fn now(&self) -> Result<Timestamp, ClockError>;
}

/// The view of a collection name: its display spelling and comparison key.
pub type CollectionView = (Seq<char>, Seq<char>);

/// The display names of stored collections, in order.
pub open spec fn collection_names(entries: Seq<(CollectionView, u64)>) -> Seq<CollectionView> {
    entries.map_values(|e: (CollectionView, u64)| e.0)
}

/// Whether a stored collection has comparison key `key`.
pub open spec fn holds_key(entries: Seq<(CollectionView, u64)>, key: Seq<char>) -> bool {
    exists|i: int| 0 <= i < entries.len() && (#[trigger] entries[i]).0.1 == key
}

/// Persists empty collections for the collection-management use cases.
///
/// The store is modelled by the collections it holds, in listing order,
/// each with the time it was created at.
pub trait CollectionStore {
    /// The collections held, with their creation times, in listing order.
    /// Each store describes its own state; nothing is assumed of a store
    /// that does not.
    closed spec fn collections(&self) -> Seq<(CollectionView, u64)> {
        arbitrary()
    }

    /// What creating collection `name` at time `t` answers.
    closed spec fn create_answer(&self, name: CollectionView, t: u64) -> Result<(), CollectionStoreError> {
        arbitrary()
    }

    /// What listing the collections answers.
    closed spec fn list_answer(&self) -> Result<Seq<CollectionView>, CollectionStoreError> {
        arbitrary()
    }

    /// What destroying the collection keyed like `name` answers: the
    /// retained spelling, or the error.
    closed spec fn destroy_answer(&self, name: CollectionView) -> Result<CollectionView, CollectionStoreError> {
        arbitrary()
    }

    /// Creates one empty collection or reports why it could not be created
    /// (a duplicate, database, or storage error). Once created, the
    /// collection is held with the given creation time.
    fn create_collection(&mut self, name: &CollectionName, created_at: Timestamp) -> (r: Result<
        (),
        CollectionStoreError,
    >)
        ensures
            r == old(self).create_answer(name@, created_at@),
            r is Ok ==> exists|i: int|
                0 <= i < final(self).collections().len() && #[trigger] final(self).collections()[i]
                    == (name@, created_at@),
    ;

    /// Returns all collections in case-insensitive alphabetical order (by
    /// comparison key), or a database or storage error.
    fn list_collections(&self) -> (r: Result<Vec<CollectionName>, CollectionStoreError>)
        ensures
            match r {
                Ok(v) => self.list_answer() == Ok::<Seq<CollectionView>, CollectionStoreError>(views(v@)),
                Err(e) => self.list_answer() == Err::<Seq<CollectionView>, CollectionStoreError>(e),
            },
            r matches Ok(v) ==> views(v@) == collection_names(self.collections()) && forall|i: int, j: int|
                0 <= i < j < v@.len() ==> str_lt((#[trigger] v@[i])@.1, (#[trigger] v@[j])@.1),
    ;

    /// Destroys the collection matching the supplied name (by comparison
    /// key), returning the retained spelling of the destroyed collection, or
    /// a not-found, database, or storage error.
    fn destroy_collection(&mut self, name: &CollectionName) -> (r: Result<
        CollectionName,
        CollectionStoreError,
    >)
        ensures
            match r {
                Ok(n) => old(self).destroy_answer(name@) == Ok::<CollectionView, CollectionStoreError>(n@),
                Err(e) => old(self).destroy_answer(name@) == Err::<CollectionView, CollectionStoreError>(e),
            },
            !holds_key(old(self).collections(), name@.1) ==> r == Err::<CollectionName, CollectionStoreError>(
                CollectionStoreError::CollectionNotFound,
            ),
            r matches Ok(n) ==> n@.1 == name@.1 && collection_names(old(self).collections()).contains(
                n@,
            ) && !holds_key(final(self).collections(), name@.1),
    ;
}

/// Discovers and reads markdown files from the local filesystem.
pub trait FileSystem {
    /// What expanding `path` answers. Each filesystem describes its own
    /// state; nothing is assumed of one that does not.
    closed spec fn expansion(&self, path: Seq<char>) -> Result<Seq<Seq<char>>, FileSystemError> {
        arbitrary()
    }

    /// What reading `path` answers.
    closed spec fn contents(&self, path: Seq<char>) -> Result<Seq<u8>, FileSystemError> {
        arbitrary()
    }

    /// What asking whether `path` exists answers.
    closed spec fn presence(&self, path: Seq<char>) -> Result<bool, FileSystemError> {
        arbitrary()
    }

    /// Expands a single input path into zero or more canonical `.md` file
    /// paths: a directory is walked recursively; a `.md` file yields itself;
    /// a non-`.md` file yields nothing. Fails when the path does not exist or
    /// cannot be read.
    fn expand(&self, path: &str) -> (r: Result<Vec<String>, FileSystemError>)
        ensures
            match r {
                Ok(v) => self.expansion(path@) == Ok::<Seq<Seq<char>>, FileSystemError>(views(v@)),
                Err(e) => self.expansion(path@) == Err::<Seq<Seq<char>>, FileSystemError>(e),
            },
    ;

    /// Reads the bytes of the file at `path`.
    fn read(&self, path: &str) -> (r: Result<Vec<u8>, FileSystemError>)
        ensures
            match r {
                Ok(v) => self.contents(path@) == Ok::<Seq<u8>, FileSystemError>(v@),
                Err(e) => self.contents(path@) == Err::<Seq<u8>, FileSystemError>(e),
            },
    ;

    /// Returns whether the path exists, treating only a missing path as
    /// absent; fails when the path cannot be inspected for another reason.
    fn path_exists(&self, path: &str) -> (r: Result<bool, FileSystemError>)
        ensures
            r == self.presence(path@),
    ;
}

/// A discovered markdown file ready to be stored.
#[derive(Clone, Debug)]
pub struct FileRecord {
    path: String,
    content: Vec<u8>,
    content_hash: ContentHash,
}

impl View for FileRecord {
    /// The path, the content and the content hash.
    type V = (Seq<char>, Seq<u8>, Seq<char>);

    closed spec fn view(&self) -> (Seq<char>, Seq<u8>, Seq<char>) {
        (self.path@, self.content@, self.content_hash@)
    }
}

/// The record of a file: its path, its content and the content's hash.
pub open spec fn record_of(path: Seq<char>, content: Seq<u8>) -> (Seq<char>, Seq<u8>, Seq<char>) {
    (path, content, hex_of(sha256_of(content)))
}

impl FileRecord {
    /// Creates a file record for the given path and content, hashing the
    /// content.
    pub fn new(path: String, content: Vec<u8>) -> (r: FileRecord)
        ensures
            r@ == record_of(path@, content@),
    {
        let content_hash = ContentHash::from_content(content.as_slice());
        FileRecord { path, content, content_hash }
    }

    /// Returns the canonical path of the file.
    pub fn path(&self) -> (p: &str)
        ensures
            p@ == self@.0,
    {
        self.path.as_str()
    }

    /// Returns the file content.
    pub fn content(&self) -> (c: &[u8])
        ensures
            c@ == self@.1,
    {
        self.content.as_slice()
    }

    /// Returns the content hash.
    pub fn content_hash(&self) -> (h: &ContentHash)
        ensures
            h@ == self@.2,
    {
        &self.content_hash
    }

    /// A copy of this record.
    pub fn duplicate(&self) -> (r: FileRecord)
        ensures
            r@ == self@,
    {
        FileRecord {
            path: self.path.clone(),
            content: self.content.clone(),
            content_hash: self.content_hash.duplicate(),
        }
    }
}

/// A stored file's identity and content hash.
#[derive(Clone, Debug, PartialEq, Eq)]
pub struct StoredFile {
    path: String,
    content_hash: ContentHash,
}

impl View for StoredFile {
    /// The path and the content hash.
    type V = (Seq<char>, Seq<char>);

    closed spec fn view(&self) -> (Seq<char>, Seq<char>) {
        (self.path@, self.content_hash@)
    }
}

impl StoredFile {
    /// Creates a stored-file summary.
    pub fn new(path: String, content_hash: ContentHash) -> (f: StoredFile)
        ensures
            f@ == (path@, content_hash@),
    {
        StoredFile { path, content_hash }
    }

    /// Returns the canonical path of the stored file.
    pub fn path(&self) -> (p: &str)
        ensures
            p@ == self@.0,
    {
        self.path.as_str()
    }

    /// Returns the stored content hash.
    pub fn content_hash(&self) -> (h: &ContentHash)
        ensures
            h@ == self@.1,
    {
        &self.content_hash
    }
}

/// The outcome of a reconcile that also rebuilds the lexical index.
#[derive(Clone, Copy, Debug, Default, PartialEq, Eq, Structural)]
pub struct ReconcileOutcome {
    malformed_frontmatter: usize,
}

impl View for ReconcileOutcome {
    /// The number of files whose frontmatter could not be parsed.
    type V = usize;

    closed spec fn view(&self) -> usize {
        self.malformed_frontmatter
    }
}

impl ReconcileOutcome {
    /// Creates an outcome with the given malformed-frontmatter count.
    pub fn new(malformed_frontmatter: usize) -> (o: ReconcileOutcome)
        ensures
            o@ == malformed_frontmatter,
    {
        ReconcileOutcome { malformed_frontmatter }
    }

    /// Returns the number of files whose frontmatter could not be parsed.
    pub fn malformed_frontmatter(&self) -> (n: usize)
        ensures
            n == self@,
    {
        self.malformed_frontmatter
    }
}

/// Stores ingested files for a collection.
pub trait FileStore {
    /// What listing the stored files of collection `c` answers, each as its
    /// path and content hash. Each store describes its own state; nothing is
    /// assumed of one that does not.
    closed spec fn listing(&self, c: CollectionView) -> Result<Seq<(Seq<char>, Seq<char>)>, FileStoreError> {
        arbitrary()
    }

    /// The store after upserting `files` into collection `c` at time `t`.
    closed spec fn upserted(&self, c: CollectionView, files: Seq<(Seq<char>, Seq<u8>, Seq<char>)>, t: u64) -> Self where
        Self: Sized,
     {
        arbitrary()
    }

    /// The store after reconciling collection `c` at time `t`: upserting
    /// `upsert`, deleting `delete` and rebuilding the lexical index.
    closed spec fn reconciled(
        &self,
        c: CollectionView,
        upsert: Seq<(Seq<char>, Seq<u8>, Seq<char>)>,
        delete: Seq<Seq<char>>,
        t: u64,
    ) -> Self where Self: Sized {
        arbitrary()
    }

    /// Upserts the given files for the named collection in one transaction,
    /// without building or refreshing the lexical index. Fails when the
    /// collection does not exist, or when persistence cannot complete, and
    /// then changes nothing.
    fn upsert_files(
        &mut self,
        collection: &CollectionName,
        files: &[FileRecord],
        ingested_at: Timestamp,
    ) -> (r: Result<(), FileStoreError>) where Self: Sized
        ensures
            r is Ok ==> *final(self) == old(self).upserted(collection@, views(files@), ingested_at@),
            r is Err ==> *final(self) == *old(self),
    ;

    /// Returns the stored files for the named collection.
    fn list_files(&self, collection: &CollectionName) -> (r: Result<Vec<StoredFile>, FileStoreError>)
        ensures
            match r {
                Ok(v) => self.listing(collection@) == Ok::<Seq<(Seq<char>, Seq<char>)>, FileStoreError>(
                    views(v@),
                ),
                Err(e) => self.listing(collection@) == Err::<Seq<(Seq<char>, Seq<char>)>, FileStoreError>(e),
            },
    ;

    /// Reconciles a collection by upserting `upsert` and deleting `delete` in
    /// one transaction, then rebuilds the collection's lexical index from the
    /// reconciled file set in the same transaction. A failure at any point
    /// rolls back both the file changes and the index, so a caller can retry
    /// safely.
    fn reconcile(
        &mut self,
        collection: &CollectionName,
        upsert: &[FileRecord],
        delete: &[String],
        ingested_at: Timestamp,
    ) -> (r: Result<ReconcileOutcome, FileStoreError>) where Self: Sized
        ensures
            r is Ok ==> *final(self) == old(self).reconciled(
                collection@,
                views(upsert@),
                views(delete@),
                ingested_at@,
            ),
            r is Err ==> *final(self) == *old(self),
    ;
}

/// A stored file's canonical path and content.
#[derive(Clone, Debug, PartialEq, Eq)]
pub struct RetrievedFile {
    path: String,
    content: Vec<u8>,
}

impl View for RetrievedFile {
    /// The path and the content.
    type V = (Seq<char>, Seq<u8>);

    closed spec fn view(&self) -> (Seq<char>, Seq<u8>) {
        (self.path@, self.content@)
    }
}

impl RetrievedFile {
    /// Creates a retrieved-file record.
    pub fn new(path: String, content: Vec<u8>) -> (f: RetrievedFile)
        ensures
            f@ == (path@, content@),
    {
        RetrievedFile { path, content }
    }

    /// Returns the canonical path of the file.
    pub fn path(&self) -> (p: &str)
        ensures
            p@ == self@.0,
    {
        self.path.as_str()
    }

    /// Returns the stored content bytes.
    pub fn content(&self) -> (c: &[u8])
        ensures
            c@ == self@.1,
    {
        self.content.as_slice()
    }
}

/// Looks up stored files for retrieval.
pub trait FileRetrievalStore {
    /// What looking up `path` in collection `c` answers. Each store
    /// describes its own state; nothing is assumed of one that does not.
    closed spec fn by_path(&self, c: CollectionView, path: Seq<char>) -> Result<
        Option<FileView>,
        FileRetrievalStoreError,
    > {
        arbitrary()
    }

    /// What looking up file `id` in collection `c` answers.
    closed spec fn by_id(&self, c: CollectionView, id: u64) -> Result<
        Option<FileView>,
        FileRetrievalStoreError,
    > {
        arbitrary()
    }

    /// What listing the files of collection `c` with basename `basename`
    /// answers.
    closed spec fn by_basename(&self, c: CollectionView, basename: Seq<char>) -> Result<
        Seq<FileView>,
        FileRetrievalStoreError,
    > {
        arbitrary()
    }

    /// Returns the file at exactly `path` in `collection`, if present.
    fn get_by_path(&self, collection: &CollectionName, path: &str) -> (r: Result<
        Option<RetrievedFile>,
        FileRetrievalStoreError,
    >)
        ensures
            match r {
                Ok(o) => self.by_path(collection@, path@) == Ok::<Option<FileView>, FileRetrievalStoreError>(
                    opt_file(o),
                ),
                Err(e) => self.by_path(collection@, path@) == Err::<Option<FileView>, FileRetrievalStoreError>(e),
            },
    ;

    /// Returns the file with `id` in `collection`, if present.
    fn get_by_id(&self, collection: &CollectionName, id: FileId) -> (r: Result<
        Option<RetrievedFile>,
        FileRetrievalStoreError,
    >)
        ensures
            match r {
                Ok(o) => self.by_id(collection@, id@) == Ok::<Option<FileView>, FileRetrievalStoreError>(
                    opt_file(o),
                ),
                Err(e) => self.by_id(collection@, id@) == Err::<Option<FileView>, FileRetrievalStoreError>(e),
            },
    ;

    /// Returns every file in `collection` whose basename equals `basename`.
    fn list_by_basename(&self, collection: &CollectionName, basename: &str) -> (r: Result<
        Vec<RetrievedFile>,
        FileRetrievalStoreError,
    >)
        ensures
            match r {
                Ok(v) => self.by_basename(collection@, basename@) == Ok::<Seq<FileView>, FileRetrievalStoreError>(
                    views(v@),
                ),
                Err(e) => self.by_basename(collection@, basename@) == Err::<Seq<FileView>, FileRetrievalStoreError>(e),
            },
    ;
}

/// The view of a retrieved file: its path and content.
pub type FileView = (Seq<char>, Seq<u8>);

/// The view of an optional retrieved file.
pub open spec fn opt_file(o: Option<RetrievedFile>) -> Option<FileView> {
    match o {
        Some(f) => Some(f@),
        None => None,
    }
}

/// Whether a collection's lexical index has been built.
#[derive(Clone, Copy, Debug, PartialEq, Eq, Structural)]
pub enum IndexState {
    /// The collection's index was built by a successful update.
    Built,
    /// The collection's index has never been built.
    NotBuilt,
}

/// The recorded semantic (embedding) state of a collection.
#[derive(Clone, Debug, PartialEq, Eq)]
pub struct SemanticStatus {
    model: EmbeddingModel,
    dimension: usize,
}

impl View for SemanticStatus {
    /// The model and the dimension.
    type V = (Seq<char>, usize);

    closed spec fn view(&self) -> (Seq<char>, usize) {
        (self.model@, self.dimension)
    }
}

impl SemanticStatus {
    /// Creates a semantic status record.
    pub fn new(model: EmbeddingModel, dimension: usize) -> (s: SemanticStatus)
        ensures
            s@ == (model@, dimension),
    {
        SemanticStatus { model, dimension }
    }

    /// Returns the embedding model the vectors were generated with.
    pub fn model(&self) -> (m: &EmbeddingModel)
        ensures
            m@ == self@.0,
    {
        &self.model
    }

    /// Returns the dimension the vectors were generated at.
    pub fn dimension(&self) -> (d: usize)
        ensures
            d == self@.1,
    {
        self.dimension
    }
}

/// The observable state of one collection's lexical index.
#[derive(Clone, Debug, PartialEq, Eq)]
pub struct IndexStatus {
    collection: CollectionName,
    file_count: usize,
    passage_count: usize,
    built_at: Option<Timestamp>,
    semantic: Option<SemanticStatus>,
}

/// The view of an optional timestamp.
pub open spec fn opt_time(t: Option<Timestamp>) -> Option<u64> {
    match t {
        Some(x) => Some(x@),
        None => None,
    }
}

/// The view of an optional semantic status.
pub open spec fn opt_semantic(s: Option<SemanticStatus>) -> Option<(Seq<char>, usize)> {
    match s {
        Some(x) => Some(x@),
        None => None,
    }
}

impl View for IndexStatus {
    /// The collection, the file and passage counts, the build time and the
    /// semantic state.
    type V = ((Seq<char>, Seq<char>), usize, usize, Option<u64>, Option<(Seq<char>, usize)>);

    closed spec fn view(&self) -> (
        (Seq<char>, Seq<char>),
        usize,
        usize,
        Option<u64>,
        Option<(Seq<char>, usize)>,
    ) {
        (
            self.collection@,
            self.file_count,
            self.passage_count,
            opt_time(self.built_at),
            opt_semantic(self.semantic),
        )
    }
}

impl IndexStatus {
    /// Creates a status record for a collection's lexical index.
    pub fn new(
        collection: CollectionName,
        file_count: usize,
        passage_count: usize,
        built_at: Option<Timestamp>,
        semantic: Option<SemanticStatus>,
    ) -> (s: IndexStatus)
        ensures
            s@ == (
                collection@,
                file_count,
                passage_count,
                opt_time(built_at),
                opt_semantic(semantic),
            ),
    {
        IndexStatus { collection, file_count, passage_count, built_at, semantic }
    }

    /// Returns the collection this status belongs to.
    pub fn collection(&self) -> (c: &CollectionName)
        ensures
            c@ == self@.0,
    {
        &self.collection
    }

    /// Returns the number of stored files in the collection.
    pub fn file_count(&self) -> (n: usize)
        ensures
            n == self@.1,
    {
        self.file_count
    }

    /// Returns the number of indexed passages.
    pub fn passage_count(&self) -> (n: usize)
        ensures
            n == self@.2,
    {
        self.passage_count
    }

    /// Returns when the index was last built, if it has been built.
    pub fn built_at(&self) -> (t: Option<Timestamp>)
        ensures
            opt_time(t) == self@.3,
    {
        self.built_at
    }

    /// Returns the recorded semantic state, if the collection was embedded.
    pub fn semantic(&self) -> (s: Option<&SemanticStatus>)
        ensures
            match s {
                Some(x) => self@.4 == Some(x@),
                None => self@.4 is None,
            },
    {
        match &self.semantic {
            Some(x) => Some(x),
            None => None,
        }
    }

    /// Returns whether the index has been built: it has exactly when a build
    /// time is recorded.
    pub fn state(&self) -> (s: IndexState)
        ensures
            s == (if self@.3 is Some {
                IndexState::Built
            } else {
                IndexState::NotBuilt
            }),
    {
        if self.built_at.is_some() {
            IndexState::Built
        } else {
            IndexState::NotBuilt
        }
    }
}

/// Reads the lexical index state of every collection.
pub trait LexicalIndexStore {
    /// The status of every collection's lexical index, as the store holds
    /// it.
    closed spec fn statuses(&self) -> Seq<<IndexStatus as View>::V> {
        arbitrary()
    }

    /// What asking for the statuses answers when it fails, if it does.
    closed spec fn status_failure(&self) -> Option<IndexStoreError> {
        arbitrary()
    }

    /// Returns the lexical index status of every collection in the database.
    /// A collection whose index has never been built reports `NotBuilt` with
    /// a zero passage count and no build timestamp.
    fn status(&self) -> (r: Result<Vec<IndexStatus>, IndexStoreError>)
        ensures
            match r {
                Ok(v) => self.status_failure() is None && views(v@) == self.statuses(),
                Err(e) => self.status_failure() == Some(e),
            },
    ;
}

/// The scope of a lexical search.
#[derive(Clone, Copy, Debug)]
pub enum SearchScope<'a> {
    /// Search every collection with a built index.
    All,
    /// Search one named collection.
    Collection(&'a CollectionName),
}

/// A collection eligible for semantic indexing, with its embed prerequisites.
#[derive(Clone, Debug, PartialEq, Eq)]
pub struct EmbedTarget {
    collection: CollectionName,
    has_files: bool,
    lexical_built: bool,
}

impl View for EmbedTarget {
    /// The collection, whether it has files, and whether its lexical index is
    /// built.
    type V = ((Seq<char>, Seq<char>), bool, bool);

    closed spec fn view(&self) -> ((Seq<char>, Seq<char>), bool, bool) {
        (self.collection@, self.has_files, self.lexical_built)
    }
}

impl EmbedTarget {
    /// Creates an embed target describing a collection's eligibility.
    pub fn new(collection: CollectionName, has_files: bool, lexical_built: bool) -> (t:
        EmbedTarget)
        ensures
            t@ == (collection@, has_files, lexical_built),
    {
        EmbedTarget { collection, has_files, lexical_built }
    }

    /// Returns the target collection.
    pub fn collection(&self) -> (c: &CollectionName)
        ensures
            c@ == self@.0,
    {
        &self.collection
    }

    /// Returns whether the collection has at least one stored file.
    pub fn has_files(&self) -> (b: bool)
        ensures
            b == self@.1,
    {
        self.has_files
    }

    /// Returns whether the collection's lexical index has been built.
    pub fn lexical_built(&self) -> (b: bool)
        ensures
            b == self@.2,
    {
        self.lexical_built
    }
}


/// Generates local text embeddings for the semantic index.
pub trait EmbeddingGenerator {
    /// What making `model` available answers, with or without downloading.
    /// Each generator describes its own behaviour; nothing is assumed of one
    /// that does not.
    closed spec fn availability(&self, model: Seq<char>, download: bool) -> Result<(), EmbeddingError> {
        arbitrary()
    }

    /// What embedding `texts` with `model` answers: one vector per text, each
    /// as the bit patterns of its values.
    closed spec fn embeddings(&self, model: Seq<char>, texts: Seq<Seq<char>>) -> Result<
        Seq<Seq<u32>>,
        EmbeddingError,
    > {
        arbitrary()
    }

    /// Ensures the model's assets are available locally, downloading them
    /// when `download` is set; fails with an unsupported-model, not-cached or
    /// download-failed error.
    fn ensure_available(&self, model: &EmbeddingModel, download: bool) -> (r: Result<
        (),
        EmbeddingError,
    >)
        ensures
            r == self.availability(model@, download),
    ;

    /// Generates one embedding per input text for the given model.
    fn embed(&self, model: &EmbeddingModel, texts: &[&str]) -> (r: Result<
        Vec<Embedding>,
        EmbeddingError,
    >)
        ensures
            match r {
                Ok(v) => self.embeddings(model@, texts@.map_values(|t: &str| t@)) == Ok::<
                    Seq<Seq<u32>>,
                    EmbeddingError,
                >(views(v@)),
                Err(e) => self.embeddings(model@, texts@.map_values(|t: &str| t@)) == Err::<
                    Seq<Seq<u32>>,
                    EmbeddingError,
                >(e),
            },
    ;
}

/// Re-scores candidate documents against a query with a local
/// cross-encoder.
pub trait Reranker {
    /// What making `model` available answers, with or without downloading.
    /// Each re-ranker describes its own behaviour; nothing is assumed of one
    /// that does not.
    closed spec fn availability(&self, model: Seq<char>, download: bool) -> Result<(), RerankError> {
        arbitrary()
    }

    /// What re-scoring `documents` against `query` with `model` answers.
    closed spec fn scores(&self, model: Seq<char>, query: Seq<char>, documents: Seq<Seq<char>>) -> Result<
        Seq<u64>,
        RerankError,
    > {
        arbitrary()
    }

    /// Ensures the model's assets are available locally, downloading them
    /// when `download` is set; fails with an unsupported-model, not-cached or
    /// download-failed error.
    fn ensure_available(&self, model: &RerankerModel, download: bool) -> (r: Result<
        (),
        RerankError,
    >)
        ensures
            r == self.availability(model@, download),
    ;

    /// Re-scores `documents` against `query`, returning one score per
    /// document in input order, each as the bit pattern of its `f64` value
    /// (`f64::to_bits`). Higher scores indicate stronger relevance.
    fn rerank(&self, model: &RerankerModel, query: &str, documents: &[&str]) -> (r: Result<
        Vec<u64>,
        RerankError,
    >)
        ensures
            match r {
                Ok(v) => self.scores(model@, query@, documents@.map_values(|d: &str| d@)) == Ok::<
                    Seq<u64>,
                    RerankError,
                >(v@),
                Err(e) => self.scores(model@, query@, documents@.map_values(|d: &str| d@)) == Err::<
                    Seq<u64>,
                    RerankError,
                >(e),
            },
    ;
}

/// The view of an optional re-ranker model.
pub open spec fn opt_reranker(m: Option<RerankerModel>) -> Option<Seq<char>> {
    match m {
        Some(x) => Some(x@),
        None => None,
    }
}

/// The view of a semantic passage: file ID, kind, position and text.
pub type PassageView = (u64, crate::passage::PassageKind, usize, Seq<char>);

/// The view of a passage paired with its embedding.
pub type PairView = (PassageView, Seq<u32>);

/// Reads and writes the semantic (vector) index and its global model.
pub trait SemanticIndexStore {
    /// What reading the global embedding model answers. Each store
    /// describes its own state; nothing is assumed of one that does not.
    closed spec fn recorded_model(&self) -> Result<Option<Seq<char>>, SemanticIndexStoreError> {
        arbitrary()
    }

    /// What reading the global re-ranker model answers.
    closed spec fn recorded_reranker(&self) -> Result<Option<Seq<char>>, SemanticIndexStoreError> {
        arbitrary()
    }

    /// What listing every collection's embed eligibility answers: the
    /// collection, whether it has files and whether its lexical index is
    /// built.
    closed spec fn target_list(&self) -> Result<Seq<(CollectionView, bool, bool)>, SemanticIndexStoreError> {
        arbitrary()
    }

    /// What resolving collection `c`'s embed eligibility answers.
    closed spec fn resolution(&self, c: CollectionView) -> Result<(CollectionView, bool, bool), SemanticIndexStoreError> {
        arbitrary()
    }

    /// The number of passages a rebuild of collection `c` with `pairs`,
    /// embedded with `model` at time `t`, reports.
    closed spec fn rebuild_count(&self, c: CollectionView, model: Seq<char>, t: u64, pairs: Seq<PairView>) -> usize {
        arbitrary()
    }

    /// What listing the embedded collections answers.
    closed spec fn embedded(&self) -> Result<Seq<CollectionView>, SemanticIndexStoreError> {
        arbitrary()
    }

    /// What reading the file-set fingerprint of collection `c` answers.
    closed spec fn fingerprint_of(&self, c: CollectionView) -> Result<Seq<char>, SemanticIndexStoreError> {
        arbitrary()
    }

    /// What reading the semantic status of collection `c` answers:
    /// fingerprint, model, passage count and embedding time, if embedded.
    closed spec fn status_of(&self, c: CollectionView) -> Result<
        Option<(Seq<char>, Seq<char>, usize, u64)>,
        SemanticIndexStoreError,
    > {
        arbitrary()
    }

    /// What reading the passages of collection `c` answers.
    closed spec fn passages_of(&self, c: CollectionView) -> Result<Seq<PassageView>, SemanticIndexStoreError> {
        arbitrary()
    }

    /// The store after recording `model` as the global embedding model.
    closed spec fn with_model(&self, model: Seq<char>) -> Self where Self: Sized {
        arbitrary()
    }

    /// The store after recording `model` as the global re-ranker model.
    closed spec fn with_reranker(&self, model: Seq<char>) -> Self where Self: Sized {
        arbitrary()
    }

    /// The store after making the vector table hold `dimension` values.
    closed spec fn with_dimension(&self, dimension: usize) -> Self where Self: Sized {
        arbitrary()
    }

    /// The store after replacing collection `c`'s semantic index with
    /// `pairs`, embedded with `model` at time `t`.
    closed spec fn rebuilt(&self, c: CollectionView, model: Seq<char>, t: u64, pairs: Seq<PairView>) -> Self where
        Self: Sized,
     {
        arbitrary()
    }

    /// Returns every collection's embed eligibility.
    fn targets(&self) -> (r: Result<Vec<EmbedTarget>, SemanticIndexStoreError>)
        ensures
            match r {
                Ok(v) => self.target_list() == Ok::<
                    Seq<(CollectionView, bool, bool)>,
                    SemanticIndexStoreError,
                >(views(v@)),
                Err(e) => self.target_list() == Err::<
                    Seq<(CollectionView, bool, bool)>,
                    SemanticIndexStoreError,
                >(e),
            },
    ;

    /// Resolves one collection's embed eligibility by name; fails with a
    /// not-found error when the collection does not exist.
    fn resolve(&self, collection: &CollectionName) -> (r: Result<EmbedTarget, SemanticIndexStoreError>)
        ensures
            match r {
                Ok(t) => self.resolution(collection@) == Ok::<
                    (CollectionView, bool, bool),
                    SemanticIndexStoreError,
                >(t@),
                Err(e) => self.resolution(collection@) == Err::<
                    (CollectionView, bool, bool),
                    SemanticIndexStoreError,
                >(e),
            },
    ;

    /// Returns the recorded global embedding model, if any.
    fn global_model(&self) -> (r: Result<Option<EmbeddingModel>, SemanticIndexStoreError>)
        ensures
            match r {
                Ok(m) => self.recorded_model() == Ok::<Option<Seq<char>>, SemanticIndexStoreError>(
                    opt_model(m),
                ),
                Err(e) => self.recorded_model() == Err::<Option<Seq<char>>, SemanticIndexStoreError>(e),
            },
    ;

    /// Records the global embedding model; a failure changes nothing.
    fn set_global_model(&mut self, model: &EmbeddingModel) -> (r: Result<(), SemanticIndexStoreError>) where
        Self: Sized,
        ensures
            r is Ok ==> *final(self) == old(self).with_model(model@),
            r is Err ==> *final(self) == *old(self),
    ;

    /// Returns the recorded global re-ranker model, if any.
    fn reranker_model(&self) -> (r: Result<Option<RerankerModel>, SemanticIndexStoreError>)
        ensures
            match r {
                Ok(m) => self.recorded_reranker() == Ok::<Option<Seq<char>>, SemanticIndexStoreError>(
                    opt_reranker(m),
                ),
                Err(e) => self.recorded_reranker() == Err::<Option<Seq<char>>, SemanticIndexStoreError>(e),
            },
    ;

    /// Records the global re-ranker model; a failure changes nothing.
    fn set_reranker_model(&mut self, model: &RerankerModel) -> (r: Result<(), SemanticIndexStoreError>) where
        Self: Sized,
        ensures
            r is Ok ==> *final(self) == old(self).with_reranker(model@),
            r is Err ==> *final(self) == *old(self),
    ;

    /// Ensures the shared vector table exists at `dimension`, recreating it
    /// when the recorded dimension differs; a failure changes nothing.
    fn ensure_dimension(&mut self, dimension: usize) -> (r: Result<(), SemanticIndexStoreError>) where
        Self: Sized,
        ensures
            r is Ok ==> *final(self) == old(self).with_dimension(dimension),
            r is Err ==> *final(self) == *old(self),
    ;

    /// Returns the semantic index status of one collection, if embedded.
    fn status(&self, collection: &CollectionName) -> (r: Result<
        Option<SemanticIndexStatus>,
        SemanticIndexStoreError,
    >)
        ensures
            match r {
                Ok(s) => self.status_of(collection@) == Ok::<
                    Option<(Seq<char>, Seq<char>, usize, u64)>,
                    SemanticIndexStoreError,
                >(opt_status(s)),
                Err(e) => self.status_of(collection@) == Err::<
                    Option<(Seq<char>, Seq<char>, usize, u64)>,
                    SemanticIndexStoreError,
                >(e),
            },
    ;

    /// Returns the collections that have an existing semantic index.
    fn embedded_collections(&self) -> (r: Result<Vec<CollectionName>, SemanticIndexStoreError>)
        ensures
            match r {
                Ok(v) => self.embedded() == Ok::<Seq<CollectionView>, SemanticIndexStoreError>(views(v@)),
                Err(e) => self.embedded() == Err::<Seq<CollectionView>, SemanticIndexStoreError>(e),
            },
    ;

    /// Returns the current stored file-set fingerprint for a collection.
    fn file_set_fingerprint(&self, collection: &CollectionName) -> (r: Result<
        ContentHash,
        SemanticIndexStoreError,
    >)
        ensures
            match r {
                Ok(f) => self.fingerprint_of(collection@) == Ok::<Seq<char>, SemanticIndexStoreError>(f@),
                Err(e) => self.fingerprint_of(collection@) == Err::<Seq<char>, SemanticIndexStoreError>(e),
            },
    ;

    /// Returns the lexical passages of a collection ready to be embedded.
    fn passages(&self, collection: &CollectionName) -> (r: Result<
        Vec<SemanticPassage>,
        SemanticIndexStoreError,
    >)
        ensures
            match r {
                Ok(v) => self.passages_of(collection@) == Ok::<Seq<PassageView>, SemanticIndexStoreError>(
                    views(v@),
                ),
                Err(e) => self.passages_of(collection@) == Err::<Seq<PassageView>, SemanticIndexStoreError>(e),
            },
    ;

    /// Atomically replaces a collection's semantic index with `embeddings`
    /// and records its semantic state, returning the number of passages
    /// embedded; a failure changes nothing.
    fn rebuild(
        &mut self,
        collection: &CollectionName,
        model: &EmbeddingModel,
        embedded_at: Timestamp,
        embeddings: &[(SemanticPassage, Embedding)],
    ) -> (r: Result<usize, SemanticIndexStoreError>) where Self: Sized
        ensures
            r matches Ok(n) ==> n == old(self).rebuild_count(
                collection@,
                model@,
                embedded_at@,
                views(embeddings@),
            ),
            r is Ok ==> *final(self) == old(self).rebuilt(
                collection@,
                model@,
                embedded_at@,
                views(embeddings@),
            ),
            r is Err ==> *final(self) == *old(self),
    ;
}

/// The view of an optional embedding model.
pub open spec fn opt_model(m: Option<EmbeddingModel>) -> Option<Seq<char>> {
    match m {
        Some(x) => Some(x@),
        None => None,
    }
}

/// The view of an optional semantic index status.
pub open spec fn opt_status(s: Option<SemanticIndexStatus>) -> Option<(Seq<char>, Seq<char>, usize, u64)> {
    match s {
        Some(x) => Some(x@),
        None => None,
    }
}

} // verus!
