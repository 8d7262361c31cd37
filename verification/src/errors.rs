//! The failures the use cases and their ports report.
//!
//! Each error carries, in place of an underlying error object, the text that
//! describes the underlying cause; `message` gives the error's own
//! description.
use vstd::prelude::*;
use crate::sorted::views;

verus! {

/// `a` followed by `b`.
pub fn concat_str(a: &str, b: &str) -> (r: String)
    ensures
        r@ == a@ + b@,
{
    let mut s = a.to_owned();
    s.append(b);
    s
}

/// The `Debug` spelling of a list of paths, as `format!("{:?}", ..)` writes
/// a `Vec<PathBuf>`.
pub uninterp spec fn debug_list_of(items: Seq<Seq<char>>) -> Seq<char>;

/// Formats a list of paths with `Debug`, each as a `PathBuf`
/// (`format!("{:?}", paths)` of the `Vec<PathBuf>`).
#[verifier::external_body]
fn debug_list(items: &Vec<String>) -> (r: String)
    ensures
        r@ == debug_list_of(views(items@)),
{
    let paths: Vec<std::path::PathBuf> = items.iter().map(std::path::PathBuf::from).collect();
    format!("{:?}", paths)
}

/// Describes a failure while creating a collection in a store.
#[derive(Clone, Debug, PartialEq, Eq)]
pub enum CollectionStoreError {
    /// A case-insensitive equivalent already exists.
    Duplicate,
    /// The requested collection does not exist.
    CollectionNotFound,
    /// The selected database does not exist.
    DatabaseNotFound,
    /// The selected database could not be created or opened.
    DatabaseUnavailable(String),
    /// The database operation failed after it was opened.
    Storage(String),
}

impl CollectionStoreError {
    /// The description of the error.
    pub open spec fn text(&self) -> Seq<char> {
        match self {
            CollectionStoreError::Duplicate => "collection name is already in use"@,
            CollectionStoreError::CollectionNotFound => "collection not found"@,
            CollectionStoreError::DatabaseNotFound => "database does not exist"@,
            CollectionStoreError::DatabaseUnavailable(_) => "database is unavailable"@,
            CollectionStoreError::Storage(_) => "collection storage failed"@,
        }
    }

    /// The human-readable description of the error.
    pub fn message(&self) -> (m: &'static str)
        ensures
            m@ == self.text(),
    {
        match self {
            CollectionStoreError::Duplicate => "collection name is already in use",
            CollectionStoreError::CollectionNotFound => "collection not found",
            CollectionStoreError::DatabaseNotFound => "database does not exist",
            CollectionStoreError::DatabaseUnavailable(_) => "database is unavailable",
            CollectionStoreError::Storage(_) => "collection storage failed",
        }
    }
}

/// Describes a failure while obtaining the current time.
#[derive(Clone, Debug, PartialEq, Eq)]
pub enum ClockError {
    /// The system clock could not represent the current time.
    Unavailable(String),
}

impl ClockError {
    /// The human-readable description of the error.
    pub fn message(&self) -> (m: &'static str)
        ensures
            m@ == "system clock is unavailable"@,
    {
        "system clock is unavailable"
    }
}

/// Describes a failure from the create-collection use case.
#[derive(Clone, Debug, PartialEq, Eq)]
pub enum CreateCollectionError {
    /// The clock could not provide creation metadata.
    Clock(ClockError),
    /// The collection store rejected or failed the creation.
    Store(CollectionStoreError),
}

impl CreateCollectionError {
    /// The description of the underlying failure.
    pub fn message(&self) -> (m: &'static str)
        ensures
            self is Clock ==> m@ == "system clock is unavailable"@,
            self matches CreateCollectionError::Store(e) ==> m@ == e.text(),
    {
        match self {
            CreateCollectionError::Clock(e) => e.message(),
            CreateCollectionError::Store(e) => e.message(),
        }
    }
}

/// Describes a failure from the list-collections use case.
#[derive(Clone, Debug, PartialEq, Eq)]
pub enum ListCollectionsError {
    /// The collection store rejected or failed the listing.
    Store(CollectionStoreError),
}

/// Describes a failure from the destroy-collection use case.
#[derive(Clone, Debug, PartialEq, Eq)]
pub enum DestroyCollectionError {
    /// The collection store rejected or failed the destruction.
    Store(CollectionStoreError),
}

/// Describes a failure while discovering or reading markdown files.
#[derive(Clone, Debug, PartialEq, Eq)]
pub enum FileSystemError {
    /// The path does not exist or cannot be read.
    Unreadable {
        /// The path that could not be read.
        path: String,
        /// The description of the underlying filesystem error.
        detail: String,
    },
}

impl FileSystemError {
    /// The human-readable description of the error, naming the path.
    pub fn message(&self) -> (m: String)
        ensures
            self matches FileSystemError::Unreadable { path, .. } ==> m@ == "path is unreadable: "@
                + path@,
    {
        match self {
            FileSystemError::Unreadable { path, .. } => concat_str(
                "path is unreadable: ",
                path.as_str(),
            ),
        }
    }
}

/// Describes a failure while storing files in a collection.
#[derive(Clone, Debug, PartialEq, Eq)]
pub enum FileStoreError {
    /// The requested collection does not exist.
    CollectionNotFound,
    /// The database operation failed after it was opened.
    Storage(String),
}

impl FileStoreError {
    /// The human-readable description of the error.
    pub fn message(&self) -> (m: &'static str)
        ensures
            self is CollectionNotFound ==> m@ == "collection not found"@,
            self is Storage ==> m@ == "file storage failed"@,
    {
        match self {
            FileStoreError::CollectionNotFound => "collection not found",
            FileStoreError::Storage(_) => "file storage failed",
        }
    }
}

/// Describes a failure from the add-files use case.
#[derive(Clone, Debug, PartialEq, Eq)]
pub enum AddFilesError {
    /// The clock could not provide ingest timestamps.
    Clock(ClockError),
    /// A file could not be discovered or read.
    FileSystem(FileSystemError),
    /// The file store rejected or failed the ingestion.
    FileStore(FileStoreError),
}

/// Describes a failure from the update-collection use case.
#[derive(Clone, Debug, PartialEq, Eq)]
pub enum UpdateCollectionError {
    /// The clock could not provide ingest timestamps.
    Clock(ClockError),
    /// A file could not be discovered or read.
    FileSystem(FileSystemError),
    /// The file store rejected or failed the reconciliation.
    FileStore(FileStoreError),
}

/// Describes a failure while reading lexical index state.
#[derive(Clone, Debug, PartialEq, Eq)]
pub enum IndexStoreError {
    /// The database operation failed after it was opened.
    Storage(String),
}

impl IndexStoreError {
    /// The human-readable description of the error.
    pub fn message(&self) -> (m: &'static str)
        ensures
            m@ == "index storage failed"@,
    {
        "index storage failed"
    }
}

/// Describes a failure from the index-status use case.
#[derive(Clone, Debug, PartialEq, Eq)]
pub enum IndexStatusError {
    /// The index store rejected or failed the status read.
    Store(IndexStoreError),
}

/// Describes a failure while searching the lexical index.
#[derive(Clone, Debug, PartialEq, Eq)]
pub enum SearchStoreError {
    /// The requested collection does not exist.
    CollectionNotFound,
    /// The requested collection's index has never been built.
    IndexNotBuilt,
    /// The query is not valid FTS5 match syntax.
    InvalidQuery {
        /// The engine's description of the query problem.
        message: String,
    },
    /// The database operation failed after it was opened.
    Storage(String),
}

impl SearchStoreError {
    /// The human-readable description of the error.
    pub fn message(&self) -> (m: String)
        ensures
            self is CollectionNotFound ==> m@ == "collection not found"@,
            self is IndexNotBuilt ==> m@ == "lexical index is not built"@,
            self matches SearchStoreError::InvalidQuery { message } ==> m@ == "invalid query: "@
                + message@,
            self is Storage ==> m@ == "search storage failed"@,
    {
        match self {
            SearchStoreError::CollectionNotFound => "collection not found".to_owned(),
            SearchStoreError::IndexNotBuilt => "lexical index is not built".to_owned(),
            SearchStoreError::InvalidQuery { message } => concat_str(
                "invalid query: ",
                message.as_str(),
            ),
            SearchStoreError::Storage(_) => "search storage failed".to_owned(),
        }
    }
}

/// Describes a failure from the lexical-search use case.
#[derive(Clone, Debug, PartialEq, Eq)]
pub enum SearchError {
    /// The query is empty or whitespace-only.
    EmptyQuery,
    /// The search store rejected or failed the search.
    Store(SearchStoreError),
}

/// Describes a failure while looking up a stored file for retrieval.
#[derive(Clone, Debug, PartialEq, Eq)]
pub enum FileRetrievalStoreError {
    /// The requested collection does not exist.
    CollectionNotFound,
    /// The database operation failed after it was opened.
    Storage(String),
}

impl FileRetrievalStoreError {
    /// The description of the error.
    pub open spec fn text(&self) -> Seq<char> {
        match self {
            FileRetrievalStoreError::CollectionNotFound => "collection not found"@,
            FileRetrievalStoreError::Storage(_) => "file retrieval storage failed"@,
        }
    }

    /// The human-readable description of the error.
    pub fn message(&self) -> (m: &'static str)
        ensures
            m@ == self.text(),
    {
        match self {
            FileRetrievalStoreError::CollectionNotFound => "collection not found",
            FileRetrievalStoreError::Storage(_) => "file retrieval storage failed",
        }
    }
}

/// Describes a failure from the get-file use case.
#[derive(Clone, Debug, PartialEq, Eq)]
pub enum GetFileError {
    /// No file matches the supplied name or ID.
    FileNotFound,
    /// The basename matches more than one file; these are their paths.
    Ambiguous(Vec<String>),
    /// The retrieval store rejected or failed the lookup.
    Store(FileRetrievalStoreError),
}

impl GetFileError {
    /// The human-readable description of the error.
    pub fn message(&self) -> (m: String)
        ensures
            self is FileNotFound ==> m@ == "file not found"@,
            self matches GetFileError::Ambiguous(paths) ==> m@
                == "ambiguous basename; candidate paths: "@ + debug_list_of(views(paths@)),
            self matches GetFileError::Store(e) ==> m@ == e.text(),
    {
        match self {
            GetFileError::FileNotFound => "file not found".to_owned(),
            GetFileError::Ambiguous(paths) => {
                let list = debug_list(paths);
                concat_str("ambiguous basename; candidate paths: ", list.as_str())
            },
            GetFileError::Store(e) => e.message().to_owned(),
        }
    }
}

/// Describes a failure from the embedding generator.
#[derive(Clone, Debug, PartialEq, Eq)]
pub enum EmbeddingError {
    /// The model is not supported by the embedding library.
    UnsupportedModel {
        /// The model that is not supported.
        model: String,
    },
    /// The model's assets are not cached locally and no download was requested.
    ModelNotCached {
        /// The model whose assets are missing.
        model: String,
    },
    /// The model assets could not be downloaded.
    DownloadFailed {
        /// The model whose assets could not be downloaded.
        model: String,
        /// The description of the underlying download error.
        detail: String,
    },
    /// Embedding generation failed.
    Storage(String),
}

/// The description of a model error: `kind` names the model family
/// (`embedding` or `re-ranker`).
pub open spec fn model_error_text(kind: Seq<char>, variant: int, model: Seq<char>) -> Seq<char> {
    if variant == 0 {
        kind + " model "@ + model + " is not supported"@
    } else if variant == 1 {
        kind + " model "@ + model + " is not available locally; pass --download to fetch it"@
    } else if variant == 2 {
        kind + " model "@ + model + " download failed"@
    } else {
        kind + " failed"@
    }
}

/// Builds the description of a model error.
fn model_error_message(kind: &str, variant: u8, model: &str) -> (m: String)
    requires
        variant < 4,
    ensures
        m@ == model_error_text(kind@, variant as int, model@),
{
    if variant == 3 {
        return concat_str(kind, " failed");
    }
    let head = concat_str(kind, " model ");
    let named = concat_str(head.as_str(), model);
    if variant == 0 {
        concat_str(named.as_str(), " is not supported")
    } else if variant == 1 {
        concat_str(named.as_str(), " is not available locally; pass --download to fetch it")
    } else {
        concat_str(named.as_str(), " download failed")
    }
}

impl EmbeddingError {
    /// The description of the error, naming the model.
    pub open spec fn text(&self) -> Seq<char> {
        match self {
            EmbeddingError::UnsupportedModel { model } => model_error_text("embedding"@, 0, model@),
            EmbeddingError::ModelNotCached { model } => model_error_text("embedding"@, 1, model@),
            EmbeddingError::DownloadFailed { model, .. } => model_error_text(
                "embedding"@,
                2,
                model@,
            ),
            EmbeddingError::Storage(_) => model_error_text("embedding"@, 3, Seq::empty()),
        }
    }

    /// The human-readable description of the error, naming the model.
    pub fn message(&self) -> (m: String)
        ensures
            m@ == self.text(),
    {
        match self {
            EmbeddingError::UnsupportedModel { model } => model_error_message(
                "embedding",
                0,
                model.as_str(),
            ),
            EmbeddingError::ModelNotCached { model } => model_error_message(
                "embedding",
                1,
                model.as_str(),
            ),
            EmbeddingError::DownloadFailed { model, .. } => model_error_message(
                "embedding",
                2,
                model.as_str(),
            ),
            EmbeddingError::Storage(_) => model_error_message("embedding", 3, ""),
        }
    }
}

/// Describes a failure from the re-ranker.
#[derive(Clone, Debug, PartialEq, Eq)]
pub enum RerankError {
    /// The model is not supported by the re-ranking library.
    UnsupportedModel {
        /// The model that is not supported.
        model: String,
    },
    /// The model's assets are not cached locally and no download was requested.
    ModelNotCached {
        /// The model whose assets are missing.
        model: String,
    },
    /// The model assets could not be downloaded.
    DownloadFailed {
        /// The model whose assets could not be downloaded.
        model: String,
        /// The description of the underlying download error.
        detail: String,
    },
    /// Re-ranking failed.
    Storage(String),
}

impl RerankError {
    /// The description of the error, naming the model.
    pub open spec fn text(&self) -> Seq<char> {
        match self {
            RerankError::UnsupportedModel { model } => model_error_text("re-ranker"@, 0, model@),
            RerankError::ModelNotCached { model } => model_error_text("re-ranker"@, 1, model@),
            RerankError::DownloadFailed { model, .. } => model_error_text("re-ranker"@, 2, model@),
            RerankError::Storage(_) => model_error_text("re-ranker"@, 3, Seq::empty()),
        }
    }

    /// The human-readable description of the error, naming the model.
    pub fn message(&self) -> (m: String)
        ensures
            m@ == self.text(),
    {
        match self {
            RerankError::UnsupportedModel { model } => model_error_message(
                "re-ranker",
                0,
                model.as_str(),
            ),
            RerankError::ModelNotCached { model } => model_error_message(
                "re-ranker",
                1,
                model.as_str(),
            ),
            RerankError::DownloadFailed { model, .. } => model_error_message(
                "re-ranker",
                2,
                model.as_str(),
            ),
            RerankError::Storage(_) => model_error_message("re-ranker", 3, ""),
        }
    }
}

/// Describes a failure while reading or writing the semantic index.
#[derive(Clone, Debug, PartialEq, Eq)]
pub enum SemanticIndexStoreError {
    /// The requested collection does not exist.
    CollectionNotFound,
    /// The database operation failed after it was opened.
    Storage(String),
}

impl SemanticIndexStoreError {
    /// The description of the error.
    pub open spec fn text(&self) -> Seq<char> {
        match self {
            SemanticIndexStoreError::CollectionNotFound => "collection not found"@,
            SemanticIndexStoreError::Storage(_) => "semantic index storage failed"@,
        }
    }

    /// The human-readable description of the error.
    pub fn message(&self) -> (m: &'static str)
        ensures
            m@ == self.text(),
    {
        match self {
            SemanticIndexStoreError::CollectionNotFound => "collection not found",
            SemanticIndexStoreError::Storage(_) => "semantic index storage failed",
        }
    }
}

/// Describes a failure from the embed-collections use case.
#[derive(Clone, Debug, PartialEq, Eq)]
pub enum EmbedError {
    /// The embedding generator rejected or failed the model or embedding.
    Generator(EmbeddingError),
    /// The re-ranker rejected or failed provisioning.
    Reranker(RerankError),
    /// The clock could not provide embed timestamps.
    Clock(ClockError),
    /// The semantic index store rejected or failed the operation.
    Store(SemanticIndexStoreError),
    /// The requested collection does not exist.
    CollectionNotFound,
    /// The requested collection's lexical index has never been built.
    IndexNotBuilt,
}

impl EmbedError {
    /// The human-readable description of the error.
    pub fn message(&self) -> (m: String)
        ensures
            self matches EmbedError::Generator(e) ==> m@ == e.text(),
            self matches EmbedError::Reranker(e) ==> m@ == e.text(),
            self is Clock ==> m@ == "system clock is unavailable"@,
            self matches EmbedError::Store(e) ==> m@ == e.text(),
            self is CollectionNotFound ==> m@ == "collection not found"@,
            self is IndexNotBuilt ==> m@ == "lexical index is not built"@,
    {
        match self {
            EmbedError::Generator(e) => e.message(),
            EmbedError::Reranker(e) => e.message(),
            EmbedError::Clock(e) => e.message().to_owned(),
            EmbedError::Store(e) => e.message().to_owned(),
            EmbedError::CollectionNotFound => "collection not found".to_owned(),
            EmbedError::IndexNotBuilt => "lexical index is not built".to_owned(),
        }
    }
}

/// Describes a failure while retrieving hybrid search candidates or the
/// models they depend on.
#[derive(Clone, Debug, PartialEq, Eq)]
pub enum HybridSearchStoreError {
    /// The requested collection does not exist.
    CollectionNotFound,
    /// The requested collection's lexical index has never been built.
    IndexNotBuilt,
    /// An in-scope collection's semantic index is out of date.
    StaleSemanticIndex,
    /// The database operation failed after it was opened.
    Storage(String),
}

/// Describes a failure from the hybrid-search use case.
#[derive(Clone, Debug, PartialEq, Eq)]
pub enum HybridError {
    /// The query is empty or whitespace-only.
    EmptyQuery,
    /// The embedding generator failed to embed the query.
    Generator(EmbeddingError),
    /// The hybrid search store rejected or failed the retrieval.
    Store(HybridSearchStoreError),
    /// The re-ranker rejected or failed the re-ranking.
    Rerank(RerankError),
}

} // verus!
