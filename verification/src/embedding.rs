//! Value types for the semantic (vector) index.
use vstd::prelude::*;
use crate::content_hash::ContentHash;
use crate::file_id::FileId;
use crate::passage::PassageKind;
use crate::text::{trim, trimmed};
use crate::timestamp::Timestamp;

verus! {

/// Describes why an embedding model name is invalid.
#[derive(Clone, Copy, Debug, PartialEq, Eq, Structural)]
pub enum EmbeddingModelError {
    /// The name is empty or whitespace-only.
    Empty,
}

impl EmbeddingModelError {
    /// The human-readable description of the error.
    pub fn message(&self) -> (m: &'static str)
        ensures
            m@ == "embedding model name must not be empty"@,
    {
        "embedding model name must not be empty"
    }
}

/// A local embedding model identifier.
///
/// The name is the canonical identifier of a model supported by the embedding
/// generator; the generator validates supportedness, so this type only
/// enforces that the name is non-empty.
#[derive(Clone, Debug, PartialEq, Eq)]
pub struct EmbeddingModel(String);

impl View for EmbeddingModel {
    type V = Seq<char>;

    closed spec fn view(&self) -> Seq<char> {
        self.0@
    }
}

impl EmbeddingModel {
    /// Creates a model from a non-empty name, which is kept trimmed; an empty
    /// or whitespace-only name is an error.
    pub fn try_new(name: &str) -> (r: Result<EmbeddingModel, EmbeddingModelError>)
        ensures
            trim(name@).len() == 0 ==> r == Err::<EmbeddingModel, EmbeddingModelError>(
                EmbeddingModelError::Empty,
            ),
            trim(name@).len() > 0 ==> (r matches Ok(m) && m@ == trim(name@)),
    {
        let t = trimmed(name);
        if t.as_str().is_empty() {
            Err(EmbeddingModelError::Empty)
        } else {
            Ok(EmbeddingModel(t))
        }
    }

    /// Creates a model from a name (`TryFrom<&str>`).
    pub fn try_from(name: &str) -> (r: Result<EmbeddingModel, EmbeddingModelError>)
        ensures
            trim(name@).len() == 0 ==> r == Err::<EmbeddingModel, EmbeddingModelError>(
                EmbeddingModelError::Empty,
            ),
            trim(name@).len() > 0 ==> (r matches Ok(m) && m@ == trim(name@)),
    {
        EmbeddingModel::try_new(name)
    }

    /// Returns the model name.
    pub fn as_str(&self) -> (s: &str)
        ensures
            s@ == self@,
    {
        self.0.as_str()
    }

    /// A copy of this model identifier.
    pub fn duplicate(&self) -> (m: EmbeddingModel)
        ensures
            m@ == self@,
    {
        EmbeddingModel(self.0.clone())
    }
}

/// A dense vector produced by an embedding model.
///
/// Each component is held as the bit pattern of its `f32` value
/// (`f32::to_bits`); the library only counts components, and the adapters
/// convert to and from floating point.
#[derive(Clone, Debug, PartialEq, Eq)]
pub struct Embedding(Vec<u32>);

impl View for Embedding {
    type V = Seq<u32>;

    closed spec fn view(&self) -> Seq<u32> {
        self.0@
    }
}

impl Embedding {
    /// Creates an embedding from the bit patterns of its vector values.
    pub fn new(values: Vec<u32>) -> (e: Embedding)
        ensures
            e@ == values@,
    {
        Embedding(values)
    }

    /// Returns the bit patterns of the vector values.
    pub fn as_slice(&self) -> (v: &[u32])
        ensures
            v@ == self@,
    {
        self.0.as_slice()
    }

    /// Returns the number of dimensions.
    pub fn len(&self) -> (n: usize)
        ensures
            n == self@.len(),
    {
        self.0.len()
    }

    /// A copy of this embedding.
    pub fn duplicate(&self) -> (e: Embedding)
        ensures
            e@ == self@,
    {
        let mut v: Vec<u32> = Vec::new();
        let mut i: usize = 0;
        while i < self.0.len()
            invariant
                0 <= i <= self.0@.len(),
                v@ == self.0@.take(i as int),
            decreases self.0@.len() - i,
        {
            v.push(self.0[i]);
            i = i + 1;
            assert(v@ =~= self.0@.take(i as int));
        }
        assert(self.0@.take(i as int) =~= self.0@);
        Embedding(v)
    }

    /// Returns whether the embedding has no dimensions.
    pub fn is_empty(&self) -> (b: bool)
        ensures
            b == (self@.len() == 0),
    {
        self.0.len() == 0
    }
}

/// A passage selected for embedding, carrying its logical identity.
///
/// The logical identity `(file, kind, position)` is stable across lexical
/// index rebuilds because it does not depend on the physical FTS5 rowid.
#[derive(Clone, Debug, PartialEq, Eq)]
pub struct SemanticPassage {
    file: FileId,
    kind: PassageKind,
    position: usize,
    text: String,
}

impl View for SemanticPassage {
    type V = (u64, PassageKind, usize, Seq<char>);

    closed spec fn view(&self) -> (u64, PassageKind, usize, Seq<char>) {
        (self.file@, self.kind, self.position, self.text@)
    }
}

impl SemanticPassage {
    /// A copy of this passage.
    pub fn duplicate(&self) -> (p: SemanticPassage)
        ensures
            p@ == self@,
    {
        SemanticPassage {
            file: self.file,
            kind: self.kind,
            position: self.position,
            text: self.text.clone(),
        }
    }

    /// Creates a passage-to-embed with its logical identity and text.
    pub fn new(file: FileId, kind: PassageKind, position: usize, text: String) -> (p:
        SemanticPassage)
        ensures
            p@ == (file@, kind, position, text@),
    {
        SemanticPassage { file, kind, position, text }
    }

    /// Returns the owning file's ID.
    pub fn file(&self) -> (f: FileId)
        ensures
            f@ == self@.0,
    {
        self.file
    }

    /// Returns the passage kind.
    pub fn kind(&self) -> (k: PassageKind)
        ensures
            k == self@.1,
    {
        self.kind
    }

    /// Returns the passage's position within its file.
    pub fn position(&self) -> (p: usize)
        ensures
            p == self@.2,
    {
        self.position
    }

    /// Returns the passage text.
    pub fn text(&self) -> (t: &str)
        ensures
            t@ == self@.3,
    {
        self.text.as_str()
    }
}

/// The semantic index status of one collection.
#[derive(Clone, Debug, PartialEq, Eq)]
pub struct SemanticIndexStatus {
    file_set_fingerprint: ContentHash,
    model: EmbeddingModel,
    passage_count: usize,
    embedded_at: Timestamp,
}

impl View for SemanticIndexStatus {
    /// The fingerprint, the model, the passage count and the embedding time.
    type V = (Seq<char>, Seq<char>, usize, u64);

    closed spec fn view(&self) -> (Seq<char>, Seq<char>, usize, u64) {
        (self.file_set_fingerprint@, self.model@, self.passage_count, self.embedded_at@)
    }
}

impl SemanticIndexStatus {
    /// Creates a semantic index status record.
    pub fn new(
        file_set_fingerprint: ContentHash,
        model: EmbeddingModel,
        passage_count: usize,
        embedded_at: Timestamp,
    ) -> (s: SemanticIndexStatus)
        ensures
            s@ == (file_set_fingerprint@, model@, passage_count, embedded_at@),
    {
        SemanticIndexStatus { file_set_fingerprint, model, passage_count, embedded_at }
    }

    /// Returns the stored file-set fingerprint the vectors were built from.
    pub fn file_set_fingerprint(&self) -> (f: &ContentHash)
        ensures
            f@ == self@.0,
    {
        &self.file_set_fingerprint
    }

    /// Returns the model the vectors were generated with.
    pub fn model(&self) -> (m: &EmbeddingModel)
        ensures
            m@ == self@.1,
    {
        &self.model
    }

    /// Returns the number of embedded passages.
    pub fn passage_count(&self) -> (n: usize)
        ensures
            n == self@.2,
    {
        self.passage_count
    }

    /// Returns when the semantic index was last embedded.
    pub fn embedded_at(&self) -> (t: Timestamp)
        ensures
            t@ == self@.3,
    {
        self.embedded_at
    }
}

} // verus!
