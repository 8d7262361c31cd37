//! Value types for cross-encoder re-ranking.
use vstd::prelude::*;
use crate::text::{trim, trimmed};

verus! {

/// Describes why a re-ranker model name is invalid.
#[derive(Clone, Copy, Debug, PartialEq, Eq, Structural)]
pub enum RerankerModelError {
    /// The name is empty or whitespace-only.
    Empty,
}

impl RerankerModelError {
    /// The human-readable description of the error.
    pub fn message(&self) -> (m: &'static str)
        ensures
            m@ == "re-ranker model name must not be empty"@,
    {
        "re-ranker model name must not be empty"
    }
}

/// A local cross-encoder re-ranker model identifier.
///
/// The name is the canonical identifier of a model supported by the re-ranker
/// adapter; the adapter validates supportedness, so this type only enforces
/// that the name is non-empty.
#[derive(Clone, Debug, PartialEq, Eq)]
pub struct RerankerModel(String);

impl View for RerankerModel {
    type V = Seq<char>;

    closed spec fn view(&self) -> Seq<char> {
        self.0@
    }
}

impl RerankerModel {
    /// Creates a re-ranker model from a non-empty name, which is kept
    /// trimmed; an empty or whitespace-only name is an error.
    pub fn try_new(name: &str) -> (r: Result<RerankerModel, RerankerModelError>)
        ensures
            trim(name@).len() == 0 ==> r == Err::<RerankerModel, RerankerModelError>(
                RerankerModelError::Empty,
            ),
            trim(name@).len() > 0 ==> (r matches Ok(m) && m@ == trim(name@)),
    {
        let t = trimmed(name);
        if t.as_str().is_empty() {
            Err(RerankerModelError::Empty)
        } else {
            Ok(RerankerModel(t))
        }
    }

    /// Creates a re-ranker model from a name (`TryFrom<&str>`).
    pub fn try_from(name: &str) -> (r: Result<RerankerModel, RerankerModelError>)
        ensures
            trim(name@).len() == 0 ==> r == Err::<RerankerModel, RerankerModelError>(
                RerankerModelError::Empty,
            ),
            trim(name@).len() > 0 ==> (r matches Ok(m) && m@ == trim(name@)),
    {
        RerankerModel::try_new(name)
    }

    /// Returns the model name.
    pub fn as_str(&self) -> (s: &str)
        ensures
            s@ == self@,
    {
        self.0.as_str()
    }
}

} // verus!
