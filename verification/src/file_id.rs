//! The indexing-assigned identifier of a stored file.
use vstd::prelude::*;

verus! {

/// A positive indexing-assigned file ID.
#[derive(Clone, Copy, Debug, PartialEq, Eq, Structural, Hash, PartialOrd, Ord)]
pub struct FileId(u64);

impl View for FileId {
    type V = u64;

    closed spec fn view(&self) -> u64 {
        self.0
    }
}

/// Describes why a file ID is invalid.
#[derive(Clone, Copy, Debug, PartialEq, Eq, Structural)]
pub enum FileIdError {
    /// The value is zero; file IDs are positive.
    Zero,
}

impl FileIdError {
    /// The human-readable description of the error.
    pub fn message(&self) -> (m: &'static str)
        ensures
            m@ == "file ID must be positive"@,
    {
        "file ID must be positive"
    }
}

impl FileId {
    /// File IDs are positive.
    #[verifier::type_invariant]
    closed spec fn positive(self) -> bool {
        self.0 > 0
    }

    /// Creates a file ID from a positive value.
    ///
    /// Returns a zero error when the value is zero.
    pub fn try_new(value: u64) -> (r: Result<FileId, FileIdError>)
        ensures
            value == 0 <==> r == Err::<FileId, FileIdError>(FileIdError::Zero),
            value != 0 ==> (r matches Ok(id) && id@ == value),
    {
        if value == 0 {
            Err(FileIdError::Zero)
        } else {
            Ok(FileId(value))
        }
    }

    /// Creates a file ID from a positive value (`TryFrom<u64>`).
    pub fn try_from(value: u64) -> (r: Result<FileId, FileIdError>)
        ensures
            value == 0 <==> r == Err::<FileId, FileIdError>(FileIdError::Zero),
            value != 0 ==> (r matches Ok(id) && id@ == value),
    {
        FileId::try_new(value)
    }

    /// Returns the file ID as its underlying value.
    pub fn as_u64(self) -> (v: u64)
        ensures
            v == self@,
            v > 0,
    {
        proof {
            use_type_invariant(&self);
        }
        self.0
    }
}

} // verus!
