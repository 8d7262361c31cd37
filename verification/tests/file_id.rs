use mdsearch::file_id::{FileId, FileIdError};

#[test]
fn accepts_positive_values() -> Result<(), &'static str> {
    let id = FileId::try_new(42).map_err(|e| e.message())?;
    assert_eq!(id.as_u64(), 42);
    Ok(())
}

#[test]
fn rejects_zero() {
    assert_eq!(FileId::try_new(0), Err(FileIdError::Zero));
    assert_eq!(FileId::try_from(0), Err(FileIdError::Zero));
    assert_eq!(FileIdError::Zero.message(), "file ID must be positive");
}
