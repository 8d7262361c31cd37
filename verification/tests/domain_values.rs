use mdsearch::collection::{CollectionName, CollectionNameError};
use mdsearch::content_hash::{ContentHash, ContentHashError};
use mdsearch::embedding::{
    Embedding, EmbeddingModel, EmbeddingModelError, SemanticIndexStatus, SemanticPassage,
};
use mdsearch::file_id::FileId;
use mdsearch::fusion::{free_text_to_fts5, quote_term, PassageKey};
use mdsearch::passage::PassageKind;
use mdsearch::reranking::{RerankerModel, RerankerModelError};
use mdsearch::timestamp::Timestamp;

#[test]
fn trims_surrounding_whitespace_before_storage() -> Result<(), &'static str> {
    let name = CollectionName::try_from("  Notes  ").map_err(|e| e.message())?;
    assert_eq!(name.display_name(), "Notes");
    Ok(())
}

#[test]
fn rejects_invalid_collection_names() {
    let cases = [
        ("", CollectionNameError::Empty),
        ("   ", CollectionNameError::Empty),
        ("Notes/2026", CollectionNameError::PathSeparator),
        ("Notes\\2026", CollectionNameError::PathSeparator),
        ("Notes\n2026", CollectionNameError::ControlCharacter),
    ];
    for (raw, expected) in cases {
        assert_eq!(CollectionName::try_from(raw), Err(expected));
    }
}

#[test]
fn retains_display_spelling_and_normalizes_comparison_key() -> Result<(), &'static str> {
    let name = CollectionName::try_from(" Notes ").map_err(|e| e.message())?;
    assert_eq!(name.display_name(), "Notes");
    assert_eq!(name.name_key(), "notes");
    Ok(())
}

#[test]
fn accepts_a_long_collection_name() {
    let raw_name = "n".repeat(10_000);
    assert!(CollectionName::try_from(raw_name.as_str()).is_ok());
}

#[test]
fn generates_the_expected_comparison_key() {
    for raw in ["A", "Zeta", "mixedCASE", "abcdefghijklmnopqrstuvwxyzABCDEF"] {
        let key = CollectionName::try_from(raw).map(|name| name.name_key().to_owned());
        assert_eq!(key, Ok(raw.to_lowercase()));
    }
}

#[test]
fn collection_name_errors_describe_themselves() {
    assert_eq!(CollectionNameError::Empty.message(), "collection name is empty");
    assert_eq!(
        CollectionNameError::PathSeparator.message(),
        "collection name contains a path separator"
    );
    assert_eq!(
        CollectionNameError::ControlCharacter.message(),
        "collection name contains a control character"
    );
}

#[test]
fn hashes_identical_content_identically() {
    assert_eq!(ContentHash::from_content(b"same content"), ContentHash::from_content(b"same content"));
}

#[test]
fn hashes_differing_content_differently() {
    assert_ne!(ContentHash::from_content(b"first"), ContentHash::from_content(b"second"));
}

#[test]
fn produces_a_64_character_lowercase_hex_string() {
    let hash = ContentHash::from_content(b"content");
    let hex = hash.as_str();
    assert_eq!(hex.len(), 64);
    assert!(hex.chars().all(|c| c.is_ascii_hexdigit()));
    assert_eq!(hex, hex.to_lowercase());
}

#[test]
fn is_deterministic_for_arbitrary_content() {
    let samples: [&[u8]; 3] = [b"", b"\x00\x01\x02", b"a longer piece of content"];
    for content in samples {
        assert_eq!(ContentHash::from_content(content), ContentHash::from_content(content));
    }
}

#[test]
fn hashes_match_known_sha256_digests() {
    assert_eq!(
        ContentHash::from_content(b"").as_str(),
        "e3b0c44298fc1c149afbf4c8996fb92427ae41e4649b934ca495991b7852b855"
    );
    assert_eq!(
        ContentHash::from_content(b"abc").as_str(),
        "ba7816bf8f01cfea414140de5dae2223b00361a396177a9cb410ff61f20015ad"
    );
}

#[test]
fn parses_hex_hashes_and_rejects_others() {
    let text = "a".repeat(64);
    assert_eq!(ContentHash::try_from_hex(&text).map(|h| h.as_str().to_owned()), Ok(text.clone()));
    assert_eq!(ContentHash::try_from_hex(&"a".repeat(63)), Err(ContentHashError::InvalidHex));
    assert_eq!(ContentHash::try_from_hex(&"A".repeat(64)), Err(ContentHashError::InvalidHex));
    assert_eq!(ContentHash::try_from_hex(&"g".repeat(64)), Err(ContentHashError::InvalidHex));
}

#[test]
fn accepts_non_empty_model_names() -> Result<(), &'static str> {
    for name in ["all-MiniLM-L6-v2", "  all-MiniLM-L6-v2  "] {
        let model = EmbeddingModel::try_new(name).map_err(|e| e.message())?;
        assert_eq!(model.as_str(), "all-MiniLM-L6-v2");
    }
    for name in ["bge-reranker-base", "  bge-reranker-base  "] {
        let model = RerankerModel::try_new(name).map_err(|e| e.message())?;
        assert_eq!(model.as_str(), "bge-reranker-base");
    }
    Ok(())
}

#[test]
fn rejects_empty_model_names() {
    for name in ["", "   "] {
        assert_eq!(EmbeddingModel::try_new(name), Err(EmbeddingModelError::Empty));
        assert_eq!(EmbeddingModel::try_from(name), Err(EmbeddingModelError::Empty));
        assert_eq!(RerankerModel::try_new(name), Err(RerankerModelError::Empty));
        assert_eq!(RerankerModel::try_from(name), Err(RerankerModelError::Empty));
    }
}

#[test]
fn embedding_exposes_values_and_length() {
    let values = vec![0.1f32.to_bits(), 0.2f32.to_bits(), 0.3f32.to_bits()];
    let embedding = Embedding::new(values.clone());
    assert_eq!(embedding.len(), 3);
    assert_eq!(embedding.as_slice(), values.as_slice());
    assert!(!embedding.is_empty());
}

#[test]
fn embedding_reports_empty() {
    let embedding = Embedding::new(Vec::new());
    assert!(embedding.is_empty());
    assert_eq!(embedding.len(), 0);
}

#[test]
fn semantic_passage_exposes_its_identity() -> Result<(), &'static str> {
    let file = FileId::try_new(7).map_err(|e| e.message())?;
    let passage = SemanticPassage::new(file, PassageKind::Body, 2, "ownership rules".to_owned());
    assert_eq!(passage.file(), file);
    assert_eq!(passage.kind(), PassageKind::Body);
    assert_eq!(passage.position(), 2);
    assert_eq!(passage.text(), "ownership rules");
    Ok(())
}

#[test]
fn semantic_status_exposes_recorded_fields() -> Result<(), &'static str> {
    let model = EmbeddingModel::try_new("all-MiniLM-L6-v2").map_err(|e| e.message())?;
    let fingerprint = ContentHash::from_content(b"files");
    let status = SemanticIndexStatus::new(fingerprint, model, 5, Timestamp::from_unix_seconds(0));
    assert_eq!(status.passage_count(), 5);
    assert_eq!(status.model().as_str(), "all-MiniLM-L6-v2");
    assert_eq!(status.file_set_fingerprint(), &ContentHash::from_content(b"files"));
    assert_eq!(status.embedded_at(), Timestamp::from_unix_seconds(0));
    Ok(())
}

#[test]
fn passage_key_exposes_identity_components() -> Result<(), &'static str> {
    let passage = PassageKey::new(FileId::try_new(7).map_err(|e| e.message())?, PassageKind::Title, 1);
    assert_eq!(passage.file(), FileId::try_new(7).map_err(|e| e.message())?);
    assert_eq!(passage.kind(), PassageKind::Title);
    assert_eq!(passage.position(), 1);
    Ok(())
}

#[test]
fn maps_free_text_to_and_joined_quoted_terms() {
    assert_eq!(free_text_to_fts5("borrowing rust").as_deref(), Some("\"borrowing\" AND \"rust\""));
}

#[test]
fn neutralizes_fts5_operator_characters() {
    let cases = [
        ("a AND b", "\"a\" AND \"AND\" AND \"b\""),
        ("\"rust ownership\"", "\"\"\"rust\" AND \"ownership\"\"\""),
        ("prefix*", "\"prefix*\""),
    ];
    for (query, expected) in cases {
        assert_eq!(free_text_to_fts5(query).as_deref(), Some(expected));
    }
}

#[test]
fn collapses_whitespace() {
    assert_eq!(
        free_text_to_fts5("  borrowing   rust  ").as_deref(),
        Some("\"borrowing\" AND \"rust\"")
    );
}

#[test]
fn no_terms_maps_to_none() {
    assert_eq!(free_text_to_fts5(""), None);
    assert_eq!(free_text_to_fts5("   "), None);
    assert_eq!(free_text_to_fts5("\t\n\u{3000}"), None);
}

#[test]
fn quoting_doubles_inner_quotes() {
    assert_eq!(quote_term("say \"hi\""), "\"say \"\"hi\"\"\"");
    assert_eq!(quote_term(""), "\"\"");
}

use mdsearch::fingerprint::file_set_fingerprint;

#[test]
fn fingerprint_is_deterministic_for_identical_sets() -> Result<(), String> {
    let a = ContentHash::try_from_hex(&"a".repeat(64)).map_err(|e| e.message().to_owned())?;
    let b = ContentHash::try_from_hex(&"b".repeat(64)).map_err(|e| e.message().to_owned())?;
    let first = file_set_fingerprint(&[("a.md", &a), ("b.md", &b)]);
    let second = file_set_fingerprint(&[("b.md", &b), ("a.md", &a)]);
    assert_eq!(first, second);
    Ok(())
}

#[test]
fn fingerprint_changes_when_the_file_set_changes() -> Result<(), String> {
    let a = ContentHash::try_from_hex(&"a".repeat(64)).map_err(|e| e.message().to_owned())?;
    let b = ContentHash::try_from_hex(&"b".repeat(64)).map_err(|e| e.message().to_owned())?;
    assert_ne!(file_set_fingerprint(&[("a.md", &a)]), file_set_fingerprint(&[("a.md", &b)]));
    Ok(())
}

#[test]
fn fingerprint_changes_when_a_file_is_removed() -> Result<(), String> {
    let a = ContentHash::try_from_hex(&"a".repeat(64)).map_err(|e| e.message().to_owned())?;
    assert_ne!(file_set_fingerprint(&[("a.md", &a)]), file_set_fingerprint(&[]));
    Ok(())
}

#[test]
fn fingerprint_is_deterministic_for_arbitrary_sets() {
    let names = ["notes.md", "a/b.md", "a-b.md", "a.b.md", "z.md"];
    let hashes: Vec<ContentHash> =
        names.iter().map(|n| ContentHash::from_content(n.as_bytes())).collect();
    let files: Vec<(&str, &ContentHash)> = names.iter().copied().zip(hashes.iter()).collect();
    let mut reversed = files.clone();
    reversed.reverse();
    assert_eq!(file_set_fingerprint(&files), file_set_fingerprint(&reversed));
}

#[test]
fn fingerprint_sorts_by_path_components() {
    let h = ContentHash::from_content(b"x");
    let mut bytes = Vec::new();
    for path in ["notes/a.md", "notes-x/b.md"] {
        bytes.extend_from_slice(path.as_bytes());
        bytes.push(b'\n');
        bytes.extend_from_slice(h.as_str().as_bytes());
        bytes.push(b'\n');
    }
    assert_eq!(
        file_set_fingerprint(&[("notes-x/b.md", &h), ("notes/a.md", &h)]),
        ContentHash::from_content(&bytes)
    );
}

#[test]
fn timestamps_order_by_their_seconds() {
    let early = Timestamp::from_unix_seconds(5);
    let late = Timestamp::from_unix_seconds(9);
    assert!(early < late);
    assert!(late > early);
    assert_eq!(early.partial_cmp(&Timestamp::from_unix_seconds(5)), Some(std::cmp::Ordering::Equal));
    assert_eq!(late.cmp(&early), std::cmp::Ordering::Greater);
}

#[test]
fn fingerprint_ignores_order_with_repeated_entries() {
    let a = ContentHash::from_content(b"alpha");
    let b = ContentHash::from_content(b"beta");
    let first = file_set_fingerprint(&[("a.md", &a), ("b.md", &b), ("a.md", &a)]);
    let second = file_set_fingerprint(&[("a.md", &a), ("a.md", &a), ("b.md", &b)]);
    assert_eq!(first, second);
}
