use mdsearch::passage::{segment_passages, FrontmatterIssue, Passage, PassageKind};

fn texts(content: &str) -> Vec<String> {
    let (passages, _) = segment_passages(content.as_bytes());
    passages.iter().map(|passage| passage.text().to_owned()).collect()
}

#[test]
fn segments_body_only_content_into_paragraphs() {
    let (passages, issue) = segment_passages(b"alpha\n\nbeta");
    assert_eq!(issue, None);
    assert_eq!(texts("alpha\n\nbeta"), vec!["alpha", "beta"]);
    assert!(passages.iter().all(|passage| passage.kind() == PassageKind::Body));
}

fn check_split(content: &str, expected: Vec<&str>) {
    let (passages, _) = segment_passages(content.as_bytes());
    let actual = passages.iter().map(Passage::text).collect::<Vec<_>>();
    assert_eq!(actual, expected);
}

#[test]
fn splits_paragraphs_on_blank_lines() {
    check_split("one\n\n\n\ntwo", vec!["one", "two"]);
    check_split("\n\none\n\ntwo\n\n", vec!["one", "two"]);
    check_split("one\n   \ntwo", vec!["one", "two"]);
    check_split("one\r\n\r\ntwo", vec!["one", "two"]);
    check_split("one\nwrapped\n\ntwo", vec!["one\nwrapped", "two"]);
}

#[test]
fn extracts_recognized_frontmatter_fields_as_own_passages() {
    let content = "---\ntitle: My Title\ntags: [rust, cli]\naliases: [mt, my]\nsummary: A summary.\n---\n\none\n\ntwo";
    let (passages, issue) = segment_passages(content.as_bytes());
    assert_eq!(issue, None);
    assert_eq!(
        passages.iter().map(Passage::kind).collect::<Vec<_>>(),
        vec![
            PassageKind::Title,
            PassageKind::Tags,
            PassageKind::Aliases,
            PassageKind::Summary,
            PassageKind::Body,
            PassageKind::Body,
        ]
    );
    assert_eq!(
        passages.iter().map(Passage::text).collect::<Vec<_>>(),
        vec!["My Title", "rust cli", "mt my", "A summary.", "one", "two"]
    );
}

#[test]
fn accepts_tags_as_a_scalar_list() {
    let content = "---\ntags: rust, cli\n---\n\nbody";
    let (passages, _) = segment_passages(content.as_bytes());
    assert_eq!(
        passages.iter().map(|passage| (passage.kind(), passage.text())).collect::<Vec<_>>(),
        vec![(PassageKind::Tags, "rust, cli"), (PassageKind::Body, "body")]
    );
}

#[test]
fn flags_malformed_frontmatter_and_indexes_body_only() {
    let content = "---\ntitle: \"unterminated\n: bad: : :\n---\n\nbody";
    let (passages, issue) = segment_passages(content.as_bytes());
    assert_eq!(issue, Some(FrontmatterIssue::Malformed));
    assert_eq!(passages.iter().map(Passage::kind).collect::<Vec<_>>(), vec![PassageKind::Body]);
    assert_eq!(passages.iter().map(Passage::text).collect::<Vec<_>>(), vec!["body"]);
}

#[test]
fn treats_missing_frontmatter_as_body_only() {
    let (passages, issue) = segment_passages(b"one\n\ntwo");
    assert_eq!(issue, None);
    assert!(passages.iter().all(|passage| passage.kind() == PassageKind::Body));
}

#[test]
fn treats_missing_closing_delimiter_as_body_only() {
    let (passages, issue) = segment_passages("---\ntitle: x".as_bytes());
    assert_eq!(issue, None);
    assert_eq!(passages.len(), 1);
    assert_eq!(passages.iter().map(Passage::kind).collect::<Vec<_>>(), vec![PassageKind::Body]);
}

#[test]
fn empty_content_produces_no_passages() {
    let (passages, issue) = segment_passages(b"");
    assert!(passages.is_empty());
    assert_eq!(issue, None);
}

#[test]
fn delimiter_only_content_produces_no_passages() {
    let (passages, issue) = segment_passages(b"---\n---\n");
    assert!(passages.is_empty());
    assert_eq!(issue, None);
}

#[test]
fn frontmatter_only_content_yields_field_passages() {
    let (passages, issue) = segment_passages("---\ntitle: Only Title\n---\n".as_bytes());
    assert_eq!(issue, None);
    assert_eq!(passages.len(), 1);
    assert_eq!(passages.iter().map(Passage::kind).collect::<Vec<_>>(), vec![PassageKind::Title]);
}

#[test]
fn passage_kinds_have_stable_keys() {
    assert_eq!(PassageKind::Body.as_str(), "body");
    assert_eq!(PassageKind::Title.as_str(), "title");
    assert_eq!(PassageKind::Tags.as_str(), "tags");
    assert_eq!(PassageKind::Aliases.as_str(), "aliases");
    assert_eq!(PassageKind::Summary.as_str(), "summary");
}

#[test]
fn body_passages_record_byte_offsets() {
    let (passages, _) = segment_passages(b"alpha\n\nbeta");
    assert_eq!(
        passages.iter().map(|p| (p.text().to_owned(), p.byte_offset())).collect::<Vec<_>>(),
        vec![("alpha".to_owned(), 0), ("beta".to_owned(), 7)]
    );
}

#[test]
fn repeated_paragraphs_get_distinct_offsets() {
    let (passages, _) = segment_passages(b"hello\n\nhello");
    let offsets = passages.iter().map(Passage::byte_offset).collect::<Vec<_>>();
    assert_eq!(offsets, vec![0, 7]);
}

#[test]
fn crlf_content_records_correct_offsets() {
    let (passages, _) = segment_passages(b"one\r\n\r\ntwo");
    assert_eq!(
        passages.iter().map(|p| (p.text().to_owned(), p.byte_offset())).collect::<Vec<_>>(),
        vec![("one".to_owned(), 0), ("two".to_owned(), 7)]
    );
}

#[test]
fn frontmatter_fields_record_key_line_offsets() -> Result<(), Box<dyn std::error::Error>> {
    let content = "---\ntags: [rust]\ntitle: Notes\n---\n\nbody";
    let (passages, _) = segment_passages(content.as_bytes());
    let tags = passages
        .iter()
        .find(|p| p.kind() == PassageKind::Tags)
        .ok_or("expected a tags passage")?;
    let title = passages
        .iter()
        .find(|p| p.kind() == PassageKind::Title)
        .ok_or("expected a title passage")?;
    assert_eq!(tags.byte_offset(), 4);
    assert_eq!(title.byte_offset(), 17);
    assert!(passages.iter().any(|p| p.kind() == PassageKind::Body));
    Ok(())
}

#[test]
fn body_paragraph_offset_skips_leading_whitespace() -> Result<(), Box<dyn std::error::Error>> {
    let (passages, _) = segment_passages(b"  indented paragraph\n\nnext");
    let first = passages
        .iter()
        .find(|p| p.kind() == PassageKind::Body)
        .ok_or("expected a body passage")?;
    assert_eq!(first.byte_offset(), 2);
    Ok(())
}

#[test]
fn from_key_round_trips_every_kind() {
    assert_eq!(PassageKind::from_key("body"), Some(PassageKind::Body));
    assert_eq!(PassageKind::from_key("title"), Some(PassageKind::Title));
    assert_eq!(PassageKind::from_key("tags"), Some(PassageKind::Tags));
    assert_eq!(PassageKind::from_key("aliases"), Some(PassageKind::Aliases));
    assert_eq!(PassageKind::from_key("summary"), Some(PassageKind::Summary));
}

#[test]
fn from_key_rejects_unknown_keys() {
    assert_eq!(PassageKind::from_key("frontmatter"), None);
    assert_eq!(PassageKind::from_key(""), None);
    assert_eq!(PassageKind::from_key("BODY"), None);
}

#[test]
fn segmentation_is_deterministic() {
    let samples: [&[u8]; 4] = [b"", b"---\ntitle: t\n---\n\na\n\nb", b"\xff\xfe\n\nx", b"a\r\n\r\n\r\nb"];
    for content in samples {
        assert_eq!(segment_passages(content), segment_passages(content));
    }
}

#[test]
fn paragraph_count_matches_blank_line_separated_groups() {
    let paragraphs = vec![vec!["a1", "a2"], vec!["b"], vec!["c1", "c2", "c3"]];
    let content = paragraphs.iter().map(|lines| lines.join("\n")).collect::<Vec<_>>().join("\n\n");
    let (passages, _) = segment_passages(content.as_bytes());
    let body_count = passages.iter().filter(|p| p.kind() == PassageKind::Body).count();
    assert_eq!(body_count, paragraphs.len());
}

#[test]
fn body_offsets_point_at_the_paragraph_text() {
    let content = "---\ntitle: é\n---\n\nñandú\n\n  x y\n";
    let (passages, _) = segment_passages(content.as_bytes());
    for p in passages.iter().filter(|p| p.kind() == PassageKind::Body) {
        assert!(content[p.byte_offset()..].starts_with(p.text()));
    }
}
