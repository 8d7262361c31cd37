use mdsearch::fixtures::{count_lines, decimal_string, validate_fixtures, CorpusDoc};
use mdsearch::xtask::{QrelItem, QueryItem};

fn doc(doc_id: &str, content: &str) -> CorpusDoc {
    CorpusDoc {
        doc_id: doc_id.to_string(),
        path: format!("{doc_id}.md"),
        title: "Doc 1".to_string(),
        content: content.to_string(),
    }
}

fn query(query_id: &str) -> QueryItem {
    QueryItem {
        query_id: query_id.to_string(),
        query_text: "test".to_string(),
        modality: "lexical".to_string(),
        description: "desc".to_string(),
    }
}

fn qrel(query_id: &str, doc_id: &str, line_start: usize, line_end: usize, score: u8) -> QrelItem {
    QrelItem {
        query_id: query_id.to_string(),
        doc_id: doc_id.to_string(),
        line_start,
        line_end,
        score,
    }
}

#[test]
fn validate_fixtures_succeeds_on_valid_data() {
    let corpus = vec![CorpusDoc {
        doc_id: "doc1".to_string(),
        path: "doc1.md".to_string(),
        title: "Doc 1".to_string(),
        content: "Line 1\nLine 2\nLine 3\nLine 4\nLine 5\n".to_string(),
    }];

    let queries = vec![QueryItem {
        query_id: "q1".to_string(),
        query_text: "test".to_string(),
        modality: "lexical".to_string(),
        description: "desc".to_string(),
    }];

    let qrels = vec![QrelItem {
        query_id: "q1".to_string(),
        doc_id: "doc1".to_string(),
        line_start: 1,
        line_end: 4,
        score: 2,
    }];

    assert!(validate_fixtures(&corpus, &queries, &qrels).is_ok());
}

#[test]
fn validate_fixtures_detects_invalid_queries_and_bounds() {
    let corpus = vec![CorpusDoc {
        doc_id: "doc1".to_string(),
        path: "doc1.md".to_string(),
        title: "Doc 1".to_string(),
        content: "Line 1\nLine 2\n".to_string(),
    }];

    let queries = vec![QueryItem {
        query_id: "q1".to_string(),
        query_text: "test".to_string(),
        modality: "lexical".to_string(),
        description: "desc".to_string(),
    }];

    let qrels = vec![
        QrelItem {
            query_id: "q_unknown".to_string(),
            doc_id: "doc1".to_string(),
            line_start: 1,
            line_end: 2,
            score: 1,
        },
        QrelItem {
            query_id: "q1".to_string(),
            doc_id: "doc_unknown".to_string(),
            line_start: 1,
            line_end: 2,
            score: 1,
        },
        QrelItem {
            query_id: "q1".to_string(),
            doc_id: "doc1".to_string(),
            line_start: 1,
            line_end: 10,
            score: 1,
        },
        QrelItem {
            query_id: "q1".to_string(),
            doc_id: "doc1".to_string(),
            line_start: 1,
            line_end: 2,
            score: 5,
        },
    ];

    let result = validate_fixtures(&corpus, &queries, &qrels);
    assert!(result.is_err());
    let err = result.err().unwrap_or_default();
    assert!(err.contains("unknown query_id"));
    assert!(err.contains("unknown doc_id"));
    assert!(err.contains("invalid line range"));
    assert!(err.contains("invalid score"));
}

#[test]
fn fixture_report_lists_every_problem_in_order() {
    let corpus = vec![doc("doc1", "Line 1\nLine 2\n")];
    let queries = vec![query("q1")];
    let qrels = vec![
        qrel("q_unknown", "doc1", 1, 2, 1),
        qrel("q1", "doc_unknown", 1, 2, 1),
        qrel("q1", "doc1", 1, 10, 1),
        qrel("q1", "doc1", 1, 2, 5),
    ];
    let err = validate_fixtures(&corpus, &queries, &qrels).unwrap_err();
    assert_eq!(
        err,
        "Fixture integrity validation failed with 4 error(s):\n  - \
         qrel[1] (q_unknown:doc1): unknown query_id 'q_unknown'\n  - \
         qrel[2] (q1:doc_unknown): unknown doc_id 'doc_unknown'\n  - \
         qrel[3] (q1:doc1): invalid line range 1-10 (doc has 2 lines)\n  - \
         qrel[4] (q1:doc1): invalid score 5 (must be 0, 1, or 2)"
    );
}

#[test]
fn one_judgment_can_fail_three_ways() {
    let corpus = vec![doc("doc1", "only line")];
    let qrels = vec![qrel("q9", "doc1", 0, 1, 3)];
    let err = validate_fixtures(&corpus, &[], &qrels).unwrap_err();
    assert_eq!(
        err,
        "Fixture integrity validation failed with 3 error(s):\n  - \
         qrel[1] (q9:doc1): unknown query_id 'q9'\n  - \
         qrel[1] (q9:doc1): invalid line range 0-1 (doc has 1 lines)\n  - \
         qrel[1] (q9:doc1): invalid score 3 (must be 0, 1, or 2)"
    );
}

#[test]
fn reversed_range_is_rejected() {
    let corpus = vec![doc("doc1", "a\nb\nc")];
    let qrels = vec![qrel("q1", "doc1", 3, 2, 0)];
    let err = validate_fixtures(&corpus, &[query("q1")], &qrels).unwrap_err();
    assert!(err.contains("invalid line range 3-2 (doc has 3 lines)"));
}

#[test]
fn no_judgments_means_no_errors() {
    assert_eq!(validate_fixtures(&[], &[], &[]), Ok(()));
}

#[test]
fn lines_are_counted_like_str_lines() {
    for text in ["", "\n", "a", "a\n", "a\nb", "a\r\nb\r\n", "\n\n", "x\n\ny"] {
        assert_eq!(count_lines(text), text.lines().count(), "{text:?}");
    }
}

#[test]
fn numbers_are_spelled_in_decimal() {
    assert_eq!(decimal_string(0), "0");
    assert_eq!(decimal_string(7), "7");
    assert_eq!(decimal_string(10), "10");
    assert_eq!(decimal_string(18446744073709551615), "18446744073709551615");
}
