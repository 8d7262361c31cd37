use mdsearch::evaluation::{
    baseline_rankings, first_relevant_rank, grade_queries, hit_within, ideal_grades, judgments_for, modality_order,
    ranking_index, relevance_grades, QueryRanking, RetrievedSpan,
};
use mdsearch::xtask::{QrelItem, QueryItem};

fn query(query_id: &str, modality: &str) -> QueryItem {
    QueryItem {
        query_id: query_id.to_string(),
        query_text: format!("{modality} test"),
        modality: modality.to_string(),
        description: "desc".to_string(),
    }
}

fn qrel(query_id: &str, doc_id: &str, line_start: usize, line_end: usize, score: u8) -> QrelItem {
    QrelItem {
        query_id: query_id.to_string(),
        doc_id: doc_id.to_string(),
        line_start,
        line_end,
        score,
    }
}

fn span(doc_id: &str, line_start: usize, line_end: usize) -> RetrievedSpan {
    RetrievedSpan {
        doc_id: doc_id.to_string(),
        line_start,
        line_end,
    }
}

#[test]
fn hit_rate_basis_looks_only_at_the_top_k() {
    assert!(hit_within(&[0, 2, 0], 3));
    assert!(hit_within(&[0, 1, 0], 2));
    assert!(!hit_within(&[0, 0, 1], 2));
    assert!(!hit_within(&[0, 0, 0], 5));
    assert!(!hit_within(&[], 5));
}

#[test]
fn first_relevant_rank_is_one_based() {
    assert_eq!(first_relevant_rank(&[2, 0, 0], 3), Some(1));
    assert_eq!(first_relevant_rank(&[0, 1, 0], 3), Some(2));
    assert_eq!(first_relevant_rank(&[0, 0, 2], 3), Some(3));
    assert_eq!(first_relevant_rank(&[0, 0, 0], 3), None);
    assert_eq!(first_relevant_rank(&[0, 0, 2], 2), None);
}

#[test]
fn ideal_grades_keep_positive_scores_highest_first() {
    let js = vec![
        qrel("q1", "d1", 1, 10, 1),
        qrel("q1", "d2", 1, 10, 0),
        qrel("q1", "d3", 1, 10, 2),
        qrel("q1", "d4", 1, 10, 1),
        qrel("q1", "d5", 1, 10, 7),
    ];
    assert_eq!(ideal_grades(&js), vec![7, 2, 1, 1]);
    assert_eq!(ideal_grades(&[]), Vec::<u8>::new());
}

#[test]
fn judgments_are_grouped_by_query_in_order() {
    let qrels = vec![
        qrel("q1", "d1", 1, 10, 2),
        qrel("q2", "d2", 1, 10, 1),
        qrel("q1", "d3", 4, 6, 1),
    ];
    let js = judgments_for(&qrels, "q1");
    assert_eq!(js, vec![qrels[0].clone(), qrels[2].clone()]);
    assert!(judgments_for(&qrels, "q9").is_empty());
}

#[test]
fn rankings_are_found_by_query() {
    let rankings = vec![
        QueryRanking { query_id: "q2".to_string(), items: vec![span("d2", 1, 3)] },
        QueryRanking { query_id: "q1".to_string(), items: vec![] },
    ];
    assert_eq!(ranking_index(&rankings, "q1"), Some(1));
    assert_eq!(ranking_index(&rankings, "q2"), Some(0));
    assert_eq!(ranking_index(&rankings, "q3"), None);
}

#[test]
fn grades_take_the_best_applicable_judgment() {
    let js = vec![qrel("q1", "d1", 10, 20, 1), qrel("q1", "d1", 15, 18, 2), qrel("q1", "d2", 1, 5, 2)];
    let items = vec![span("d1", 16, 17), span("d1", 12, 13), span("d1", 30, 40), span("d3", 1, 2)];
    assert_eq!(relevance_grades(&js, &items), vec![2, 1, 0, 0]);
}

#[test]
fn modalities_are_reported_in_fixed_then_alphabetical_order() {
    let queries = vec![
        query("q1", "zeta"),
        query("q2", "contextual"),
        query("q3", "semantic"),
        query("q4", "hard_negative"),
        query("q5", "lexical"),
        query("q6", "semantic"),
    ];
    assert_eq!(
        modality_order(&queries),
        vec!["lexical", "semantic", "contextual", "hard_negative", "zeta"]
    );
    assert!(modality_order(&[]).is_empty());
}

#[test]
fn queries_are_graded_against_their_own_judgments() {
    let queries = vec![query("q1", "lexical"), query("q2", "semantic"), query("q3", "semantic")];
    let qrels = vec![qrel("q1", "d1", 1, 10, 2), qrel("q2", "d2", 1, 10, 2), qrel("q2", "d9", 3, 4, 1)];
    let rankings = vec![
        QueryRanking { query_id: "q1".to_string(), items: vec![span("d1", 1, 10)] },
        QueryRanking { query_id: "q2".to_string(), items: vec![span("d5", 2, 3), span("d2", 4, 5)] },
    ];
    let graded = grade_queries(&queries, &qrels, &rankings, 5);
    assert_eq!(graded.len(), 3);

    assert_eq!(graded[0].modality, "lexical");
    assert_eq!(graded[0].grades, vec![2]);
    assert_eq!(graded[0].ideal, vec![2]);
    assert!(graded[0].hit);
    assert_eq!(graded[0].first_relevant, Some(1));

    assert_eq!(graded[1].grades, vec![0, 2]);
    assert_eq!(graded[1].ideal, vec![2, 1]);
    assert!(graded[1].hit);
    assert_eq!(graded[1].first_relevant, Some(2));

    assert_eq!(graded[2].modality, "semantic");
    assert!(graded[2].grades.is_empty());
    assert!(graded[2].ideal.is_empty());
    assert!(!graded[2].hit);
    assert_eq!(graded[2].first_relevant, None);
}

#[test]
fn cutoff_limits_hits_but_not_grades() {
    let queries = vec![query("q1", "lexical")];
    let qrels = vec![qrel("q1", "d1", 1, 10, 1)];
    let rankings = vec![QueryRanking {
        query_id: "q1".to_string(),
        items: vec![span("d0", 1, 2), span("d0", 3, 4), span("d1", 1, 10)],
    }];
    let graded = grade_queries(&queries, &qrels, &rankings, 2);
    assert_eq!(graded[0].grades, vec![0, 0, 1]);
    assert!(!graded[0].hit);
    assert_eq!(graded[0].first_relevant, None);
}

#[test]
fn baseline_rankings_hold_each_querys_positive_spans_in_order() {
    let qrels = vec![
        qrel("q1", "d1", 1, 10, 2),
        qrel("q2", "d2", 3, 4, 0),
        qrel("q2", "d3", 5, 9, 1),
        qrel("q1", "d4", 2, 2, 1),
    ];
    let rankings = baseline_rankings(&qrels);
    assert_eq!(
        rankings,
        vec![
            QueryRanking { query_id: "q1".to_string(), items: vec![span("d1", 1, 10), span("d4", 2, 2)] },
            QueryRanking { query_id: "q2".to_string(), items: vec![span("d3", 5, 9)] },
        ]
    );
    assert!(baseline_rankings(&[qrel("q1", "d1", 1, 2, 0)]).is_empty());
}

#[test]
fn every_query_with_a_positive_judgment_hits_its_baseline() {
    let queries = vec![query("q1", "lexical"), query("q2", "semantic"), query("q3", "semantic")];
    let qrels = vec![
        qrel("q1", "d1", 4, 8, 1),
        qrel("q1", "d1", 6, 7, 2),
        qrel("q2", "d2", 3, 3, 2),
        qrel("q3", "d3", 1, 1, 0),
    ];
    let rankings = baseline_rankings(&qrels);
    let graded = grade_queries(&queries, &qrels, &rankings, 1);
    assert!(graded[0].hit);
    assert_eq!(graded[0].first_relevant, Some(1));
    assert_eq!(graded[0].grades, vec![2, 2]);
    assert!(graded[1].hit);
    assert!(!graded[2].hit);
    assert!(graded[2].grades.is_empty());
}
