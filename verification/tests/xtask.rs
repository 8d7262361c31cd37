use mdsearch::xtask::{
    choose_command, ci_gates, format_command, line_ranges_overlap, match_relevance,
    resolve_fixtures_dir, QrelItem, XtaskCommand,
};

#[test]
fn formats_a_command_for_failure_output() {
    assert_eq!(format_command("cargo", &["test", "--workspace"]), "cargo test --workspace");
}

#[test]
fn line_ranges_overlap_detects_intersections() {
    assert!(line_ranges_overlap(10, 20, 15, 25));
    assert!(line_ranges_overlap(10, 20, 20, 30));
    assert!(line_ranges_overlap(15, 25, 10, 20));
    assert!(!line_ranges_overlap(10, 20, 21, 30));
    assert!(!line_ranges_overlap(21, 30, 10, 20));
}

#[test]
fn rejects_unknown_commands() {
    assert!(matches!(choose_command(&[String::from("unknown")]), XtaskCommand::Usage));
    assert!(matches!(choose_command(&[]), XtaskCommand::Usage));
    assert!(matches!(
        choose_command(&[String::from("ci"), String::from("extra")]),
        XtaskCommand::Usage
    ));
}

#[test]
fn runs_eval_subcommand() {
    match choose_command(&[String::from("eval"), String::from("--verify-only")]) {
        XtaskCommand::Eval(rest) => assert_eq!(rest, vec![String::from("--verify-only")]),
        _ => panic!("expected the eval subcommand"),
    }
}

#[test]
fn runs_every_ci_gate_in_order() {
    let gates = ci_gates();
    assert!(matches!(choose_command(&[String::from("ci")]), XtaskCommand::Ci));
    assert_eq!(gates.len(), 6);
    assert_eq!(
        format_command(gates[0].program, &gates[0].arguments),
        "cargo fmt --all -- --check"
    );
    assert_eq!(gates[3].environment, Some(("RUSTDOCFLAGS", "-D warnings")));
    assert!(format_command(gates[5].program, &gates[5].arguments)
        .contains("--ignore-filename-regex vendor/sqlite-vector-rs"));
}

#[test]
fn a_command_without_arguments_is_its_program() {
    assert_eq!(format_command("cargo", &[]), "cargo");
}

fn qrel(doc: &str, start: usize, end: usize, score: u8) -> QrelItem {
    QrelItem {
        query_id: String::from("q1"),
        doc_id: doc.to_owned(),
        line_start: start,
        line_end: end,
        score,
    }
}

#[test]
fn relevance_takes_the_best_applicable_judgment() {
    let judgments = vec![qrel("d1", 10, 20, 1), qrel("d1", 15, 18, 2), qrel("d2", 1, 99, 2)];
    assert_eq!(match_relevance("d1", 16, 17, &judgments), 2);
    assert_eq!(match_relevance("d1", 19, 30, &judgments), 1);
    assert_eq!(match_relevance("d1", 40, 50, &judgments), 0);
    assert_eq!(match_relevance("d2", 40, 50, &judgments), 2);
    assert_eq!(match_relevance("d3", 1, 5, &judgments), 0);
}

#[test]
fn fixtures_dir_falls_back_to_the_parent_then_itself() {
    assert_eq!(resolve_fixtures_dir("fx", true, true), "fx");
    assert_eq!(resolve_fixtures_dir("fx", false, true), "../fx");
    assert_eq!(resolve_fixtures_dir("fx", false, false), "fx");
}
