//! Repository automation: the CI gate list, command parsing and formatting,
//! and the evaluation helpers that work on plain values.
use vstd::prelude::*;
use crate::path::{join_paths, path_join};
use crate::sorted::views;
use crate::text::str_eq;

verus! {

/// The words of a command joined with single spaces.
pub open spec fn spaced(words: Seq<Seq<char>>) -> Seq<char>
    decreases words.len(),
{
    if words.len() == 0 {
        Seq::empty()
    } else if words.len() == 1 {
        words[0]
    } else {
        spaced(words.drop_last()) + " "@ + words.last()
    }
}

/// Formats a command and its arguments for failure output: the program and
/// each argument, separated by single spaces.
pub fn format_command(program: &str, arguments: &[&str]) -> (s: String)
    ensures
        s@ == spaced(seq![program@] + arguments@.map_values(|a: &str| a@)),
{
    let ghost words = seq![program@] + arguments@.map_values(|a: &str| a@);
    let mut out = program.to_owned();
    let mut i: usize = 0;
    assert(words.take(1) =~= seq![program@]);
    while i < arguments.len()
        invariant
            0 <= i <= arguments@.len(),
            words == seq![program@] + arguments@.map_values(|a: &str| a@),
            out@ == spaced(words.take(i + 1)),
        decreases arguments@.len() - i,
    {
        proof {
            reveal_strlit(" ");
            assert(words.take(i + 2).drop_last() =~= words.take(i + 1));
            assert(words.take(i + 2).last() == arguments@[i as int]@);
        }
        out.append(" ");
        out.append(arguments[i]);
        i = i + 1;
    }
    assert(words.take(arguments@.len() as int + 1) =~= words);
    out
}

/// Calculates whether two line ranges `[s1, e1]` and `[s2, e2]` overlap.
pub fn line_ranges_overlap(s1: usize, e1: usize, s2: usize, e2: usize) -> (b: bool)
    ensures
        b == (s1 <= e2 && s2 <= e1),
{
    s1 <= e2 && s2 <= e1
}

/// One CI gate: the program, its arguments, and an optional environment
/// variable.
pub struct CiGate {
    /// The program to run.
    pub program: &'static str,
    /// Its arguments.
    pub arguments: Vec<&'static str>,
    /// An environment variable to set, as key and value.
    pub environment: Option<(&'static str, &'static str)>,
}

/// The CI gates, in the order they run: formatting, lints, tests, docs,
/// dependency policy, and coverage.
pub fn ci_gates() -> (gates: Vec<CiGate>)
    ensures
        gates@.len() == 6,
        forall|i: int| 0 <= i < 6 ==> (#[trigger] gates@[i]).program@ == "cargo"@,
        gates@[3].environment matches Some(e) && e.0@ == "RUSTDOCFLAGS"@ && e.1@
            == "-D warnings"@,
        forall|i: int| 0 <= i < 6 && i != 3 ==> (#[trigger] gates@[i]).environment is None,
        views(gates@[0].arguments@) == seq!["fmt"@, "--all"@, "--"@, "--check"@],
        views(gates@[1].arguments@) == seq![
            "clippy"@,
            "--workspace"@,
            "--all-targets"@,
            "--all-features"@,
            "--"@,
            "-D"@,
            "warnings"@,
        ],
        views(gates@[2].arguments@) == seq!["test"@, "--workspace"@, "--all-features"@],
        views(gates@[3].arguments@) == seq!["doc"@, "--workspace"@, "--no-deps"@],
        views(gates@[4].arguments@) == seq!["deny"@, "check"@],
        views(gates@[5].arguments@) == seq![
            "llvm-cov"@,
            "--workspace"@,
            "--fail-under-lines"@,
            "85"@,
            "--ignore-filename-regex"@,
            "vendor/sqlite-vector-rs"@,
        ],
{
    let mut gates: Vec<CiGate> = Vec::new();
    gates.push(CiGate { program: "cargo", arguments: vec!["fmt", "--all", "--", "--check"], environment: None });
    gates.push(
        CiGate {
            program: "cargo",
            arguments: vec![
                "clippy",
                "--workspace",
                "--all-targets",
                "--all-features",
                "--",
                "-D",
                "warnings",
            ],
            environment: None,
        },
    );
    gates.push(
        CiGate {
            program: "cargo",
            arguments: vec!["test", "--workspace", "--all-features"],
            environment: None,
        },
    );
    gates.push(
        CiGate {
            program: "cargo",
            arguments: vec!["doc", "--workspace", "--no-deps"],
            environment: Some(("RUSTDOCFLAGS", "-D warnings")),
        },
    );
    gates.push(CiGate { program: "cargo", arguments: vec!["deny", "check"], environment: None });
    gates.push(
        CiGate {
            program: "cargo",
            arguments: vec![
                "llvm-cov",
                "--workspace",
                "--fail-under-lines",
                "85",
                "--ignore-filename-regex",
                "vendor/sqlite-vector-rs",
            ],
            environment: None,
        },
    );
    gates
}

/// The subcommand an automation run performs.
pub enum XtaskCommand {
    /// Run every CI gate.
    Ci,
    /// Run the search-quality evaluation with the remaining arguments.
    Eval(Vec<String>),
    /// The arguments name no known subcommand.
    Usage,
}

/// The usage line printed for unknown subcommands.
pub const XTASK_USAGE: &'static str = "usage: cargo xtask <ci|eval>";

/// Chooses the subcommand from the arguments: `ci` with nothing after it,
/// or `eval` with the arguments after it; anything else is a usage error.
pub fn choose_command(args: &[String]) -> (c: XtaskCommand)
    ensures
        (args@.len() == 1 && args@[0]@ == "ci"@) ==> c is Ci,
        (args@.len() >= 1 && args@[0]@ == "eval"@) ==> (c matches XtaskCommand::Eval(rest)
            && views(rest@) == views(args@).skip(1)),
        !((args@.len() == 1 && args@[0]@ == "ci"@) || (args@.len() >= 1 && args@[0]@
            == "eval"@)) ==> c is Usage,
{
    if args.len() == 0 {
        return XtaskCommand::Usage;
    }
    proof {
        reveal_strlit("ci");
        reveal_strlit("eval");
        assert("ci"@.len() != "eval"@.len());
    }
    if str_eq(args[0].as_str(), "ci") {
        if args.len() == 1 {
            XtaskCommand::Ci
        } else {
            XtaskCommand::Usage
        }
    } else if str_eq(args[0].as_str(), "eval") {
        let mut rest: Vec<String> = Vec::new();
        let mut i: usize = 1;
        while i < args.len()
            invariant
                1 <= i <= args@.len(),
                views(rest@) == views(args@).subrange(1, i as int),
            decreases args@.len() - i,
        {
            let ghost before = rest@;
            let a = args[i].clone();
            assert(a@ == args@[i as int]@);
            rest.push(a);
            assert(views(rest@) =~= views(before).push(args@[i as int]@));
            assert(views(rest@) =~= views(args@).subrange(1, i + 1));
            i = i + 1;
        }
        assert(views(args@).subrange(1, args@.len() as int) =~= views(args@).skip(1));
        XtaskCommand::Eval(rest)
    } else {
        XtaskCommand::Usage
    }
}

/// The fixtures directory one level up from the working directory.
pub fn parent_fixtures_dir(dir: &str) -> (p: String)
    ensures
        p@ == path_join(".."@, dir@),
{
    join_paths("..", dir)
}

/// Resolves the fixtures directory: `dir` itself when it exists, else the
/// same directory one level up when that exists, else `dir`.
pub fn resolve_fixtures_dir(dir: &str, dir_exists: bool, parent_exists: bool) -> (p: String)
    ensures
        dir_exists ==> p@ == dir@,
        !dir_exists && parent_exists ==> p@ == path_join(".."@, dir@),
        !dir_exists && !parent_exists ==> p@ == dir@,
{
    if dir_exists {
        return dir.to_owned();
    }
    if parent_exists {
        return parent_fixtures_dir(dir);
    }
    dir.to_owned()
}

/// A search query entry in the evaluation query set.
#[derive(Clone, Debug, PartialEq, Eq)]
pub struct QueryItem {
    /// Unique query identifier.
    pub query_id: String,
    /// The query text string.
    pub query_text: String,
    /// Modality category of the query.
    pub modality: String,
    /// Descriptive intent or explanation of the query.
    pub description: String,
}

/// A ground truth relevance judgment mapping a query to a target passage.
#[derive(Clone, Debug, PartialEq, Eq)]
pub struct QrelItem {
    /// The query identifier being evaluated.
    pub query_id: String,
    /// The document identifier containing the relevant content.
    pub doc_id: String,
    /// 1-indexed start line in the document.
    pub line_start: usize,
    /// 1-indexed end line in the document.
    pub line_end: usize,
    /// Graded relevance score: 0, 1 or 2.
    pub score: u8,
}

impl QrelItem {
    /// A copy of this judgment.
    pub fn duplicate(&self) -> (r: QrelItem)
        ensures
            r == *self,
    {
        QrelItem {
            query_id: self.query_id.clone(),
            doc_id: self.doc_id.clone(),
            line_start: self.line_start,
            line_end: self.line_end,
            score: self.score,
        }
    }
}

/// Whether a judgment applies to a retrieved passage: both name the same
/// document, and either range starts at line one (the whole document) or
/// the ranges overlap.
pub open spec fn judgment_applies(
    j: QrelItem,
    doc_id: Seq<char>,
    line_start: usize,
    line_end: usize,
) -> bool {
    &&& j.doc_id@ == doc_id
    &&& ((j.line_start == 1 && j.line_end >= 1) || (line_start == 1 && line_end >= 1) || (
    line_start <= j.line_end && j.line_start <= line_end))
}

/// The highest score among the applicable judgments, or zero.
pub open spec fn relevance_of(
    judgments: Seq<QrelItem>,
    doc_id: Seq<char>,
    line_start: usize,
    line_end: usize,
) -> u8
    decreases judgments.len(),
{
    if judgments.len() == 0 {
        0
    } else {
        let rest = relevance_of(judgments.drop_last(), doc_id, line_start, line_end);
        let j = judgments.last();
        if judgment_applies(j, doc_id, line_start, line_end) && j.score > rest {
            j.score
        } else {
            rest
        }
    }
}

/// The relevance of a retrieved passage is the highest score among the
/// judgments of its document that cover it, or zero: a judgment starting at
/// line one covers the whole document, a passage starting at line one is
/// covered by every judgment of its document, and otherwise the line ranges
/// must overlap. So every covering judgment's score is at most the
/// relevance, and a nonzero relevance is the score of a covering judgment.
pub proof fn lemma_relevance_is_best_cover(
    judgments: Seq<QrelItem>,
    doc_id: Seq<char>,
    line_start: usize,
    line_end: usize,
)
    ensures
        forall|k: int|
            0 <= k < judgments.len() && (#[trigger] judgments[k]).doc_id@ == doc_id && judgments[k].line_start
                == 1 && judgments[k].line_end >= 1 ==> relevance_of(judgments, doc_id, line_start, line_end)
                >= judgments[k].score,
        line_start == 1 && line_end >= 1 ==> forall|k: int|
            0 <= k < judgments.len() && (#[trigger] judgments[k]).doc_id@ == doc_id ==> relevance_of(
                judgments,
                doc_id,
                line_start,
                line_end,
            ) >= judgments[k].score,
        forall|k: int|
            0 <= k < judgments.len() && (#[trigger] judgments[k]).doc_id@ == doc_id && line_start
                <= judgments[k].line_end && judgments[k].line_start <= line_end ==> relevance_of(
                judgments,
                doc_id,
                line_start,
                line_end,
            ) >= judgments[k].score,
        relevance_of(judgments, doc_id, line_start, line_end) == 0 || exists|k: int|
            0 <= k < judgments.len() && (#[trigger] judgments[k]).doc_id@ == doc_id && judgments[k].score
                == relevance_of(judgments, doc_id, line_start, line_end) && ((judgments[k].line_start == 1
                && judgments[k].line_end >= 1) || (line_start == 1 && line_end >= 1) || (line_start
                <= judgments[k].line_end && judgments[k].line_start <= line_end)),
    decreases judgments.len(),
{
    if judgments.len() > 0 {
        let p = judgments.drop_last();
        lemma_relevance_is_best_cover(p, doc_id, line_start, line_end);
        let rest = relevance_of(p, doc_id, line_start, line_end);
        let r = relevance_of(judgments, doc_id, line_start, line_end);
        assert(r >= rest);
        assert forall|k: int| 0 <= k < p.len() implies #[trigger] judgments[k] == p[k] by {}
        if r != rest {
            assert(judgments[judgments.len() - 1] == judgments.last());
        } else if rest != 0 {
            let k = choose|k: int|
                0 <= k < p.len() && (#[trigger] p[k]).doc_id@ == doc_id && p[k].score == rest && ((p[k].line_start
                    == 1 && p[k].line_end >= 1) || (line_start == 1 && line_end >= 1) || (line_start
                    <= p[k].line_end && p[k].line_start <= line_end));
            assert(judgments[k] == p[k]);
        }
    }
}

/// Matches a retrieved passage (its document and line range) against the
/// ground-truth judgments and returns its relevance grade: the highest score
/// of an applicable judgment, or zero.
pub fn match_relevance(doc_id: &str, line_start: usize, line_end: usize, judgments: &[QrelItem]) -> (g:
    u8)
    ensures
        g == relevance_of(judgments@, doc_id@, line_start, line_end),
{
    let mut max_score: u8 = 0;
    let mut i: usize = 0;
    assert(judgments@.take(0) =~= Seq::<QrelItem>::empty());
    while i < judgments.len()
        invariant
            0 <= i <= judgments@.len(),
            max_score == relevance_of(judgments@.take(i as int), doc_id@, line_start, line_end),
        decreases judgments@.len() - i,
    {
        let j = &judgments[i];
        assert(judgments@.take(i + 1).drop_last() =~= judgments@.take(i as int));
        if str_eq(j.doc_id.as_str(), doc_id) {
            let overlaps = (j.line_start == 1 && j.line_end >= 1) || (line_start == 1 && line_end
                >= 1) || line_ranges_overlap(line_start, line_end, j.line_start, j.line_end);
            if overlaps && j.score > max_score {
                max_score = j.score;
            }
        }
        i = i + 1;
    }
    assert(judgments@.take(judgments@.len() as int) =~= judgments@);
    max_score
}

} // verus!
