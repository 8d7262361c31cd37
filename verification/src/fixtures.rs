//! Integrity checks of the search-quality evaluation fixtures.
use vstd::prelude::*;
use crate::text::{chars_of, push_char, str_eq};
use crate::xtask::{QrelItem, QueryItem};

verus! {

/// A document of the evaluation corpus: the fields the checks and reports
/// read.
#[derive(Clone, Debug, PartialEq, Eq)]
pub struct CorpusDoc {
    /// Unique document identifier.
    pub doc_id: String,
    /// Path of the file relative to the collection root.
    pub path: String,
    /// Title of the document.
    pub title: String,
    /// Full raw Markdown text content.
    pub content: String,
}

/// The decimal digit of a value below ten.
pub open spec fn digit_char(d: nat) -> char {
    (48 + d) as char
}

/// The decimal spelling of `n`.
pub open spec fn decimal(n: nat) -> Seq<char>
    decreases n,
{
    if n < 10 {
        seq![digit_char(n)]
    } else {
        decimal(n / 10).push(digit_char(n % 10))
    }
}

/// Spells `n` in decimal.
pub fn decimal_string(n: u64) -> (s: String)
    ensures
        s@ == decimal(n as nat),
    decreases n,
{
    if n < 10 {
        let mut s = String::new();
        push_char(&mut s, ((48u8 + n as u8) as char));
        assert(s@ =~= decimal(n as nat));
        s
    } else {
        let mut s = decimal_string(n / 10);
        let d = (n % 10) as u8;
        push_char(&mut s, (48u8 + d) as char);
        s
    }
}

/// The number of lines `str::lines` yields: lines end at `\n` (a `\r`
/// before it belonging to the ending), and the final line ending is
/// optional.
pub open spec fn line_count(s: Seq<char>) -> nat {
    if s.len() == 0 {
        0
    } else {
        s.filter(|c: char| c == '\n').len() + if s.last() == '\n' {
            0nat
        } else {
            1nat
        }
    }
}

/// Counts the lines of a text as `str::lines` splits it.
pub fn count_lines(text: &str) -> (n: usize)
    ensures
        n == line_count(text@),
{
    let cs = chars_of(text);
    if cs.len() == 0 {
        return 0;
    }
    let mut newlines: usize = 0;
    let mut i: usize = 0;
    assert(cs@.take(0).filter(|c: char| c == '\n') =~= Seq::<char>::empty());
    while i < cs.len()
        invariant
            0 <= i <= cs@.len(),
            newlines == cs@.take(i as int).filter(|c: char| c == '\n').len(),
            newlines <= i,
            i > 0 && cs@[i - 1] != '\n' ==> newlines < i,
        decreases cs@.len() - i,
    {
        proof {
            assert(cs@.take(i + 1) =~= cs@.take(i as int).push(cs@[i as int]));
            cs@.take(i as int).lemma_filter_push(cs@[i as int], |c: char| c == '\n');
        }
        if cs[i] == '\n' {
            newlines = newlines + 1;
        }
        i = i + 1;
    }
    assert(cs@.take(cs@.len() as int) =~= cs@);
    if cs[cs.len() - 1] == '\n' {
        newlines
    } else {
        newlines + 1
    }
}

/// Whether a query with identifier `id` exists.
pub open spec fn has_query(queries: Seq<QueryItem>, id: Seq<char>) -> bool {
    exists|i: int| 0 <= i < queries.len() && (#[trigger] queries[i]).query_id@ == id
}

/// The line count of the last corpus document with identifier `id`, as a
/// map keyed by identifier keeps it.
pub open spec fn doc_lines(corpus: Seq<CorpusDoc>, id: Seq<char>) -> Option<nat>
    decreases corpus.len(),
{
    if corpus.len() == 0 {
        None
    } else if corpus.last().doc_id@ == id {
        Some(line_count(corpus.last().content@))
    } else {
        doc_lines(corpus.drop_last(), id)
    }
}

/// The label of judgment `idx` (zero-based) in messages.
pub open spec fn qrel_label(idx: nat, q: QrelItem) -> Seq<char> {
    "qrel["@ + decimal(idx + 1) + "] ("@ + q.query_id@ + ":"@ + q.doc_id@ + ")"@
}

/// The problems of one judgment, in order: an unknown query; an unknown
/// document or a line range outside it; a score above two.
pub open spec fn qrel_errors(
    idx: nat,
    q: QrelItem,
    queries: Seq<QueryItem>,
    corpus: Seq<CorpusDoc>,
) -> Seq<Seq<char>> {
    let label = qrel_label(idx, q);
    let query_part = if !has_query(queries, q.query_id@) {
        seq![label + ": unknown query_id '"@ + q.query_id@ + "'"@]
    } else {
        Seq::empty()
    };
    let doc_part = match doc_lines(corpus, q.doc_id@) {
        None => seq![label + ": unknown doc_id '"@ + q.doc_id@ + "'"@],
        Some(max) => if q.line_start == 0 || q.line_end < q.line_start || q.line_end > max {
            seq![
                label + ": invalid line range "@ + decimal(q.line_start as nat) + "-"@ + decimal(
                    q.line_end as nat,
                ) + " (doc has "@ + decimal(max) + " lines)"@,
            ]
        } else {
            Seq::empty()
        },
    };
    let score_part = if q.score > 2 {
        seq![label + ": invalid score "@ + decimal(q.score as nat) + " (must be 0, 1, or 2)"@]
    } else {
        Seq::empty()
    };
    query_part + doc_part + score_part
}

/// The problems of all judgments, in order.
pub open spec fn fixture_errors(
    qrels: Seq<QrelItem>,
    queries: Seq<QueryItem>,
    corpus: Seq<CorpusDoc>,
) -> Seq<Seq<char>>
    decreases qrels.len(),
{
    if qrels.len() == 0 {
        Seq::empty()
    } else {
        fixture_errors(qrels.drop_last(), queries, corpus) + qrel_errors(
            (qrels.len() - 1) as nat,
            qrels.last(),
            queries,
            corpus,
        )
    }
}

/// The messages joined by the list separator.
pub open spec fn listed(ms: Seq<Seq<char>>) -> Seq<char>
    decreases ms.len(),
{
    if ms.len() == 0 {
        Seq::empty()
    } else if ms.len() == 1 {
        ms[0]
    } else {
        listed(ms.drop_last()) + "\n  - "@ + ms.last()
    }
}

/// The report of failed validation.
pub open spec fn failure_report(errors: Seq<Seq<char>>) -> Seq<char> {
    "Fixture integrity validation failed with "@ + decimal(errors.len()) + " error(s):\n  - "@
        + listed(errors)
}

/// `a` followed by `b`, appended to `out`.
fn append_str(out: &mut String, s: &str)
    ensures
        final(out)@ == old(out)@ + s@,
{
    out.append(s);
}

/// Whether a query with identifier `id` exists.
fn query_known(queries: &[QueryItem], id: &str) -> (b: bool)
    ensures
        b == has_query(queries@, id@),
{
    let mut i: usize = 0;
    while i < queries.len()
        invariant
            0 <= i <= queries@.len(),
            forall|k: int| 0 <= k < i ==> (#[trigger] queries@[k]).query_id@ != id@,
        decreases queries@.len() - i,
    {
        if str_eq(queries[i].query_id.as_str(), id) {
            return true;
        }
        i = i + 1;
    }
    false
}

/// The line count of the last document with identifier `id`.
fn lines_of(corpus: &[CorpusDoc], id: &str) -> (r: Option<usize>)
    ensures
        match r {
            Some(n) => doc_lines(corpus@, id@) == Some(n as nat),
            None => doc_lines(corpus@, id@) is None,
        },
{
    let mut i: usize = corpus.len();
    assert(corpus@.take(i as int) =~= corpus@);
    while i > 0
        invariant
            i <= corpus@.len(),
            doc_lines(corpus@, id@) == doc_lines(corpus@.take(i as int), id@),
        decreases i,
    {
        let ghost t = corpus@.take(i as int);
        assert(t.drop_last() =~= corpus@.take(i - 1));
        assert(t.last() == corpus@[i - 1]);
        if str_eq(corpus[i - 1].doc_id.as_str(), id) {
            return Some(count_lines(corpus[i - 1].content.as_str()));
        }
        i = i - 1;
    }
    None
}

/// Builds the label of judgment `idx`.
fn label_of(idx: usize, q: &QrelItem) -> (s: String)
    requires
        idx < usize::MAX,
    ensures
        s@ == qrel_label(idx as nat, *q),
{
    let mut s = "qrel[".to_owned();
    let n = decimal_string((idx + 1) as u64);
    append_str(&mut s, n.as_str());
    append_str(&mut s, "] (");
    append_str(&mut s, q.query_id.as_str());
    append_str(&mut s, ":");
    append_str(&mut s, q.doc_id.as_str());
    append_str(&mut s, ")");
    s
}

/// Validates cross-referential integrity and line boundaries across fixture
/// datasets: every judgment must name a known query and a known document,
/// lie within the document's lines, and carry a score of at most two. The
/// error lists every problem found.
pub fn validate_fixtures(corpus: &[CorpusDoc], queries: &[QueryItem], qrels: &[QrelItem]) -> (r:
    Result<(), String>)
    ensures
        fixture_errors(qrels@, queries@, corpus@).len() == 0 ==> r is Ok,
        fixture_errors(qrels@, queries@, corpus@).len() > 0 ==> (r matches Err(m) && m@
            == failure_report(fixture_errors(qrels@, queries@, corpus@))),
{
    let mut errors: Vec<String> = Vec::new();
    let mut idx: usize = 0;
    while idx < qrels.len()
        invariant
            0 <= idx <= qrels@.len(),
            crate::sorted::views(errors@) == fixture_errors(qrels@.take(idx as int), queries@, corpus@),
        decreases qrels@.len() - idx,
    {
        let q = &qrels[idx];
        let ghost before = crate::sorted::views(errors@);
        proof {
            let t = qrels@.take(idx + 1);
            assert(t.drop_last() =~= qrels@.take(idx as int));
            assert(t.last() == *q);
        }
        let label = label_of(idx, q);
        let ghost mut added: Seq<Seq<char>> = Seq::empty();
        if !query_known(queries, q.query_id.as_str()) {
            let mut m = label.clone();
            append_str(&mut m, ": unknown query_id '");
            append_str(&mut m, q.query_id.as_str());
            append_str(&mut m, "'");
            proof {
                added = added.push(m@);
            }
            errors.push(m);
        }
        let ghost after_query = added;
        match lines_of(corpus, q.doc_id.as_str()) {
            None => {
                let mut m = label.clone();
                append_str(&mut m, ": unknown doc_id '");
                append_str(&mut m, q.doc_id.as_str());
                append_str(&mut m, "'");
                proof {
                    added = added.push(m@);
                }
                errors.push(m);
            },
            Some(max) => {
                if q.line_start == 0 || q.line_end < q.line_start || q.line_end > max {
                    let mut m = label.clone();
                    append_str(&mut m, ": invalid line range ");
                    append_str(&mut m, decimal_string(q.line_start as u64).as_str());
                    append_str(&mut m, "-");
                    append_str(&mut m, decimal_string(q.line_end as u64).as_str());
                    append_str(&mut m, " (doc has ");
                    append_str(&mut m, decimal_string(max as u64).as_str());
                    append_str(&mut m, " lines)");
                    proof {
                        added = added.push(m@);
                    }
                    errors.push(m);
                }
            },
        }
        let ghost after_doc = added;
        if q.score > 2 {
            let mut m = label.clone();
            append_str(&mut m, ": invalid score ");
            append_str(&mut m, decimal_string(q.score as u64).as_str());
            append_str(&mut m, " (must be 0, 1, or 2)");
            proof {
                added = added.push(m@);
            }
            errors.push(m);
        }
        proof {
            assert(added =~= qrel_errors(idx as nat, *q, queries@, corpus@));
            assert(crate::sorted::views(errors@) =~= before + added);
        }
        idx = idx + 1;
    }
    assert(qrels@.take(qrels@.len() as int) =~= qrels@);
    let ghost ev = crate::sorted::views(errors@);
    if errors.len() == 0 {
        return Ok(());
    }
    let mut report = "Fixture integrity validation failed with ".to_owned();
    append_str(&mut report, decimal_string(errors.len() as u64).as_str());
    append_str(&mut report, " error(s):\n  - ");
    let mut listed_part = errors[0].clone();
    let mut k: usize = 1;
    assert(ev.take(1) =~= seq![ev[0]]);
    while k < errors.len()
        invariant
            1 <= k <= errors@.len(),
            ev == crate::sorted::views(errors@),
            listed_part@ == listed(ev.take(k as int)),
        decreases errors@.len() - k,
    {
        proof {
            assert(ev.take(k + 1).drop_last() =~= ev.take(k as int));
            assert(ev.take(k + 1).last() == errors@[k as int]@);
        }
        append_str(&mut listed_part, "\n  - ");
        append_str(&mut listed_part, errors[k].as_str());
        k = k + 1;
    }
    assert(ev.take(errors@.len() as int) =~= ev);
    append_str(&mut report, listed_part.as_str());
    Err(report)
}

} // verus!
