//! The integer core of search-quality evaluation: the judgments that belong
//! to a query, the relevance grade of each retrieved passage, the rank of the
//! first relevant passage, the ideal grade order, and the order in which
//! modalities are reported. The floating-point metrics are computed from
//! these.
use vstd::prelude::*;
use crate::order::{compare_str, lemma_str_lt_order, str_lt};
use crate::sorted::{sorted_insert, sorted_views, views, Ordered};
use crate::text::str_eq;
use crate::xtask::{judgment_applies, match_relevance, relevance_of, QrelItem, QueryItem};

verus! {

/// A retrieved passage of a ranking: the document and line range that
/// relevance matching reads.
#[derive(Clone, Debug, PartialEq, Eq)]
pub struct RetrievedSpan {
    /// The document identifier retrieved.
    pub doc_id: String,
    /// The start line of the passage.
    pub line_start: usize,
    /// The end line of the passage.
    pub line_end: usize,
}

/// The passages retrieved for one query, best first.
#[derive(Clone, Debug, PartialEq, Eq)]
pub struct QueryRanking {
    /// The query the ranking answers.
    pub query_id: String,
    /// The retrieved passages, in rank order.
    pub items: Vec<RetrievedSpan>,
}

/// The judgments of query `qid`, in the order given.
pub open spec fn query_judgments(qrels: Seq<QrelItem>, qid: Seq<char>) -> Seq<QrelItem> {
    qrels.filter(|j: QrelItem| j.query_id@ == qid)
}

/// Collects the judgments of one query, in the order given.
pub fn judgments_for(qrels: &[QrelItem], query_id: &str) -> (r: Vec<QrelItem>)
    ensures
        r@ == query_judgments(qrels@, query_id@),
{
    let ghost pred = |j: QrelItem| j.query_id@ == query_id@;
    let mut r: Vec<QrelItem> = Vec::new();
    let mut i: usize = 0;
    assert(qrels@.take(0).filter(pred) =~= Seq::<QrelItem>::empty());
    while i < qrels.len()
        invariant
            0 <= i <= qrels@.len(),
            pred == (|j: QrelItem| j.query_id@ == query_id@),
            r@ == qrels@.take(i as int).filter(pred),
        decreases qrels@.len() - i,
    {
        proof {
            assert(qrels@.take(i + 1) =~= qrels@.take(i as int).push(qrels@[i as int]));
            qrels@.take(i as int).lemma_filter_push(qrels@[i as int], pred);
        }
        if str_eq(qrels[i].query_id.as_str(), query_id) {
            r.push(qrels[i].duplicate());
        }
        i = i + 1;
    }
    assert(qrels@.take(qrels@.len() as int) =~= qrels@);
    r
}

/// The passages retrieved for query `qid`: those of the first ranking for it,
/// or none.
pub open spec fn ranking_for(rankings: Seq<QueryRanking>, qid: Seq<char>) -> Seq<RetrievedSpan>
    decreases rankings.len(),
{
    if rankings.len() == 0 {
        Seq::empty()
    } else if rankings[0].query_id@ == qid {
        rankings[0].items@
    } else {
        ranking_for(rankings.drop_first(), qid)
    }
}

/// The index of the first ranking for a query, if there is one.
pub fn ranking_index(rankings: &[QueryRanking], query_id: &str) -> (r: Option<usize>)
    ensures
        r matches Some(i) ==> i < rankings@.len() && rankings@[i as int].query_id@ == query_id@
            && ranking_for(rankings@, query_id@) == rankings@[i as int].items@,
        r is None ==> ranking_for(rankings@, query_id@).len() == 0 && forall|k: int|
            0 <= k < rankings@.len() ==> (#[trigger] rankings@[k]).query_id@ != query_id@,
{
    let mut i: usize = 0;
    assert(rankings@.skip(0) =~= rankings@);
    while i < rankings.len()
        invariant
            0 <= i <= rankings@.len(),
            ranking_for(rankings@, query_id@) == ranking_for(rankings@.skip(i as int), query_id@),
            forall|k: int| 0 <= k < i ==> (#[trigger] rankings@[k]).query_id@ != query_id@,
        decreases rankings@.len() - i,
    {
        assert(rankings@.skip(i as int).drop_first() =~= rankings@.skip(i + 1));
        assert(rankings@.skip(i as int)[0] == rankings@[i as int]);
        if str_eq(rankings[i].query_id.as_str(), query_id) {
            return Some(i);
        }
        i = i + 1;
    }
    None
}

/// The relevance grade of each retrieved passage against the judgments.
pub open spec fn grades_of(judgments: Seq<QrelItem>, items: Seq<RetrievedSpan>) -> Seq<u8> {
    Seq::new(
        items.len(),
        |i: int| relevance_of(judgments, items[i].doc_id@, items[i].line_start, items[i].line_end),
    )
}

/// Grades each retrieved passage against the judgments, in rank order.
pub fn relevance_grades(judgments: &[QrelItem], items: &[RetrievedSpan]) -> (g: Vec<u8>)
    ensures
        g@ == grades_of(judgments@, items@),
{
    let mut g: Vec<u8> = Vec::new();
    let mut i: usize = 0;
    while i < items.len()
        invariant
            0 <= i <= items@.len(),
            g@.len() == i,
            forall|k: int|
                0 <= k < i ==> #[trigger] g@[k] == relevance_of(
                    judgments@,
                    items@[k].doc_id@,
                    items@[k].line_start,
                    items@[k].line_end,
                ),
        decreases items@.len() - i,
    {
        let it = &items[i];
        let grade = match_relevance(it.doc_id.as_str(), it.line_start, it.line_end, judgments);
        g.push(grade);
        i = i + 1;
    }
    assert(g@ =~= grades_of(judgments@, items@));
    g
}

/// Whether a passage of grade one or more is among the first `k`.
pub open spec fn relevant_within(grades: Seq<u8>, k: nat) -> bool {
    exists|i: int| 0 <= i < grades.len() && i < k && #[trigger] grades[i] >= 1
}

/// Whether a relevant passage (grade one or more) is among the first `k`.
pub fn hit_within(grades: &[u8], k: usize) -> (b: bool)
    ensures
        b == relevant_within(grades@, k as nat),
{
    let mut i: usize = 0;
    while i < grades.len() && i < k
        invariant
            0 <= i <= grades@.len(),
            i <= k,
            forall|j: int| 0 <= j < i ==> #[trigger] grades@[j] < 1,
        decreases grades@.len() - i,
    {
        if grades[i] >= 1 {
            return true;
        }
        i = i + 1;
    }
    false
}

/// The one-based rank of the first relevant passage among the first `k`, if
/// there is one.
pub fn first_relevant_rank(grades: &[u8], k: usize) -> (r: Option<usize>)
    ensures
        r matches Some(n) ==> 1 <= n && n <= k && n <= grades@.len() && grades@[n - 1] >= 1
            && forall|j: int| 0 <= j < n - 1 ==> #[trigger] grades@[j] < 1,
        r is None ==> !relevant_within(grades@, k as nat),
{
    let mut i: usize = 0;
    while i < grades.len() && i < k
        invariant
            0 <= i <= grades@.len(),
            i <= k,
            forall|j: int| 0 <= j < i ==> #[trigger] grades@[j] < 1,
        decreases grades@.len() - i,
    {
        if grades[i] >= 1 {
            return Some(i + 1);
        }
        i = i + 1;
    }
    None
}

/// How many of the judgments carry score `v`.
pub open spec fn score_count(js: Seq<QrelItem>, v: u8) -> nat {
    js.filter(|j: QrelItem| j.score == v).len()
}

/// The judgments' scores of at least `v`, highest first: for each score from
/// the largest down to `v`, as many copies as judgments carry it.
pub open spec fn scores_at_least(js: Seq<QrelItem>, v: nat) -> Seq<u8>
    decreases 256 - v,
{
    if v > 255 {
        Seq::empty()
    } else {
        scores_at_least(js, v + 1) + Seq::new(score_count(js, v as u8), |i: int| v as u8)
    }
}

/// The ideal grade order of a query: the positive scores of its judgments,
/// highest first.
pub open spec fn ideal_order(js: Seq<QrelItem>) -> Seq<u8> {
    scores_at_least(js, 1)
}

/// Orders the positive judgment scores highest first, the grades an ideal
/// ranking would retrieve.
pub fn ideal_grades(judgments: &[QrelItem]) -> (g: Vec<u8>)
    ensures
        g@ == ideal_order(judgments@),
{
    let mut g: Vec<u8> = Vec::new();
    let mut v: u16 = 256;
    while v > 1
        invariant
            1 <= v <= 256,
            g@ == scores_at_least(judgments@, v as nat),
        decreases v,
    {
        v = v - 1;
        let ghost before = g@;
        let ghost pred = |j: QrelItem| j.score == v as u8;
        let mut i: usize = 0;
        assert(judgments@.take(0).filter(pred) =~= Seq::<QrelItem>::empty());
        assert(before =~= before + Seq::new(0, |k: int| v as u8));
        while i < judgments.len()
            invariant
                0 <= i <= judgments@.len(),
                1 <= v <= 255,
                pred == (|j: QrelItem| j.score == v as u8),
                g@ == before + Seq::new(judgments@.take(i as int).filter(pred).len(), |k: int| v as u8),
            decreases judgments@.len() - i,
        {
            proof {
                assert(judgments@.take(i + 1) =~= judgments@.take(i as int).push(judgments@[i as int]));
                judgments@.take(i as int).lemma_filter_push(judgments@[i as int], pred);
            }
            let ghost c = judgments@.take(i as int).filter(pred).len();
            if judgments[i].score as u16 == v {
                g.push(v as u8);
                assert(g@ =~= before + Seq::new(c + 1, |k: int| v as u8));
            }
            i = i + 1;
        }
        assert(judgments@.take(judgments@.len() as int) =~= judgments@);
    }
    g
}

/// The ideal grade order is non-increasing, and every grade in it is
/// positive.
pub proof fn lemma_ideal_order_sorted(js: Seq<QrelItem>)
    ensures
        forall|i: int, j: int|
            0 <= i < j < ideal_order(js).len() ==> #[trigger] ideal_order(js)[i]
                >= #[trigger] ideal_order(js)[j],
        forall|i: int| 0 <= i < ideal_order(js).len() ==> #[trigger] ideal_order(js)[i] >= 1,
{
    lemma_scores_at_least_sorted(js, 1);
}

/// The ideal grade order holds each positive score exactly as often as the
/// judgments carry it: it is a rearrangement of their positive scores.
pub proof fn lemma_ideal_order_counts(js: Seq<QrelItem>, w: u8)
    requires
        w >= 1,
    ensures
        ideal_order(js).filter(|x: u8| x == w).len() == score_count(js, w),
{
    lemma_scores_at_least_counts(js, 1, w);
}

/// The copies of `w` in `scores_at_least(js, v)`.
proof fn lemma_scores_at_least_counts(js: Seq<QrelItem>, v: nat, w: u8)
    ensures
        scores_at_least(js, v).filter(|x: u8| x == w).len() == if w >= v {
            score_count(js, w)
        } else {
            0
        },
    decreases 256 - v,
{
    let p = |x: u8| x == w;
    if v > 255 {
        assert(scores_at_least(js, v).filter(p) =~= Seq::<u8>::empty());
    } else {
        lemma_scores_at_least_counts(js, v + 1, w);
        let hi = scores_at_least(js, v + 1);
        let lo = Seq::new(score_count(js, v as u8), |i: int| v as u8);
        assert(scores_at_least(js, v) == hi + lo);
        Seq::filter_distributes_over_add(hi, lo, p);
        lemma_run_count(score_count(js, v as u8), v as u8, w);
    }
}

/// A run of `n` copies of `v` holds `n` copies of `w` when `v` is `w`, and
/// none otherwise.
proof fn lemma_run_count(n: nat, v: u8, w: u8)
    ensures
        Seq::new(n, |i: int| v).filter(|x: u8| x == w).len() == if v == w {
            n
        } else {
            0
        },
    decreases n,
{
    let p = |x: u8| x == w;
    if n == 0 {
        assert(Seq::new(n, |i: int| v).filter(p) =~= Seq::<u8>::empty());
    } else {
        lemma_run_count((n - 1) as nat, v, w);
        let shorter = Seq::new((n - 1) as nat, |i: int| v);
        assert(Seq::new(n, |i: int| v) =~= shorter.push(v));
        shorter.lemma_filter_push(v, p);
    }
}

/// `scores_at_least(js, v)` is non-increasing and bounded below by `v`.
proof fn lemma_scores_at_least_sorted(js: Seq<QrelItem>, v: nat)
    ensures
        forall|i: int, j: int|
            0 <= i < j < scores_at_least(js, v).len() ==> #[trigger] scores_at_least(js, v)[i]
                >= #[trigger] scores_at_least(js, v)[j],
        forall|i: int| 0 <= i < scores_at_least(js, v).len() ==> #[trigger] scores_at_least(js, v)[i] >= v,
    decreases 256 - v,
{
    if v <= 255 {
        lemma_scores_at_least_sorted(js, v + 1);
        let hi = scores_at_least(js, v + 1);
        let lo = Seq::new(score_count(js, v as u8), |i: int| v as u8);
        assert(scores_at_least(js, v) == hi + lo);
        assert forall|i: int, j: int|
            0 <= i < j < scores_at_least(js, v).len() implies #[trigger] scores_at_least(js, v)[i]
                >= #[trigger] scores_at_least(js, v)[j] by {
            if j < hi.len() {
            } else if i < hi.len() {
                assert(hi[i] >= v + 1);
            }
        }
        assert forall|i: int| 0 <= i < scores_at_least(js, v).len() implies #[trigger] scores_at_least(js, v)[i] >= v by {
            if i < hi.len() {
                assert(hi[i] >= v + 1);
            }
        }
    }
}

/// Where a modality is reported: lexical, semantic and contextual first, in
/// that order, then the others.
pub open spec fn modality_rank(m: Seq<char>) -> nat {
    if m == "lexical"@ {
        0
    } else if m == "semantic"@ {
        1
    } else if m == "contextual"@ {
        2
    } else {
        3
    }
}

/// The report order of modalities: by rank, and the others by name.
pub open spec fn modality_lt(a: Seq<char>, b: Seq<char>) -> bool {
    modality_rank(a) < modality_rank(b) || (modality_rank(a) == modality_rank(b) && str_lt(a, b))
}

/// Computes the report rank of a modality.
fn modality_rank_of(m: &str) -> (r: u8)
    ensures
        r == modality_rank(m@),
{
    if str_eq(m, "lexical") {
        0
    } else if str_eq(m, "semantic") {
        1
    } else if str_eq(m, "contextual") {
        2
    } else {
        3
    }
}

/// A modality name, ordered as reports list modalities.
pub struct ModalityName(pub String);

impl View for ModalityName {
    type V = Seq<char>;

    open spec fn view(&self) -> Seq<char> {
        self.0@
    }
}

impl Ordered for ModalityName {
    open spec fn lt_view(a: Seq<char>, b: Seq<char>) -> bool {
        modality_lt(a, b)
    }

    proof fn lemma_order(a: Seq<char>, b: Seq<char>, c: Seq<char>) {
        lemma_str_lt_order(a, b, c);
        lemma_str_lt_order(b, c, a);
        lemma_str_lt_order(a, c, b);
    }

    fn compare(&self, other: &ModalityName) -> (r: i8) {
        proof {
            lemma_str_lt_order(self@, other@, self@);
        }
        let a = modality_rank_of(self.0.as_str());
        let b = modality_rank_of(other.0.as_str());
        if a < b {
            -1
        } else if a > b {
            1
        } else {
            compare_str(self.0.as_str(), other.0.as_str())
        }
    }
}

/// Whether some query has modality `m`.
pub open spec fn has_modality(queries: Seq<QueryItem>, m: Seq<char>) -> bool {
    exists|i: int| 0 <= i < queries.len() && (#[trigger] queries[i]).modality@ == m
}

/// The distinct modalities of the queries, in report order: lexical,
/// semantic, contextual, then the others by name.
pub fn modality_order(queries: &[QueryItem]) -> (r: Vec<String>)
    ensures
        forall|i: int, j: int| 0 <= i < j < r@.len() ==> modality_lt(#[trigger] r@[i]@, #[trigger] r@[j]@),
        forall|m: Seq<char>| has_modality(queries@, m) <==> views(r@).contains(m),
{
    let mut names: Vec<ModalityName> = Vec::new();
    let mut i: usize = 0;
    while i < queries.len()
        invariant
            0 <= i <= queries@.len(),
            sorted_views(names@),
            forall|m: Seq<char>| has_modality(queries@.take(i as int), m) <==> views(names@).to_set().contains(m),
        decreases queries@.len() - i,
    {
        let ghost before = views(names@).to_set();
        let m = ModalityName(queries[i].modality.clone());
        let _ = sorted_insert(&mut names, m);
        proof {
            let t = queries@.take(i + 1);
            assert forall|x: Seq<char>| has_modality(t, x) <==> views(names@).to_set().contains(x) by {
                if has_modality(t, x) {
                    let k = choose|k: int| 0 <= k < t.len() && (#[trigger] t[k]).modality@ == x;
                    if k < i {
                        assert(queries@.take(i as int)[k] == t[k]);
                        assert(has_modality(queries@.take(i as int), x));
                    }
                }
                if views(names@).to_set().contains(x) {
                    if before.contains(x) {
                        let k = choose|k: int|
                            0 <= k < queries@.take(i as int).len() && (#[trigger] queries@.take(
                                i as int,
                            )[k]).modality@ == x;
                        assert(t[k] == queries@.take(i as int)[k]);
                    } else {
                        assert(t[i as int] == queries@[i as int]);
                    }
                }
            }
        }
        i = i + 1;
    }
    assert(queries@.take(queries@.len() as int) =~= queries@);
    let mut r: Vec<String> = Vec::new();
    let mut k: usize = 0;
    while k < names.len()
        invariant
            0 <= k <= names@.len(),
            r@.len() == k,
            forall|j: int| 0 <= j < k ==> (#[trigger] r@[j])@ == names@[j]@,
        decreases names@.len() - k,
    {
        r.push(names[k].0.clone());
        k = k + 1;
    }
    proof {
        assert(views(r@) =~= views(names@));
        assert forall|m: Seq<char>| has_modality(queries@, m) <==> views(r@).contains(m) by {
            if views(r@).contains(m) {
                let j = choose|j: int| 0 <= j < views(r@).len() && views(r@)[j] == m;
                assert(views(names@).to_set().contains(m));
            }
            if has_modality(queries@, m) {
                assert(views(names@).to_set().contains(m));
            }
        }
        assert forall|a: int, b: int| 0 <= a < b < r@.len() implies modality_lt(
            #[trigger] r@[a]@,
            #[trigger] r@[b]@,
        ) by {
            assert(ModalityName::lt_view(names@[a]@, names@[b]@));
        }
    }
    r
}

/// The integer outcome of one query: the basis of its hit rate, reciprocal
/// rank and NDCG.
#[derive(Clone, Debug, PartialEq, Eq)]
pub struct QueryGrades {
    /// The query's modality.
    pub modality: String,
    /// The grade of each retrieved passage, in rank order.
    pub grades: Vec<u8>,
    /// The query's positive judgment scores, highest first.
    pub ideal: Vec<u8>,
    /// Whether a relevant passage is among the first `k`.
    pub hit: bool,
    /// The one-based rank of the first relevant passage among the first `k`.
    pub first_relevant: Option<usize>,
}

/// What the outcome of query `q` is, given the judgments, the rankings and
/// the cutoff `k`.
pub open spec fn grades_of_query(
    out: QueryGrades,
    q: QueryItem,
    qrels: Seq<QrelItem>,
    rankings: Seq<QueryRanking>,
    k: nat,
) -> bool {
    let js = query_judgments(qrels, q.query_id@);
    let g = grades_of(js, ranking_for(rankings, q.query_id@));
    &&& out.modality@ == q.modality@
    &&& out.grades@ == g
    &&& out.ideal@ == ideal_order(js)
    &&& out.hit == relevant_within(g, k)
    &&& (out.first_relevant matches Some(n) ==> 1 <= n && n <= k && n <= g.len() && g[n - 1] >= 1
        && forall|j: int| 0 <= j < n - 1 ==> #[trigger] g[j] < 1)
    &&& (out.first_relevant is None ==> !relevant_within(g, k))
}

/// Grades every query against its judgments and its ranking (none when the
/// rankings hold none for it), with cutoff `k`.
pub fn grade_queries(
    queries: &[QueryItem],
    qrels: &[QrelItem],
    rankings: &[QueryRanking],
    k: usize,
) -> (r: Vec<QueryGrades>)
    ensures
        r@.len() == queries@.len(),
        forall|i: int|
            0 <= i < queries@.len() ==> grades_of_query(
                #[trigger] r@[i],
                queries@[i],
                qrels@,
                rankings@,
                k as nat,
            ),
{
    let mut r: Vec<QueryGrades> = Vec::new();
    let mut i: usize = 0;
    while i < queries.len()
        invariant
            0 <= i <= queries@.len(),
            r@.len() == i,
            forall|j: int|
                0 <= j < i ==> grades_of_query(
                    #[trigger] r@[j],
                    queries@[j],
                    qrels@,
                    rankings@,
                    k as nat,
                ),
        decreases queries@.len() - i,
    {
        let q = &queries[i];
        let judgments = judgments_for(qrels, q.query_id.as_str());
        let grades = match ranking_index(rankings, q.query_id.as_str()) {
            Some(idx) => relevance_grades(judgments.as_slice(), rankings[idx].items.as_slice()),
            None => {
                let g: Vec<u8> = Vec::new();
                assert(g@ =~= grades_of(judgments@, ranking_for(rankings@, q.query_id@)));
                g
            },
        };
        let ideal = ideal_grades(judgments.as_slice());
        let hit = hit_within(grades.as_slice(), k);
        let first_relevant = first_relevant_rank(grades.as_slice(), k);
        let out = QueryGrades { modality: q.modality.clone(), grades, ideal, hit, first_relevant };
        assert(grades_of_query(out, *q, qrels@, rankings@, k as nat));
        r.push(out);
        i = i + 1;
    }
    r
}

/// The span a judgment marks.
pub open spec fn span_of(q: QrelItem) -> RetrievedSpan {
    RetrievedSpan { doc_id: q.doc_id, line_start: q.line_start, line_end: q.line_end }
}

/// The spans of the positive judgments of query `qid`, in judgment order.
pub open spec fn positive_spans(qrels: Seq<QrelItem>, qid: Seq<char>) -> Seq<RetrievedSpan>
    decreases qrels.len(),
{
    if qrels.len() == 0 {
        Seq::empty()
    } else {
        let rest = positive_spans(qrels.drop_last(), qid);
        let q = qrels.last();
        if q.query_id@ == qid && q.score > 0 {
            rest.push(span_of(q))
        } else {
            rest
        }
    }
}

/// Whether the rankings are for distinct queries.
pub open spec fn distinct_queries(rankings: Seq<QueryRanking>) -> bool {
    forall|i: int, j: int|
        0 <= i < j < rankings.len() ==> (#[trigger] rankings[i]).query_id@ != (#[trigger] rankings[j]).query_id@
}

/// Among rankings for distinct queries, the one for `qid` is the ranking
/// found for it.
proof fn lemma_ranking_for_unique(rankings: Seq<QueryRanking>, qid: Seq<char>, j: int)
    requires
        distinct_queries(rankings),
        0 <= j < rankings.len(),
        rankings[j].query_id@ == qid,
    ensures
        ranking_for(rankings, qid) == rankings[j].items@,
    decreases rankings.len(),
{
    if j > 0 {
        assert(rankings[0].query_id@ != rankings[j].query_id@);
        let rest = rankings.drop_first();
        assert(rest[j - 1] == rankings[j]);
        assert forall|a: int, b: int| 0 <= a < b < rest.len() implies (#[trigger] rest[a]).query_id@ != (#[trigger] rest[b]).query_id@ by {
            assert(rest[a] == rankings[a + 1] && rest[b] == rankings[b + 1]);
        }
        lemma_ranking_for_unique(rest, qid, j - 1);
    }
}

/// Without a ranking for `qid`, none is found for it.
proof fn lemma_ranking_for_absent(rankings: Seq<QueryRanking>, qid: Seq<char>)
    requires
        forall|j: int| 0 <= j < rankings.len() ==> (#[trigger] rankings[j]).query_id@ != qid,
    ensures
        ranking_for(rankings, qid).len() == 0,
    decreases rankings.len(),
{
    if rankings.len() > 0 {
        let rest = rankings.drop_first();
        assert forall|j: int| 0 <= j < rest.len() implies (#[trigger] rest[j]).query_id@ != qid by {
            assert(rest[j] == rankings[j + 1]);
        }
        lemma_ranking_for_absent(rest, qid);
    }
}

/// The baseline rankings evaluated when no rankings are supplied: for each
/// query, the spans of its positive judgments, in judgment order.
pub fn baseline_rankings(qrels: &[QrelItem]) -> (r: Vec<QueryRanking>)
    ensures
        distinct_queries(r@),
        forall|qid: Seq<char>| #[trigger] ranking_for(r@, qid) == positive_spans(qrels@, qid),
{
    let mut r: Vec<QueryRanking> = Vec::new();
    let mut i: usize = 0;
    while i < qrels.len()
        invariant
            0 <= i <= qrels@.len(),
            distinct_queries(r@),
            forall|j: int|
                0 <= j < r@.len() ==> (#[trigger] r@[j]).items@ == positive_spans(qrels@.take(i as int), r@[j].query_id@),
            forall|qid: Seq<char>|
                #![trigger positive_spans(qrels@.take(i as int), qid)]
                positive_spans(qrels@.take(i as int), qid).len() > 0 ==> exists|j: int|
                    0 <= j < r@.len() && (#[trigger] r@[j]).query_id@ == qid,
        decreases qrels@.len() - i,
    {
        let q = &qrels[i];
        let ghost before = r@;
        let ghost t = qrels@.take(i as int);
        let ghost t1 = qrels@.take(i + 1);
        proof {
            assert(t1.drop_last() =~= t);
            assert(t1.last() == *q);
        }
        if q.score > 0 {
            let span = RetrievedSpan { doc_id: q.doc_id.clone(), line_start: q.line_start, line_end: q.line_end };
            assert(span == span_of(*q));
            match ranking_index(r.as_slice(), q.query_id.as_str()) {
                Some(j) => {
                    let mut entry = r.remove(j);
                    entry.items.push(span);
                    r.insert(j, entry);
                    proof {
                        assert forall|a: int| 0 <= a < r@.len() implies (#[trigger] r@[a]).query_id@ == before[a].query_id@ by {
                            if a != j {
                                assert(r@[a] == before[a]);
                            }
                        }
                        assert forall|a: int|
                            0 <= a < r@.len() implies (#[trigger] r@[a]).items@ == positive_spans(t1, r@[a].query_id@) by {
                            if a != j {
                                assert(r@[a] == before[a]);
                                if before[a].query_id@ == q.query_id@ {
                                    assert(before[j as int].query_id@ == q.query_id@);
                                }
                            }
                        }
                        assert forall|qid: Seq<char>|
                            #![trigger positive_spans(t1, qid)]
                            positive_spans(t1, qid).len() > 0 implies exists|a: int|
                                0 <= a < r@.len() && (#[trigger] r@[a]).query_id@ == qid by {
                            if qid == q.query_id@ {
                                assert(r@[j as int].query_id@ == qid);
                            } else {
                                assert(positive_spans(t1, qid) == positive_spans(t, qid));
                                let a = choose|a: int| 0 <= a < before.len() && (#[trigger] before[a]).query_id@ == qid;
                                assert(r@[a].query_id@ == qid);
                            }
                        }
                    }
                },
                None => {
                    proof {
                        if positive_spans(t, q.query_id@).len() > 0 {
                            let a = choose|a: int| 0 <= a < before.len() && (#[trigger] before[a]).query_id@ == q.query_id@;
                        }
                        assert(positive_spans(t, q.query_id@) =~= Seq::<RetrievedSpan>::empty());
                    }
                    let mut items: Vec<RetrievedSpan> = Vec::new();
                    items.push(span);
                    r.push(QueryRanking { query_id: q.query_id.clone(), items });
                    proof {
                        assert forall|a: int|
                            0 <= a < r@.len() implies (#[trigger] r@[a]).items@ == positive_spans(t1, r@[a].query_id@) by {
                            if a < before.len() {
                                assert(r@[a] == before[a]);
                            } else {
                                assert(r@[a].items@ =~= Seq::<RetrievedSpan>::empty().push(span_of(*q)));
                            }
                        }
                        assert forall|qid: Seq<char>|
                            #![trigger positive_spans(t1, qid)]
                            positive_spans(t1, qid).len() > 0 implies exists|a: int|
                                0 <= a < r@.len() && (#[trigger] r@[a]).query_id@ == qid by {
                            if qid == q.query_id@ {
                                assert(r@[before.len() as int].query_id@ == qid);
                            } else {
                                assert(positive_spans(t1, qid) == positive_spans(t, qid));
                                let a = choose|a: int| 0 <= a < before.len() && (#[trigger] before[a]).query_id@ == qid;
                                assert(r@[a] == before[a]);
                            }
                        }
                    }
                },
            }
        } else {
            proof {
                assert forall|qid: Seq<char>| #![trigger positive_spans(t1, qid)] positive_spans(t1, qid) == positive_spans(t, qid) by {}
            }
        }
        i = i + 1;
    }
    proof {
        assert(qrels@.take(qrels@.len() as int) =~= qrels@);
        assert forall|qid: Seq<char>| #[trigger] ranking_for(r@, qid) == positive_spans(qrels@, qid) by {
            if exists|j: int| 0 <= j < r@.len() && (#[trigger] r@[j]).query_id@ == qid {
                let j = choose|j: int| 0 <= j < r@.len() && (#[trigger] r@[j]).query_id@ == qid;
                lemma_ranking_for_unique(r@, qid, j);
            } else {
                lemma_ranking_for_absent(r@, qid);
                assert(positive_spans(qrels@, qid) =~= Seq::<RetrievedSpan>::empty());
            }
        }
    }
    r
}

/// Whether query `qid` has a positive judgment.
pub open spec fn has_positive(qrels: Seq<QrelItem>, qid: Seq<char>) -> bool {
    exists|i: int| 0 <= i < qrels.len() && (#[trigger] qrels[i]).query_id@ == qid && qrels[i].score > 0
}

/// Each span of `positive_spans` is the span of a positive judgment of the
/// query, and there is one when the query has a positive judgment.
proof fn lemma_positive_spans_shape(qrels: Seq<QrelItem>, qid: Seq<char>)
    ensures
        forall|m: int|
            0 <= m < positive_spans(qrels, qid).len() ==> exists|i: int|
                0 <= i < qrels.len() && (#[trigger] qrels[i]).query_id@ == qid && qrels[i].score > 0
                    && #[trigger] positive_spans(qrels, qid)[m] == span_of(qrels[i]),
        has_positive(qrels, qid) ==> positive_spans(qrels, qid).len() > 0,
    decreases qrels.len(),
{
    if qrels.len() > 0 {
        let rest = qrels.drop_last();
        lemma_positive_spans_shape(rest, qid);
        let ps = positive_spans(qrels, qid);
        assert forall|m: int| 0 <= m < ps.len() implies exists|i: int|
            0 <= i < qrels.len() && (#[trigger] qrels[i]).query_id@ == qid && qrels[i].score > 0
                && #[trigger] ps[m] == span_of(qrels[i]) by {
            if m < positive_spans(rest, qid).len() {
                let i = choose|i: int|
                    0 <= i < rest.len() && (#[trigger] rest[i]).query_id@ == qid && rest[i].score > 0
                        && #[trigger] positive_spans(rest, qid)[m] == span_of(rest[i]);
                assert(qrels[i] == rest[i]);
            } else {
                assert(qrels[qrels.len() - 1] == qrels.last());
            }
        }
        if has_positive(qrels, qid) {
            let i = choose|i: int| 0 <= i < qrels.len() && (#[trigger] qrels[i]).query_id@ == qid && qrels[i].score > 0;
            if i < qrels.len() - 1 {
                assert(rest[i] == qrels[i]);
                assert(has_positive(rest, qid));
            }
        }
    }
}

/// The grade of a passage is at least the score of every judgment that
/// applies to it.
proof fn lemma_relevance_at_least(js: Seq<QrelItem>, d: Seq<char>, s: usize, e: usize, i: int)
    requires
        0 <= i < js.len(),
        judgment_applies(js[i], d, s, e),
    ensures
        relevance_of(js, d, s, e) >= js[i].score,
    decreases js.len(),
{
    if i < js.len() - 1 {
        assert(js.drop_last()[i] == js[i]);
        lemma_relevance_at_least(js.drop_last(), d, s, e, i);
    }
}

/// Evaluated against the baseline rankings, every query with a positive
/// judgment finds a relevant passage at rank one, so it is a hit at every
/// cutoff of at least one, provided the judgments' line ranges are well
/// formed (as fixture validation ensures).
pub proof fn lemma_baseline_hits(qrels: Seq<QrelItem>, qid: Seq<char>, k: nat)
    requires
        has_positive(qrels, qid),
        k >= 1,
        forall|i: int| 0 <= i < qrels.len() ==> (#[trigger] qrels[i]).line_start <= qrels[i].line_end,
    ensures
        grades_of(query_judgments(qrels, qid), positive_spans(qrels, qid))[0] >= 1,
        relevant_within(grades_of(query_judgments(qrels, qid), positive_spans(qrels, qid)), k),
{
    lemma_positive_spans_shape(qrels, qid);
    let ps = positive_spans(qrels, qid);
    let i = choose|i: int|
        0 <= i < qrels.len() && (#[trigger] qrels[i]).query_id@ == qid && qrels[i].score > 0
            && #[trigger] ps[0] == span_of(qrels[i]);
    let js = query_judgments(qrels, qid);
    let pred = |j: QrelItem| j.query_id@ == qid;
    qrels.lemma_filter_contains(pred, i);
    assert(js.contains(qrels[i]));
    let m = choose|m: int| 0 <= m < js.len() && js[m] == qrels[i];
    assert(judgment_applies(js[m], ps[0].doc_id@, ps[0].line_start, ps[0].line_end));
    lemma_relevance_at_least(js, ps[0].doc_id@, ps[0].line_start, ps[0].line_end, m);
    let g = grades_of(js, ps);
    assert(g[0] >= 1);
}

} // verus!
