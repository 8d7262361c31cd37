//! The embed-collections use case: building the semantic index.
use vstd::prelude::*;
use crate::collection::CollectionName;
use crate::content_hash::ContentHash;
use crate::embedding::{Embedding, EmbeddingModel, SemanticIndexStatus, SemanticPassage};
use crate::errors::{EmbedError, EmbeddingError, SemanticIndexStoreError};
use crate::file_id::FileId;
use crate::ports::{
    opt_model, opt_status, Clock, EmbedTarget, EmbeddingGenerator, PairView, PassageView,
    Reranker, SemanticIndexStore,
};
use crate::reranking::RerankerModel;
use crate::sorted::views;
use crate::text::{str_eq, trim};
use crate::timestamp::Timestamp;

verus! {

/// The scope of an embed operation.
#[derive(Clone, Copy, Debug)]
pub enum EmbedScope<'a> {
    /// Embed every eligible collection.
    All,
    /// Embed a single named collection.
    Collection(&'a CollectionName),
}

/// Why a collection was not embedded.
#[derive(Clone, Copy, Debug, PartialEq, Eq, Structural)]
pub enum SkipReason {
    /// The collection has no stored files.
    NoFiles,
    /// The collection's lexical index has never been built.
    LexicalNotBuilt,
}

/// A progress event emitted during an embedding run.
#[derive(Clone, Debug, PartialEq, Eq)]
pub enum EmbedProgress {
    /// Per-file progress within a collection's embedding phase.
    Files {
        /// The collection being embedded.
        collection: CollectionName,
        /// Files whose passages have been embedded so far.
        completed_files: usize,
        /// Files with passages in this collection's embedding set.
        total_files: usize,
    },
    /// The collection's vectors are being written to the index.
    Writing {
        /// The collection being written.
        collection: CollectionName,
    },
}

/// The view of a progress event.
pub enum ProgressView {
    /// Files completed out of the total, in a collection.
    Files(NameView, usize, usize),
    /// A collection's vectors being written.
    Writing(NameView),
}

impl View for EmbedProgress {
    type V = ProgressView;

    open spec fn view(&self) -> ProgressView {
        match self {
            EmbedProgress::Files { collection, completed_files, total_files } => ProgressView::Files(
                collection@,
                *completed_files,
                *total_files,
            ),
            EmbedProgress::Writing { collection } => ProgressView::Writing(collection@),
        }
    }
}

/// Receives the progress events of an embedding run.
pub trait EmbedProgressSink {
    /// The events received so far, in order. Each sink describes what it
    /// received; nothing is assumed of one that does not.
    closed spec fn events(&self) -> Seq<ProgressView> {
        arbitrary()
    }

    /// Takes one progress event.
    fn report(&mut self, event: EmbedProgress)
        ensures
            final(self).events() == old(self).events().push(event@),
    ;
}

/// The view of a collection name: display spelling and key.
pub type NameView = (Seq<char>, Seq<char>);

/// The view of an outcome.
pub enum OutcomeView {
    /// Embedded, with the passage count.
    Embedded(NameView, usize),
    /// Already current.
    AlreadyCurrent(NameView),
    /// Skipped, with the reason.
    Skipped(NameView, SkipReason),
    /// Failed, with the message.
    Failed(NameView, Seq<char>),
}

/// The outcome for one processed collection.
#[derive(Clone, Debug, PartialEq, Eq)]
pub enum EmbedOutcome {
    /// The collection's semantic index was built or rebuilt.
    Embedded {
        /// The collection name.
        collection: CollectionName,
        /// The number of passages embedded.
        passage_count: usize,
    },
    /// The collection's semantic index is already current.
    AlreadyCurrent {
        /// The collection name.
        collection: CollectionName,
    },
    /// The collection was skipped without being embedded.
    Skipped {
        /// The collection name.
        collection: CollectionName,
        /// The reason the collection was skipped.
        reason: SkipReason,
    },
    /// The collection failed to embed; processing continued.
    Failed {
        /// The collection name.
        collection: CollectionName,
        /// A human-readable description of the failure.
        message: String,
    },
}

impl View for EmbedOutcome {
    type V = OutcomeView;

    open spec fn view(&self) -> OutcomeView {
        match self {
            EmbedOutcome::Embedded { collection, passage_count } => OutcomeView::Embedded(
                collection@,
                *passage_count,
            ),
            EmbedOutcome::AlreadyCurrent { collection } => OutcomeView::AlreadyCurrent(
                collection@,
            ),
            EmbedOutcome::Skipped { collection, reason } => OutcomeView::Skipped(
                collection@,
                *reason,
            ),
            EmbedOutcome::Failed { collection, message } => OutcomeView::Failed(
                collection@,
                message@,
            ),
        }
    }
}

/// The collection an outcome concerns.
pub open spec fn outcome_collection(o: OutcomeView) -> NameView {
    match o {
        OutcomeView::Embedded(c, _) => c,
        OutcomeView::AlreadyCurrent(c) => c,
        OutcomeView::Skipped(c, _) => c,
        OutcomeView::Failed(c, _) => c,
    }
}

impl EmbedOutcome {
    /// Returns the collection this outcome concerns.
    pub fn collection(&self) -> (c: &CollectionName)
        ensures
            c@ == outcome_collection(self@),
    {
        match self {
            EmbedOutcome::Embedded { collection, .. } => collection,
            EmbedOutcome::AlreadyCurrent { collection } => collection,
            EmbedOutcome::Skipped { collection, .. } => collection,
            EmbedOutcome::Failed { collection, .. } => collection,
        }
    }

    /// Returns whether this outcome is a failure.
    pub fn is_failed(&self) -> (b: bool)
        ensures
            b == (self@ is Failed),
    {
        match self {
            EmbedOutcome::Failed { .. } => true,
            _ => false,
        }
    }
}

/// The per-collection outcomes of one embed run.
#[derive(Clone, Debug, Default, PartialEq, Eq)]
pub struct EmbedReport {
    outcomes: Vec<EmbedOutcome>,
}

impl View for EmbedReport {
    type V = Seq<OutcomeView>;

    closed spec fn view(&self) -> Seq<OutcomeView> {
        views(self.outcomes@)
    }
}

impl EmbedReport {
    /// Creates an empty embed report.
    pub fn new() -> (r: EmbedReport)
        ensures
            r@ == Seq::<OutcomeView>::empty(),
    {
        let r = EmbedReport { outcomes: Vec::new() };
        assert(r@ =~= Seq::<OutcomeView>::empty());
        r
    }

    /// Adds an outcome to the report.
    pub fn push(&mut self, outcome: EmbedOutcome)
        ensures
            final(self)@ == old(self)@.push(outcome@),
    {
        let ghost before = self.outcomes@;
        self.outcomes.push(outcome);
        assert(views(self.outcomes@) =~= views(before).push(self.outcomes@.last()@));
    }

    /// Returns the per-collection outcomes in processing order.
    pub fn outcomes(&self) -> (o: &[EmbedOutcome])
        ensures
            views(o@) == self@,
    {
        self.outcomes.as_slice()
    }

    /// Returns whether any collection failed.
    pub fn any_failed(&self) -> (b: bool)
        ensures
            b == exists|i: int| 0 <= i < self@.len() && (#[trigger] self@[i]) is Failed,
    {
        let mut i: usize = 0;
        while i < self.outcomes.len()
            invariant
                0 <= i <= self.outcomes@.len(),
                forall|k: int| 0 <= k < i ==> !((#[trigger] self.outcomes@[k])@ is Failed),
            decreases self.outcomes@.len() - i,
        {
            if self.outcomes[i].is_failed() {
                assert(self@[i as int] is Failed);
                return true;
            }
            i = i + 1;
        }
        proof {
            assert forall|k: int| 0 <= k < self@.len() implies !((#[trigger] self@[k]) is Failed) by {
                assert(self@[k] == self.outcomes@[k]@);
            }
        }
        false
    }
}

/// The default embedding model when none is recorded or supplied.
pub const DEFAULT_MODEL: &'static str = "all-MiniLM-L6-v2";

/// The default model's name is not blank.
pub proof fn lemma_default_model_named()
    ensures
        trim(DEFAULT_MODEL@).len() > 0,
{
    reveal_strlit("all-MiniLM-L6-v2");
    crate::text::lemma_trim_empty(DEFAULT_MODEL@);
    assert(!crate::text::is_ws(DEFAULT_MODEL@[0]));
}

/// The default embedding model.
pub fn default_model() -> (r: Result<EmbeddingModel, EmbedError>)
    ensures
        r matches Ok(m) && m@ == trim(DEFAULT_MODEL@),
{
    proof {
        lemma_default_model_named();
    }
    match EmbeddingModel::try_new(DEFAULT_MODEL) {
        Ok(m) => Ok(m),
        Err(e) => Err(
            EmbedError::Generator(EmbeddingError::Storage(e.message().to_owned())),
        ),
    }
}

/// Zips passages and their embeddings, requiring equal lengths.
pub fn build_pairs(passages: Vec<SemanticPassage>, vectors: Vec<Embedding>) -> (r: Option<
    Vec<(SemanticPassage, Embedding)>,
>)
    ensures
        passages@.len() != vectors@.len() ==> r is None,
        passages@.len() == vectors@.len() ==> (r matches Some(pairs) && pairs@.len()
            == passages@.len() && forall|i: int|
            0 <= i < pairs@.len() ==> (#[trigger] pairs@[i]).0@ == passages@[i]@ && pairs@[i].1@
                == vectors@[i]@),
{
    if passages.len() != vectors.len() {
        return None;
    }
    let n = passages.len();
    let mut pairs: Vec<(SemanticPassage, Embedding)> = Vec::new();
    let mut i: usize = 0;
    while i < n
        invariant
            0 <= i <= n,
            n == passages@.len(),
            n == vectors@.len(),
            pairs@.len() == i,
            forall|k: int|
                0 <= k < i ==> (#[trigger] pairs@[k]).0@ == passages@[k]@ && pairs@[k].1@
                    == vectors@[k]@,
        decreases n - i,
    {
        pairs.push((passages[i].duplicate(), vectors[i].duplicate()));
        i = i + 1;
    }
    Some(pairs)
}

/// `s` without repeated elements, keeping first occurrences in order.
pub open spec fn first_occurrences<A>(s: Seq<A>) -> Seq<A>
    decreases s.len(),
{
    if s.len() == 0 {
        Seq::empty()
    } else {
        let r = first_occurrences(s.drop_last());
        if r.contains(s.last()) {
            r
        } else {
            r.push(s.last())
        }
    }
}

/// The first occurrences are the elements of the sequence.
proof fn lemma_first_occurrences_contains<A>(s: Seq<A>, x: A)
    ensures
        first_occurrences(s).contains(x) == s.contains(x),
    decreases s.len(),
{
    if s.len() > 0 {
        let p = s.drop_last();
        lemma_first_occurrences_contains(p, x);
        crate::text::lemma_push_contains(p, s.last(), x);
        crate::text::lemma_push_contains(first_occurrences(p), s.last(), x);
        assert(p.push(s.last()) =~= s);
    }
}

/// The first occurrences hold no element twice.
proof fn lemma_first_occurrences_distinct<A>(s: Seq<A>)
    ensures
        forall|i: int, j: int|
            0 <= i < j < first_occurrences(s).len() ==> first_occurrences(s)[i]
                != first_occurrences(s)[j],
    decreases s.len(),
{
    if s.len() > 0 {
        let p = s.drop_last();
        lemma_first_occurrences_distinct(p);
        let r = first_occurrences(p);
        if !r.contains(s.last()) {
            assert forall|i: int, j: int|
                0 <= i < j < first_occurrences(s).len() implies first_occurrences(s)[i]
                != first_occurrences(s)[j] by {
                if j == r.len() {
                    assert(first_occurrences(s)[i] == r[i]);
                }
            }
        }
    }
}

/// Selects the passages of file `f`.
pub open spec fn in_file(f: u64) -> spec_fn(PassageView) -> bool {
    |p: PassageView| p.0 == f
}

/// The file IDs of passages.
pub open spec fn passage_files(ps: Seq<PassageView>) -> Seq<u64> {
    ps.map_values(|p: PassageView| p.0)
}

/// `groups` splits `ps` by file: one group per file, in order of the file's
/// first passage, each holding that file's passages in order.
pub open spec fn grouped_by_file(ps: Seq<PassageView>, ids: Seq<u64>, members: Seq<Seq<PassageView>>) -> bool {
    &&& ids == first_occurrences(passage_files(ps))
    &&& members.len() == ids.len()
    &&& forall|k: int| 0 <= k < ids.len() ==> #[trigger] members[k] == ps.filter(in_file(ids[k]))
}

/// Groups passages by file, keeping each file's passages in order and the
/// files in order of first appearance.
pub fn group_by_file(passages: Vec<SemanticPassage>) -> (r: (Vec<FileId>, Vec<Vec<SemanticPassage>>))
    ensures
        grouped_by_file(
            views(passages@),
            views(r.0@),
            r.1@.map_values(|g: Vec<SemanticPassage>| views(g@)),
        ),
{
    let ghost pv = views(passages@);
    let mut ids: Vec<FileId> = Vec::new();
    let mut members: Vec<Vec<SemanticPassage>> = Vec::new();
    let mut i: usize = 0;
    proof {
        assert(passage_files(pv.take(0)) =~= Seq::<u64>::empty());
        assert(views(ids@) =~= Seq::<u64>::empty());
    }
    while i < passages.len()
        invariant
            0 <= i <= passages@.len(),
            pv == views(passages@),
            grouped_by_file(
                pv.take(i as int),
                views(ids@),
                members@.map_values(|g: Vec<SemanticPassage>| views(g@)),
            ),
        decreases passages@.len() - i,
    {
        let p = &passages[i];
        let f = p.file();
        let ghost pre = pv.take(i as int);
        let ghost post = pv.take(i + 1);
        let ghost x = p@;
        assert(post == pre.push(x));
        assert(passage_files(post) =~= passage_files(pre).push(x.0));
        assert(passage_files(post).drop_last() =~= passage_files(pre));
        let ghost mv = members@.map_values(|g: Vec<SemanticPassage>| views(g@));
        let mut k: usize = 0;
        while k < ids.len()
            invariant
                0 <= k <= ids@.len(),
                f@ == x.0,
                forall|j: int| 0 <= j < k ==> (#[trigger] ids@[j])@ != f@,
            ensures
                0 <= k <= ids@.len(),
                k < ids@.len() ==> ids@[k as int]@ == f@,
                forall|j: int| 0 <= j < k ==> (#[trigger] ids@[j])@ != f@,
            decreases ids@.len() - k,
        {
            if ids[k].as_u64() == f.as_u64() {
                break;
            }
            k = k + 1;
        }
        if k < ids.len() {
            let ghost old_ids = views(ids@);
            let ghost old_m = members@;
            let mut g = members.remove(k);
            let ghost gv = views(g@);
            g.push(p.duplicate());
            assert(views(g@) =~= gv.push(x));
            let ghost gf = g;
            members.insert(k, g);
            proof {
                lemma_first_occurrences_distinct(passage_files(pre));
                assert(members@ =~= old_m.update(k as int, gf));
                assert(old_ids[k as int] == x.0);
                assert(first_occurrences(passage_files(pre)).contains(x.0));
                let nm = members@.map_values(|g: Vec<SemanticPassage>| views(g@));
                assert forall|j: int| 0 <= j < old_ids.len() implies #[trigger] nm[j] == post.filter(
                    in_file(old_ids[j]),
                ) by {
                    pre.lemma_filter_push(x, in_file(old_ids[j]));
                    if j != k {
                        assert(nm[j] == mv[j]);
                    } else {
                        assert(gv == mv[j]);
                        assert(nm[j] == views(gf@));
                        assert(in_file(old_ids[j])(x));
                        assert(mv[j] == pre.filter(in_file(old_ids[j])));
                    }
                }
            }
        } else {
            let ghost old_ids = views(ids@);
            proof {
                assert forall|j: int| 0 <= j < old_ids.len() implies old_ids[j] != x.0 by {
                    assert(old_ids[j] == ids@[j]@);
                }
                lemma_first_occurrences_contains(passage_files(pre), x.0);
                if first_occurrences(passage_files(pre)).contains(x.0) {
                    let j = choose|j: int| 0 <= j < old_ids.len() && old_ids[j] == x.0;
                    assert(false);
                }
                assert(!passage_files(pre).contains(x.0));
                assert(pre.filter(in_file(x.0)) =~= Seq::<PassageView>::empty()) by {
                    if pre.filter(in_file(x.0)).len() > 0 {
                        let q = pre.filter(in_file(x.0))[0];
                        pre.lemma_filter_contains_rev(in_file(x.0), q);
                        assert(pre.filter(in_file(x.0)).contains(q));
                        let m = choose|m: int| 0 <= m < pre.len() && pre[m] == q;
                        assert(passage_files(pre)[m] == x.0);
                    }
                }
            }
            ids.push(f);
            let mut g: Vec<SemanticPassage> = Vec::new();
            g.push(p.duplicate());
            members.push(g);
            proof {
                let nm = members@.map_values(|g: Vec<SemanticPassage>| views(g@));
                assert(views(ids@) =~= old_ids.push(x.0));
                assert forall|j: int| 0 <= j < views(ids@).len() implies #[trigger] nm[j]
                    == post.filter(in_file(views(ids@)[j])) by {
                    pre.lemma_filter_push(x, in_file(views(ids@)[j]));
                    if j < old_ids.len() {
                        assert(nm[j] == mv[j]);
                    } else {
                        assert(nm[j] =~= seq![x]);
                        assert(Seq::<PassageView>::empty().push(x) =~= seq![x]);
                    }
                }
            }
        }
        i = i + 1;
    }
    assert(pv.take(passages@.len() as int) =~= pv);
    (ids, members)
}

/// Whether a collection's semantic index must be rebuilt: it has no
/// recorded status, or the status was built from another file set or with
/// another model.
pub open spec fn rebuild_needed(
    status: Option<(Seq<char>, Seq<char>, usize, u64)>,
    fingerprint: Seq<char>,
    model: Seq<char>,
) -> bool {
    match status {
        None => true,
        Some(s) => s.0 != fingerprint || s.1 != model,
    }
}

/// Decides whether a collection's semantic index must be rebuilt.
pub fn needs_rebuild(
    status: &Option<SemanticIndexStatus>,
    fingerprint: &ContentHash,
    model: &EmbeddingModel,
) -> (b: bool)
    ensures
        b == rebuild_needed(opt_status(*status), fingerprint@, model@),
{
    match status {
        None => true,
        Some(s) => !str_eq(s.file_set_fingerprint().as_str(), fingerprint.as_str()) || !str_eq(
            s.model().as_str(),
            model.as_str(),
        ),
    }
}

/// The view of an embed target.
pub type TargetView = (NameView, bool, bool);

/// Why a target is not embedded, if it is not.
pub open spec fn skip_reason(t: TargetView) -> Option<SkipReason> {
    if !t.1 {
        Some(SkipReason::NoFiles)
    } else if !t.2 {
        Some(SkipReason::LexicalNotBuilt)
    } else {
        None
    }
}

/// Whether a target is eligible for embedding.
pub open spec fn eligible(t: TargetView) -> bool {
    skip_reason(t) is None
}

/// The outcomes reported for the targets that are skipped, in order.
pub open spec fn skip_outcomes(ts: Seq<TargetView>) -> Seq<OutcomeView>
    decreases ts.len(),
{
    if ts.len() == 0 {
        Seq::empty()
    } else {
        let rest = skip_outcomes(ts.drop_last());
        match skip_reason(ts.last()) {
            Some(r) => rest.push(OutcomeView::Skipped(ts.last().0, r)),
            None => rest,
        }
    }
}

/// The collections of the eligible targets, in order.
pub open spec fn eligible_names(ts: Seq<TargetView>) -> Seq<NameView>
    decreases ts.len(),
{
    if ts.len() == 0 {
        Seq::empty()
    } else {
        let rest = eligible_names(ts.drop_last());
        if eligible(ts.last()) {
            rest.push(ts.last().0)
        } else {
            rest
        }
    }
}

/// Splits the targets of an all-collections run: the skipped ones are
/// reported with their reason, the eligible ones are returned in order.
pub fn split_targets(targets: &[EmbedTarget], report: &mut EmbedReport) -> (process: Vec<
    CollectionName,
>)
    ensures
        final(report)@ == old(report)@ + skip_outcomes(views(targets@)),
        views(process@) == eligible_names(views(targets@)),
{
    let ghost tv = views(targets@);
    let ghost start = report@;
    let mut process: Vec<CollectionName> = Vec::new();
    let mut i: usize = 0;
    assert(tv.take(0) =~= Seq::<TargetView>::empty());
    assert(start + Seq::<OutcomeView>::empty() =~= start);
    assert(views(process@) =~= Seq::<NameView>::empty());
    while i < targets.len()
        invariant
            0 <= i <= targets@.len(),
            tv == views(targets@),
            report@ == start + skip_outcomes(tv.take(i as int)),
            views(process@) == eligible_names(tv.take(i as int)),
        decreases targets@.len() - i,
    {
        let t = &targets[i];
        let ghost post = tv.take(i + 1);
        assert(post.drop_last() =~= tv.take(i as int));
        assert(post.last() == t@);
        if !t.has_files() {
            report.push(
                EmbedOutcome::Skipped { collection: t.collection().duplicate(), reason: SkipReason::NoFiles },
            );
            assert(report@ =~= start + skip_outcomes(post));
        } else if !t.lexical_built() {
            report.push(
                EmbedOutcome::Skipped {
                    collection: t.collection().duplicate(),
                    reason: SkipReason::LexicalNotBuilt,
                },
            );
            assert(report@ =~= start + skip_outcomes(post));
        } else {
            let ghost before = process@;
            process.push(t.collection().duplicate());
            assert(views(process@) =~= views(before).push(t@.0));
        }
        i = i + 1;
    }
    assert(tv.take(targets@.len() as int) =~= tv);
    process
}

/// What a single-collection run makes of the collection's resolved
/// target: the collections to process and the outcomes to report, or the
/// error. A missing collection is an error, one without files is reported
/// as skipped and nothing is processed, one without a built lexical index
/// is an error, and otherwise the collection is processed.
pub open spec fn single_outcome(c: NameView, resolved: Result<TargetView, SemanticIndexStoreError>) -> Result<
    (Seq<NameView>, Seq<OutcomeView>),
    EmbedError,
> {
    match resolved {
        Err(SemanticIndexStoreError::CollectionNotFound) => Err(EmbedError::CollectionNotFound),
        Err(SemanticIndexStoreError::Storage(m)) => Err(
            EmbedError::Store(SemanticIndexStoreError::Storage(m)),
        ),
        Ok(t) => if !t.1 {
            Ok((Seq::empty(), seq![OutcomeView::Skipped(c, SkipReason::NoFiles)]))
        } else if !t.2 {
            Err(EmbedError::IndexNotBuilt)
        } else {
            Ok((seq![c], Seq::empty()))
        },
    }
}

/// The view of a resolved target.
pub open spec fn target_result(resolved: Result<EmbedTarget, SemanticIndexStoreError>) -> Result<
    TargetView,
    SemanticIndexStoreError,
> {
    match resolved {
        Ok(t) => Ok(t@),
        Err(e) => Err(e),
    }
}

/// What resolving a run's scope against `store` gives: the collections to
/// process and the outcomes to report first, or the error. For all
/// collections, the eligible targets of the store's list are processed and
/// the others reported as skipped; for one collection, as
/// [`single_outcome`] says of its resolved target.
pub open spec fn run_targets<'a, S: SemanticIndexStore>(store: S, scope: EmbedScope<'a>) -> Result<
    (Seq<NameView>, Seq<OutcomeView>),
    EmbedError,
> {
    match scope {
        EmbedScope::All => match store.target_list() {
            Ok(ts) => Ok((eligible_names(ts), skip_outcomes(ts))),
            Err(e) => Err(EmbedError::Store(e)),
        },
        EmbedScope::Collection(c) => single_outcome(c@, store.resolution(c@)),
    }
}

/// Settles a single-collection run from the collection's resolved target,
/// as [`single_outcome`] says.
pub fn settle_single(
    collection: &CollectionName,
    resolved: Result<EmbedTarget, SemanticIndexStoreError>,
    report: &mut EmbedReport,
) -> (r: Result<Vec<CollectionName>, EmbedError>)
    ensures
        match single_outcome(collection@, target_result(resolved)) {
            Ok(x) => r matches Ok(v) && views(v@) == x.0 && final(report)@ == old(report)@ + x.1,
            Err(e) => r == Err::<Vec<CollectionName>, EmbedError>(e) && final(report)@ == old(report)@,
        },
{
    match resolved {
        Err(SemanticIndexStoreError::CollectionNotFound) => Err(EmbedError::CollectionNotFound),
        Err(SemanticIndexStoreError::Storage(m)) => Err(
            EmbedError::Store(SemanticIndexStoreError::Storage(m)),
        ),
        Ok(t) => {
            if !t.has_files() {
                report.push(
                    EmbedOutcome::Skipped { collection: collection.duplicate(), reason: SkipReason::NoFiles },
                );
                let none: Vec<CollectionName> = Vec::new();
                assert(views(none@) =~= Seq::<NameView>::empty());
                Ok(none)
            } else if !t.lexical_built() {
                Err(EmbedError::IndexNotBuilt)
            } else {
                let mut v: Vec<CollectionName> = Vec::new();
                v.push(collection.duplicate());
                assert(views(v@) =~= seq![collection@]);
                Ok(v)
            }
        },
    }
}

/// Whether `names` holds a name equal to `name` in both its forms.
fn holds_name(names: &Vec<CollectionName>, name: &CollectionName) -> (b: bool)
    ensures
        b == views(names@).contains(name@),
{
    let mut i: usize = 0;
    while i < names.len()
        invariant
            0 <= i <= names@.len(),
            forall|k: int| 0 <= k < i ==> names@[k]@ != name@,
        decreases names@.len() - i,
    {
        if names[i].same_as(name) {
            assert(views(names@)[i as int] == name@);
            return true;
        }
        i = i + 1;
    }
    proof {
        if views(names@).contains(name@) {
            let k = choose|k: int| 0 <= k < views(names@).len() && views(names@)[k] == name@;
            assert(names@[k]@ == name@);
        }
    }
    false
}

/// `base` followed by each of `extra` it does not hold yet, in order.
pub open spec fn merged(base: Seq<NameView>, extra: Seq<NameView>) -> Seq<NameView>
    decreases extra.len(),
{
    if extra.len() == 0 {
        base
    } else {
        let m = merged(base, extra.drop_last());
        if m.contains(extra.last()) {
            m
        } else {
            m.push(extra.last())
        }
    }
}

/// Adds to `process` each of `extra` it does not hold yet, in order.
pub fn merge_names(process: &mut Vec<CollectionName>, extra: &Vec<CollectionName>)
    ensures
        views(final(process)@).to_set() == views(old(process)@).to_set().union(
            views(extra@).to_set(),
        ),
        views(old(process)@).is_prefix_of(views(final(process)@)),
        views(final(process)@) == merged(views(old(process)@), views(extra@)),
{
    let ghost start = views(process@);
    assert(views(extra@).take(0) =~= Seq::<NameView>::empty());
    let mut i: usize = 0;
    while i < extra.len()
        invariant
            0 <= i <= extra@.len(),
            start.is_prefix_of(views(process@)),
            views(process@).to_set() == start.to_set().union(views(extra@).take(i as int).to_set()),
            views(process@) == merged(start, views(extra@).take(i as int)),
        decreases extra@.len() - i,
    {
        let ghost before = views(process@);
        let ghost ev = views(extra@);
        proof {
            assert(ev.take(i + 1) =~= ev.take(i as int).push(ev[i as int]));
            assert(ev.take(i + 1).drop_last() =~= ev.take(i as int));
            ev.take(i as int).lemma_push_to_set_commute(ev[i as int]);
        }
        if !holds_name(process, &extra[i]) {
            process.push(extra[i].duplicate());
            proof {
                assert(views(process@) =~= before.push(ev[i as int]));
                before.lemma_push_to_set_commute(ev[i as int]);
                assert(views(process@).to_set() =~= start.to_set().union(ev.take(i + 1).to_set()));
            }
        } else {
            proof {
                assert(before.to_set().contains(ev[i as int]));
                assert(views(process@).to_set() =~= start.to_set().union(ev.take(i + 1).to_set()));
            }
        }
        i = i + 1;
    }
    assert(views(extra@).take(extra@.len() as int) =~= views(extra@));
}

/// Whether two optional models hold the same name.
fn same_model(a: &Option<EmbeddingModel>, b: &EmbeddingModel) -> (r: bool)
    ensures
        r == (opt_model(*a) == Some(b@)),
{
    match a {
        Some(x) => str_eq(x.as_str(), b.as_str()),
        None => false,
    }
}

/// Whether the recorded re-ranker model is `b`.
fn same_reranker(a: &Option<RerankerModel>, b: &RerankerModel) -> (r: bool)
    ensures
        r == (a matches Some(x) && x@ == b@),
{
    match a {
        Some(x) => str_eq(x.as_str(), b.as_str()),
        None => false,
    }
}

/// The passages of each file, one group per file in order of the file's
/// first passage, each group in passage order.
pub open spec fn file_groups(ps: Seq<PassageView>) -> Seq<Seq<PassageView>> {
    first_occurrences(passage_files(ps)).map_values(|f: u64| ps.filter(in_file(f)))
}

/// The texts of passages, in order.
pub open spec fn passage_texts(g: Seq<PassageView>) -> Seq<Seq<char>> {
    g.map_values(|p: PassageView| p.3)
}

/// The views of string slices, in order.
pub open spec fn str_views(s: Seq<&str>) -> Seq<Seq<char>> {
    s.map_values(|t: &str| t@)
}

/// Each passage paired with the vector at the same position.
pub open spec fn zip_pairs(g: Seq<PassageView>, v: Seq<Seq<u32>>) -> Seq<PairView> {
    Seq::new(g.len(), |i: int| (g[i], v[i]))
}

/// What embedding the groups in order gives: every passage paired with its
/// vector, or the number of groups embedded before the first failure and
/// the failure's message. A group fails when the generator fails on its
/// texts or answers another number of vectors than it has passages.
pub open spec fn embed_groups<G: EmbeddingGenerator>(gen: G, model: Seq<char>, groups: Seq<Seq<PassageView>>) -> Result<
    Seq<PairView>,
    (nat, Seq<char>),
>
    decreases groups.len(),
{
    if groups.len() == 0 {
        Ok(Seq::empty())
    } else {
        match embed_groups(gen, model, groups.drop_last()) {
            Err(x) => Err(x),
            Ok(acc) => match gen.embeddings(model, passage_texts(groups.last())) {
                Ok(v) => if v.len() == groups.last().len() {
                    Ok(acc + zip_pairs(groups.last(), v))
                } else {
                    Err(((groups.len() - 1) as nat, "embedding count does not match passage count"@))
                },
                Err(e) => Err(((groups.len() - 1) as nat, e.text())),
            },
        }
    }
}

/// The progress events for the first `done` of `total` files of a
/// collection.
pub open spec fn file_events(c: NameView, done: nat, total: usize) -> Seq<ProgressView> {
    Seq::new(done, |k: int| ProgressView::Files(c, (k + 1) as usize, total))
}

/// The store as a rebuild with `pairs` finds it: the vector table is first
/// given the dimension of the first vector, when there is one.
pub open spec fn dimensioned<S: SemanticIndexStore>(store: S, pairs: Seq<PairView>) -> S {
    if pairs.len() > 0 {
        store.with_dimension(pairs[0].1.len() as usize)
    } else {
        store
    }
}

/// The store after writing `pairs` for collection `c`.
pub open spec fn written<S: SemanticIndexStore>(store: S, c: NameView, model: Seq<char>, t: u64, pairs: Seq<PairView>) -> S {
    dimensioned(store, pairs).rebuilt(c, model, t, pairs)
}

/// What embedding collection `c` with `model` at time `t` may come to,
/// as outcome `o`, taking the store from `before` to `after`: the failure
/// of a read, current, the failure of an embedding, or, once every file is
/// embedded, either the written index with the count the rebuild reports
/// or a store failure while writing.
pub open spec fn embed_step<G: EmbeddingGenerator, S: SemanticIndexStore>(
    gen: G,
    before: S,
    after: S,
    c: NameView,
    model: Seq<char>,
    t: u64,
    o: OutcomeView,
) -> bool {
    match embed_plan(before, c, model) {
        Err(m) => o == OutcomeView::Failed(c, m) && after == before,
        Ok(None) => o == OutcomeView::AlreadyCurrent(c) && after == before,
        Ok(Some(groups)) => match embed_groups(gen, model, groups) {
            Err(failure) => o == OutcomeView::Failed(c, failure.1) && after == before,
            Ok(pairs) => {
                ||| o == OutcomeView::Embedded(
                    c,
                    dimensioned(before, pairs).rebuild_count(c, model, t, pairs),
                ) && after == written(before, c, model, t, pairs)
                ||| o matches OutcomeView::Failed(d, m) && d == c && store_failure(m) && (after
                    == before || after == dimensioned(before, pairs))
            },
        },
    }
}

/// The outcome view of embedding collection `c`: the outcome, or a failure
/// with the message.
pub open spec fn embed_result(r: Result<EmbedOutcome, String>, c: NameView) -> OutcomeView {
    match r {
        Ok(o) => o@,
        Err(m) => OutcomeView::Failed(c, m@),
    }
}

/// Whether `m` is the message of some semantic store error.
pub open spec fn store_failure(m: Seq<char>) -> bool {
    exists|e: SemanticIndexStoreError| m == e.text()
}

/// What reading a collection from the store decides: the message of the
/// store's failure, `None` when its index is current (its status matches the
/// file-set fingerprint and the model), or the collection's passages
/// grouped by file.
pub open spec fn embed_plan<S: SemanticIndexStore>(store: S, c: NameView, model: Seq<char>) -> Result<
    Option<Seq<Seq<PassageView>>>,
    Seq<char>,
> {
    match store.fingerprint_of(c) {
        Err(e) => Err(e.text()),
        Ok(fp) => match store.status_of(c) {
            Err(e) => Err(e.text()),
            Ok(st) => if !rebuild_needed(st, fp, model) {
                Ok(None)
            } else {
                match store.passages_of(c) {
                    Err(e) => Err(e.text()),
                    Ok(ps) => Ok(Some(file_groups(ps))),
                }
            },
        },
    }
}

/// A failure while embedding the first `i` groups is the failure of
/// embedding them all.
proof fn lemma_embed_groups_err<G: EmbeddingGenerator>(
    gen: G,
    model: Seq<char>,
    groups: Seq<Seq<PassageView>>,
    i: int,
    x: (nat, Seq<char>),
)
    requires
        0 <= i <= groups.len(),
        embed_groups(gen, model, groups.take(i)) == Err::<Seq<PairView>, (nat, Seq<char>)>(x),
    ensures
        embed_groups(gen, model, groups) == Err::<Seq<PairView>, (nat, Seq<char>)>(x),
    decreases groups.len() - i,
{
    if i < groups.len() {
        assert(groups.take(i + 1).drop_last() =~= groups.take(i));
        lemma_embed_groups_err(gen, model, groups, i + 1, x);
    } else {
        assert(groups.take(i) =~= groups);
    }
}

/// The store after recording `model` as the global model, unless the
/// recorded one already is `model`.
pub open spec fn with_global<S: SemanticIndexStore>(store: S, recorded: Option<Seq<char>>, model: Seq<char>) -> S {
    if recorded == Some(model) {
        store
    } else {
        store.with_model(model)
    }
}

/// The model a run embeds with: the one given, else the recorded one, else
/// the default.
pub open spec fn chosen_model(given: Option<Seq<char>>, recorded: Option<Seq<char>>) -> Seq<char> {
    match given {
        Some(m) => m,
        None => match recorded {
            Some(m) => m,
            None => trim(DEFAULT_MODEL@),
        },
    }
}

/// The view of an optional borrowed model.
pub open spec fn given_model(m: Option<&EmbeddingModel>) -> Option<Seq<char>> {
    match m {
        Some(x) => Some(x@),
        None => None,
    }
}

/// The view of an optional borrowed re-ranker model.
pub open spec fn given_reranker(m: Option<&RerankerModel>) -> Option<Seq<char>> {
    match m {
        Some(x) => Some(x@),
        None => None,
    }
}

/// The store after provisioning the re-ranker `reranker`, if one is asked
/// for: it is recorded unless it already is.
pub open spec fn provisioned<S: SemanticIndexStore>(store: S, reranker: Option<Seq<char>>) -> S {
    match reranker {
        None => store,
        Some(m) => if store.recorded_reranker() == Ok::<Option<Seq<char>>, SemanticIndexStoreError>(
            Some(m),
        ) {
            store
        } else {
            store.with_reranker(m)
        },
    }
}

/// The embedded collections a run processes besides its targets: on a
/// switch to a given model other than the recorded one, those the store
/// lists once it records that model; otherwise none.
pub open spec fn switched_in<S: SemanticIndexStore>(store: S, given: Option<Seq<char>>) -> Seq<NameView> {
    match given {
        None => Seq::empty(),
        Some(m) => match store.recorded_model() {
            Ok(recorded) => if recorded != Some(m) {
                match store.with_model(m).embedded() {
                    Ok(e) => e,
                    Err(_) => Seq::empty(),
                }
            } else {
                Seq::empty()
            },
            Err(_) => Seq::empty(),
        },
    }
}

/// The collection a single-collection scope names.
pub open spec fn scope_name<'a>(scope: EmbedScope<'a>) -> Option<NameView> {
    match scope {
        EmbedScope::Collection(c) => Some(c@),
        EmbedScope::All => None,
    }
}

/// The outcomes of `rep` from position `n` on are those of processed
/// collections: none is a skip, every collection of `extra` has one, and
/// the collection `single` has one unless it was skipped for lack of files.
pub open spec fn tail_covers(rep: Seq<OutcomeView>, n: int, extra: Seq<NameView>, single: Option<NameView>) -> bool {
    &&& 0 <= n <= rep.len()
    &&& forall|k: int| n <= k < rep.len() ==> !(#[trigger] rep[k] is Skipped)
    &&& forall|c: NameView| extra.contains(c) ==> #[trigger] outcome_names(rep.skip(n)).contains(c)
    &&& match single {
        Some(c) => rep.contains(OutcomeView::Skipped(c, SkipReason::NoFiles)) || outcome_names(
            rep.skip(n),
        ).contains(c),
        None => true,
    }
}

/// The `k`-th processed collection of `rep` (its outcome at `n + k`) was
/// embedded as [`embed_step`] says, from store `stores[k]` to
/// `stores[k + 1]`.
pub open spec fn embed_step_at<G: EmbeddingGenerator, S: SemanticIndexStore>(
    gen: G,
    stores: Seq<S>,
    model: Seq<char>,
    t: u64,
    rep: Seq<OutcomeView>,
    n: int,
    k: int,
) -> bool {
    embed_step(gen, stores[k], stores[k + 1], outcome_collection(rep[n + k]), model, t, rep[n + k])
}

/// The outcomes of `rep` from position `n` on are those of embedding the
/// processed collections one after another with `model` at time `t`, the
/// store passing through `stores`, one more than there are outcomes.
pub open spec fn embed_run<G: EmbeddingGenerator, S: SemanticIndexStore>(
    gen: G,
    stores: Seq<S>,
    model: Seq<char>,
    t: u64,
    rep: Seq<OutcomeView>,
    n: int,
) -> bool {
    &&& 0 <= n <= rep.len()
    &&& stores.len() == rep.len() - n + 1
    &&& forall|k: int| 0 <= k < rep.len() - n ==> #[trigger] embed_step_at(gen, stores, model, t, rep, n, k)
}

/// The collections that outcomes concern, in order.
pub open spec fn outcome_names(os: Seq<OutcomeView>) -> Seq<NameView> {
    os.map_values(|o: OutcomeView| outcome_collection(o))
}

/// Orchestrates building the semantic index for collections.
pub struct EmbedCollections<G, S, C, R> {
    generator: G,
    store: S,
    clock: C,
    reranker: R,
}

impl<G: EmbeddingGenerator, S: SemanticIndexStore, C: Clock, R: Reranker> EmbedCollections<
    G,
    S,
    C,
    R,
> {
    /// Creates an embed-collections use case with its generator, store,
    /// clock, and re-ranker ports.
    pub fn new(generator: G, store: S, clock: C, reranker: R) -> (u: EmbedCollections<G, S, C, R>)
        ensures
            u.generator_port() == generator,
            u.store_port() == store,
            u.clock_port() == clock,
            u.reranker_port() == reranker,
    {
        EmbedCollections { generator, store, clock, reranker }
    }

    /// The embedding generator port.
    pub closed spec fn generator_port(&self) -> G {
        self.generator
    }

    /// The semantic index store port.
    pub closed spec fn store_port(&self) -> S {
        self.store
    }

    /// The clock port.
    pub closed spec fn clock_port(&self) -> C {
        self.clock
    }

    /// The re-ranker port.
    pub closed spec fn reranker_port(&self) -> R {
        self.reranker
    }

    /// Builds the semantic index for the collections selected by `scope` and
    /// optionally provisions the re-ranker.
    ///
    /// The model is the one given, else the recorded one, else the default;
    /// it is made available and recorded as the global model. When a given
    /// model differs from the recorded one, every collection already
    /// embedded is processed too. Each collection is embedded, found current,
    /// or fails with its failure recorded while the others proceed; progress
    /// events go to `progress`.
    ///
    /// Fails when the model or re-ranker is unsupported or unavailable, when
    /// a targeted collection does not exist or lacks a built lexical index, or
    /// when the clock or store fails outside a per-collection rebuild.
    pub fn execute<P: EmbedProgressSink>(
        &mut self,
        scope: EmbedScope<'_>,
        model: Option<&EmbeddingModel>,
        reranker: Option<&RerankerModel>,
        download: bool,
        progress: &mut P,
    ) -> (r: Result<EmbedReport, EmbedError>)
        ensures
            r matches Err(EmbedError::Reranker(_)) ==> reranker is Some,
            (r matches Err(EmbedError::CollectionNotFound) || r matches Err(EmbedError::IndexNotBuilt))
                ==> scope is Collection,
            match reranker {
                Some(m) => (old(self).reranker_port().availability(m@, download) matches Err(e) ==> r
                    == Err::<EmbedReport, EmbedError>(EmbedError::Reranker(e)) && final(self).store_port()
                    == old(self).store_port() && final(progress).events() == old(progress).events()),
                None => true,
            },
            reranker is None ==> match old(self).store_port().recorded_model() {
                Ok(recorded) => old(self).generator_port().availability(
                    chosen_model(given_model(model), recorded),
                    download,
                ) is Err ==> r == Err::<EmbedReport, EmbedError>(
                    EmbedError::Generator(
                        old(self).generator_port().availability(
                            chosen_model(given_model(model), recorded),
                            download,
                        )->Err_0,
                    ),
                ) && final(self).store_port() == old(self).store_port() && final(progress).events()
                    == old(progress).events(),
                Err(e) => r == Err::<EmbedReport, EmbedError>(EmbedError::Store(e)) && final(
                    self).store_port() == old(self).store_port(),
            },
            r matches Err(EmbedError::Generator(_)) ==> final(progress).events() == old(progress).events(),
            r matches Ok(rep) ==> match provisioned(old(self).store_port(), given_reranker(reranker)).recorded_model() {
                Ok(recorded) => old(self).generator_port().availability(
                    chosen_model(given_model(model), recorded),
                    download,
                ) is Ok && exists|n: int, t: u64, stores: Seq<S>|
                    #![trigger embed_run(old(self).generator_port(), stores, chosen_model(given_model(model), recorded), t, rep@, n)]
                    tail_covers(
                        rep@,
                        n,
                        switched_in(provisioned(old(self).store_port(), given_reranker(reranker)), given_model(model)),
                        scope_name(scope),
                    ) && embed_run(
                        old(self).generator_port(),
                        stores,
                        chosen_model(given_model(model), recorded),
                        t,
                        rep@,
                        n,
                    ) && stores[0] == with_global(
                        provisioned(old(self).store_port(), given_reranker(reranker)),
                        recorded,
                        chosen_model(given_model(model), recorded),
                    ) && final(self).store_port() == stores.last() && (run_targets(stores[0], scope) matches Ok(
                        x,
                    ) && rep@.take(n) == x.1 && outcome_names(rep@.skip(n)) == merged(
                        x.0,
                        switched_in(provisioned(old(self).store_port(), given_reranker(reranker)), given_model(model)),
                    )),
                Err(_) => false,
            },
            r matches Err(e) ==> ((e is IndexNotBuilt || e is CollectionNotFound) ==> match provisioned(
                old(self).store_port(),
                given_reranker(reranker),
            ).recorded_model() {
                Ok(recorded) => run_targets(
                    with_global(
                        provisioned(old(self).store_port(), given_reranker(reranker)),
                        recorded,
                        chosen_model(given_model(model), recorded),
                    ),
                    scope,
                ) == Err::<(Seq<NameView>, Seq<OutcomeView>), EmbedError>(e),
                Err(_) => false,
            }),
    {
        let ghost st0 = self.store;
        match reranker {
            Some(reranker_model) => match self.provision_reranker(reranker_model, download) {
                Ok(()) => {},
                Err(e) => return Err(e),
            },
            None => {},
        }
        let ghost s1 = self.store;
        assert(s1 == provisioned(st0, given_reranker(reranker)));
        let recorded = match self.store.global_model() {
            Ok(m) => m,
            Err(e) => return Err(EmbedError::Store(e)),
        };
        let effective = match model {
            Some(m) => m.duplicate(),
            None => match &recorded {
                Some(m) => m.duplicate(),
                None => match default_model() {
                    Ok(m) => m,
                    Err(e) => return Err(e),
                },
            },
        };
        assert(effective@ == chosen_model(given_model(model), opt_model(recorded)));
        match self.generator.ensure_available(&effective, download) {
            Ok(()) => {},
            Err(e) => return Err(EmbedError::Generator(e)),
        }
        if !same_model(&recorded, &effective) {
            match self.store.set_global_model(&effective) {
                Ok(()) => {},
                Err(e) => return Err(EmbedError::Store(e)),
            }
        }
        let ghost s2 = self.store;
        assert(s2 == with_global(s1, opt_model(recorded), effective@));
        let model_changed = match model {
            Some(given) => !same_model(&recorded, given),
            None => false,
        };
        let mut report = EmbedReport::new();
        let now = match self.clock.now() {
            Ok(t) => t,
            Err(e) => return Err(EmbedError::Clock(e)),
        };
        let mut process = match self.resolve_targets(scope, &mut report) {
            Ok(p) => p,
            Err(e) => return Err(e),
        };
        let ghost resolved = views(process@);
        let ghost targets = run_targets(s2, scope)->Ok_0;
        assert(resolved == targets.0);
        assert(report@ =~= targets.1);
        let ghost extra = switched_in(s1, given_model(model));
        if model_changed {
            let embedded = match self.store.embedded_collections() {
                Ok(v) => v,
                Err(e) => return Err(EmbedError::Store(e)),
            };
            merge_names(&mut process, &embedded);
            proof {
                assert forall|c: NameView| views(embedded@).contains(c) implies views(process@).contains(c) by {
                    assert(views(embedded@).to_set().contains(c));
                    assert(views(process@).to_set().contains(c));
                }
                assert(views(process@) == merged(targets.0, extra));
            }
        } else {
            assert(extra == Seq::<NameView>::empty());
            assert(views(process@) == merged(targets.0, extra));
        }
        proof {
            assert forall|c: NameView| resolved.contains(c) implies views(process@).contains(c) by {
                let k = choose|k: int| 0 <= k < resolved.len() && resolved[k] == c;
                assert(views(process@)[k] == c);
            }
        }
        let ghost pre = report@;
        let ghost names = views(process@);
        let ghost mut stores: Seq<S> = seq![s2];
        proof {
            match scope {
                EmbedScope::Collection(c) => {
                    if resolved.len() == 0 {
                        assert(pre[0] == OutcomeView::Skipped(c@, SkipReason::NoFiles));
                    } else {
                        assert(resolved[0] == c@);
                        assert(resolved.contains(c@));
                    }
                },
                EmbedScope::All => {},
            }
        }
        let mut i: usize = 0;
        assert(report@.skip(pre.len() as int) =~= Seq::<OutcomeView>::empty());
        while i < process.len()
            invariant
                0 <= i <= process@.len(),
                names == views(process@),
                report@.len() == pre.len() + i,
                report@.take(pre.len() as int) == pre,
                outcome_names(report@.skip(pre.len() as int)) == names.take(i as int),
                forall|k: int| pre.len() <= k < report@.len() ==> !(#[trigger] report@[k] is Skipped),
                forall|c: NameView| extra.contains(c) ==> #[trigger] names.contains(c),
                extra == switched_in(provisioned(old(self).store, given_reranker(reranker)), given_model(model)),
                scope matches EmbedScope::Collection(c) ==> (pre.contains(
                    OutcomeView::Skipped(c@, SkipReason::NoFiles),
                ) || names.contains(c@)),
                self.generator == old(self).generator,
                stores.len() == i + 1,
                stores[0] == s2,
                run_targets(s2, scope) == Ok::<(Seq<NameView>, Seq<OutcomeView>), EmbedError>(targets),
                pre == targets.1,
                names == merged(targets.0, extra),
                stores[i as int] == self.store,
                forall|k: int| 0 <= k < i ==> #[trigger] embed_step_at(
                    self.generator,
                    stores,
                    effective@,
                    now@,
                    report@,
                    pre.len() as int,
                    k,
                ),
            decreases process@.len() - i,
        {
            let collection = process[i].duplicate();
            let ghost before = report@;
            let ghost before_stores = stores;
            let ghost cv = collection@;
            let result = self.embed_collection(&collection, &effective, now, progress);
            let ghost step = embed_result(result, cv);
            match result {
                Ok(outcome) => report.push(outcome),
                Err(message) => report.push(EmbedOutcome::Failed { collection, message }),
            }
            proof {
                stores = before_stores.push(self.store);
                assert(report@.last() == step);
                assert forall|k: int| 0 <= k < i + 1 implies #[trigger] embed_step_at(
                    self.generator,
                    stores,
                    effective@,
                    now@,
                    report@,
                    pre.len() as int,
                    k,
                ) by {
                    if k < i {
                        assert(embed_step_at(self.generator, before_stores, effective@, now@, before, pre.len() as int, k));
                        assert(stores[k] == before_stores[k]);
                        assert(stores[k + 1] == before_stores[k + 1]);
                        assert(report@[pre.len() + k] == before[pre.len() + k]);
                    } else {
                        assert(outcome_collection(step) == cv);
                    }
                }
                assert(report@.take(pre.len() as int) =~= before.take(pre.len() as int));
                assert(report@.skip(pre.len() as int) =~= before.skip(pre.len() as int).push(report@.last()));
                assert(outcome_names(report@.skip(pre.len() as int)) =~= names.take(i + 1));
            }
            i = i + 1;
        }
        assert(names.take(process@.len() as int) =~= names);
        proof {
            let n = pre.len() as int;
            assert(outcome_names(report@.skip(n)) == names);
            match scope {
                EmbedScope::Collection(c) => {
                    if pre.contains(OutcomeView::Skipped(c@, SkipReason::NoFiles)) {
                        let k = choose|k: int| 0 <= k < pre.len() && pre[k] == OutcomeView::Skipped(c@, SkipReason::NoFiles);
                        assert(report@[k] == report@.take(n)[k]);
                        assert(report@.contains(OutcomeView::Skipped(c@, SkipReason::NoFiles)));
                    } else {
                        assert(outcome_names(report@.skip(n)).contains(c@));
                    }
                },
                EmbedScope::All => {},
            }
            assert(tail_covers(report@, n, extra, scope_name(scope)));
        }
        assert(embed_run(self.generator, stores, effective@, now@, report@, pre.len() as int));
        let r: Result<EmbedReport, EmbedError> = Ok(report);
        assert(r matches Ok(rep) ==> tail_covers(rep@, pre.len() as int, extra, scope_name(scope))
            && embed_run(self.generator, stores, effective@, now@, rep@, pre.len() as int) && (run_targets(
            stores[0],
            scope,
        ) matches Ok(x) && rep@.take(pre.len() as int) == x.1 && outcome_names(rep@.skip(pre.len() as int))
            == merged(x.0, extra)));
        r
    }

    /// Makes the re-ranker model available and records it as the global
    /// re-ranker model when it is not already recorded.
    fn provision_reranker(&mut self, reranker_model: &RerankerModel, download: bool) -> (r: Result<
        (),
        EmbedError,
    >)
        ensures
            final(self).generator_port() == old(self).generator_port(),
            final(self).clock_port() == old(self).clock_port(),
            final(self).reranker_port() == old(self).reranker_port(),
            match old(self).reranker_port().availability(reranker_model@, download) {
                Err(e) => r == Err::<(), EmbedError>(EmbedError::Reranker(e)) && final(self).store_port()
                    == old(self).store_port(),
                Ok(_) => match old(self).store_port().recorded_reranker() {
                    Err(e) => r == Err::<(), EmbedError>(EmbedError::Store(e))
                        && final(self).store_port() == old(self).store_port(),
                    Ok(recorded) => if recorded == Some(reranker_model@) {
                        r is Ok && final(self).store_port() == old(self).store_port()
                    } else {
                        (r is Ok && final(self).store_port() == old(self).store_port().with_reranker(
                            reranker_model@,
                        )) || (r matches Err(EmbedError::Store(_)) && final(self).store_port()
                            == old(self).store_port())
                    },
                },
            },
    {
        match self.reranker.ensure_available(reranker_model, download) {
            Ok(()) => {},
            Err(e) => return Err(EmbedError::Reranker(e)),
        }
        let recorded = match self.store.reranker_model() {
            Ok(m) => m,
            Err(e) => return Err(EmbedError::Store(e)),
        };
        if !same_reranker(&recorded, reranker_model) {
            match self.store.set_reranker_model(reranker_model) {
                Ok(()) => {},
                Err(e) => return Err(EmbedError::Store(e)),
            }
        }
        Ok(())
    }

    /// The collections a run processes: for all collections, the eligible
    /// targets (the others reported as skipped); for one collection, as
    /// [`settle_single`] decides from its resolved target.
    fn resolve_targets(&self, scope: EmbedScope<'_>, report: &mut EmbedReport) -> (r: Result<
        Vec<CollectionName>,
        EmbedError,
    >)
        ensures
            r is Err ==> final(report)@ == old(report)@,
            r matches Err(e) ==> (e is Store || ((e is CollectionNotFound || e is IndexNotBuilt)
                && scope is Collection)),
            match run_targets(self.store_port(), scope) {
                Ok(x) => r matches Ok(v) && views(v@) == x.0 && final(report)@ == old(report)@ + x.1,
                Err(e) => r == Err::<Vec<CollectionName>, EmbedError>(e),
            },
    {
        match scope {
            EmbedScope::All => {
                let targets = match self.store.targets() {
                    Ok(t) => t,
                    Err(e) => return Err(EmbedError::Store(e)),
                };
                Ok(split_targets(targets.as_slice(), report))
            },
            EmbedScope::Collection(collection) => {
                let resolved = self.store.resolve(collection);
                settle_single(collection, resolved, report)
            },
        }
    }

    /// Embeds one collection: current when its status matches the file-set
    /// fingerprint and model; otherwise its passages are embedded file by
    /// file, with one progress event per file, then the index is rebuilt
    /// after a writing event. The first failure ends the run and is returned
    /// as its message.
    fn embed_collection<P: EmbedProgressSink>(
        &mut self,
        collection: &CollectionName,
        model: &EmbeddingModel,
        now: Timestamp,
        progress: &mut P,
    ) -> (r: Result<EmbedOutcome, String>)
        ensures
            final(self).generator_port() == old(self).generator_port(),
            final(self).clock_port() == old(self).clock_port(),
            final(self).reranker_port() == old(self).reranker_port(),
            embed_step(
                old(self).generator_port(),
                old(self).store_port(),
                final(self).store_port(),
                collection@,
                model@,
                now@,
                embed_result(r, collection@),
            ),
            match embed_plan(old(self).store_port(), collection@, model@) {
                Err(m) => r matches Err(x) && x@ == m && final(self).store_port() == old(self).store_port() && final(progress).events() == old(progress).events(),
                Ok(None) => r matches Ok(o) && o@ == OutcomeView::AlreadyCurrent(collection@)
                    && final(self).store_port() == old(self).store_port() && final(progress).events()
                    == old(progress).events(),
                Ok(Some(groups)) => match embed_groups(old(self).generator_port(), model@, groups) {
                    Err(failure) => r matches Err(x) && x@ == failure.1 && final(self).store_port()
                        == old(self).store_port() && final(progress).events() == old(progress).events()
                        + file_events(collection@, failure.0, groups.len() as usize),
                    Ok(pairs) => final(progress).events() == old(progress).events() + file_events(
                        collection@,
                        groups.len(),
                        groups.len() as usize,
                    ).push(ProgressView::Writing(collection@)) && match r {
                        Ok(o) => o@ == OutcomeView::Embedded(
                            collection@,
                            dimensioned(old(self).store_port(), pairs).rebuild_count(
                                collection@,
                                model@,
                                now@,
                                pairs,
                            ),
                        ) && final(self).store_port() == written(
                            old(self).store_port(),
                            collection@,
                            model@,
                            now@,
                            pairs,
                        ),
                        Err(x) => store_failure(x@) && (final(self).store_port() == old(self).store_port()
                            || final(self).store_port() == dimensioned(old(self).store_port(), pairs)),
                    },
                },
            },
    {
        let ghost gen = self.generator;
        let ghost store0 = self.store;
        let ghost ev0 = progress.events();
        let fingerprint = match self.store.file_set_fingerprint(collection) {
            Ok(f) => f,
            Err(e) => return Err(e.message().to_owned()),
        };
        let status = match self.store.status(collection) {
            Ok(s) => s,
            Err(e) => return Err(e.message().to_owned()),
        };
        if !needs_rebuild(&status, &fingerprint, model) {
            return Ok(EmbedOutcome::AlreadyCurrent { collection: collection.duplicate() });
        }
        let passages = match self.store.passages(collection) {
            Ok(p) => p,
            Err(e) => return Err(e.message().to_owned()),
        };
        let ghost ps = views(passages@);
        let (_ids, groups) = group_by_file(passages);
        let ghost gv = file_groups(ps);
        proof {
            let gm = groups@.map_values(|g: Vec<SemanticPassage>| views(g@));
            assert(gm =~= gv);
        }
        let total_files = groups.len();
        let mut pairs: Vec<(SemanticPassage, Embedding)> = Vec::new();
        let mut index: usize = 0;
        assert(gv.take(0) =~= Seq::<Seq<PassageView>>::empty());
        assert(views(pairs@) =~= Seq::<PairView>::empty());
        assert(ev0 + file_events(collection@, 0, total_files) =~= ev0);
        while index < groups.len()
            invariant
                0 <= index <= groups@.len(),
                total_files == groups@.len(),
                gv.len() == groups@.len(),
                forall|k: int| 0 <= k < groups@.len() ==> views((#[trigger] groups@[k])@) == gv[k],
                self.generator == gen,
                self.store == store0,
                old(self).generator == gen,
                old(self).store == store0,
                old(progress).events() == ev0,
                embed_plan(store0, collection@, model@) == Ok::<Option<Seq<Seq<PassageView>>>, Seq<char>>(
                    Some(gv),
                ),
                self.clock == old(self).clock,
                self.reranker == old(self).reranker,
                embed_groups(gen, model@, gv.take(index as int)) == Ok::<Seq<PairView>, (nat, Seq<char>)>(
                    views(pairs@),
                ),
                progress.events() == ev0 + file_events(collection@, index as nat, total_files),
            decreases groups@.len() - index,
        {
            let file_passages = &groups[index];
            let ghost g = gv[index as int];
            assert(views(file_passages@) == g);
            let mut texts: Vec<&str> = Vec::new();
            let mut k: usize = 0;
            while k < file_passages.len()
                invariant
                    0 <= k <= file_passages@.len(),
                    views(file_passages@) == g,
                    texts@.len() == k,
                    str_views(texts@) == passage_texts(g).take(k as int),
                decreases file_passages@.len() - k,
            {
                let ghost before = texts@;
                let text = file_passages[k].text();
                texts.push(text);
                assert(str_views(texts@) =~= passage_texts(g).take(k + 1)) by {
                    assert(g[k as int] == file_passages@[k as int]@);
                    assert forall|j: int| 0 <= j < k + 1 implies #[trigger] str_views(texts@)[j]
                        == passage_texts(g).take(k + 1)[j] by {
                        if j < k {
                            assert(texts@[j] == before[j]);
                            assert(str_views(before)[j] == passage_texts(g).take(k as int)[j]);
                        } else {
                            assert(texts@[j] == text);
                        }
                    }
                }
                k = k + 1;
            }
            assert(passage_texts(g).take(g.len() as int) =~= passage_texts(g));
            proof {
                assert(gv.take(index + 1).drop_last() =~= gv.take(index as int));
                assert(gv.take(index + 1).last() == g);
            }
            let vectors = match self.generator.embed(model, texts.as_slice()) {
                Ok(v) => v,
                Err(e) => {
                    proof {
                        lemma_embed_groups_err(gen, model@, gv, index + 1, (index as nat, e.text()));
                    }
                    return Err(e.message());
                },
            };
            let mut copies: Vec<SemanticPassage> = Vec::new();
            let mut c: usize = 0;
            while c < file_passages.len()
                invariant
                    0 <= c <= file_passages@.len(),
                    views(file_passages@) == g,
                    copies@.len() == c,
                    views(copies@) == g.take(c as int),
                decreases file_passages@.len() - c,
            {
                let ghost before = copies@;
                let copy = file_passages[c].duplicate();
                copies.push(copy);
                assert(views(copies@) =~= g.take(c + 1)) by {
                    assert(g[c as int] == file_passages@[c as int]@);
                    assert forall|j: int| 0 <= j < c + 1 implies #[trigger] views(copies@)[j] == g.take(c + 1)[j] by {
                        if j < c {
                            assert(copies@[j] == before[j]);
                            assert(views(before)[j] == g.take(c as int)[j]);
                        } else {
                            assert(copies@[j] == copy);
                        }
                    }
                }
                c = c + 1;
            }
            assert(g.take(g.len() as int) =~= g);
            let ghost vv = views(vectors@);
            let ghost cv = copies@;
            let mut file_pairs = match build_pairs(copies, vectors) {
                Some(p) => p,
                None => {
                    proof {
                        lemma_embed_groups_err(
                            gen,
                            model@,
                            gv,
                            index + 1,
                            (index as nat, "embedding count does not match passage count"@),
                        );
                    }
                    return Err("embedding count does not match passage count".to_owned());
                },
            };
            assert(views(file_pairs@) =~= zip_pairs(g, vv)) by {
                assert forall|i: int| 0 <= i < file_pairs@.len() implies views(file_pairs@)[i] == zip_pairs(g, vv)[i] by {
                    assert(file_pairs@[i].0@ == cv[i]@);
                    assert(views(cv)[i] == g[i]);
                }
            }
            let ghost before_pairs = pairs@;
            pairs.append(&mut file_pairs);
            assert(views(pairs@) =~= views(before_pairs) + zip_pairs(g, vv));
            let ghost ev_before = progress.events();
            progress.report(
                EmbedProgress::Files {
                    collection: collection.duplicate(),
                    completed_files: index + 1,
                    total_files,
                },
            );
            assert(file_events(collection@, (index + 1) as nat, total_files) =~= file_events(
                collection@,
                index as nat,
                total_files,
            ).push(ProgressView::Files(collection@, (index + 1) as usize, total_files)));
            assert(progress.events() =~= ev0 + file_events(collection@, (index + 1) as nat, total_files));
            index = index + 1;
        }
        assert(gv.take(groups@.len() as int) =~= gv);
        progress.report(EmbedProgress::Writing { collection: collection.duplicate() });
        if pairs.len() > 0 {
            let dimension = pairs[0].1.len();
            assert(views(pairs@)[0].1.len() == dimension);
            match self.store.ensure_dimension(dimension) {
                Ok(()) => {},
                Err(e) => return Err(e.message().to_owned()),
            }
        }
        assert(self.store == dimensioned(store0, views(pairs@)));
        let passage_count = match self.store.rebuild(collection, model, now, pairs.as_slice()) {
            Ok(n) => n,
            Err(e) => return Err(e.message().to_owned()),
        };
        Ok(EmbedOutcome::Embedded { collection: collection.duplicate(), passage_count })
    }
}

} // verus!
