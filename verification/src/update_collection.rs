//! The update-collection use case: reconciling a collection with the
//! filesystem.
use vstd::prelude::*;
use crate::add_files::{gather_records, gathered, sat_add};
use crate::collection::CollectionName;
use crate::content_hash::{hex_of, sha256_of, ContentHash};
use crate::errors::{FileSystemError, UpdateCollectionError};
use crate::path_order::{compare_paths, path_order};
use crate::ports::{record_of, Clock, FileRecord, FileStore, FileSystem, StoredFile};
use crate::sorted::views;
use crate::text::str_eq;

verus! {

/// The scope of an update operation.
#[derive(Clone, Copy, Debug)]
pub enum UpdateTarget<'a> {
    /// Walk the supplied paths for added and modified files.
    Paths(&'a [String]),
    /// Re-read every stored file to detect modifications.
    Stored,
}

/// The outcome of an update-collection operation.
#[derive(Clone, Copy, Debug, PartialEq, Eq, Structural)]
pub struct UpdateOutcome {
    added: usize,
    modified: usize,
    deleted: usize,
    skipped: usize,
}

impl View for UpdateOutcome {
    /// The added, modified, deleted and skipped counts.
    type V = (usize, usize, usize, usize);

    closed spec fn view(&self) -> (usize, usize, usize, usize) {
        (self.added, self.modified, self.deleted, self.skipped)
    }
}

impl UpdateOutcome {
    /// Creates an outcome with the given counts.
    pub fn new(added: usize, modified: usize, deleted: usize, skipped: usize) -> (o: UpdateOutcome)
        ensures
            o@ == (added, modified, deleted, skipped),
    {
        UpdateOutcome { added, modified, deleted, skipped }
    }

    /// Returns the number of files added.
    pub fn added(&self) -> (n: usize)
        ensures
            n == self@.0,
    {
        self.added
    }

    /// Returns the number of files modified.
    pub fn modified(&self) -> (n: usize)
        ensures
            n == self@.1,
    {
        self.modified
    }

    /// Returns the number of files deleted.
    pub fn deleted(&self) -> (n: usize)
        ensures
            n == self@.2,
    {
        self.deleted
    }

    /// Returns the number of unreadable paths skipped.
    pub fn skipped(&self) -> (n: usize)
        ensures
            n == self@.3,
    {
        self.skipped
    }
}

/// The view of a file record: path, content and content hash.
pub type RecordView = (Seq<char>, Seq<u8>, Seq<char>);

/// The view of a stored file: path and content hash.
pub type StoredView = (Seq<char>, Seq<char>);

/// The hash stored for `path`, paths being equal as `Path` compares them;
/// when several stored entries share a path the last one counts, as in a map
/// keyed by path.
pub open spec fn stored_hash(stored: Seq<StoredView>, path: Seq<char>) -> Option<Seq<char>>
    decreases stored.len(),
{
    if stored.len() == 0 {
        None
    } else if path_order(stored.last().0, path) == 0 {
        Some(stored.last().1)
    } else {
        stored_hash(stored.drop_last(), path)
    }
}

/// How a file found on disk relates to the stored files.
#[derive(Clone, Copy, Debug, PartialEq, Eq, Structural)]
pub enum DiskChange {
    /// Stored with the same content hash.
    Unchanged,
    /// Stored with a different content hash.
    Modified,
    /// Not stored.
    Added,
}

/// The change a record on disk represents.
pub open spec fn disk_change(r: RecordView, stored: Seq<StoredView>) -> DiskChange {
    match stored_hash(stored, r.0) {
        Some(h) => if h == r.2 {
            DiskChange::Unchanged
        } else {
            DiskChange::Modified
        },
        None => DiskChange::Added,
    }
}

/// The records on disk that are added or modified, in order.
pub open spec fn changed_on_disk(on_disk: Seq<RecordView>, stored: Seq<StoredView>) -> Seq<
    RecordView,
>
    decreases on_disk.len(),
{
    if on_disk.len() == 0 {
        Seq::empty()
    } else {
        let rest = changed_on_disk(on_disk.drop_last(), stored);
        if disk_change(on_disk.last(), stored) == DiskChange::Unchanged {
            rest
        } else {
            rest.push(on_disk.last())
        }
    }
}

/// The number of records on disk with the given change.
pub open spec fn count_change(on_disk: Seq<RecordView>, stored: Seq<StoredView>, kind: DiskChange) -> nat
    decreases on_disk.len(),
{
    if on_disk.len() == 0 {
        0
    } else {
        count_change(on_disk.drop_last(), stored, kind) + if disk_change(on_disk.last(), stored)
            == kind {
            1nat
        } else {
            0nat
        }
    }
}

/// A count of changes is at most the number of records.
proof fn lemma_count_bound(on_disk: Seq<RecordView>, stored: Seq<StoredView>, kind: DiskChange)
    ensures
        count_change(on_disk, stored, kind) <= on_disk.len(),
    decreases on_disk.len(),
{
    if on_disk.len() > 0 {
        lemma_count_bound(on_disk.drop_last(), stored, kind);
    }
}

/// The change a record on disk represents against the stored files.
fn change_of(record: &FileRecord, stored: &[StoredFile]) -> (c: DiskChange)
    ensures
        c == disk_change(record@, views(stored@)),
{
    let ghost sv = views(stored@);
    let mut i: usize = stored.len();
    assert(sv.take(i as int) =~= sv);
    while i > 0
        invariant
            i <= stored@.len(),
            sv == views(stored@),
            stored_hash(sv, record@.0) == stored_hash(sv.take(i as int), record@.0),
        decreases i,
    {
        let ghost t = sv.take(i as int);
        assert(t.drop_last() =~= sv.take(i - 1));
        assert(t.last() == stored@[i - 1]@);
        if compare_paths(stored[i - 1].path(), record.path()) == 0 {
            if str_eq(stored[i - 1].content_hash().as_str(), record.content_hash().as_str()) {
                return DiskChange::Unchanged;
            } else {
                return DiskChange::Modified;
            }
        }
        i = i - 1;
    }
    DiskChange::Added
}

/// Splits the records found on disk against the stored files: the records
/// to upsert (added or modified, in order), and the added and modified
/// counts.
pub fn classify_on_disk(on_disk: &[FileRecord], stored: &[StoredFile]) -> (r: (
    Vec<FileRecord>,
    usize,
    usize,
))
    ensures
        views(r.0@) == changed_on_disk(views(on_disk@), views(stored@)),
        r.1 == count_change(views(on_disk@), views(stored@), DiskChange::Added),
        r.2 == count_change(views(on_disk@), views(stored@), DiskChange::Modified),
{
    let ghost dv = views(on_disk@);
    let ghost sv = views(stored@);
    let mut to_upsert: Vec<FileRecord> = Vec::new();
    let mut added: usize = 0;
    let mut modified: usize = 0;
    let mut i: usize = 0;
    assert(dv.take(0) =~= Seq::<RecordView>::empty());
    while i < on_disk.len()
        invariant
            0 <= i <= on_disk@.len(),
            dv == views(on_disk@),
            sv == views(stored@),
            views(to_upsert@) == changed_on_disk(dv.take(i as int), sv),
            added == count_change(dv.take(i as int), sv, DiskChange::Added),
            modified == count_change(dv.take(i as int), sv, DiskChange::Modified),
        decreases on_disk@.len() - i,
    {
        let ghost t = dv.take(i + 1);
        proof {
            assert(t.drop_last() =~= dv.take(i as int));
            assert(t.last() == on_disk@[i as int]@);
            lemma_count_bound(dv.take(i as int), sv, DiskChange::Added);
            lemma_count_bound(dv.take(i as int), sv, DiskChange::Modified);
        }
        let record = &on_disk[i];
        match change_of(record, stored) {
            DiskChange::Unchanged => {},
            DiskChange::Modified => {
                modified = modified + 1;
                let ghost before = to_upsert@;
                to_upsert.push(record.duplicate());
                assert(views(to_upsert@) =~= views(before).push(record@));
            },
            DiskChange::Added => {
                added = added + 1;
                let ghost before = to_upsert@;
                to_upsert.push(record.duplicate());
                assert(views(to_upsert@) =~= views(before).push(record@));
            },
        }
        i = i + 1;
    }
    assert(dv.take(on_disk@.len() as int) =~= dv);
    (to_upsert, added, modified)
}

/// Whether one of the records has the path `path`, paths being equal as
/// `Path` compares them.
fn on_disk_has(on_disk: &[FileRecord], path: &str) -> (b: bool)
    ensures
        b == exists|k: int| 0 <= k < on_disk@.len() && path_order((#[trigger] on_disk@[k])@.0, path@) == 0,
{
    let mut i: usize = 0;
    while i < on_disk.len()
        invariant
            0 <= i <= on_disk@.len(),
            forall|k: int| 0 <= k < i ==> path_order((#[trigger] on_disk@[k])@.0, path@) != 0,
        decreases on_disk@.len() - i,
    {
        if compare_paths(on_disk[i].path(), path) == 0 {
            return true;
        }
        i = i + 1;
    }
    false
}

/// The reconciliation changes derived from inspecting stored files.
pub struct StoredClassification {
    /// Stored files re-read with new content.
    pub upsert: Vec<FileRecord>,
    /// Stored files that no longer exist.
    pub delete: Vec<String>,
    /// The number of stored files re-read with new content.
    pub modified: usize,
    /// The number of stored files that no longer exist.
    pub deleted: usize,
    /// The number of stored files that could not be inspected or read.
    pub skipped: usize,
}

/// Whether some record on disk has path `path`, paths being equal as `Path`
/// compares them.
pub open spec fn disk_has(on_disk: Seq<RecordView>, path: Seq<char>) -> bool {
    exists|k: int| 0 <= k < on_disk.len() && path_order((#[trigger] on_disk[k]).0, path) == 0
}

/// What asking whether a stored file that is not on disk exists leads to.
#[derive(Clone, Copy, Debug, PartialEq, Eq, Structural)]
pub enum PresenceStep {
    /// It no longer exists: delete it.
    Delete,
    /// It exists and is left alone.
    Keep,
    /// It exists and is read again to detect a change.
    Reread,
    /// It could not be inspected and is counted as skipped.
    Skip,
}

/// The step an answer to whether a stored file exists leads to: a missing
/// file is deleted; an existing one is re-read when `re_read` holds and
/// kept otherwise; a failure is skipped under `force` and returned
/// otherwise.
pub open spec fn presence_outcome(presence: Result<bool, FileSystemError>, re_read: bool, force: bool) -> Result<
    PresenceStep,
    FileSystemError,
> {
    match presence {
        Ok(false) => Ok(PresenceStep::Delete),
        Ok(true) => if re_read {
            Ok(PresenceStep::Reread)
        } else {
            Ok(PresenceStep::Keep)
        },
        Err(e) => if force {
            Ok(PresenceStep::Skip)
        } else {
            Err(e)
        },
    }
}

/// Decides what a stored file that is not on disk comes to, from what
/// asking whether it exists answered.
pub fn settle_presence(presence: Result<bool, FileSystemError>, re_read: bool, force: bool) -> (r: Result<
    PresenceStep,
    FileSystemError,
>)
    ensures
        r == presence_outcome(presence, re_read, force),
{
    match presence {
        Ok(false) => Ok(PresenceStep::Delete),
        Ok(true) => if re_read {
            Ok(PresenceStep::Reread)
        } else {
            Ok(PresenceStep::Keep)
        },
        Err(e) => if force {
            Ok(PresenceStep::Skip)
        } else {
            Err(e)
        },
    }
}

/// What reading a stored file again leads to.
#[derive(Clone, Debug)]
pub enum RereadStep {
    /// Its content hash is the stored one.
    Unchanged,
    /// Its content changed: the record to upsert.
    Changed(FileRecord),
    /// It could not be read and is counted as skipped.
    Skip,
}

/// Decides what re-reading a stored file comes to, from what reading it
/// answered: a record to upsert when the content hash differs from the
/// stored one, nothing when it is the same; a failure is skipped under
/// `force` and returned otherwise.
pub fn settle_reread(file: &StoredFile, content: Result<Vec<u8>, FileSystemError>, force: bool) -> (r: Result<
    RereadStep,
    FileSystemError,
>)
    ensures
        match content {
            Ok(c) => if hex_of(sha256_of(c@)) != file@.1 {
                r matches Ok(RereadStep::Changed(record)) && record@ == record_of(file@.0, c@)
            } else {
                r matches Ok(RereadStep::Unchanged)
            },
            Err(e) => if force {
                r matches Ok(RereadStep::Skip)
            } else {
                r == Err::<RereadStep, FileSystemError>(e)
            },
        },
{
    match content {
        Ok(content) => {
            let hash = ContentHash::from_content(content.as_slice());
            if !str_eq(hash.as_str(), file.content_hash().as_str()) {
                Ok(RereadStep::Changed(FileRecord::new(file.path().to_owned(), content)))
            } else {
                Ok(RereadStep::Unchanged)
            }
        },
        Err(e) => if force {
            Ok(RereadStep::Skip)
        } else {
            Err(e)
        },
    }
}

/// What inspecting one stored file adds to the upserts, deletions and
/// skips so far, or the error it fails with: a file on disk is left alone;
/// one that no longer exists is deleted; for a re-read, one whose content
/// hash changed is upserted; a failed inspection or read is skipped under
/// `force` and fails otherwise.
pub open spec fn stored_step<FS: FileSystem>(
    fs: FS,
    acc: (Seq<RecordView>, Seq<Seq<char>>, nat),
    file: StoredView,
    on_disk: Seq<RecordView>,
    re_read: bool,
    force: bool,
) -> Result<(Seq<RecordView>, Seq<Seq<char>>, nat), FileSystemError> {
    if disk_has(on_disk, file.0) {
        Ok(acc)
    } else {
        match fs.presence(file.0) {
            Ok(false) => Ok((acc.0, acc.1.push(file.0), acc.2)),
            Ok(true) => if !re_read {
                Ok(acc)
            } else {
                match fs.contents(file.0) {
                    Ok(c) => if hex_of(sha256_of(c)) != file.1 {
                        Ok((acc.0.push(record_of(file.0, c)), acc.1, acc.2))
                    } else {
                        Ok(acc)
                    },
                    Err(e) => if force {
                        Ok((acc.0, acc.1, acc.2 + 1))
                    } else {
                        Err(e)
                    },
                }
            },
            Err(e) => if force {
                Ok((acc.0, acc.1, acc.2 + 1))
            } else {
                Err(e)
            },
        }
    }
}

/// What inspecting the stored files in order gives: the upserts, the
/// deletions and the skip count, or the first error.
pub open spec fn stored_changes<FS: FileSystem>(
    fs: FS,
    stored: Seq<StoredView>,
    on_disk: Seq<RecordView>,
    re_read: bool,
    force: bool,
) -> Result<(Seq<RecordView>, Seq<Seq<char>>, nat), FileSystemError>
    decreases stored.len(),
{
    if stored.len() == 0 {
        Ok((Seq::empty(), Seq::empty(), 0))
    } else {
        match stored_changes(fs, stored.drop_last(), on_disk, re_read, force) {
            Err(e) => Err(e),
            Ok(acc) => stored_step(fs, acc, stored.last(), on_disk, re_read, force),
        }
    }
}

/// An update deletes exactly what is gone: every path that inspecting the
/// stored files marks for deletion is a stored path, not on disk, for which
/// the filesystem answers that it does not exist, and every such stored path
/// is marked; every record it marks for upsert is a stored file that exists,
/// is not on disk, and is re-read only for the `Stored` target.
pub proof fn lemma_deletes_only_missing<FS: FileSystem>(
    fs: FS,
    stored: Seq<StoredView>,
    on_disk: Seq<RecordView>,
    re_read: bool,
    force: bool,
)
    ensures
        stored_changes(fs, stored, on_disk, re_read, force) matches Ok(x) ==> (forall|k: int|
            0 <= k < x.1.len() ==> fs.presence(#[trigger] x.1[k]) == Ok::<bool, FileSystemError>(false)
                && !disk_has(on_disk, x.1[k]) && exists|i: int|
                0 <= i < stored.len() && stored[i].0 == x.1[k]) && (forall|k: int|
            0 <= k < x.0.len() ==> re_read && fs.presence((#[trigger] x.0[k]).0) == Ok::<
                bool,
                FileSystemError,
            >(true) && !disk_has(on_disk, x.0[k].0)) && (forall|i: int|
            0 <= i < stored.len() && !disk_has(on_disk, (#[trigger] stored[i]).0) && fs.presence(
                stored[i].0,
            ) == Ok::<bool, FileSystemError>(false) ==> x.1.contains(stored[i].0)),
    decreases stored.len(),
{
    if stored.len() > 0 {
        let p = stored.drop_last();
        lemma_deletes_only_missing(fs, p, on_disk, re_read, force);
        match stored_changes(fs, p, on_disk, re_read, force) {
            Ok(acc) => {
                let f = stored.last();
                assert forall|k: int| 0 <= k < acc.1.len() implies exists|i: int|
                    0 <= i < stored.len() && stored[i].0 == #[trigger] acc.1[k] by {
                    let i = choose|i: int| 0 <= i < p.len() && p[i].0 == acc.1[k];
                    assert(stored[i] == p[i]);
                }
                assert(stored[stored.len() - 1] == f);
                if let Ok(x) = stored_changes(fs, stored, on_disk, re_read, force) {
                    assert forall|i: int|
                        0 <= i < stored.len() && !disk_has(on_disk, (#[trigger] stored[i]).0) && fs.presence(
                            stored[i].0,
                        ) == Ok::<bool, FileSystemError>(false) implies x.1.contains(stored[i].0) by {
                        if i < p.len() {
                            assert(stored[i] == p[i]);
                            let j = choose|j: int| 0 <= j < acc.1.len() && acc.1[j] == p[i].0;
                            assert(x.1[j] == acc.1[j]);
                        } else {
                            assert(x.1[x.1.len() - 1] == f.0);
                        }
                    }
                }
            },
            Err(_) => {},
        }
    }
}

/// A failure while inspecting the first `i` stored files is the failure of
/// inspecting them all.
proof fn lemma_stored_changes_err<FS: FileSystem>(
    fs: FS,
    stored: Seq<StoredView>,
    on_disk: Seq<RecordView>,
    re_read: bool,
    force: bool,
    i: int,
    e: FileSystemError,
)
    requires
        0 <= i <= stored.len(),
        stored_changes(fs, stored.take(i), on_disk, re_read, force) == Err::<
            (Seq<RecordView>, Seq<Seq<char>>, nat),
            FileSystemError,
        >(e),
    ensures
        stored_changes(fs, stored, on_disk, re_read, force) == Err::<
            (Seq<RecordView>, Seq<Seq<char>>, nat),
            FileSystemError,
        >(e),
    decreases stored.len() - i,
{
    if i < stored.len() {
        assert(stored.take(i + 1).drop_last() =~= stored.take(i));
        lemma_stored_changes_err(fs, stored, on_disk, re_read, force, i + 1, e);
    } else {
        assert(stored.take(i) =~= stored);
    }
}

/// What walking the target gives: for paths, the records read and the
/// number of skips, or the first failure; for the stored files, nothing.
pub open spec fn walked<'a, FS: FileSystem>(fs: FS, target: UpdateTarget<'a>, force: bool) -> Result<
    (Seq<RecordView>, nat),
    FileSystemError,
> {
    match target {
        UpdateTarget::Paths(p) => gathered(fs, views(p@), force),
        UpdateTarget::Stored => Ok((Seq::empty(), 0)),
    }
}

/// Orchestrates reconciling a collection with the current filesystem state.
pub struct UpdateCollection<FS, S, C> {
    filesystem: FS,
    files: S,
    clock: C,
}

impl<FS: FileSystem, S: FileStore, C: Clock> UpdateCollection<FS, S, C> {
    /// Creates an update-collection use case with its filesystem, store, and
    /// clock ports.
    pub fn new(filesystem: FS, files: S, clock: C) -> (u: UpdateCollection<FS, S, C>)
        ensures
            u.filesystem_port() == filesystem,
            u.store_port() == files,
            u.clock_port() == clock,
    {
        UpdateCollection { filesystem, files, clock }
    }

    /// The filesystem port.
    pub closed spec fn filesystem_port(&self) -> FS {
        self.filesystem
    }

    /// The file store port.
    pub closed spec fn store_port(&self) -> S {
        self.files
    }

    /// The clock port.
    pub closed spec fn clock_port(&self) -> C {
        self.clock
    }

    /// Reconciles `collection` with the current filesystem state.
    ///
    /// Files under the target paths that are new or changed are upserted; a
    /// stored file not found under them is deleted when it no longer exists
    /// and, for the `Stored` target, re-read and upserted when its content
    /// changed. Unreadable paths fail the operation unless `force` is set,
    /// when they are counted as skipped.
    pub fn execute(
        &mut self,
        collection: &CollectionName,
        target: UpdateTarget<'_>,
        force: bool,
    ) -> (r: Result<UpdateOutcome, UpdateCollectionError>)
        ensures
            final(self).filesystem_port() == old(self).filesystem_port(),
            r is Err ==> final(self).store_port() == old(self).store_port(),
            match old(self).store_port().listing(collection@) {
                Err(e) => r == Err::<UpdateOutcome, UpdateCollectionError>(
                    UpdateCollectionError::FileStore(e),
                ),
                Ok(sv) => match walked(old(self).filesystem_port(), target, force) {
                    Err(e) => r == Err::<UpdateOutcome, UpdateCollectionError>(
                        UpdateCollectionError::FileSystem(e),
                    ),
                    Ok(w) => match stored_changes(
                        old(self).filesystem_port(),
                        sv,
                        w.0,
                        target is Stored,
                        force,
                    ) {
                        Err(e) => r == Err::<UpdateOutcome, UpdateCollectionError>(
                            UpdateCollectionError::FileSystem(e),
                        ),
                        Ok(x) => (r matches Ok(o) ==> o@.0 == count_change(w.0, sv, DiskChange::Added)
                            && o@.1 == sat_add(count_change(w.0, sv, DiskChange::Modified), x.0.len())
                            && o@.2 == x.1.len() && o@.3 == sat_add(w.1, x.2) && exists|t: u64|
                            final(self).store_port() == old(self).store_port().reconciled(
                                collection@,
                                changed_on_disk(w.0, sv) + x.0,
                                x.1,
                                t,
                            )) && (r is Err ==> (r matches Err(UpdateCollectionError::Clock(_))
                            || r matches Err(UpdateCollectionError::FileStore(_)))),
                    },
                },
            },
    {
        let stored = match self.files.list_files(collection) {
            Ok(s) => s,
            Err(e) => return Err(UpdateCollectionError::FileStore(e)),
        };
        let (on_disk, walk_skipped) = match self.collect_on_disk(target, force) {
            Ok(x) => x,
            Err(e) => return Err(e),
        };
        let (mut to_upsert, added, on_disk_modified) = classify_on_disk(
            on_disk.as_slice(),
            stored.as_slice(),
        );
        let changes = match self.classify_stored(stored.as_slice(), on_disk.as_slice(), target, force) {
            Ok(c) => c,
            Err(e) => return Err(e),
        };
        let StoredClassification { mut upsert, delete, modified, deleted, skipped } = changes;
        let ghost first = to_upsert@;
        let ghost second = upsert@;
        to_upsert.append(&mut upsert);
        assert(views(to_upsert@) =~= views(first) + views(second));
        let ingested_at = match self.clock.now() {
            Ok(t) => t,
            Err(e) => return Err(UpdateCollectionError::Clock(e)),
        };
        match self.files.reconcile(collection, to_upsert.as_slice(), delete.as_slice(), ingested_at) {
            Ok(_) => {},
            Err(e) => return Err(UpdateCollectionError::FileStore(e)),
        }
        assert(self.store_port() == old(self).store_port().reconciled(
            collection@,
            views(to_upsert@),
            views(delete@),
            ingested_at@,
        ));
        assert(views(second).len() == second.len());
        assert(views(delete@).len() == delete@.len());
        Ok(
            UpdateOutcome::new(
                added,
                on_disk_modified.saturating_add(modified),
                deleted,
                walk_skipped.saturating_add(skipped),
            ),
        )
    }

    /// Expands and reads the target paths; for the `Stored` target there is
    /// nothing to walk. Unreadable paths fail unless `force` is set, when they
    /// are counted.
    fn collect_on_disk(&self, target: UpdateTarget<'_>, force: bool) -> (r: Result<
        (Vec<FileRecord>, usize),
        UpdateCollectionError,
    >)
        ensures
            match walked(self.filesystem_port(), target, force) {
                Ok(w) => r matches Ok(x) && views(x.0@) == w.0 && x.1 == w.1,
                Err(e) => r == Err::<(Vec<FileRecord>, usize), UpdateCollectionError>(
                    UpdateCollectionError::FileSystem(e),
                ),
            },
    {
        match target {
            UpdateTarget::Paths(paths) => match gather_records(&self.filesystem, paths, force) {
                Ok(x) => Ok(x),
                Err(e) => Err(UpdateCollectionError::FileSystem(e)),
            },
            UpdateTarget::Stored => {
                let none: Vec<FileRecord> = Vec::new();
                assert(views(none@) =~= Seq::<RecordView>::empty());
                Ok((none, 0))
            },
        }
    }

    /// Inspects the stored files not found on disk: one that no longer exists
    /// is deleted; for the `Stored` target one that exists is re-read and
    /// upserted when its content hash changed. Files that cannot be inspected
    /// or read fail the operation unless `force` is set, when they are
    /// counted.
    fn classify_stored(
        &self,
        stored: &[StoredFile],
        on_disk: &[FileRecord],
        target: UpdateTarget<'_>,
        force: bool,
    ) -> (r: Result<StoredClassification, UpdateCollectionError>)
        ensures
            match stored_changes(self.filesystem_port(), views(stored@), views(on_disk@), target is Stored, force) {
                Ok(x) => r matches Ok(c) && views(c.upsert@) == x.0 && views(c.delete@) == x.1
                    && c.skipped == x.2 && c.modified == c.upsert@.len() && c.deleted == c.delete@.len(),
                Err(e) => r == Err::<StoredClassification, UpdateCollectionError>(
                    UpdateCollectionError::FileSystem(e),
                ),
            },
            force ==> r is Ok,
            r matches Err(e) ==> e is FileSystem && !force,
            r matches Ok(c) ==> (!force ==> c.skipped == 0),
    {
        let ghost sv = views(stored@);
        let ghost dv = views(on_disk@);
        let ghost fs = self.filesystem_port();
        let re_read = match target {
            UpdateTarget::Stored => true,
            UpdateTarget::Paths(_) => false,
        };
        let mut upsert: Vec<FileRecord> = Vec::new();
        let mut delete: Vec<String> = Vec::new();
        let mut skipped: usize = 0;
        let mut i: usize = 0;
        assert(sv.take(0) =~= Seq::<StoredView>::empty());
        assert(views(upsert@) =~= Seq::<RecordView>::empty());
        assert(views(delete@) =~= Seq::<Seq<char>>::empty());
        while i < stored.len()
            invariant
                0 <= i <= stored@.len(),
                sv == views(stored@),
                dv == views(on_disk@),
                fs == self.filesystem_port(),
                re_read == (target is Stored),
                skipped <= i,
                !force ==> skipped == 0,
                stored_changes(fs, sv.take(i as int), dv, re_read, force) == Ok::<
                    (Seq<RecordView>, Seq<Seq<char>>, nat),
                    FileSystemError,
                >((views(upsert@), views(delete@), skipped as nat)),
            decreases stored@.len() - i,
        {
            let file = &stored[i];
            let ghost acc = (views(upsert@), views(delete@), skipped as nat);
            proof {
                assert(sv.take(i + 1).drop_last() =~= sv.take(i as int));
                assert(sv.take(i + 1).last() == sv[i as int]);
                assert(sv[i as int] == file@);
            }
            let here = on_disk_has(on_disk, file.path());
            proof {
                if here {
                    let k = choose|k: int| 0 <= k < on_disk@.len() && path_order((#[trigger] on_disk@[k])@.0, file@.0) == 0;
                    assert(dv[k] == on_disk@[k]@);
                    assert(disk_has(dv, file@.0));
                } else {
                    assert forall|k: int| 0 <= k < dv.len() implies path_order((#[trigger] dv[k]).0, file@.0) != 0 by {
                        assert(dv[k] == on_disk@[k]@);
                    }
                    assert(!disk_has(dv, file@.0));
                }
            }
            if !here {
                let presence = self.filesystem.path_exists(file.path());
                match settle_presence(presence, re_read, force) {
                    Ok(PresenceStep::Delete) => {
                        let ghost before = delete@;
                        delete.push(file.path().to_owned());
                        assert(views(delete@) =~= views(before).push(file@.0));
                    },
                    Ok(PresenceStep::Keep) => {},
                    Ok(PresenceStep::Skip) => {
                        skipped = skipped + 1;
                    },
                    Ok(PresenceStep::Reread) => {
                        let content = self.filesystem.read(file.path());
                        match settle_reread(file, content, force) {
                            Ok(RereadStep::Changed(record)) => {
                                let ghost before = upsert@;
                                upsert.push(record);
                                assert(views(upsert@) =~= views(before).push(upsert@.last()@));
                            },
                            Ok(RereadStep::Unchanged) => {},
                            Ok(RereadStep::Skip) => {
                                skipped = skipped + 1;
                            },
                            Err(e) => {
                                proof {
                                    lemma_stored_changes_err(fs, sv, dv, re_read, force, i + 1, e);
                                }
                                return Err(UpdateCollectionError::FileSystem(e));
                            },
                        }
                    },
                    Err(e) => {
                        proof {
                            lemma_stored_changes_err(fs, sv, dv, re_read, force, i + 1, e);
                        }
                        return Err(UpdateCollectionError::FileSystem(e));
                    },
                }
            }
            i = i + 1;
        }
        assert(sv.take(stored@.len() as int) =~= sv);
        let modified = upsert.len();
        let deleted = delete.len();
        Ok(StoredClassification { upsert, delete, modified, deleted, skipped })
    }
}


/// The records upserted are exactly the added and the modified ones: their
/// number is the sum of the two counts, and every record on disk that is not
/// upserted is stored unchanged. In particular a file set that is already
/// stored as it is on disk upserts nothing.
pub proof fn lemma_disk_partition(on_disk: Seq<RecordView>, stored: Seq<StoredView>)
    ensures
        changed_on_disk(on_disk, stored).len() == count_change(on_disk, stored, DiskChange::Added)
            + count_change(on_disk, stored, DiskChange::Modified),
        (forall|k: int|
            0 <= k < on_disk.len() ==> disk_change(#[trigger] on_disk[k], stored)
                == DiskChange::Unchanged) ==> changed_on_disk(on_disk, stored).len() == 0,
    decreases on_disk.len(),
{
    if on_disk.len() > 0 {
        let prev = on_disk.drop_last();
        lemma_disk_partition(prev, stored);
        if forall|k: int|
            0 <= k < on_disk.len() ==> disk_change(#[trigger] on_disk[k], stored)
                == DiskChange::Unchanged {
            assert forall|k: int| 0 <= k < prev.len() implies disk_change(#[trigger] prev[k], stored)
                == DiskChange::Unchanged by {
                assert(prev[k] == on_disk[k]);
            }
            assert(disk_change(on_disk[on_disk.len() - 1], stored) == DiskChange::Unchanged);
        }
    }
}

} // verus!
