//! The add-files use case.
use vstd::prelude::*;
use crate::collection::CollectionName;
use crate::errors::{AddFilesError, FileSystemError};
use crate::ports::{record_of, Clock, FileRecord, FileStore, FileSystem};
use crate::sorted::views;

verus! {

/// The outcome of an add-files operation.
#[derive(Clone, Copy, Debug, PartialEq, Eq, Structural)]
pub struct AddFilesOutcome {
    added: usize,
    skipped: usize,
}

impl View for AddFilesOutcome {
    /// The added and skipped counts.
    type V = (usize, usize);

    closed spec fn view(&self) -> (usize, usize) {
        (self.added, self.skipped)
    }
}

impl AddFilesOutcome {
    /// Creates an outcome with the given added and skipped counts.
    pub fn new(added: usize, skipped: usize) -> (o: AddFilesOutcome)
        ensures
            o@ == (added, skipped),
    {
        AddFilesOutcome { added, skipped }
    }

    /// Returns the number of files added.
    pub fn added(&self) -> (n: usize)
        ensures
            n == self@.0,
    {
        self.added
    }

    /// Returns the number of unreadable paths skipped.
    pub fn skipped(&self) -> (n: usize)
        ensures
            n == self@.1,
    {
        self.skipped
    }
}

/// Takes in what expanding one input path gave: its files join `discovered`;
/// a failure is counted as skipped under `force` and is returned otherwise.
pub fn absorb_expansion(
    result: Result<Vec<String>, FileSystemError>,
    force: bool,
    discovered: &mut Vec<String>,
    skipped: &mut usize,
) -> (r: Result<(), FileSystemError>)
    requires
        *old(skipped) < usize::MAX,
    ensures
        match result {
            Ok(files) => r is Ok && final(discovered)@ == old(discovered)@ + files@ && *final(skipped)
                == *old(skipped),
            Err(e) => if force {
                r is Ok && final(discovered)@ == old(discovered)@ && *final(skipped) == *old(skipped)
                    + 1
            } else {
                r == Err::<(), FileSystemError>(e) && final(discovered)@ == old(discovered)@
                    && *final(skipped) == *old(skipped)
            },
        },
{
    match result {
        Ok(mut files) => {
            discovered.append(&mut files);
            Ok(())
        },
        Err(e) => {
            if force {
                *skipped = *skipped + 1;
                Ok(())
            } else {
                Err(e)
            }
        },
    }
}

/// Takes in what reading one discovered file gave: its record joins
/// `records`; a failure is counted as skipped under `force` and is returned
/// otherwise.
pub fn absorb_read(
    path: String,
    result: Result<Vec<u8>, FileSystemError>,
    force: bool,
    records: &mut Vec<FileRecord>,
    skipped: &mut usize,
) -> (r: Result<(), FileSystemError>)
    requires
        *old(skipped) < usize::MAX,
    ensures
        match result {
            Ok(content) => r is Ok && views(final(records)@) == views(old(records)@).push(
                record_of(path@, content@),
            ) && *final(skipped) == *old(skipped),
            Err(e) => if force {
                r is Ok && final(records)@ == old(records)@ && *final(skipped) == *old(skipped) + 1
            } else {
                r == Err::<(), FileSystemError>(e) && final(records)@ == old(records)@
                    && *final(skipped) == *old(skipped)
            },
        },
{
    match result {
        Ok(content) => {
            let ghost before = records@;
            records.push(FileRecord::new(path, content));
            assert(views(records@) =~= views(before).push(records@.last()@));
            Ok(())
        },
        Err(e) => {
            if force {
                *skipped = *skipped + 1;
                Ok(())
            } else {
                Err(e)
            }
        },
    }
}

/// The files the input paths expand to, in order, and how many paths were
/// skipped, or the first expansion failure (failures are skipped under
/// `force`).
pub open spec fn expanded_files<FS: FileSystem>(fs: FS, paths: Seq<Seq<char>>, force: bool) -> Result<
    (Seq<Seq<char>>, nat),
    FileSystemError,
>
    decreases paths.len(),
{
    if paths.len() == 0 {
        Ok((Seq::empty(), 0))
    } else {
        match expanded_files(fs, paths.drop_last(), force) {
            Err(e) => Err(e),
            Ok(acc) => match fs.expansion(paths.last()) {
                Ok(v) => Ok((acc.0 + v, acc.1)),
                Err(e) => if force {
                    Ok((acc.0, acc.1 + 1))
                } else {
                    Err(e)
                },
            },
        }
    }
}

/// The records of the files read, in order, and how many files were
/// skipped, or the first read failure (failures are skipped under `force`).
pub open spec fn read_records<FS: FileSystem>(fs: FS, files: Seq<Seq<char>>, force: bool) -> Result<
    (Seq<(Seq<char>, Seq<u8>, Seq<char>)>, nat),
    FileSystemError,
>
    decreases files.len(),
{
    if files.len() == 0 {
        Ok((Seq::empty(), 0))
    } else {
        match read_records(fs, files.drop_last(), force) {
            Err(e) => Err(e),
            Ok(acc) => match fs.contents(files.last()) {
                Ok(c) => Ok((acc.0.push(record_of(files.last(), c)), acc.1)),
                Err(e) => if force {
                    Ok((acc.0, acc.1 + 1))
                } else {
                    Err(e)
                },
            },
        }
    }
}

/// The sum of two counts, saturating at the largest `usize`.
pub open spec fn sat_add(a: nat, b: nat) -> nat {
    if a + b <= usize::MAX {
        a + b
    } else {
        usize::MAX as nat
    }
}

/// What walking and reading the input paths gives: the records read, in
/// order, and the number of skipped paths and files, or the first failure.
pub open spec fn gathered<FS: FileSystem>(fs: FS, paths: Seq<Seq<char>>, force: bool) -> Result<
    (Seq<(Seq<char>, Seq<u8>, Seq<char>)>, nat),
    FileSystemError,
> {
    match expanded_files(fs, paths, force) {
        Err(e) => Err(e),
        Ok(found) => match read_records(fs, found.0, force) {
            Err(e) => Err(e),
            Ok(read) => Ok((read.0, sat_add(found.1, read.1))),
        },
    }
}

/// A failure while expanding the first `i` paths is the failure of
/// expanding them all.
pub proof fn lemma_expanded_files_err<FS: FileSystem>(fs: FS, paths: Seq<Seq<char>>, force: bool, i: int, e: FileSystemError)
    requires
        0 <= i <= paths.len(),
        expanded_files(fs, paths.take(i), force) == Err::<(Seq<Seq<char>>, nat), FileSystemError>(e),
    ensures
        expanded_files(fs, paths, force) == Err::<(Seq<Seq<char>>, nat), FileSystemError>(e),
    decreases paths.len() - i,
{
    if i < paths.len() {
        assert(paths.take(i + 1).drop_last() =~= paths.take(i));
        lemma_expanded_files_err(fs, paths, force, i + 1, e);
    } else {
        assert(paths.take(i) =~= paths);
    }
}

/// A failure while reading the first `i` files is the failure of reading
/// them all.
pub proof fn lemma_read_records_err<FS: FileSystem>(fs: FS, files: Seq<Seq<char>>, force: bool, i: int, e: FileSystemError)
    requires
        0 <= i <= files.len(),
        read_records(fs, files.take(i), force) == Err::<(Seq<(Seq<char>, Seq<u8>, Seq<char>)>, nat), FileSystemError>(e),
    ensures
        read_records(fs, files, force) == Err::<(Seq<(Seq<char>, Seq<u8>, Seq<char>)>, nat), FileSystemError>(e),
    decreases files.len() - i,
{
    if i < files.len() {
        assert(files.take(i + 1).drop_last() =~= files.take(i));
        lemma_read_records_err(fs, files, force, i + 1, e);
    } else {
        assert(files.take(i) =~= files);
    }
}

/// Expands every path, then reads every discovered file, in order, giving
/// the records read and the number of paths and files skipped. A failure
/// ends the walk unless `force` is set, when it is counted as skipped.
pub fn gather_records<FS: FileSystem>(filesystem: &FS, paths: &[String], force: bool) -> (r: Result<
    (Vec<FileRecord>, usize),
    FileSystemError,
>)
    ensures
        match gathered(*filesystem, views(paths@), force) {
            Ok(g) => r matches Ok(x) && views(x.0@) == g.0 && x.1 == g.1,
            Err(e) => r == Err::<(Vec<FileRecord>, usize), FileSystemError>(e),
        },
{
        let ghost fs = *filesystem;
        let ghost pv = views(paths@);
        let mut discovered: Vec<String> = Vec::new();
        let mut skipped: usize = 0;
        let mut i: usize = 0;
        assert(pv.take(0) =~= Seq::<Seq<char>>::empty());
        assert(views(discovered@) =~= Seq::<Seq<char>>::empty());
        while i < paths.len()
            invariant
                0 <= i <= paths@.len(),
                pv == views(paths@),
                skipped <= i,
                *filesystem == fs,
                expanded_files(fs, pv.take(i as int), force) == Ok::<(Seq<Seq<char>>, nat), FileSystemError>(
                    (views(discovered@), skipped as nat),
                ),
            decreases paths@.len() - i,
        {
            let expanded = filesystem.expand(paths[i].as_str());
            let ghost before = discovered@;
            let ghost got = expanded;
            proof {
                assert(pv.take(i + 1).drop_last() =~= pv.take(i as int));
                assert(pv.take(i + 1).last() == paths@[i as int]@);
            }
            match absorb_expansion(expanded, force, &mut discovered, &mut skipped) {
                Ok(()) => {
                    proof {
                        if let Ok(files) = got {
                            assert(views(discovered@) =~= views(before) + views(files@));
                        }
                    }
                },
                Err(e) => {
                    proof {
                        lemma_expanded_files_err(fs, pv, force, i + 1, e);
                    }
                    return Err(e);
                },
            }
            i = i + 1;
        }
        proof {
            assert(pv.take(paths@.len() as int) =~= pv);
        }
        let ghost dv = views(discovered@);
        let mut records: Vec<FileRecord> = Vec::new();
        let mut read_skipped: usize = 0;
        let mut j: usize = 0;
        assert(dv.take(0) =~= Seq::<Seq<char>>::empty());
        assert(views(records@) =~= Seq::<(Seq<char>, Seq<u8>, Seq<char>)>::empty());
        while j < discovered.len()
            invariant
                0 <= j <= discovered@.len(),
                dv == views(discovered@),
                pv == views(paths@),
                expanded_files(fs, pv, force) == Ok::<(Seq<Seq<char>>, nat), FileSystemError>(
                    (dv, skipped as nat),
                ),
                read_skipped <= j,
                *filesystem == fs,
                read_records(fs, dv.take(j as int), force) == Ok::<
                    (Seq<(Seq<char>, Seq<u8>, Seq<char>)>, nat),
                    FileSystemError,
                >((views(records@), read_skipped as nat)),
            decreases discovered@.len() - j,
        {
            let path = discovered[j].clone();
            let content = filesystem.read(path.as_str());
            proof {
                assert(dv.take(j + 1).drop_last() =~= dv.take(j as int));
                assert(dv.take(j + 1).last() == path@);
            }
            match absorb_read(path, content, force, &mut records, &mut read_skipped) {
                Ok(()) => {},
                Err(e) => {
                    proof {
                        lemma_read_records_err(fs, dv, force, j + 1, e);
                    }
                    return Err(e);
                },
            }
            j = j + 1;
        }
        proof {
            assert(dv.take(discovered@.len() as int) =~= dv);
        }
        let total = skipped.saturating_add(read_skipped);
        Ok((records, total))
}

/// Orchestrates adding markdown files to a collection.
pub struct AddFiles<FS, S, C> {
    filesystem: FS,
    files: S,
    clock: C,
}

impl<FS: FileSystem, S: FileStore, C: Clock> AddFiles<FS, S, C> {
    /// Creates an add-files use case with its filesystem, store, and clock
    /// ports.
    pub fn new(filesystem: FS, files: S, clock: C) -> (u: AddFiles<FS, S, C>)
        ensures
            u.filesystem_port() == filesystem,
            u.store_port() == files,
            u.clock_port() == clock,
    {
        AddFiles { filesystem, files, clock }
    }

    /// The filesystem port.
    pub closed spec fn filesystem_port(&self) -> FS {
        self.filesystem
    }

    /// The file store port.
    pub closed spec fn store_port(&self) -> S {
        self.files
    }

    /// The clock port.
    pub closed spec fn clock_port(&self) -> C {
        self.clock
    }

    /// Adds the markdown files reachable from `paths` to `collection`.
    ///
    /// Every path is expanded, then every discovered file is read, in order;
    /// the records are upserted together, stamped with the clock's time. A
    /// path that cannot be expanded or a file that cannot be read fails the
    /// operation, unless `force` is set, when it is counted as skipped and the
    /// rest proceed. The outcome counts the records upserted and the skips.
    pub fn execute(&mut self, collection: &CollectionName, paths: &[String], force: bool) -> (r:
        Result<AddFilesOutcome, AddFilesError>)
        ensures
            final(self).filesystem_port() == old(self).filesystem_port(),
            match gathered(old(self).filesystem_port(), views(paths@), force) {
                Err(e) => r == Err::<AddFilesOutcome, AddFilesError>(AddFilesError::FileSystem(e))
                    && final(self).store_port() == old(self).store_port(),
                Ok(g) => (r matches Ok(o) ==> o@.0 == g.0.len() && o@.1 == g.1 && exists|t: u64|
                    final(self).store_port() == old(self).store_port().upserted(collection@, g.0, t))
                    && (r is Err ==> (r matches Err(AddFilesError::Clock(_)) || r matches Err(
                    AddFilesError::FileStore(_),
                )) && final(self).store_port() == old(self).store_port()),
            },
    {
        let (records, total) = match gather_records(&self.filesystem, paths, force) {
            Ok(x) => x,
            Err(e) => return Err(AddFilesError::FileSystem(e)),
        };
        let ingested_at = match self.clock.now() {
            Ok(t) => t,
            Err(e) => return Err(AddFilesError::Clock(e)),
        };
        match self.files.upsert_files(collection, records.as_slice(), ingested_at) {
            Ok(()) => {},
            Err(e) => return Err(AddFilesError::FileStore(e)),
        }
        let ghost g = gathered(old(self).filesystem_port(), views(paths@), force)->Ok_0;
        assert(views(records@).len() == records@.len());
        assert(self.store_port() == old(self).store_port().upserted(collection@, g.0, ingested_at@));
        let r: Result<AddFilesOutcome, AddFilesError> = Ok(AddFilesOutcome::new(records.len(), total));
        assert(r matches Ok(o) ==> o@.0 == g.0.len() && o@.1 == g.1);
        r
    }
}

} // verus!
