//! The get-file use case: retrieving a stored file by name or ID.
use vstd::prelude::*;
use crate::collection::CollectionName;
use crate::errors::GetFileError;
use crate::file_id::FileId;
use crate::path::{file_name_of, opt_view, path_file_name};
use crate::ports::{FileRetrievalStore, FileView, RetrievedFile};
use crate::sorted::views;
use crate::text::chars_of;

verus! {

/// The value of a sequence of decimal digits.
pub open spec fn digits_value(s: Seq<char>) -> nat
    decreases s.len(),
{
    if s.len() == 0 {
        0
    } else {
        digits_value(s.drop_last()) * 10 + (s.last() as nat - '0' as nat) as nat
    }
}

/// Whether every character of `s` is a decimal digit.
pub open spec fn all_digits(s: Seq<char>) -> bool {
    forall|i: int| 0 <= i < s.len() ==> '0' <= #[trigger] s[i] && s[i] <= '9'
}

/// The unsigned integer `s` spells, as `u64::from_str` reads it: an
/// optional `+`, then one or more decimal digits, with a value that fits in
/// 64 bits.
pub open spec fn parse_u64_spec(s: Seq<char>) -> Option<u64> {
    let d = if s.len() > 0 && s[0] == '+' {
        s.drop_first()
    } else {
        s
    };
    if d.len() > 0 && all_digits(d) && digits_value(d) <= u64::MAX {
        Some(digits_value(d) as u64)
    } else {
        None
    }
}

/// Reads an unsigned 64-bit integer from its decimal spelling
/// (`str::parse::<u64>`).
pub fn parse_u64(s: &str) -> (r: Option<u64>)
    ensures
        r == parse_u64_spec(s@),
{
    let cs = chars_of(s);
    let mut start: usize = 0;
    if cs.len() > 0 && cs[0] == '+' {
        start = 1;
    }
    let ghost d = if s@.len() > 0 && s@[0] == '+' {
        s@.drop_first()
    } else {
        s@
    };
    assert(d =~= cs@.skip(start as int));
    if start >= cs.len() {
        return None;
    }
    let mut value: u64 = 0;
    let mut i: usize = start;
    while i < cs.len()
        invariant
            start <= i <= cs@.len(),
            cs@ == s@,
            d == cs@.skip(start as int),
            d == (if s@.len() > 0 && s@[0] == '+' {
                s@.drop_first()
            } else {
                s@
            }),
            all_digits(cs@.subrange(start as int, i as int)),
            value as nat == digits_value(cs@.subrange(start as int, i as int)),
        decreases cs@.len() - i,
    {
        let c = cs[i];
        let ghost pre = cs@.subrange(start as int, i as int);
        let ghost next = cs@.subrange(start as int, i + 1);
        assert(next.drop_last() =~= pre);
        assert(next.last() == c);
        if !('0' <= c && c <= '9') {
            assert(d[i - start] == c);
            assert(!all_digits(d));
            return None;
        }
        let digit = (c as u32 - '0' as u32) as u64;
        if value > (u64::MAX - digit) / 10 {
            proof {
                assert(digits_value(next) == value * 10 + digit);
                assert(value * 10 + digit > u64::MAX) by (nonlinear_arith)
                    requires
                        value > (u64::MAX - digit) / 10,
                        digit <= 9,
                ;
                assert(d.subrange(0, i + 1 - start) =~= next);
                lemma_digits_value_mono(d, i + 1 - start);
                if all_digits(d) {
                    assert(digits_value(d) > u64::MAX);
                }
            }
            return None;
        }
        assert(value * 10 + digit <= u64::MAX) by (nonlinear_arith)
            requires
                value <= (u64::MAX - digit) / 10,
                digit <= 9,
        ;
        value = value * 10 + digit;
        i = i + 1;
    }
    assert(cs@.subrange(start as int, cs@.len() as int) =~= d);
    Some(value)
}

/// A prefix of a digit string never has a larger value than the whole.
proof fn lemma_digits_value_mono(d: Seq<char>, n: int)
    requires
        0 <= n <= d.len(),
    ensures
        all_digits(d) ==> digits_value(d.subrange(0, n)) <= digits_value(d),
    decreases d.len() - n,
{
    if n < d.len() {
        lemma_digits_value_mono(d, n + 1);
        let a = d.subrange(0, n);
        let b = d.subrange(0, n + 1);
        assert(b.drop_last() =~= a);
        if all_digits(d) {
            assert('0' <= d[n] && d[n] <= '9');
            assert(digits_value(b) >= digits_value(a)) by (nonlinear_arith)
                requires
                    digits_value(b) == digits_value(a) * 10 + (b.last() as nat - '0' as nat) as nat,
            ;
        }
    } else {
        assert(d.subrange(0, n) =~= d);
    }
}

/// The file ID an argument names: an all-digit positive number.
pub open spec fn id_argument(name_or_id: Seq<char>) -> Option<u64> {
    if name_or_id.len() > 0 && name_or_id[0] == '+' {
        None
    } else {
        match parse_u64_spec(name_or_id) {
            Some(v) => if v > 0 {
                Some(v)
            } else {
                None
            },
            None => None,
        }
    }
}

/// The file ID `name_or_id` names, if it is a positive decimal number.
pub fn file_id_argument(name_or_id: &str) -> (r: Option<FileId>)
    ensures
        match r {
            Some(id) => id_argument(name_or_id@) == Some(id@),
            None => id_argument(name_or_id@) is None,
        },
{
    let cs = chars_of(name_or_id);
    if cs.len() > 0 && cs[0] == '+' {
        return None;
    }
    let p = parse_u64(name_or_id);
    match p {
        Some(v) => {
            if v == 0 {
                assert(id_argument(name_or_id@) is None);
                None
            } else {
                match FileId::try_new(v) {
                    Ok(id) => Some(id),
                    Err(_) => None,
                }
            }
        },
        None => {
            assert(parse_u64_spec(name_or_id@) is None);
            None
        },
    }
}

/// The basename a name is looked up by: its file name, or the whole name
/// when it has none.
pub open spec fn basename_of(name: Seq<char>) -> Seq<char> {
    match path_file_name(name) {
        Some(b) => b,
        None => name,
    }
}

/// What a basename lookup that found `fs` gives.
pub open spec fn basename_outcome(r: Result<RetrievedFile, GetFileError>, fs: Seq<FileView>) -> bool {
    &&& fs.len() == 0 ==> r == Err::<RetrievedFile, GetFileError>(GetFileError::FileNotFound)
    &&& fs.len() == 1 ==> (r matches Ok(g) && g@ == fs[0])
    &&& fs.len() > 1 ==> (r matches Err(GetFileError::Ambiguous(paths)) && views(paths@)
        == fs.map_values(|f: FileView| f.0))
}

/// Settles a basename lookup: no candidate is not-found, one is the file,
/// more are ambiguous and list their paths in order.
pub fn settle_candidates(candidates: Vec<RetrievedFile>) -> (r: Result<
    RetrievedFile,
    GetFileError,
>)
    ensures
        candidates@.len() == 0 ==> r == Err::<RetrievedFile, GetFileError>(
            GetFileError::FileNotFound,
        ),
        candidates@.len() == 1 ==> (r matches Ok(f) && f@ == candidates@[0]@),
        candidates@.len() > 1 ==> (r matches Err(GetFileError::Ambiguous(paths)) && views(paths@)
            == candidates@.map_values(|f: RetrievedFile| f@.0) && paths@.len()
            == candidates@.len()),
{
    let n = candidates.len();
    if n == 0 {
        return Err(GetFileError::FileNotFound);
    }
    if n == 1 {
        let mut c = candidates;
        let f = c.pop();
        match f {
            Some(f) => return Ok(f),
            None => return Err(GetFileError::FileNotFound),
        }
    }
    let mut paths: Vec<String> = Vec::new();
    let mut i: usize = 0;
    while i < n
        invariant
            0 <= i <= n,
            n == candidates@.len(),
            views(paths@) == candidates@.take(i as int).map_values(|f: RetrievedFile| f@.0),
        decreases n - i,
    {
        let ghost before = paths@;
        paths.push(candidates[i].path().to_owned());
        proof {
            assert(candidates@.take(i + 1) =~= candidates@.take(i as int).push(candidates@[i as int]));
            assert(views(paths@) =~= views(before).push(candidates@[i as int]@.0));
            assert(candidates@.take(i + 1).map_values(|f: RetrievedFile| f@.0) =~= candidates@.take(
                i as int,
            ).map_values(|f: RetrievedFile| f@.0).push(candidates@[i as int]@.0));
        }
        i = i + 1;
    }
    assert(candidates@.take(n as int) =~= candidates@);
    assert(views(paths@).len() == paths@.len());
    Err(GetFileError::Ambiguous(paths))
}

/// Retrieves a complete stored file by name or ID.
pub struct GetFile<S> {
    store: S,
}

impl<S: FileRetrievalStore> GetFile<S> {
    /// Creates a get-file use case with its store port.
    pub fn new(store: S) -> (u: GetFile<S>)
        ensures
            u.store_port() == store,
    {
        GetFile { store }
    }

    /// The store port.
    pub closed spec fn store_port(&self) -> S {
        self.store
    }

    /// Returns the stored file addressed by `name_or_id` in `collection`.
    ///
    /// An all-digit positive argument is treated as a file ID, and a missing
    /// file is not-found; otherwise it is a name resolved by exact canonical
    /// path and then by unique basename, several files sharing the basename
    /// being ambiguous.
    pub fn execute(&self, collection: &CollectionName, name_or_id: &str) -> (r: Result<
        RetrievedFile,
        GetFileError,
    >)
        ensures
            r matches Err(GetFileError::Ambiguous(paths)) ==> paths@.len() > 1
                && id_argument(name_or_id@) is None,
            match id_argument(name_or_id@) {
                Some(id) => match self.store_port().by_id(collection@, id) {
                    Ok(Some(f)) => r matches Ok(g) && g@ == f,
                    Ok(None) => r == Err::<RetrievedFile, GetFileError>(GetFileError::FileNotFound),
                    Err(e) => r == Err::<RetrievedFile, GetFileError>(GetFileError::Store(e)),
                },
                None => match self.store_port().by_path(collection@, name_or_id@) {
                    Ok(Some(f)) => r matches Ok(g) && g@ == f,
                    Err(e) => r == Err::<RetrievedFile, GetFileError>(GetFileError::Store(e)),
                    Ok(None) => match self.store_port().by_basename(collection@, basename_of(name_or_id@)) {
                        Err(e) => r == Err::<RetrievedFile, GetFileError>(GetFileError::Store(e)),
                        Ok(fs) => basename_outcome(r, fs),
                    },
                },
            },
    {
        match file_id_argument(name_or_id) {
            Some(id) => {
                return match self.store.get_by_id(collection, id) {
                    Ok(Some(f)) => Ok(f),
                    Ok(None) => Err(GetFileError::FileNotFound),
                    Err(e) => Err(GetFileError::Store(e)),
                };
            },
            None => {},
        }
        match self.store.get_by_path(collection, name_or_id) {
            Ok(Some(f)) => return Ok(f),
            Ok(None) => {},
            Err(e) => return Err(GetFileError::Store(e)),
        }
        let basename = match file_name_of(name_or_id) {
            Some(b) => b,
            None => name_or_id.to_owned(),
        };
        let candidates = match self.store.list_by_basename(collection, basename.as_str()) {
            Ok(c) => c,
            Err(e) => return Err(GetFileError::Store(e)),
        };
        let ghost fs = views(candidates@);
        proof {
            assert(candidates@.map_values(|f: RetrievedFile| f@.0) =~= fs.map_values(|f: FileView| f.0));
        }
        let r = settle_candidates(candidates);
        assert(basename_outcome(r, fs));
        r
    }
}

} // verus!
