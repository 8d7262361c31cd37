//! Validated collection names.
use vstd::prelude::*;
use crate::text::{chars_of, is_control, is_ctrl, str_eq, trim, trimmed};

verus! {

/// The lowercase form of a string, as `str::to_lowercase` computes it.
pub uninterp spec fn lowercase_of(s: Seq<char>) -> Seq<char>;

/// Lowercases a string (`str::to_lowercase`).
#[verifier::external_body]
fn to_lowercase(s: &str) -> (r: String)
    ensures
        r@ == lowercase_of(s@),
{
    s.to_lowercase()
}

/// Whether `s` holds a path separator.
pub open spec fn has_separator(s: Seq<char>) -> bool {
    s.contains('/') || s.contains('\\')
}

/// Whether `s` holds a control character.
pub open spec fn has_control(s: Seq<char>) -> bool {
    exists|i: int| 0 <= i < s.len() && is_ctrl(#[trigger] s[i])
}

/// Describes why a collection name is invalid.
#[derive(Clone, Copy, Debug, PartialEq, Eq, Structural)]
pub enum CollectionNameError {
    /// The name is empty after trimming.
    Empty,
    /// The name contains a path separator.
    PathSeparator,
    /// The name contains a control character.
    ControlCharacter,
}

impl CollectionNameError {
    /// The human-readable description of the error.
    pub fn message(&self) -> (m: &'static str)
        ensures
            *self == CollectionNameError::Empty ==> m@ == "collection name is empty"@,
            *self == CollectionNameError::PathSeparator ==> m@
                == "collection name contains a path separator"@,
            *self == CollectionNameError::ControlCharacter ==> m@
                == "collection name contains a control character"@,
    {
        match self {
            CollectionNameError::Empty => "collection name is empty",
            CollectionNameError::PathSeparator => "collection name contains a path separator",
            CollectionNameError::ControlCharacter => "collection name contains a control character",
        }
    }
}

/// The outcome of validating a raw collection name: the error, if any, in
/// the order the checks are made.
pub open spec fn name_check(raw: Seq<char>) -> Option<CollectionNameError> {
    let d = trim(raw);
    if d.len() == 0 {
        Some(CollectionNameError::Empty)
    } else if has_separator(d) {
        Some(CollectionNameError::PathSeparator)
    } else if has_control(d) {
        Some(CollectionNameError::ControlCharacter)
    } else {
        None
    }
}

/// A validated collection name with its display and comparison forms.
#[derive(Clone, Debug, PartialEq, Eq)]
pub struct CollectionName {
    display_name: String,
    name_key: String,
}

impl View for CollectionName {
    /// The display spelling and the comparison key.
    type V = (Seq<char>, Seq<char>);

    closed spec fn view(&self) -> (Seq<char>, Seq<char>) {
        (self.display_name@, self.name_key@)
    }
}

/// The display and key forms of a valid raw name.
pub open spec fn name_forms(raw: Seq<char>) -> (Seq<char>, Seq<char>) {
    (trim(raw), lowercase_of(trim(raw)))
}

impl CollectionName {
    /// Creates a validated collection name from raw input.
    ///
    /// Returns an error when the trimmed input is empty, contains a path
    /// separator, or contains a control character, checked in that order.
    pub fn try_new(raw_name: &str) -> (r: Result<CollectionName, CollectionNameError>)
        ensures
            match name_check(raw_name@) {
                Some(e) => r == Err::<CollectionName, CollectionNameError>(e),
                None => r matches Ok(n) && n@ == name_forms(raw_name@),
            },
    {
        let display_name = trimmed(raw_name);
        proof {
            crate::text::lemma_trim_idempotent(raw_name@);
        }
        let cs = chars_of(display_name.as_str());
        let n = cs.len();
        if n == 0 {
            assert(trim(raw_name@).len() == 0);
            return Err(CollectionNameError::Empty);
        }
        let mut i: usize = 0;
        let mut sep = false;
        while i < n
            invariant
                0 <= i <= n,
                n == cs@.len(),
                cs@ == display_name@,
                sep == (cs@.take(i as int).contains('/') || cs@.take(i as int).contains('\\')),
            decreases n - i,
        {
            proof {
                assert(cs@.take(i + 1) == cs@.take(i as int).push(cs@[i as int]));
                crate::text::lemma_push_contains(cs@.take(i as int), cs@[i as int], '/');
                crate::text::lemma_push_contains(cs@.take(i as int), cs@[i as int], '\\');
            }
            if cs[i] == '/' || cs[i] == '\\' {
                sep = true;
            }
            i = i + 1;
        }
        assert(cs@.take(n as int) == cs@);
        if sep {
            return Err(CollectionNameError::PathSeparator);
        }
        let mut j: usize = 0;
        while j < n
            invariant
                0 <= j <= n,
                n == cs@.len(),
                cs@ == display_name@,
                display_name@ == trim(raw_name@),
                n > 0,
                !has_separator(display_name@),
                forall|k: int| 0 <= k < j ==> !is_ctrl(#[trigger] cs@[k]),
            decreases n - j,
        {
            if is_control(cs[j]) {
                assert(is_ctrl(display_name@[j as int]));
                return Err(CollectionNameError::ControlCharacter);
            }
            j = j + 1;
        }
        assert(!has_control(display_name@));
        let name_key = to_lowercase(display_name.as_str());
        Ok(CollectionName { display_name, name_key })
    }

    /// Creates a validated collection name from raw input (`TryFrom<&str>`).
    pub fn try_from(raw_name: &str) -> (r: Result<CollectionName, CollectionNameError>)
        ensures
            match name_check(raw_name@) {
                Some(e) => r == Err::<CollectionName, CollectionNameError>(e),
                None => r matches Ok(n) && n@ == name_forms(raw_name@),
            },
    {
        CollectionName::try_new(raw_name)
    }

    /// Returns the trimmed spelling retained for display.
    pub fn display_name(&self) -> (s: &str)
        ensures
            s@ == self@.0,
    {
        self.display_name.as_str()
    }

    /// Returns the canonical key used for case-insensitive uniqueness.
    pub fn name_key(&self) -> (s: &str)
        ensures
            s@ == self@.1,
    {
        self.name_key.as_str()
    }

    /// A copy of this name.
    pub fn duplicate(&self) -> (n: CollectionName)
        ensures
            n == *self,
            n@ == self@,
    {
        CollectionName { display_name: self.display_name.clone(), name_key: self.name_key.clone() }
    }

    /// Whether two names are the same in both their forms.
    pub fn same_as(&self, other: &CollectionName) -> (b: bool)
        ensures
            b == (self@ == other@),
    {
        str_eq(self.display_name.as_str(), other.display_name.as_str()) && str_eq(
            self.name_key.as_str(),
            other.name_key.as_str(),
        )
    }
}

/// A valid name keeps its form: validating its display spelling again gives
/// back the same name.
pub proof fn lemma_name_valid(raw: Seq<char>)
    requires
        name_check(raw) is None,
    ensures
        name_check(name_forms(raw).0) is None,
        name_forms(name_forms(raw).0) == name_forms(raw),
{
    crate::text::lemma_trim_idempotent(raw);
}

/// A valid name without surrounding whitespace is displayed as given, and
/// compared by its lowercase form.
pub proof fn lemma_name_key_is_lowercase(raw: Seq<char>)
    requires
        name_check(raw) is None,
        raw.len() > 0,
        !crate::text::is_ws(raw[0]),
        !crate::text::is_ws(raw.last()),
    ensures
        name_forms(raw).0 == raw,
        name_forms(raw).1 == lowercase_of(raw),
{
    crate::text::lemma_leading_ws(raw, 0);
    assert(raw.skip(0) =~= raw);
    crate::text::lemma_trailing_ws(raw, raw.len() as int);
    assert(raw.take(raw.len() as int) =~= raw);
}

} // verus!
