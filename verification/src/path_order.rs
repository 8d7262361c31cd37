//! The order of paths, as `std::path::Path` compares them: component by
//! component.
use vstd::prelude::*;
use std::path::Path;

verus! {

/// How `Path`'s `Ord` compares two paths: negative, zero or positive.
pub uninterp spec fn path_order(a: Seq<char>, b: Seq<char>) -> i8;

/// Compares two paths component by component (`Ord for Path`), giving -1,
/// 0 or 1.
#[verifier::external_body]
pub(crate) fn compare_paths(a: &str, b: &str) -> (r: i8)
    ensures
        r == path_order(a@, b@),
        -1 <= r <= 1,
{
    match Path::new(a).cmp(Path::new(b)) {
        std::cmp::Ordering::Less => -1,
        std::cmp::Ordering::Equal => 0,
        std::cmp::Ordering::Greater => 1,
    }
}

} // verus!
