//! The fingerprint of a collection's stored file set, for staleness
//! detection.
use vstd::prelude::*;
use vstd::utf8::encode_utf8;
use vstd::string::StringSliceAdditionalSpecFns;
use crate::content_hash::{hex_of, sha256_of, ContentHash};
use crate::order::{compare_str, str_lt};
use crate::path_order::{compare_paths, path_order};
use vstd::seq_lib::{to_multiset_build, to_multiset_contains, to_multiset_len, to_multiset_remove};

verus! {

broadcast use vstd::multiset::group_multiset_axioms;

/// The view of a fingerprint entry: a path and a content hash.
pub type EntryView = (Seq<char>, Seq<char>);

/// Whether entry `a` sorts strictly before entry `b`: by path, as `Path`
/// orders paths, then by hash text.
pub open spec fn entry_before(a: EntryView, b: EntryView) -> bool {
    path_order(a.0, b.0) < 0 || (path_order(a.0, b.0) == 0 && str_lt(a.1, b.1))
}

/// The index at which a stable insertion places `x` in `s`: before the
/// first entry that sorts strictly after it.
pub open spec fn insert_index(s: Seq<EntryView>, x: EntryView) -> int
    decreases s.len(),
{
    if s.len() == 0 {
        0
    } else if entry_before(x, s[0]) {
        0
    } else {
        1 + insert_index(s.drop_first(), x)
    }
}

/// The entries sorted stably: ordered by path then hash, entries with equal
/// keys keeping their input order (as `sort_by_key` leaves them).
pub open spec fn stable_sorted(s: Seq<EntryView>) -> Seq<EntryView>
    decreases s.len(),
{
    if s.len() == 0 {
        Seq::empty()
    } else {
        let r = stable_sorted(s.drop_last());
        let k = insert_index(r, s.last());
        r.take(k).push(s.last()) + r.skip(k)
    }
}

/// The bytes fingerprinted for the sorted entries: each path and hash,
/// each followed by a newline.
pub open spec fn serialized(s: Seq<EntryView>) -> Seq<u8>
    decreases s.len(),
{
    if s.len() == 0 {
        Seq::empty()
    } else {
        serialized(s.drop_last()) + encode_utf8(s.last().0) + seq![10u8] + encode_utf8(s.last().1)
            + seq![10u8]
    }
}

/// The fingerprint of a file set.
pub open spec fn fingerprint_of(s: Seq<EntryView>) -> Seq<char> {
    hex_of(sha256_of(serialized(stable_sorted(s))))
}

/// The insertion index lies within the sequence.
proof fn lemma_insert_index_bound(s: Seq<EntryView>, x: EntryView)
    ensures
        0 <= insert_index(s, x) <= s.len(),
        forall|i: int| 0 <= i < insert_index(s, x) ==> !entry_before(x, #[trigger] s[i]),
        insert_index(s, x) < s.len() ==> entry_before(x, s[insert_index(s, x)]),
    decreases s.len(),
{
    if s.len() > 0 && !entry_before(x, s[0]) {
        let t = s.drop_first();
        lemma_insert_index_bound(t, x);
        assert forall|i: int| 0 <= i < insert_index(s, x) implies !entry_before(x, #[trigger] s[i]) by {
            if i > 0 {
                assert(s[i] == t[i - 1]);
            }
        }
        if insert_index(s, x) < s.len() {
            assert(s[insert_index(s, x)] == t[insert_index(t, x)]);
        }
    }
}

/// Whether `a` sorts before `b`, decided with the path and string orders.
fn before(a: (&str, &ContentHash), b: (&str, &ContentHash)) -> (r: bool)
    ensures
        r == entry_before((a.0@, a.1@), (b.0@, b.1@)),
{
    let p = compare_paths(a.0, b.0);
    if p < 0 {
        true
    } else if p > 0 {
        false
    } else {
        compare_str(a.1.as_str(), b.1.as_str()) < 0
    }
}

/// The views of fingerprint entries.
pub open spec fn entry_views(s: Seq<(&str, &ContentHash)>) -> Seq<EntryView> {
    s.map_values(|e: (&str, &ContentHash)| (e.0@, e.1@))
}

/// Appends the bytes of `s`.
fn push_bytes(out: &mut Vec<u8>, s: &str)
    ensures
        final(out)@ == old(out)@ + encode_utf8(s@),
{
    let bytes = s.as_bytes();
    let ghost start = out@;
    let mut i: usize = 0;
    while i < bytes.len()
        invariant
            0 <= i <= bytes@.len(),
            bytes@ == s.spec_bytes(),
            out@ == start + bytes@.take(i as int),
        decreases bytes@.len() - i,
    {
        out.push(bytes[i]);
        i = i + 1;
        assert(out@ =~= start + bytes@.take(i as int));
    }
    assert(bytes@.take(bytes@.len() as int) =~= bytes@);
}

/// Hashes a collection's stored file set for staleness detection.
///
/// The fingerprint is deterministic over the sorted `(path, content hash)`
/// pairs, so identical file sets hash identically regardless of input order
/// and any file addition, removal, or content change produces a different
/// fingerprint.
pub fn file_set_fingerprint(files: &[(&str, &ContentHash)]) -> (h: ContentHash)
    ensures
        h@ == fingerprint_of(entry_views(files@)),
{
    let ghost fv = entry_views(files@);
    let mut sorted: Vec<(&str, &ContentHash)> = Vec::new();
    let mut i: usize = 0;
    assert(fv.take(0) =~= Seq::<EntryView>::empty());
    assert(entry_views(sorted@) =~= Seq::<EntryView>::empty());
    while i < files.len()
        invariant
            0 <= i <= files@.len(),
            fv == entry_views(files@),
            entry_views(sorted@) == stable_sorted(fv.take(i as int)),
        decreases files@.len() - i,
    {
        let x = files[i];
        let ghost r = entry_views(sorted@);
        let ghost xv = (x.0@, x.1@);
        proof {
            assert(fv.take(i + 1).drop_last() =~= fv.take(i as int));
            assert(fv.take(i + 1).last() == xv);
            lemma_insert_index_bound(r, xv);
        }
        let mut k: usize = 0;
        assert(r.skip(0) =~= r);
        while k < sorted.len() && !before(x, sorted[k])
            invariant
                0 <= k <= sorted@.len(),
                r == entry_views(sorted@),
                xv == (x.0@, x.1@),
                insert_index(r, xv) == k + insert_index(r.skip(k as int), xv),
            decreases sorted@.len() - k,
        {
            proof {
                assert(r.skip(k as int)[0] == r[k as int]);
                assert(r.skip(k as int).drop_first() =~= r.skip(k + 1));
            }
            k = k + 1;
        }
        proof {
            if k < sorted@.len() {
                assert(r.skip(k as int)[0] == r[k as int]);
            }
            assert(insert_index(r, xv) == k);
        }
        sorted.insert(k, x);
        proof {
            assert(entry_views(sorted@) =~= r.take(k as int).push(xv) + r.skip(k as int));
        }
        i = i + 1;
    }
    assert(fv.take(files@.len() as int) =~= fv);
    let ghost sv = entry_views(sorted@);
    let mut combined: Vec<u8> = Vec::new();
    let mut j: usize = 0;
    assert(sv.take(0) =~= Seq::<EntryView>::empty());
    while j < sorted.len()
        invariant
            0 <= j <= sorted@.len(),
            sv == entry_views(sorted@),
            combined@ == serialized(sv.take(j as int)),
        decreases sorted@.len() - j,
    {
        let (path, hash) = sorted[j];
        let ghost before_bytes = combined@;
        push_bytes(&mut combined, path);
        combined.push(10u8);
        push_bytes(&mut combined, hash.as_str());
        combined.push(10u8);
        proof {
            let t = sv.take(j + 1);
            assert(t.drop_last() =~= sv.take(j as int));
            assert(t.last() == (path@, hash@));
            assert(combined@ =~= serialized(t));
        }
        j = j + 1;
    }
    assert(sv.take(sorted@.len() as int) =~= sv);
    ContentHash::from_content(combined.as_slice())
}


/// `before` orders the entries of `set` strictly and totally: no two
/// distinct entries compare equal, as `Ord` guarantees of paths and strings
/// when no two entries have paths that `Path` considers equal.
pub open spec fn strict_total_on(set: Set<EntryView>) -> bool {
    &&& forall|x: EntryView| #[trigger] set.contains(x) ==> !entry_before(x, x)
    &&& forall|x: EntryView, y: EntryView|
        set.contains(x) && set.contains(y) && x != y ==> (#[trigger] entry_before(x, y)
            <==> !#[trigger] entry_before(y, x))
    &&& forall|x: EntryView, y: EntryView, z: EntryView|
        set.contains(x) && set.contains(y) && set.contains(z) && #[trigger] entry_before(x, y)
            && #[trigger] entry_before(y, z) ==> entry_before(x, z)
}

/// Whether no entry of `s` sorts strictly before an earlier one.
pub open spec fn nondescending(s: Seq<EntryView>) -> bool {
    forall|i: int, j: int| 0 <= i < j < s.len() ==> !entry_before(#[trigger] s[j], #[trigger] s[i])
}

/// Sequences with the same entries, counted with repetition, hold the same
/// set of entries.
proof fn lemma_same_set(a: Seq<EntryView>, b: Seq<EntryView>)
    requires
        a.to_multiset() == b.to_multiset(),
    ensures
        a.to_set() == b.to_set(),
{
    assert forall|x: EntryView| a.to_set().contains(x) <==> b.to_set().contains(x) by {
        to_multiset_contains(a, x);
        to_multiset_contains(b, x);
    }
    assert(a.to_set() =~= b.to_set());
}

/// The order stays strict and total on a part of the set.
proof fn lemma_strict_total_part(whole: Set<EntryView>, part: Set<EntryView>)
    requires
        strict_total_on(whole),
        part.subset_of(whole),
    ensures
        strict_total_on(part),
{
}

/// Sorting keeps the entries, counted with repetition.
proof fn lemma_sorted_multiset(s: Seq<EntryView>)
    ensures
        stable_sorted(s).to_multiset() == s.to_multiset(),
        stable_sorted(s).len() == s.len(),
    decreases s.len(),
{
    if s.len() == 0 {
        assert(stable_sorted(s) =~= s);
    } else {
        let p = s.drop_last();
        let x = s.last();
        lemma_sorted_multiset(p);
        let r = stable_sorted(p);
        lemma_insert_index_bound(r, x);
        let k = insert_index(r, x);
        let t = stable_sorted(s);
        assert(t == r.take(k).push(x) + r.skip(k));
        assert(t.remove(k) =~= r);
        assert(t[k] == x);
        to_multiset_remove(t, k);
        to_multiset_contains(t, x);
        assert(t.contains(x));
        assert(p.push(x) =~= s);
        to_multiset_build(p, x);
        to_multiset_len(t);
        to_multiset_len(r);
        assert(t.to_multiset() =~= r.to_multiset().insert(x));
    }
}

/// Sorting entries of a strictly, totally ordered set leaves no entry
/// before an earlier one.
proof fn lemma_sorted_nondescending(s: Seq<EntryView>)
    requires
        strict_total_on(s.to_set()),
    ensures
        nondescending(stable_sorted(s)),
    decreases s.len(),
{
    if s.len() > 0 {
        let p = s.drop_last();
        let x = s.last();
        assert(p.to_set().subset_of(s.to_set())) by {
            assert forall|y: EntryView| #[trigger] p.to_set().contains(y) implies s.to_set().contains(y) by {
                let i = choose|i: int| 0 <= i < p.len() && p[i] == y;
                assert(s[i] == y);
            }
        }
        lemma_strict_total_part(s.to_set(), p.to_set());
        lemma_sorted_nondescending(p);
        lemma_sorted_multiset(p);
        let r = stable_sorted(p);
        lemma_same_set(r, p);
        lemma_insert_index_bound(r, x);
        let k = insert_index(r, x);
        let t = stable_sorted(s);
        assert(t == r.take(k).push(x) + r.skip(k));
        assert(s.to_set().contains(x)) by {
            assert(s[s.len() - 1] == x);
        }
        assert forall|i: int| 0 <= i < r.len() implies #[trigger] s.to_set().contains(r[i]) by {
            assert(r.to_set().contains(r[i]));
            assert(p.to_set().contains(r[i]));
        }
        assert(!entry_before(x, x));
        assert forall|i: int, j: int| 0 <= i < j < t.len() implies !entry_before(
            #[trigger] t[j],
            #[trigger] t[i],
        ) by {
            if j < k {
                assert(t[i] == r[i] && t[j] == r[j]);
            } else if j == k {
                assert(t[i] == r[i] && t[j] == x);
            } else if i == k {
                assert(t[i] == x && t[j] == r[j - 1]);
                assert(s.to_set().contains(r[k]));
                assert(s.to_set().contains(r[j - 1]));
                assert(entry_before(x, r[k]));
                if j - 1 > k {
                    assert(!entry_before(r[j - 1], r[k]));
                    if entry_before(r[j - 1], x) {
                        assert(entry_before(r[j - 1], r[k]));
                    }
                } else {
                    assert(x != r[k]);
                }
            } else if i < k {
                assert(t[i] == r[i] && t[j] == r[j - 1]);
            } else {
                assert(t[i] == r[i - 1] && t[j] == r[j - 1]);
            }
        }
    }
}

/// Two sequences over a strictly, totally ordered set, neither with an
/// entry before an earlier one, and with the same entries counted with
/// repetition, are equal.
proof fn lemma_nondescending_unique(a: Seq<EntryView>, b: Seq<EntryView>)
    requires
        nondescending(a),
        nondescending(b),
        a.to_multiset() == b.to_multiset(),
        strict_total_on(a.to_set()),
    ensures
        a == b,
    decreases a.len(),
{
    to_multiset_len(a);
    to_multiset_len(b);
    if a.len() == 0 {
        assert(a =~= b);
    } else {
        let x = a[0];
        let y = b[0];
        to_multiset_contains(a, x);
        to_multiset_contains(b, x);
        to_multiset_contains(a, y);
        to_multiset_contains(b, y);
        assert(a.contains(x));
        assert(b.contains(y));
        let m = choose|m: int| 0 <= m < b.len() && b[m] == x;
        let ia = choose|i: int| 0 <= i < a.len() && a[i] == y;
        assert(a.to_set().contains(x));
        assert(a.to_set().contains(a[ia]));
        if x != y {
            if entry_before(x, y) {
                assert(m > 0);
                assert(!entry_before(b[m], b[0]));
            } else {
                assert(ia > 0);
                assert(!entry_before(a[ia], a[0]));
                assert(entry_before(y, x));
            }
        }
        let a1 = a.remove(0);
        let b1 = b.remove(0);
        to_multiset_remove(a, 0);
        to_multiset_remove(b, 0);
        assert(a1.to_set().subset_of(a.to_set())) by {
            assert forall|z: EntryView| #[trigger] a1.to_set().contains(z) implies a.to_set().contains(z) by {
                let i = choose|i: int| 0 <= i < a1.len() && a1[i] == z;
                assert(a[i + 1] == z);
            }
        }
        lemma_strict_total_part(a.to_set(), a1.to_set());
        assert forall|i: int, j: int| 0 <= i < j < a1.len() implies !entry_before(
            #[trigger] a1[j],
            #[trigger] a1[i],
        ) by {
            assert(a1[i] == a[i + 1] && a1[j] == a[j + 1]);
        }
        assert forall|i: int, j: int| 0 <= i < j < b1.len() implies !entry_before(
            #[trigger] b1[j],
            #[trigger] b1[i],
        ) by {
            assert(b1[i] == b[i + 1] && b1[j] == b[j + 1]);
        }
        lemma_nondescending_unique(a1, b1);
        assert(a =~= seq![x] + a1);
        assert(b =~= seq![y] + b1);
    }
}

/// The fingerprint depends on the file set alone: two listings of the same
/// entries, in any order and with any repetition kept, have the same
/// fingerprint. It holds when the order on the entries is the strict total
/// order `Ord` promises (no two distinct entries compare equal: their paths
/// are not `Path`-equal spellings of one path with the same hash).
pub proof fn lemma_fingerprint_order_independent(a: Seq<EntryView>, b: Seq<EntryView>)
    requires
        a.to_multiset() == b.to_multiset(),
        strict_total_on(a.to_set()),
    ensures
        fingerprint_of(a) == fingerprint_of(b),
        stable_sorted(a) == stable_sorted(b),
{
    lemma_same_set(a, b);
    lemma_sorted_multiset(a);
    lemma_sorted_multiset(b);
    lemma_sorted_nondescending(a);
    lemma_sorted_nondescending(b);
    lemma_same_set(stable_sorted(a), a);
    lemma_nondescending_unique(stable_sorted(a), stable_sorted(b));
}

} // verus!
