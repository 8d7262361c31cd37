//! Ordered sets kept as strictly sorted vectors.
use vstd::prelude::*;

verus! {

/// A type whose values are totally ordered through their views.
pub trait Ordered: View + Sized {
    /// The strict order on views.
    spec fn lt_view(a: Self::V, b: Self::V) -> bool;

    /// The order is a strict total order.
    proof fn lemma_order(a: Self::V, b: Self::V, c: Self::V)
        ensures
            !Self::lt_view(a, a),
            Self::lt_view(a, b) && Self::lt_view(b, c) ==> Self::lt_view(a, c),
            a == b || Self::lt_view(a, b) || Self::lt_view(b, a),
            !(Self::lt_view(a, b) && Self::lt_view(b, a)),
    ;

    /// Three-way comparison: negative, zero or positive.
    fn compare(&self, other: &Self) -> (r: i8)
        ensures
            (r == 0) == (self@ == other@),
            (r < 0) == Self::lt_view(self@, other@),
            (r > 0) == Self::lt_view(other@, self@),
    ;
}

/// The views of a sequence of values.
pub open spec fn views<T: View>(s: Seq<T>) -> Seq<T::V> {
    s.map_values(|x: T| x@)
}

/// Whether the views of `s` are strictly increasing.
pub open spec fn sorted_views<T: Ordered>(s: Seq<T>) -> bool {
    forall|i: int, j: int| 0 <= i < j < s.len() ==> T::lt_view(#[trigger] s[i]@, #[trigger] s[j]@)
}

/// Two strictly sorted sequences with the same elements are equal.
pub proof fn lemma_sorted_unique<T: Ordered>(a: Seq<T::V>, b: Seq<T::V>)
    requires
        forall|i: int, j: int| 0 <= i < j < a.len() ==> T::lt_view(#[trigger] a[i], #[trigger] a[j]),
        forall|i: int, j: int| 0 <= i < j < b.len() ==> T::lt_view(#[trigger] b[i], #[trigger] b[j]),
        a.to_set() == b.to_set(),
    ensures
        a == b,
    decreases a.len() + b.len(),
{
    if a.len() == 0 {
        if b.len() > 0 {
            assert(b.to_set().contains(b[0]));
            assert(!a.to_set().contains(b[0]));
        }
        assert(a =~= b);
    } else if b.len() == 0 {
        assert(a.to_set().contains(a[0]));
    } else {
        // The least elements agree.
        assert(a.to_set().contains(a[0]));
        assert(b.to_set().contains(b[0]));
        assert(b.contains(a[0]));
        assert(a.contains(b[0]));
        let ia = choose|i: int| 0 <= i < a.len() && a[i] == b[0];
        let ib = choose|i: int| 0 <= i < b.len() && b[i] == a[0];
        T::lemma_order(a[0], b[0], a[0]);
        if a[0] != b[0] {
            if T::lt_view(a[0], b[0]) {
                // a[0] sits at ib > 0 in b, but b[0] is b's least element.
                assert(ib > 0);
                assert(T::lt_view(b[0], b[ib]));
            } else {
                assert(ia > 0);
                assert(T::lt_view(a[0], a[ia]));
            }
        }
        let a1 = a.drop_first();
        let b1 = b.drop_first();
        assert forall|x: T::V| a1.to_set().contains(x) implies b1.to_set().contains(x) by {
            let k = choose|k: int| 0 <= k < a1.len() && a1[k] == x;
            assert(a[k + 1] == x);
            assert(a.to_set().contains(x));
            assert(b.contains(x));
            let m = choose|m: int| 0 <= m < b.len() && b[m] == x;
            T::lemma_order(a[0], x, a[0]);
            assert(T::lt_view(a[0], a[k + 1]));
            if m == 0 {
                assert(false);
            }
            assert(b1[m - 1] == x);
        }
        assert forall|x: T::V| b1.to_set().contains(x) implies a1.to_set().contains(x) by {
            let k = choose|k: int| 0 <= k < b1.len() && b1[k] == x;
            assert(b[k + 1] == x);
            assert(b.to_set().contains(x));
            assert(a.contains(x));
            let m = choose|m: int| 0 <= m < a.len() && a[m] == x;
            T::lemma_order(b[0], x, b[0]);
            assert(T::lt_view(b[0], b[k + 1]));
            if m == 0 {
                assert(false);
            }
            assert(a1[m - 1] == x);
        }
        assert(a1.to_set() =~= b1.to_set());
        lemma_sorted_unique::<T>(a1, b1);
        assert(a =~= seq![a[0]] + a1);
        assert(b =~= seq![b[0]] + b1);
    }
}

/// Inserts `x` into the strictly sorted vector `v` unless an equal value is
/// present, returning whether it was added.
pub fn sorted_insert<T: Ordered>(v: &mut Vec<T>, x: T) -> (added: bool)
    requires
        sorted_views(old(v)@),
    ensures
        sorted_views(final(v)@),
        views(final(v)@).to_set() == views(old(v)@).to_set().insert(x@),
        added == !views(old(v)@).contains(x@),
        added ==> final(v)@.len() == old(v)@.len() + 1,
        !added ==> final(v)@ == old(v)@,
{
    let ghost xv = x@;
    let mut p: usize = 0;
    while p < v.len() && v[p].compare(&x) < 0
        invariant
            0 <= p <= v@.len(),
            xv == x@,
            forall|k: int| 0 <= k < p ==> T::lt_view(#[trigger] v@[k]@, xv),
        decreases v@.len() - p,
    {
        p = p + 1;
    }
    let ghost before = v@;
    if p < v.len() && v[p].compare(&x) == 0 {
        proof {
            assert(views(before)[p as int] == xv);
            assert(views(before).contains(xv));
            assert(views(before).to_set().insert(xv) =~= views(before).to_set());
        }
        return false;
    }
    proof {
        assert forall|k: int| p <= k < before.len() implies T::lt_view(xv, #[trigger] before[k]@) by {
            T::lemma_order(before[p as int]@, xv, before[k]@);
            T::lemma_order(xv, before[p as int]@, before[k]@);
            if k > p {
                assert(T::lt_view(before[p as int]@, before[k]@));
            }
        }
        assert forall|k: int| 0 <= k < before.len() implies before[k]@ != xv by {
            T::lemma_order(xv, xv, xv);
        }
    }
    v.insert(p, x);
    proof {
        assert forall|i: int, j: int| 0 <= i < j < v@.len() implies T::lt_view(
            #[trigger] v@[i]@,
            #[trigger] v@[j]@,
        ) by {
            if j < p {
                assert(v@[i] == before[i] && v@[j] == before[j]);
            } else if j == p {
                assert(v@[i] == before[i]);
            } else if i == p {
                assert(v@[j] == before[j - 1]);
            } else if i < p {
                assert(v@[i] == before[i] && v@[j] == before[j - 1]);
                T::lemma_order(before[i]@, xv, before[j - 1]@);
            } else {
                assert(v@[i] == before[i - 1] && v@[j] == before[j - 1]);
            }
        }
        assert(!views(before).contains(xv)) by {
            if views(before).contains(xv) {
                let k = choose|k: int| 0 <= k < views(before).len() && views(before)[k] == xv;
                assert(before[k]@ == xv);
            }
        }
        assert forall|y: T::V| #[trigger] views(v@).to_set().contains(y) == views(
            before,
        ).to_set().insert(xv).contains(y) by {
            if views(v@).to_set().contains(y) {
                let k = choose|k: int| 0 <= k < views(v@).len() && views(v@)[k] == y;
                if k < p {
                    assert(views(before)[k] == y);
                } else if k > p {
                    assert(views(before)[k - 1] == y);
                }
            }
            if views(before).to_set().contains(y) {
                let k = choose|k: int| 0 <= k < views(before).len() && views(before)[k] == y;
                if k < p {
                    assert(views(v@)[k] == y);
                } else {
                    assert(views(v@)[k + 1] == y);
                }
            }
            if y == xv {
                assert(views(v@)[p as int] == y);
            }
        }
        assert(views(v@).to_set() =~= views(before).to_set().insert(xv));
    }
    true
}

} // verus!
