//! Sorting by insertion: items in order, and items of the same rank in the
//! order in which they came.

use crate::data::Duplicate;
use crate::text::{le_str, text_le, text_le_total, text_le_transitive};
use vstd::prelude::*;
use vstd::string::*;

verus! {

/// Items that can be ranked: of any two, one ranks no higher than the other.
pub trait Ranked: Duplicate {
    /// Whether `a` ranks no higher than `b`.
    spec fn ranks_le(a: Self::V, b: Self::V) -> bool;

    /// Whether this item ranks no higher than another.
    fn is_le(&self, other: &Self) -> (r: bool)
        ensures
            r == Self::ranks_le(self.deep_view(), other.deep_view()),
    ;

    /// Of any two items one ranks no higher than the other.
    proof fn le_total(a: Self::V, b: Self::V)
        ensures
            Self::ranks_le(a, b) || Self::ranks_le(b, a),
    ;

    /// Ranks are transitive.
    proof fn le_transitive(a: Self::V, b: Self::V, c: Self::V)
        requires
            Self::ranks_le(a, b),
            Self::ranks_le(b, c),
        ensures
            Self::ranks_le(a, c),
    ;
}

impl Ranked for String {
    open spec fn ranks_le(a: Seq<char>, b: Seq<char>) -> bool {
        text_le(a, b)
    }

    fn is_le(&self, other: &Self) -> (r: bool) {
        le_str(self.as_str(), other.as_str())
    }

    proof fn le_total(a: Seq<char>, b: Seq<char>) {
        text_le_total(a, b);
    }

    proof fn le_transitive(a: Seq<char>, b: Seq<char>, c: Seq<char>) {
        text_le_transitive(a, b, c);
    }
}

/// `s` with `x` put behind every item at the end that does not rank above
/// it.
pub open spec fn inserted<T: Ranked>(s: Seq<T::V>, x: T::V) -> Seq<T::V>
    decreases s.len(),
{
    if s.len() == 0 {
        seq![x]
    } else if T::ranks_le(s.last(), x) {
        s.push(x)
    } else {
        inserted::<T>(s.drop_last(), x).push(s.last())
    }
}

/// The items of `s` in order; those of the same rank keep theirs.
pub open spec fn sorted<T: Ranked>(s: Seq<T::V>) -> Seq<T::V>
    decreases s.len(),
{
    if s.len() == 0 {
        Seq::empty()
    } else {
        inserted::<T>(sorted::<T>(s.drop_last()), s.last())
    }
}

/// Whether no item ranks above a later one.
pub open spec fn is_sorted<T: Ranked>(s: Seq<T::V>) -> bool {
    forall|i: int, j: int| 0 <= i < j < s.len() ==> T::ranks_le(#[trigger] s[i], #[trigger] s[j])
}

proof fn inserted_at<T: Ranked>(s: Seq<T::V>, x: T::V, n: int)
    requires
        0 <= n <= s.len(),
        n > 0 ==> T::ranks_le(s[n - 1], x),
        forall|k: int| n <= k < s.len() ==> !T::ranks_le(#[trigger] s[k], x),
    ensures
        inserted::<T>(s, x) == s.insert(n, x),
    decreases s.len(),
{
    if s.len() == 0 {
        assert(inserted::<T>(s, x) =~= s.insert(n, x));
    } else if n == s.len() {
        assert(inserted::<T>(s, x) =~= s.insert(n, x));
    } else {
        inserted_at::<T>(s.drop_last(), x, n);
        assert(inserted::<T>(s, x) =~= s.insert(n, x));
    }
}

proof fn inserted_sorted<T: Ranked>(s: Seq<T::V>, x: T::V)
    requires
        is_sorted::<T>(s),
    ensures
        is_sorted::<T>(inserted::<T>(s, x)),
        inserted::<T>(s, x).to_multiset() == s.to_multiset().insert(x),
        forall|k: int|
            0 <= k < inserted::<T>(s, x).len() ==> #[trigger] inserted::<T>(s, x)[k] == x
                || s.contains(inserted::<T>(s, x)[k]),
    decreases s.len(),
{
    broadcast use vstd::seq_lib::group_to_multiset_ensures;

    let r = inserted::<T>(s, x);
    if s.len() == 0 {
        assert(seq![x] =~= Seq::<T::V>::empty().push(x));
        assert(s =~= Seq::empty());
    } else if T::ranks_le(s.last(), x) {
        assert forall|i: int, j: int| 0 <= i < j < r.len() implies T::ranks_le(
            #[trigger] r[i],
            #[trigger] r[j],
        ) by {
            if j == s.len() && i < s.len() - 1 {
                T::le_transitive(s[i], s.last(), x);
            }
        }
        assert forall|k: int| 0 <= k < r.len() implies #[trigger] r[k] == x || s.contains(r[k]) by {
            if k < s.len() {
                assert(s[k] == r[k]);
            }
        }
    } else {
        let before = s.drop_last();
        inserted_sorted::<T>(before, x);
        let head = inserted::<T>(before, x);
        T::le_total(s.last(), x);
        assert forall|i: int, j: int| 0 <= i < j < r.len() implies T::ranks_le(
            #[trigger] r[i],
            #[trigger] r[j],
        ) by {
            if j < head.len() {
                assert(T::ranks_le(head[i], head[j]));
            } else {
                assert(head[i] == x || before.contains(head[i]));
                if head[i] != x {
                    let k = before.index_of(head[i]);
                    assert(T::ranks_le(s[k], s[s.len() - 1]));
                }
            }
        }
        assert forall|k: int| 0 <= k < r.len() implies #[trigger] r[k] == x || s.contains(r[k]) by {
            if k < head.len() {
                if head[k] != x {
                    let m = before.index_of(head[k]);
                    assert(s[m] == r[k]);
                }
            } else {
                assert(r[k] == s[s.len() - 1]);
            }
        }
        assert(s =~= before.push(s.last()));
        assert(r.to_multiset() =~= s.to_multiset().insert(x));
    }
}

/// Sorting puts the same items in order.
pub proof fn sorted_is_sorted<T: Ranked>(s: Seq<T::V>)
    ensures
        is_sorted::<T>(sorted::<T>(s)),
        sorted::<T>(s).to_multiset() == s.to_multiset(),
        sorted::<T>(s).len() == s.len(),
    decreases s.len(),
{
    broadcast use vstd::seq_lib::group_to_multiset_ensures;

    if s.len() > 0 {
        sorted_is_sorted::<T>(s.drop_last());
        inserted_sorted::<T>(sorted::<T>(s.drop_last()), s.last());
        assert(s =~= s.drop_last().push(s.last()));
    } else {
        assert(s =~= Seq::empty());
    }
    assert(sorted::<T>(s).to_multiset().len() == s.to_multiset().len());
}

/// Sorts items; those of the same rank keep their order.
pub fn sort<T: Ranked>(items: &Vec<T>) -> (r: Vec<T>)
    ensures
        r.deep_view() == sorted::<T>(items.deep_view()),
{
    let ghost all = items.deep_view();
    let mut out: Vec<T> = Vec::new();
    let mut i: usize = 0;
    assert(out.deep_view() =~= sorted::<T>(all.take(0)));
    while i < items.len()
        invariant
            i <= items.len(),
            all == items.deep_view(),
            out.deep_view() == sorted::<T>(all.take(i as int)),
        decreases items.len() - i,
    {
        assert(all.take(i + 1).drop_last() =~= all.take(i as int));
        assert(all.take(i + 1).last() == items@[i as int].deep_view());
        let item = items[i].duplicate();
        let ghost before = out.deep_view();
        let ghost x = item.deep_view();
        let mut n: usize = out.len();
        while n > 0 && !out[n - 1].is_le(&item)
            invariant
                n <= out.len(),
                before == out.deep_view(),
                x == item.deep_view(),
                forall|k: int| n <= k < before.len() ==> !T::ranks_le(#[trigger] before[k], x),
            decreases n,
        {
            assert(before[n - 1] == out@[n - 1].deep_view());
            n -= 1;
        }
        proof {
            if n > 0 {
                assert(before[n - 1] == out@[n - 1].deep_view());
            }
            inserted_at::<T>(before, x, n as int);
        }
        let ghost held = out@;
        out.insert(n, item);
        assert(out.deep_view() =~= before.insert(n as int, x));
        i += 1;
    }
    assert(all.take(i as int) =~= all);
    out
}

/// Sorting one more item puts it behind those that do not rank above it and
/// before those that do, and leaves them as they were. So items of the same
/// rank keep their order.
pub proof fn one_more_item_goes_behind_its_equals<T: Ranked>(s: Seq<T::V>, x: T::V)
    ensures
        exists|n: int|
            #![trigger sorted::<T>(s).insert(n, x)]
            0 <= n <= s.len() && sorted::<T>(s.push(x)) == sorted::<T>(s).insert(n, x) && (forall|
                k: int,
            |
                0 <= k < n ==> T::ranks_le(#[trigger] sorted::<T>(s)[k], x)) && (forall|k: int|
                n <= k < s.len() ==> !T::ranks_le(#[trigger] sorted::<T>(s)[k], x)),
{
    assert(s.push(x).drop_last() =~= s);
    sorted_is_sorted::<T>(s);
    let before = sorted::<T>(s);
    let n = place_of::<T>(before, x);
    inserted_at::<T>(before, x, n);
    assert(sorted::<T>(s.push(x)) == before.insert(n, x));
}

proof fn place_of<T: Ranked>(s: Seq<T::V>, x: T::V) -> (n: int)
    requires
        is_sorted::<T>(s),
    ensures
        0 <= n <= s.len(),
        forall|k: int| 0 <= k < n ==> T::ranks_le(#[trigger] s[k], x),
        forall|k: int| n <= k < s.len() ==> !T::ranks_le(#[trigger] s[k], x),
    decreases s.len(),
{
    if s.len() == 0 {
        0
    } else if T::ranks_le(s.last(), x) {
        assert forall|k: int| 0 <= k < s.len() implies T::ranks_le(#[trigger] s[k], x) by {
            if k < s.len() - 1 {
                T::le_transitive(s[k], s[s.len() - 1], x);
            }
        }
        s.len() as int
    } else {
        let front = s.drop_last();
        assert(is_sorted::<T>(front)) by {
            assert forall|i: int, j: int| 0 <= i < j < front.len() implies T::ranks_le(
                #[trigger] front[i],
                #[trigger] front[j],
            ) by {
                assert(T::ranks_le(s[i], s[j]));
            }
        }
        let n = place_of::<T>(front, x);
        assert forall|k: int| 0 <= k < n implies T::ranks_le(#[trigger] s[k], x) by {
            assert(s[k] == front[k]);
        }
        assert forall|k: int| n <= k < s.len() implies !T::ranks_le(#[trigger] s[k], x) by {
            if k < front.len() {
                assert(s[k] == front[k]);
            }
        }
        n
    }
}

} // verus!
