//! Copies of values, equal to what they were made from as far as their
//! deep views tell.

use vstd::prelude::*;
use vstd::string::*;

verus! {

/// A value that can be copied piece by piece.
pub trait Duplicate: DeepView + Sized {
    /// A copy with the same deep view.
    fn duplicate(&self) -> (r: Self)
        ensures
            r.deep_view() == self.deep_view(),
    ;
}

impl Duplicate for String {
    fn duplicate(&self) -> (r: Self) {
        self.clone()
    }
}

impl Duplicate for u64 {
    fn duplicate(&self) -> (r: Self) {
        *self
    }
}

impl<T: Duplicate> Duplicate for Option<T> {
    fn duplicate(&self) -> (r: Self) {
        match self {
            Some(value) => Some(value.duplicate()),
            None => None,
        }
    }
}

impl<T: Duplicate> Duplicate for Vec<T> {
    fn duplicate(&self) -> (r: Self) {
        let mut out: Vec<T> = Vec::new();
        let mut i: usize = 0;
        while i < self.len()
            invariant
                i <= self.len(),
                out.deep_view() == self.deep_view().take(i as int),
            decreases self.len() - i,
        {
            let item = self[i].duplicate();
            let ghost done = out.deep_view();
            out.push(item);
            i += 1;
            assert(out.deep_view() =~= done.push(item.deep_view()));
            assert(self.deep_view()[i - 1] == self@[i - 1].deep_view());
            assert(out.deep_view() =~= self.deep_view().take(i as int));
        }
        assert(self.deep_view().take(i as int) =~= self.deep_view());
        out
    }
}

/// The views of a slice's items.
pub open spec fn views<T: DeepView>(s: Seq<T>) -> Seq<T::V> {
    Seq::new(s.len(), |i: int| s[i].deep_view())
}

/// Appends a copy of each item of a slice.
pub fn append_all<T: Duplicate>(out: &mut Vec<T>, s: &[T])
    ensures
        final(out).deep_view() == old(out).deep_view() + views(s@),
{
    let ghost before = out.deep_view();
    let mut i: usize = 0;
    assert(out.deep_view() =~= before + views(s@).take(0));
    while i < s.len()
        invariant
            i <= s.len(),
            out.deep_view() == before + views(s@).take(i as int),
        decreases s.len() - i,
    {
        let item = s[i].duplicate();
        let ghost done = out.deep_view();
        out.push(item);
        i += 1;
        assert(out.deep_view() =~= done.push(item.deep_view()));
        assert(views(s@)[i - 1] == s@[i - 1].deep_view());
        assert(out.deep_view() =~= before + views(s@).take(i as int));
    }
    assert(views(s@).take(i as int) =~= views(s@));
}

} // verus!
