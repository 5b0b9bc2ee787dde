//! The two vector types and their operations.
use vstd::prelude::*;
use vstd::std_specs::cmp::PartialEqSpec;
use vstd::std_specs::iter::IteratorSpec;

use crate::model::{
    contains_eq,
    dedup_into,
    lemma_dedup_step,
    lemma_drop_last_keeps_unique,
    lemma_no_mutual_duplicates,
    lemma_push_keeps_unique,
    lemma_unique_is_fixed_point,
    push_model,
    split_by,
    unique_seq,
};

verus! {

/// A vector that holds only values which compare unequal, in insertion order.
///
/// Dereferences to a `Vec<T>` for reading; entries cannot be changed in place.
#[derive(Clone, Debug)]
pub struct UniqueVec<T>(Vec<T>);

/// The same vector for entry types whose `==` is an equivalence relation.
///
/// It dereferences mutably to the `UniqueVec` it wraps.
pub struct UniqueVecEq<T>(UniqueVec<T>);

impl<T> View for UniqueVec<T> {
    type V = Seq<T>;

    closed spec fn view(&self) -> Seq<T> {
        self.0@
    }
}

impl<T> View for UniqueVecEq<T> {
    type V = Seq<T>;

    closed spec fn view(&self) -> Seq<T> {
        self.0@
    }
}

impl<T: PartialEq> UniqueVec<T> {
    /// Whenever `==` on `T` behaves as its specification says, no stored value
    /// compares equal to a value stored after it.
    pub open spec fn wf(&self) -> bool {
        T::obeys_eq_spec() ==> unique_seq(self@)
    }

    /// An empty vector.
    pub fn new() -> (r: Self)
        ensures
            r@ == Seq::<T>::empty(),
            r.wf(),
    {
        UniqueVec(Vec::new())
    }

    /// Whether some stored value compares equal to `x`.
    fn holds(&self, x: &T) -> (r: bool)
        ensures
            T::obeys_eq_spec() ==> r == contains_eq(self@, *x),
    {
        let mut i: usize = 0;
        while i < self.0.len()
            invariant
                i <= self@.len(),
                T::obeys_eq_spec() ==> forall|k: int|
                    0 <= k < i ==> !(#[trigger] self@[k]).eq_spec(x),
            decreases self@.len() - i,
        {
            if self.0[i].eq(x) {
                assert(self@[i as int] == self.0@[i as int]);
                return true;
            }
            i = i + 1;
        }
        false
    }

    /// Builds a vector from `items` taken in order; the values that compare
    /// equal to one already taken are returned beside it, in order.
    pub fn from_iter(items: Vec<T>) -> (r: (Self, Vec<T>))
        ensures
            r.0.wf(),
            r.0@.len() + r.1@.len() == items@.len(),
            exists|keep: Seq<bool>|
                keep.len() == items@.len() && (r.0@, r.1@) == #[trigger] split_by(items@, keep) && (
                T::obeys_eq_spec() ==> forall|i: int|
                    0 <= i < keep.len() ==> (#[trigger] keep[i] <==> !contains_eq(
                        split_by(items@.take(i), keep.take(i)).0,
                        items@[i],
                    ))),
            T::obeys_eq_spec() ==> (r.0@, r.1@) == dedup_into(Seq::<T>::empty(), items@),
    {
        let mut u = Self::new();
        let ghost input = items@;
        let dups = u.extend_from_iter(items);
        proof {
            let keep = choose|keep: Seq<bool>|
                keep.len() == input.len() && u@ == Seq::<T>::empty() + split_by(input, keep).0
                    && dups@ == (#[trigger] split_by(input, keep)).1 && (T::obeys_eq_spec()
                    ==> forall|i: int|
                    0 <= i < keep.len() ==> (#[trigger] keep[i] <==> !contains_eq(
                        Seq::<T>::empty() + split_by(input.take(i), keep.take(i)).0,
                        input[i],
                    )));
            assert(Seq::<T>::empty() + split_by(input, keep).0 =~= split_by(input, keep).0);
            assert forall|i: int| 0 <= i < keep.len() implies Seq::<T>::empty() + split_by(
                input.take(i),
                keep.take(i),
            ).0 =~= split_by(input.take(i), keep.take(i)).0 by {}
        }
        (u, dups)
    }

    /// Appends `element` unless a stored value compares equal to it; in that
    /// case the vector is left as it is and `element` is handed back.
    pub fn push(&mut self, element: T) -> (r: Option<T>)
        requires
            old(self).wf(),
        ensures
            final(self).wf(),
            r is None ==> final(self)@ == old(self)@.push(element),
            r is Some ==> r == Some(element) && final(self)@ == old(self)@,
            T::obeys_eq_spec() ==> (final(self)@, r) == push_model(old(self)@, element),
    {
        if self.holds(&element) {
            Some(element)
        } else {
            proof {
                if T::obeys_eq_spec() {
                    lemma_push_keeps_unique(self@, element);
                }
            }
            self.0.push(element);
            None
        }
    }

    /// Removes every value.
    pub fn clear(&mut self)
        ensures
            final(self)@ == Seq::<T>::empty(),
            final(self).wf(),
    {
        self.0.clear();
    }

    /// Removes and returns the last value, or returns `None` when empty.
    pub fn pop(&mut self) -> (r: Option<T>)
        requires
            old(self).wf(),
        ensures
            final(self).wf(),
            old(self)@.len() == 0 ==> r is None && final(self)@ == old(self)@,
            old(self)@.len() > 0 ==> r == Some(old(self)@.last()) && final(self)@ == old(
                self,
            )@.drop_last(),
    {
        proof {
            if T::obeys_eq_spec() && self@.len() > 0 {
                lemma_drop_last_keeps_unique(self@);
            }
        }
        self.0.pop()
    }

    /// Inserts the values of `items` in order, each checked against the values
    /// stored so far, those of `items` accepted before it included. Returns the
    /// values that were not stored, in order.
    pub fn extend_from_iter(&mut self, items: Vec<T>) -> (r: Vec<T>)
        requires
            old(self).wf(),
        ensures
            final(self).wf(),
            final(self)@.len() + r@.len() == old(self)@.len() + items@.len(),
            exists|keep: Seq<bool>|
                keep.len() == items@.len() && final(self)@ == old(self)@ + split_by(items@, keep).0
                    && r@ == (#[trigger] split_by(items@, keep)).1 && (T::obeys_eq_spec()
                    ==> forall|i: int|
                    0 <= i < keep.len() ==> (#[trigger] keep[i] <==> !contains_eq(
                        old(self)@ + split_by(items@.take(i), keep.take(i)).0,
                        items@[i],
                    ))),
            T::obeys_eq_spec() ==> (final(self)@, r@) == dedup_into(old(self)@, items@),
    {
        let ghost start = self@;
        let ghost input = items@;
        let mut pending = items;
        let mut stack: Vec<T> = Vec::new();
        while pending.len() > 0
            invariant
                pending@.len() + stack@.len() == input.len(),
                forall|k: int| 0 <= k < pending@.len() ==> #[trigger] pending@[k] == input[k],
                forall|k: int|
                    0 <= k < stack@.len() ==> #[trigger] stack@[k] == input[input.len() - 1 - k],
            decreases pending@.len(),
        {
            let x = pending.pop().unwrap();
            stack.push(x);
        }
        let mut dups: Vec<T> = Vec::new();
        let ghost mut keep: Seq<bool> = Seq::empty();
        proof {
            assert(start + Seq::<T>::empty() =~= start);
        }
        while stack.len() > 0
            invariant
                stack@.len() <= input.len(),
                forall|k: int|
                    0 <= k < stack@.len() ==> #[trigger] stack@[k] == input[input.len() - 1 - k],
                self.wf(),
                self@.len() + dups@.len() == start.len() + input.len() - stack@.len(),
                keep.len() == input.len() - stack@.len(),
                self@ == start + split_by(input.take(keep.len() as int), keep).0,
                dups@ == split_by(input.take(keep.len() as int), keep).1,
                T::obeys_eq_spec() ==> forall|i: int|
                    0 <= i < keep.len() ==> (#[trigger] keep[i] <==> !contains_eq(
                        start + split_by(input.take(i), keep.take(i)).0,
                        input[i],
                    )),
                T::obeys_eq_spec() ==> (self@, dups@) == dedup_into(
                    start,
                    input.take(input.len() - stack@.len()),
                ),
            decreases stack@.len(),
        {
            let ghost n = input.len() - stack@.len();
            let x = stack.pop().unwrap();
            proof {
                assert(x == input[n]);
                assert(input.take(n + 1) =~= input.take(n).push(x));
                lemma_dedup_step(start, input.take(n), x);
            }
            let ghost before = self@;
            let back = self.push(x);
            proof {
                let next = keep.push(back is None);
                let t = input.take(n + 1);
                assert(t.drop_last() =~= input.take(n));
                assert(next.drop_last() =~= keep);
                assert(t.last() == x);
                assert(next.take(n) =~= keep);
                assert forall|i: int| 0 <= i < n implies next.take(i) =~= keep.take(i) by {}
                assert(input.take(n) =~= input.take(n).take(n));
                if back is None {
                    let kept = split_by(input.take(n), keep).0;
                    assert(before == start + kept);
                    assert((start + kept).push(x) =~= start + kept.push(x));
                }
                keep = next;
            }
            match back {
                Some(y) => dups.push(y),
                None => {},
            }
        }
        proof {
            assert(input.take(input.len() as int) =~= input);
            assert(keep.len() == input.len());
        }
        dups
    }
}

/// In every well-formed vector, where `==` on `T` behaves as its
/// specification says, no two distinct positions hold values that compare
/// equal each to the other.
pub proof fn lemma_unique_vec_no_duplicates<T: PartialEq>(u: &UniqueVec<T>)
    requires
        u.wf(),
        T::obeys_eq_spec(),
    ensures
        forall|i: int, j: int|
            0 <= i < u@.len() && 0 <= j < u@.len() && i != j ==> !(#[trigger] u@[i].eq_spec(&u@[j])
                && #[trigger] u@[j].eq_spec(&u@[i])),
{
    lemma_no_mutual_duplicates(u@);
}

/// A well-formed vector, where `==` on `T` behaves as its specification
/// says, is its own result when inserted value by value into an empty one:
/// nothing is handed back.
pub proof fn lemma_unique_vec_round_trip<T: PartialEq>(u: &UniqueVec<T>)
    requires
        u.wf(),
        T::obeys_eq_spec(),
    ensures
        dedup_into(Seq::<T>::empty(), u@) == (u@, Seq::<T>::empty()),
{
    lemma_unique_is_fixed_point(u@);
}

impl<T: Eq> UniqueVecEq<T> {
    /// Whenever `==` on `T` behaves as its specification says, no stored value
    /// compares equal to a value stored after it.
    pub open spec fn wf(&self) -> bool {
        T::obeys_eq_spec() ==> unique_seq(self@)
    }
}

impl<T> core::ops::Deref for UniqueVec<T> {
    type Target = Vec<T>;

    fn deref(&self) -> (r: &Vec<T>)
        ensures
            r@ == self@,
    {
        &self.0
    }
}

impl<T> IntoIterator for UniqueVec<T> {
    type Item = T;

    type IntoIter = std::vec::IntoIter<T>;

    fn into_iter(self) -> (r: std::vec::IntoIter<T>)
        ensures
            r.remaining() == self@,
    {
        proof {
            vstd::std_specs::vec::axiom_spec_into_iter(self.0);
        }
        self.0.into_iter()
    }
}

impl<T: Eq> core::ops::Deref for UniqueVecEq<T> {
    type Target = UniqueVec<T>;

    fn deref(&self) -> (r: &UniqueVec<T>)
        ensures
            r@ == self@,
            self.wf() ==> r.wf(),
    {
        &self.0
    }
}

impl<T: Eq> core::ops::DerefMut for UniqueVecEq<T> {
    fn deref_mut(&mut self) -> (r: &mut UniqueVec<T>)
        ensures
            r@ == old(self)@,
            old(self).wf() ==> r.wf(),
            final(self)@ == final(r)@,
    {
        &mut self.0
    }
}

impl<T: Eq> From<UniqueVecEq<T>> for UniqueVec<T> {
    fn from(value: UniqueVecEq<T>) -> (r: UniqueVec<T>)
        ensures
            r@ == value@,
            value.wf() ==> r.wf(),
    {
        value.0
    }
}

impl<T: Eq> vstd::std_specs::convert::FromSpecImpl<UniqueVecEq<T>> for UniqueVec<T> {
    open spec fn obeys_from_spec() -> bool {
        true
    }

    closed spec fn from_spec(v: UniqueVecEq<T>) -> UniqueVec<T> {
        v.0
    }
}

impl<T: Eq> From<UniqueVec<T>> for UniqueVecEq<T> {
    fn from(value: UniqueVec<T>) -> (r: UniqueVecEq<T>)
        ensures
            r@ == value@,
            value.wf() ==> r.wf(),
    {
        UniqueVecEq(value)
    }
}

impl<T: Eq> vstd::std_specs::convert::FromSpecImpl<UniqueVec<T>> for UniqueVecEq<T> {
    open spec fn obeys_from_spec() -> bool {
        true
    }

    closed spec fn from_spec(v: UniqueVec<T>) -> UniqueVecEq<T> {
        UniqueVecEq(v)
    }
}

/// Keeps the values of the vector that no earlier kept value equals, as
/// `UniqueVec::from_iter` does, and drops the others.
impl<T: PartialEq> From<Vec<T>> for UniqueVec<T> {
    fn from(value: Vec<T>) -> (r: UniqueVec<T>)
        ensures
            r.wf(),
            exists|keep: Seq<bool>|
                keep.len() == value@.len() && r@ == (#[trigger] split_by(value@, keep)).0,
            T::obeys_eq_spec() ==> r@ == dedup_into(Seq::<T>::empty(), value@).0,
    {
        UniqueVec::from_iter(value).0
    }
}

impl<T: PartialEq> vstd::std_specs::convert::FromSpecImpl<Vec<T>> for UniqueVec<T> {
    /// The result is only pinned down by its view, so no single value is
    /// named for it.
    open spec fn obeys_from_spec() -> bool {
        false
    }

    closed spec fn from_spec(v: Vec<T>) -> UniqueVec<T> {
        choose|u: UniqueVec<T>| u@ == dedup_into(Seq::<T>::empty(), v@).0
    }
}

/// Wraps the result of `UniqueVec::from` for the vector.
impl<T: Eq> From<Vec<T>> for UniqueVecEq<T> {
    fn from(value: Vec<T>) -> (r: UniqueVecEq<T>)
        ensures
            r.wf(),
            exists|keep: Seq<bool>|
                keep.len() == value@.len() && r@ == (#[trigger] split_by(value@, keep)).0,
            T::obeys_eq_spec() ==> r@ == dedup_into(Seq::<T>::empty(), value@).0,
    {
        UniqueVecEq(UniqueVec::from(value))
    }
}

impl<T: Eq> vstd::std_specs::convert::FromSpecImpl<Vec<T>> for UniqueVecEq<T> {
    /// The result is only pinned down by its view, so no single value is
    /// named for it.
    open spec fn obeys_from_spec() -> bool {
        false
    }

    closed spec fn from_spec(v: Vec<T>) -> UniqueVecEq<T> {
        choose|u: UniqueVecEq<T>| u@ == dedup_into(Seq::<T>::empty(), v@).0
    }
}

} // verus!
