//! A bounded, array-backed LIFO stack. Elements live in a contiguous
//! prefix of `MAX_SIZE` storage slots; the slots past the current size are
//! always empty. Overflowing the capacity is a contract violation, so
//! `push` demands free space from its caller instead of returning an
//! error.

use vstd::pervasive::cloned;
use vstd::pervasive::unreached;
use vstd::prelude::*;
use vstd::std_specs::cmp::PartialEqSpec;

verus! {

/// A stack of at most `MAX_SIZE` elements of type `T`.
///
/// The abstract value of a stack is the sequence of its live elements in
/// index order (bottom first); `push` appends at the end, `pop` removes
/// from the end.
pub struct StackVector<T, const MAX_SIZE: usize> {
    data: Vec<Option<T>>,
    size: usize,
}

impl<T, const MAX_SIZE: usize> View for StackVector<T, MAX_SIZE> {
    type V = Seq<T>;

    /// The live elements, bottom of the stack first.
    closed spec fn view(&self) -> Seq<T> {
        Seq::new(self.size as nat, |i: int| self.data@[i]->0)
    }
}

impl<T, const MAX_SIZE: usize> StackVector<T, MAX_SIZE> {
    /// Well-formedness: exactly `MAX_SIZE` slots, the first `size` of them
    /// live, all the others empty.
    pub closed spec fn wf(&self) -> bool {
        &&& self.data@.len() == MAX_SIZE
        &&& self.size <= MAX_SIZE
        &&& forall|i: int| 0 <= i < self.size ==> self.data@[i] is Some
        &&& forall|i: int| self.size <= i < MAX_SIZE ==> self.data@[i] is None
    }

    /// Creates an empty stack with all `MAX_SIZE` slots empty.
    pub fn new() -> (s: Self)
        ensures
            s.wf(),
            s@ == Seq::<T>::empty(),
    {
        let mut data: Vec<Option<T>> = Vec::new();
        let mut i: usize = 0;
        while i < MAX_SIZE
            invariant
                i <= MAX_SIZE,
                data@.len() == i,
                forall|j: int| 0 <= j < i ==> data@[j] is None,
            decreases MAX_SIZE - i,
        {
            data.push(None);
            i += 1;
        }
        let s = StackVector { data, size: 0 };
        proof {
            assert(s@ =~= Seq::<T>::empty());
        }
        s
    }

    /// Number of live elements.
    pub fn len(&self) -> (n: usize)
        requires
            self.wf(),
        ensures
            n == self@.len(),
    {
        self.size
    }

    /// True iff the stack holds no element.
    pub fn is_empty(&self) -> (b: bool)
        requires
            self.wf(),
        ensures
            b == (self@.len() == 0),
    {
        self.size == 0
    }

    /// Pushes `value` on top of the stack. Calling this on a full stack is
    /// a contract violation, so space is required rather than checked.
    pub fn push(&mut self, value: T)
        requires
            old(self).wf(),
            old(self)@.len() < MAX_SIZE,
        ensures
            final(self).wf(),
            final(self)@ == old(self)@.push(value),
    {
        self.data[self.size] = Some(value);
        self.size += 1;
        proof {
            assert(self@ =~= old(self)@.push(value));
        }
    }

    /// Removes and returns the top element, or `None` on an empty stack.
    pub fn pop(&mut self) -> (r: Option<T>)
        requires
            old(self).wf(),
        ensures
            final(self).wf(),
            old(self)@.len() == 0 ==> r is None && final(self)@ == old(self)@,
            old(self)@.len() > 0 ==> r == Some(old(self)@.last()) && final(self)@
                == old(self)@.drop_last(),
    {
        if self.size == 0 {
            None
        } else {
            self.size = self.size - 1;
            let slot = &mut self.data[self.size];
            let r = slot.take();
            proof {
                assert(self@ =~= old(self)@.drop_last());
            }
            r
        }
    }

    /// True iff the stack holds `MAX_SIZE` elements.
    pub fn is_full(&self) -> (b: bool)
        requires
            self.wf(),
        ensures
            b == (self@.len() == MAX_SIZE),
    {
        self.size == MAX_SIZE
    }

    /// Destroys every live element and leaves the stack empty; capacity
    /// and storage are kept for reuse.
    pub fn clear(&mut self)
        requires
            old(self).wf(),
        ensures
            final(self).wf(),
            final(self)@ == Seq::<T>::empty(),
    {
        while self.size > 0
            invariant
                self.wf(),
            decreases self.size,
        {
            let ghost prev: nat = self@.len();
            let _ = self.pop();
            proof {
                assert(self@.len() < prev);
            }
        }
        proof {
            assert(self@ =~= Seq::<T>::empty());
        }
    }

    /// Shared access to the element `index` places from the bottom of the
    /// stack. An out-of-range index is a contract violation, so validity
    /// is required rather than checked.
    pub fn get(&self, index: usize) -> (r: &T)
        requires
            self.wf(),
            index < self@.len(),
        ensures
            *r == self@[index as int],
    {
        self.data[index].as_ref().unwrap()
    }

    /// Mutable access to the element `index` places from the bottom of
    /// the stack. An out-of-range index is a contract violation, so
    /// validity is required rather than checked.
    pub fn get_mut(&mut self, index: usize) -> (r: &mut T)
        requires
            old(self).wf(),
            index < old(self)@.len(),
        ensures
            *r == old(self)@[index as int],
            final(self).wf(),
            final(self)@ =~= old(self)@.update(index as int, *final(r)),
    {
        let slot = &mut self.data[index];
        match slot.as_mut() {
            Some(x) => x,
            None => unreached(),
        }
    }

    /// Mutable traversal in forward index order, surfaced as access by
    /// position: `pos` places from the bottom of the stack.
    pub fn iter_mut(&mut self, pos: usize) -> (r: &mut T)
        requires
            old(self).wf(),
            pos < old(self)@.len(),
        ensures
            *r == old(self)@[pos as int],
            final(self).wf(),
            final(self)@ =~= old(self)@.update(pos as int, *final(r)),
    {
        self.get_mut(pos)
    }

    /// Mutable traversal in reverse index order, surfaced as access by
    /// position: `pos` places from the top of the stack.
    pub fn iter_mut_rev(&mut self, pos: usize) -> (r: &mut T)
        requires
            old(self).wf(),
            pos < old(self)@.len(),
        ensures
            *r == old(self)@[old(self)@.len() - 1 - pos],
            final(self).wf(),
            final(self)@ =~= old(self)@.update(old(self)@.len() - 1 - pos, *final(r)),
    {
        self.get_mut(self.size - 1 - pos)
    }

    /// Hands the stack over to a consuming traversal that yields each
    /// live element by value, bottom first. The stack itself is gone
    /// afterwards.
    pub fn into_iter(self) -> (it: StackVectorIntoIterator<T, MAX_SIZE>)
        requires
            self.wf(),
        ensures
            it.wf(),
            it@ == self@,
    {
        let it = StackVectorIntoIterator { vector: self, index: 0 };
        proof {
            assert(it@ =~= self@);
        }
        it
    }
}

impl<T: Clone, const MAX_SIZE: usize> StackVector<T, MAX_SIZE> {
    /// A snapshot of the live elements in forward index order, each
    /// obtained through `T::clone`; empty slots are never read.
    pub fn iter(&self) -> (r: Vec<T>)
        requires
            self.wf(),
        ensures
            r@.len() == self@.len(),
            forall|i: int| 0 <= i < self@.len() ==> cloned::<T>(self@[i], #[trigger] r@[i]),
    {
        let mut out: Vec<T> = Vec::new();
        let mut i: usize = 0;
        while i < self.size
            invariant
                self.wf(),
                i <= self.size,
                out@.len() == i,
                forall|j: int| 0 <= j < i ==> cloned::<T>(self@[j], #[trigger] out@[j]),
            decreases self.size - i,
        {
            out.push(self.data[i].as_ref().unwrap().clone());
            i += 1;
        }
        out
    }

    /// A snapshot of the live elements in reverse index order (top of the
    /// stack first), each obtained through `T::clone`.
    pub fn iter_rev(&self) -> (r: Vec<T>)
        requires
            self.wf(),
        ensures
            r@.len() == self@.len(),
            forall|i: int|
                0 <= i < self@.len() ==> cloned::<T>(self@[self@.len() - 1 - i], #[trigger] r@[i]),
    {
        let mut out: Vec<T> = Vec::new();
        let mut i: usize = 0;
        while i < self.size
            invariant
                self.wf(),
                i <= self.size,
                out@.len() == i,
                forall|j: int|
                    0 <= j < i ==> cloned::<T>(self@[self@.len() - 1 - j], #[trigger] out@[j]),
            decreases self.size - i,
        {
            out.push(self.data[self.size - 1 - i].as_ref().unwrap().clone());
            i += 1;
        }
        out
    }
}

impl<T: Clone, const MAX_SIZE: usize> Clone for StackVector<T, MAX_SIZE> {
    /// Deep copy: an independent stack whose live elements are each
    /// obtained through `T::clone`; empty slots are never read.
    fn clone(&self) -> (res: Self)
        ensures
            self.wf() ==> res.wf() && res@.len() == self@.len() && (forall|i: int|
                0 <= i < self@.len() ==> cloned::<T>(self@[i], #[trigger] res@[i])),
    {
        let mut data: Vec<Option<T>> = Vec::new();
        let mut i: usize = 0;
        while i < self.data.len()
            invariant
                i <= self.data@.len(),
                data@.len() == i,
                forall|j: int|
                    0 <= j < i ==> ((#[trigger] data@[j]) is Some <==> self.data@[j] is Some),
                forall|j: int|
                    0 <= j < i && self.data@[j] is Some ==> cloned::<T>(
                        self.data@[j]->0,
                        (#[trigger] data@[j])->0,
                    ),
            decreases self.data@.len() - i,
        {
            match self.data[i].as_ref() {
                Some(x) => {
                    let c = x.clone();
                    data.push(Some(c));
                },
                None => {
                    data.push(None);
                },
            }
            i += 1;
        }
        StackVector { data, size: self.size }
    }
}

impl<T: PartialEq, const MAX_SIZE: usize> StackVector<T, MAX_SIZE> {
    /// Equality of stacks: equal lengths and pairwise-equal forward
    /// sequences of live elements, decided through `T::eq`.
    pub fn eq(&self, other: &Self) -> (r: bool)
        requires
            self.wf(),
            other.wf(),
        ensures
            T::obeys_eq_spec() ==> r == (self@.len() == other@.len() && (forall|i: int|
                0 <= i < self@.len() ==> self@[i].eq_spec(&other@[i]))),
    {
        if self.size != other.size {
            return false;
        }
        let mut i: usize = 0;
        while i < self.size
            invariant
                self.wf(),
                other.wf(),
                self.size == other.size,
                i <= self.size,
                T::obeys_eq_spec() ==> forall|j: int|
                    0 <= j < i ==> #[trigger] self@[j].eq_spec(&other@[j]),
            decreases self.size - i,
        {
            let a = self.data[i].as_ref().unwrap();
            let b = other.data[i].as_ref().unwrap();
            if !a.eq(b) {
                proof {
                    if T::obeys_eq_spec() {
                        assert(!self@[i as int].eq_spec(&other@[i as int]));
                    }
                }
                return false;
            }
            i += 1;
        }
        true
    }
}

impl<T, const MAX_SIZE: usize> Default for StackVector<T, MAX_SIZE> {
    /// An empty stack, the same value `new` returns.
    fn default() -> (s: Self)
        ensures
            s.wf(),
            s@ == Seq::<T>::empty(),
    {
        Self::new()
    }
}

/// The values that successive `pop` calls return from a stack whose live
/// sequence is `s`: the top element first, then the pops of what is left
/// below it.
pub open spec fn pop_order<T>(s: Seq<T>) -> Seq<T>
    decreases s.len(),
{
    if s.len() == 0 {
        Seq::empty()
    } else {
        seq![s.last()] + pop_order(s.drop_last())
    }
}

/// The stack's sequence after pushing the values of `s` in order onto an
/// empty stack: each push appends at the end, as the contract of `push`
/// states.
pub open spec fn push_order<T>(s: Seq<T>) -> Seq<T>
    decreases s.len(),
{
    if s.len() == 0 {
        Seq::empty()
    } else {
        push_order(s.drop_last()).push(s.last())
    }
}

/// Pushing the values of `s` in order onto an empty stack leaves the
/// stack's sequence at exactly `s`.
pub proof fn lemma_push_order_is_identity<T>(s: Seq<T>)
    ensures
        push_order(s) == s,
    decreases s.len(),
{
    if s.len() == 0 {
        assert(push_order(s) =~= s);
    } else {
        lemma_push_order_is_identity(s.drop_last());
        assert(push_order(s) =~= s);
    }
}

/// Successive pops from a stack whose sequence is `s` yield exactly `s`
/// reversed.
pub proof fn lemma_pop_order_is_reverse<T>(s: Seq<T>)
    ensures
        pop_order(s) == s.reverse(),
    decreases s.len(),
{
    if s.len() == 0 {
        assert(pop_order(s) =~= s.reverse());
    } else {
        lemma_pop_order_is_reverse(s.drop_last());
        assert(pop_order(s) =~= s.reverse());
    }
}

/// The LIFO law: push any sequence of values (at most the capacity) onto
/// an empty stack, then pop until the stack is empty; the pops yield the
/// values in exact reverse order of the pushes.
pub proof fn lemma_lifo<T>(s: Seq<T>)
    ensures
        pop_order(push_order(s)) == s.reverse(),
{
    lemma_push_order_is_identity(s);
    lemma_pop_order_is_reverse(s);
}

/// A consuming traversal over a `StackVector`: it owns the stack and
/// hands out its live elements one by one, bottom first.
pub struct StackVectorIntoIterator<T, const MAX_SIZE: usize> {
    vector: StackVector<T, MAX_SIZE>,
    index: usize,
}

impl<T, const MAX_SIZE: usize> View for StackVectorIntoIterator<T, MAX_SIZE> {
    type V = Seq<T>;

    /// The elements not yet handed out, in the order they will come.
    closed spec fn view(&self) -> Seq<T> {
        Seq::new(
            (self.vector.size - self.index) as nat,
            |i: int| self.vector.data@[self.index + i]->0,
        )
    }
}

impl<T, const MAX_SIZE: usize> StackVectorIntoIterator<T, MAX_SIZE> {
    /// Well-formedness: the slots still to be yielded are live, the slots
    /// already yielded and the slots past the original size are empty.
    pub closed spec fn wf(&self) -> bool {
        &&& self.vector.data@.len() == MAX_SIZE
        &&& self.index <= self.vector.size
        &&& self.vector.size <= MAX_SIZE
        &&& forall|j: int| self.index <= j < self.vector.size ==> self.vector.data@[j] is Some
        &&& forall|j: int| 0 <= j < self.index ==> self.vector.data@[j] is None
        &&& forall|j: int| self.vector.size <= j < MAX_SIZE ==> self.vector.data@[j] is None
    }

    /// Takes ownership of the next element, or returns `None` once every
    /// element has been handed out.
    pub fn next(&mut self) -> (r: Option<T>)
        requires
            old(self).wf(),
        ensures
            final(self).wf(),
            old(self)@.len() == 0 ==> r is None && final(self)@ == old(self)@,
            old(self)@.len() > 0 ==> r == Some(old(self)@.first()) && final(self)@ == old(
                self,
            )@.drop_first(),
    {
        if self.index < self.vector.size {
            let slot = &mut self.vector.data[self.index];
            let value = slot.take();
            self.index += 1;
            proof {
                assert(self@ =~= old(self)@.drop_first());
            }
            value
        } else {
            None
        }
    }
}

} // verus!
