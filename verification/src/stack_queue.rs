//! A bounded FIFO queue over a circular buffer of `N` storage slots.
//! The live elements occupy `size` consecutive slots starting at `front`,
//! wrapping modulo `N`; `rear` always equals `(front + size) % N`.
//! Overflow is recoverable: `push` on a full queue returns an error and
//! leaves the queue untouched.

use vstd::math::min;
use vstd::prelude::*;

verus! {

/// Every index the queue computes is the sum of two indices below `n`, so
/// reduction modulo `n` only ever subtracts `n` once. This pins `%` down
/// to that case so the circular-index reasoning stays linear.
proof fn lemma_mod_in_range(x: int, n: int)
    requires
        n > 0,
        0 <= x < 2 * n,
    ensures
        x % n == if x < n {
            x
        } else {
            x - n
        },
{
    if x < n {
        vstd::arithmetic::div_mod::lemma_fundamental_div_mod_converse_mod(x, n, 0, x);
    } else {
        vstd::arithmetic::div_mod::lemma_fundamental_div_mod_converse_mod(x, n, 1, x - n);
    }
}

/// A queue of at most `N` elements of type `T`, backed by a circular
/// buffer.
///
/// The abstract value of a queue is the sequence of its live elements
/// from front to back; `push` appends at the back, `pop` removes the
/// front.
pub struct StackQueue<T, const N: usize> {
    data: Vec<Option<T>>,
    front: usize,
    rear: usize,
    size: usize,
}

impl<T, const N: usize> View for StackQueue<T, N> {
    type V = Seq<T>;

    /// The live elements in queue order, front first.
    closed spec fn view(&self) -> Seq<T> {
        Seq::new(self.size as nat, |i: int| self.data@[Self::slot_of(self.front as int, i)]->0)
    }
}

impl<T, const N: usize> StackQueue<T, N> {
    /// The physical slot that holds the element `i` places behind a queue
    /// front at index `front`.
    closed spec fn slot_of(front: int, i: int) -> int {
        (front + i) % (N as int)
    }

    /// Well-formedness: exactly `N` slots; the `size` slots starting at
    /// `front` (wrapping modulo `N`) are live, all the others are empty;
    /// `rear` is one past the last live slot.
    pub closed spec fn wf(&self) -> bool {
        &&& self.data@.len() == N
        &&& self.size <= N
        &&& if N == 0 {
            self.front == 0 && self.rear == 0
        } else {
            &&& self.front < N
            &&& self.rear < N
            &&& self.rear == (self.front + self.size) % (N as int)
        }
        &&& forall|i: int|
            0 <= i < self.size ==> self.data@[#[trigger] Self::slot_of(self.front as int, i)] is Some
        &&& forall|j: int|
            0 <= j < N && (j - self.front + N) % (N as int) >= self.size
                ==> #[trigger] self.data@[j] is None
    }

    /// Creates an empty queue with all `N` slots empty.
    pub fn new() -> (q: Self)
        ensures
            q.wf(),
            q@ == Seq::<T>::empty(),
    {
        let mut data: Vec<Option<T>> = Vec::new();
        let mut i: usize = 0;
        while i < N
            invariant
                i <= N,
                data@.len() == i,
                forall|j: int| 0 <= j < i ==> data@[j] is None,
            decreases N - i,
        {
            data.push(None);
            i += 1;
        }
        let q = StackQueue { data, front: 0, rear: 0, size: 0 };
        proof {
            if N > 0 {
                lemma_mod_in_range(0, N as int);
            }
            assert(q@ =~= Seq::<T>::empty());
        }
        q
    }

    /// Pushes `item` at the back of the queue. A full queue is a
    /// recoverable condition: the push is refused with an error and the
    /// queue is left exactly as it was.
    pub fn push(&mut self, item: T) -> (r: Result<(), String>)
        requires
            old(self).wf(),
        ensures
            final(self).wf(),
            old(self)@.len() < N ==> r is Ok && final(self)@ == old(self)@.push(item),
            old(self)@.len() == N ==> (r matches Err(m) && m@ == "Queue is full"@)
                && final(self)@ == old(self)@,
    {
        if self.size >= N {
            Err("Queue is full".to_owned())
        } else {
            self.data[self.rear] = Some(item);
            self.rear = (self.rear + 1) % N;
            self.size = self.size + 1;
            proof {
                let n = N as int;
                let f = old(self).front as int;
                let s = old(self).size as int;
                let ro = old(self).rear as int;
                lemma_mod_in_range(f + s, n);
                lemma_mod_in_range(f + s + 1, n);
                lemma_mod_in_range(ro + 1, n);
                assert forall|i: int|
                    0 <= i < self.size implies self.data@[#[trigger] Self::slot_of(
                    f,
                    i,
                )] is Some by {
                    lemma_mod_in_range(f + i, n);
                    if i < s {
                        assert(old(self).data@[Self::slot_of(f, i)] is Some);
                    }
                }
                assert forall|j: int|
                    0 <= j < N && (j - self.front + N) % (N as int) >= self.size implies #[trigger] self.data@[j] is None by {
                    lemma_mod_in_range(j - f + n, n);
                }
                assert forall|i: int| 0 <= i < s implies self@[i] == old(self)@[i] by {
                    lemma_mod_in_range(f + i, n);
                }
                assert(self@ =~= old(self)@.push(item));
            }
            Ok(())
        }
    }

    /// Removes and returns the front element, or `None` on an empty
    /// queue.
    pub fn pop(&mut self) -> (r: Option<T>)
        requires
            old(self).wf(),
        ensures
            final(self).wf(),
            old(self)@.len() == 0 ==> r is None && final(self)@ == old(self)@,
            old(self)@.len() > 0 ==> r == Some(old(self)@.first()) && final(self)@ == old(
                self,
            )@.drop_first(),
    {
        if self.size == 0 {
            None
        } else {
            proof {
                lemma_mod_in_range(old(self).front as int, N as int);
            }
            let slot = &mut self.data[self.front];
            let item = slot.take();
            self.front = (self.front + 1) % N;
            self.size = self.size - 1;
            proof {
                let n = N as int;
                let f = old(self).front as int;
                let s = old(self).size as int;
                let fp = self.front as int;
                lemma_mod_in_range(f, n);
                lemma_mod_in_range(f + 1, n);
                lemma_mod_in_range(f + s, n);
                lemma_mod_in_range(fp + s - 1, n);
                assert forall|i: int|
                    0 <= i < self.size implies self.data@[#[trigger] Self::slot_of(
                    fp,
                    i,
                )] is Some by {
                    lemma_mod_in_range(fp + i, n);
                    lemma_mod_in_range(f + 1 + i, n);
                    assert(old(self).data@[Self::slot_of(f, i + 1)] is Some);
                }
                assert forall|j: int|
                    0 <= j < N && (j - self.front + N) % (N as int) >= self.size implies #[trigger] self.data@[j] is None by {
                    lemma_mod_in_range(j - fp + n, n);
                    lemma_mod_in_range(j - f + n, n);
                }
                assert forall|i: int| 0 <= i < self.size implies self@[i] == old(self)@[i + 1] by {
                    lemma_mod_in_range(fp + i, n);
                    lemma_mod_in_range(f + 1 + i, n);
                }
                assert(self@ =~= old(self)@.drop_first());
            }
            item
        }
    }

    /// Peeks at the front element without removing it, or `None` on an
    /// empty queue.
    pub fn front(&self) -> (r: Option<&T>)
        requires
            self.wf(),
        ensures
            self@.len() == 0 ==> r is None,
            self@.len() > 0 ==> r is Some && *r->0 == self@.first(),
    {
        if self.size == 0 {
            None
        } else {
            proof {
                lemma_mod_in_range(self.front as int, N as int);
                assert(Self::slot_of(self.front as int, 0) == self.front as int);
            }
            self.data[self.front].as_ref()
        }
    }

    /// Peeks at the front element through a mutable reference, or `None`
    /// on an empty queue. The rest of the queue is untouched.
    pub fn front_mut(&mut self) -> (r: Option<&mut T>)
        requires
            old(self).wf(),
        ensures
            final(self).wf(),
            old(self)@.len() == 0 ==> r is None && final(self)@ == old(self)@,
            old(self)@.len() > 0 ==> r is Some && *r->0 == old(self)@.first() && final(self)@
                =~= old(self)@.update(0, *final(r->0)),
    {
        if self.size == 0 {
            None
        } else {
            proof {
                let n = N as int;
                let f = self.front as int;
                let s = self.size as int;
                lemma_mod_in_range(f, n);
                assert(Self::slot_of(f, 0) == f);
                assert forall|i: int|
                    0 <= i < s implies (#[trigger] Self::slot_of(f, i) == f) == (i == 0) by {
                    lemma_mod_in_range(f + i, n);
                }
            }
            let slot = &mut self.data[self.front];
            slot.as_mut()
        }
    }

    /// Peeks at the back element (the one pushed last) without removing
    /// it, or `None` on an empty queue.
    pub fn back(&self) -> (r: Option<&T>)
        requires
            self.wf(),
        ensures
            self@.len() == 0 ==> r is None,
            self@.len() > 0 ==> r is Some && *r->0 == self@.last(),
    {
        if self.size == 0 {
            None
        } else {
            let last_index = if self.rear == 0 {
                N - 1
            } else {
                self.rear - 1
            };
            proof {
                let n = N as int;
                let f = self.front as int;
                let s = self.size as int;
                lemma_mod_in_range(f + s, n);
                lemma_mod_in_range(f + s - 1, n);
                assert(last_index == Self::slot_of(f, s - 1));
            }
            self.data[last_index].as_ref()
        }
    }

    /// Peeks at the back element through a mutable reference, or `None`
    /// on an empty queue. The rest of the queue is untouched.
    pub fn back_mut(&mut self) -> (r: Option<&mut T>)
        requires
            old(self).wf(),
        ensures
            final(self).wf(),
            old(self)@.len() == 0 ==> r is None && final(self)@ == old(self)@,
            old(self)@.len() > 0 ==> r is Some && *r->0 == old(self)@.last() && final(self)@
                =~= old(self)@.update(old(self)@.len() - 1, *final(r->0)),
    {
        if self.size == 0 {
            None
        } else {
            let last_index = if self.rear == 0 {
                N - 1
            } else {
                self.rear - 1
            };
            proof {
                let n = N as int;
                let f = self.front as int;
                let s = self.size as int;
                lemma_mod_in_range(f + s, n);
                lemma_mod_in_range(f + s - 1, n);
                assert(last_index == Self::slot_of(f, s - 1));
                assert forall|i: int|
                    0 <= i < s implies (#[trigger] Self::slot_of(f, i) == last_index) == (i == s
                    - 1) by {
                    lemma_mod_in_range(f + i, n);
                }
            }
            let slot = &mut self.data[last_index];
            slot.as_mut()
        }
    }

    /// Number of live elements.
    pub fn len(&self) -> (n: usize)
        requires
            self.wf(),
        ensures
            n == self@.len(),
    {
        self.size
    }

    /// True iff the queue holds no element.
    pub fn is_empty(&self) -> (b: bool)
        requires
            self.wf(),
        ensures
            b == (self@.len() == 0),
    {
        self.size == 0
    }

    /// True iff the queue holds `N` elements.
    pub fn is_full(&self) -> (b: bool)
        requires
            self.wf(),
        ensures
            b == (self@.len() == N),
    {
        self.size == N
    }

    /// Destroys every live element and resets the queue to its initial
    /// empty state; capacity and storage are kept for reuse.
    pub fn clear(&mut self)
        requires
            old(self).wf(),
        ensures
            final(self).wf(),
            final(self)@ == Seq::<T>::empty(),
    {
        while self.size > 0
            invariant
                self.wf(),
            decreases self.size,
        {
            let ghost prev: nat = self@.len();
            let _ = self.pop();
            proof {
                assert(self@.len() < prev);
            }
        }
        self.front = 0;
        self.rear = 0;
        proof {
            if N > 0 {
                lemma_mod_in_range(0, N as int);
            }
            assert(self@ =~= Seq::<T>::empty());
        }
    }

    /// Appends the values of `items` in order, silently stopping as soon
    /// as the queue is full; the values left over are discarded.
    pub fn extend(&mut self, items: Vec<T>)
        requires
            old(self).wf(),
        ensures
            final(self).wf(),
            final(self)@ == old(self)@ + items@.take(
                min(items@.len() as int, N - old(self)@.len()),
            ),
    {
        let ghost orig = items@;
        let ghost mut k: int = 0;
        let mut rest = items;
        while rest.len() > 0 && self.size < N
            invariant
                self.wf(),
                0 <= k <= orig.len(),
                rest@ == orig.skip(k),
                self@ == old(self)@ + orig.take(k),
                self@.len() == old(self)@.len() + k,
            decreases rest@.len(),
        {
            let item = rest.remove(0);
            let _ = self.push(item);
            proof {
                k = k + 1;
                assert(rest@ =~= orig.skip(k));
                assert(self@ =~= old(self)@ + orig.take(k));
            }
        }
        proof {
            assert(k == min(orig.len() as int, N - old(self)@.len()));
        }
    }

    /// Builds a queue from the values of `items` in order, keeping the
    /// first `N` of them and silently discarding the rest.
    pub fn from_iter(items: Vec<T>) -> (q: Self)
        ensures
            q.wf(),
            q@ == items@.take(min(items@.len() as int, N as int)),
    {
        let mut q = Self::new();
        q.extend(items);
        proof {
            assert(q@ =~= items@.take(min(items@.len() as int, N as int)));
        }
        q
    }
}

/// The values that successive `pop` calls return from a queue whose live
/// sequence is `s`: the front element first, then the pops of what is
/// queued behind it.
pub open spec fn pop_order<T>(s: Seq<T>) -> Seq<T>
    decreases s.len(),
{
    if s.len() == 0 {
        Seq::empty()
    } else {
        seq![s.first()] + pop_order(s.drop_first())
    }
}

/// The wraparound law: let `s` be the sequence of a full queue (or any
/// queue holding at least two elements). After one pop and one push of a
/// value `x` (the push that physically wraps the rear index), the back
/// of the queue is `x` and the front is the second element of `s`, by the
/// contracts of `pop`, `push`, `back` and `front`.
pub proof fn lemma_wraparound<T>(s: Seq<T>, x: T)
    requires
        s.len() >= 2,
    ensures
        s.drop_first().push(x).last() == x,
        s.drop_first().push(x).first() == s[1],
{
}

/// The queue's sequence after pushing the values of `s` in order onto an
/// empty queue: each push appends at the back, as the contract of `push`
/// states.
pub open spec fn push_order<T>(s: Seq<T>) -> Seq<T>
    decreases s.len(),
{
    if s.len() == 0 {
        Seq::empty()
    } else {
        push_order(s.drop_last()).push(s.last())
    }
}

/// Pushing the values of `s` in order onto an empty queue leaves the
/// queue's sequence at exactly `s`.
pub proof fn lemma_push_order_is_identity<T>(s: Seq<T>)
    ensures
        push_order(s) == s,
    decreases s.len(),
{
    if s.len() == 0 {
        assert(push_order(s) =~= s);
    } else {
        lemma_push_order_is_identity(s.drop_last());
        assert(push_order(s) =~= s);
    }
}

/// Successive pops from a queue whose sequence is `s` yield exactly `s`:
/// the order of arrival is the order of departure.
pub proof fn lemma_pop_order_is_arrival_order<T>(s: Seq<T>)
    ensures
        pop_order(s) == s,
    decreases s.len(),
{
    if s.len() == 0 {
        assert(pop_order(s) =~= s);
    } else {
        lemma_pop_order_is_arrival_order(s.drop_first());
        assert(pop_order(s) =~= s);
    }
}

/// The FIFO law: push any sequence of values (at most the capacity) onto
/// an empty queue, then pop until the queue is empty; the pops yield the
/// values in exactly the order they were pushed.
pub proof fn lemma_fifo<T>(s: Seq<T>)
    ensures
        pop_order(push_order(s)) == s,
{
    lemma_push_order_is_identity(s);
    lemma_pop_order_is_arrival_order(s);
}

} // verus!
