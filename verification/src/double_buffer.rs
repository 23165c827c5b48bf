//! A bounded double buffer: a producer appends to the write side, which keeps
//! only the newest `capacity` items; a swap publishes the write side as the
//! read side that consumers copy out.
use vstd::prelude::*;

verus! {

/// How many sound-velocity profiles the pipeline keeps between swaps.
pub const SVP_BUFFER_CAPACITY: usize = 128;

/// How many projected points the pipeline keeps between swaps.
pub const POINT_BUFFER_CAPACITY: usize = 1_500_000;

/// The newest `cap` items of `s`, in order.
pub open spec fn keep_last<T>(s: Seq<T>, cap: nat) -> Seq<T> {
    if s.len() > cap {
        s.skip(s.len() - cap)
    } else {
        s
    }
}

/// Pushing one item leaves the same pending items as extending by a
/// one-item sequence.
pub proof fn law_push_is_extend_by_one<T>(pending: Seq<T>, item: T, cap: nat)
    ensures
        keep_last(pending.push(item), cap) == keep_last(pending + seq![item], cap),
{
    assert(pending.push(item) =~= pending + seq![item]);
}

/// Extending twice in a row keeps the same pending items as extending once by
/// the concatenation: trimming to the capacity in between loses nothing that
/// the final trim would have kept.
pub proof fn law_extend_twice<T>(pending: Seq<T>, a: Seq<T>, b: Seq<T>, cap: nat)
    ensures
        keep_last(keep_last(pending + a, cap) + b, cap) == keep_last(pending + a + b, cap),
{
    let x = pending + a;
    let k = keep_last(x, cap);
    let lhs = keep_last(k + b, cap);
    let rhs = keep_last(x + b, cap);
    assert(lhs.len() == rhs.len());
    assert forall|i: int| 0 <= i < lhs.len() implies lhs[i] == rhs[i] by {
        if x.len() > cap {
            assert(k =~= x.skip(x.len() - cap));
        }
    }
    assert(lhs =~= rhs);
    assert(x + b =~= pending + a + b);
}

/// Trimming keeps at most `cap` items, and they are the last ones of `s`.
pub proof fn law_keep_last_is_bounded_suffix<T>(s: Seq<T>, cap: nat)
    ensures
        keep_last(s, cap).len() == if s.len() > cap { cap as int } else { s.len() as int },
        forall|i: int|
            0 <= i < keep_last(s, cap).len() ==> #[trigger] keep_last(s, cap)[i] == s[s.len()
                - keep_last(s, cap).len() + i],
{
}

pub struct DoubleBufferView<T> {
    /// Items appended since the last swap.
    pub pending: Seq<T>,
    /// Items published by the last swap.
    pub published: Seq<T>,
    /// Swaps so far, wrapping at 2^64.
    pub flips: u64,
    pub capacity: nat,
}

pub struct DoubleBuffer<T: Clone> {
    write: Vec<T>,
    read: Vec<T>,
    flip_counter: u64,
    capacity: usize,
}

impl<T: Clone> View for DoubleBuffer<T> {
    type V = DoubleBufferView<T>;

    closed spec fn view(&self) -> DoubleBufferView<T> {
        DoubleBufferView {
            pending: self.write@,
            published: self.read@,
            flips: self.flip_counter,
            capacity: self.capacity as nat,
        }
    }
}

impl<T: Clone> DoubleBuffer<T> {
    /// Neither side holds more than `capacity` items.
    pub open spec fn wf(&self) -> bool {
        &&& self@.pending.len() <= self@.capacity
        &&& self@.published.len() <= self@.capacity
    }

    pub fn new(capacity: usize) -> (b: Self)
        ensures
            b.wf(),
            b@.pending == Seq::<T>::empty(),
            b@.published == Seq::<T>::empty(),
            b@.flips == 0,
            b@.capacity == capacity,
    {
        DoubleBuffer {
            write: Vec::with_capacity(capacity),
            read: Vec::with_capacity(capacity),
            flip_counter: 0,
            capacity,
        }
    }

    /// Drops the oldest pending items until at most `capacity` are left.
    fn trim(&mut self)
        ensures
            final(self).write@ == keep_last(old(self).write@, old(self).capacity as nat),
            final(self).read@ == old(self).read@,
            final(self).flip_counter == old(self).flip_counter,
            final(self).capacity == old(self).capacity,
    {
        if self.write.len() > self.capacity {
            let drain_count = self.write.len() - self.capacity;
            let rest = self.write.split_off(drain_count);
            self.write = rest;
        }
    }

    /// Appends one item; the oldest pending item goes if that exceeds the capacity.
    pub fn push(&mut self, item: T)
        requires
            old(self).wf(),
        ensures
            final(self).wf(),
            final(self)@.pending == keep_last(old(self)@.pending.push(item), old(self)@.capacity),
            final(self)@.published == old(self)@.published,
            final(self)@.flips == old(self)@.flips,
            final(self)@.capacity == old(self)@.capacity,
    {
        self.write.push(item);
        self.trim();
    }

    /// Appends the items in order, then keeps only the newest `capacity` pending items.
    pub fn extend(&mut self, items: Vec<T>)
        requires
            old(self).wf(),
        ensures
            final(self).wf(),
            final(self)@.pending == keep_last(old(self)@.pending + items@, old(self)@.capacity),
            final(self)@.published == old(self)@.published,
            final(self)@.flips == old(self)@.flips,
            final(self)@.capacity == old(self)@.capacity,
    {
        let mut items = items;
        self.write.append(&mut items);
        self.trim();
    }

    /// Publishes the pending items and starts an empty write side; returns how
    /// many items were published.
    pub fn swap(&mut self) -> (count: usize)
        requires
            old(self).wf(),
        ensures
            final(self).wf(),
            final(self)@.published == old(self)@.pending,
            final(self)@.pending == Seq::<T>::empty(),
            final(self)@.flips == old(self)@.flips.wrapping_add(1),
            final(self)@.capacity == old(self)@.capacity,
            count == old(self)@.pending.len(),
    {
        std::mem::swap(&mut self.write, &mut self.read);
        self.write.clear();
        let count = self.read.len();
        self.flip_counter = self.flip_counter.wrapping_add(1);
        count
    }

    /// A copy of the published items: one clone of each, in order.
    pub fn snapshot(&self) -> (items: Vec<T>)
        ensures
            items@.len() == self@.published.len(),
            forall|i: int|
                0 <= i < items@.len() ==> cloned::<T>(self@.published[i], #[trigger] items@[i]),
    {
        self.read.clone()
    }

    /// How many swaps there have been, wrapping at 2^64.
    pub fn flip_count(&self) -> (n: u64)
        ensures
            n == self@.flips,
    {
        self.flip_counter
    }

    /// How many items are pending.
    pub fn write_len(&self) -> (n: usize)
        ensures
            n == self@.pending.len(),
    {
        self.write.len()
    }
}

} // verus!
