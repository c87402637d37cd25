//! Byte buffers that cross the boundary, and the pool that recycles them.

use vstd::prelude::*;

verus! {

/// Largest capacity, in bytes, of a buffer that the pool keeps (32 MiB).
pub const MAX_BUFFER_CAPACITY: usize = 32 * 1024 * 1024;

/// Most buffers that the pool holds at once.
pub const MAX_POOL_SIZE: usize = 16;

/// Relies on `Vec::capacity`: the number of elements the buffer can hold
/// without reallocating, which is never below its length.
#[verifier::external_body]
fn capacity_of(buffer: &Vec<u8>) -> (r: usize)
    ensures
        r >= buffer@.len(),
{
    buffer.capacity()
}

/// Some entry of `entries` has a capacity of at least `len`.
pub open spec fn has_fit(entries: Seq<(Vec<u8>, usize)>, len: nat) -> bool {
    exists|j: int| 0 <= j < entries.len() && #[trigger] entries[j].1 >= len
}

/// Entry `i` is the best fit for `len`: the smallest capacity that still holds
/// `len` bytes, and the first such entry among equal capacities.
pub open spec fn is_best_fit(entries: Seq<(Vec<u8>, usize)>, len: nat, i: int) -> bool {
    &&& 0 <= i < entries.len()
    &&& entries[i].1 >= len
    &&& forall|j: int|
        0 <= j < entries.len() && #[trigger] entries[j].1 >= len ==> entries[i].1 < entries[j].1
            || (entries[i].1 == entries[j].1 && i <= j)
}

/// The index of the best fit for `len` (meaningful when `has_fit` holds).
pub open spec fn best_fit(entries: Seq<(Vec<u8>, usize)>, len: nat) -> int {
    choose|i: int| is_best_fit(entries, len, i)
}

/// `entries` once entry `i` is taken out: the last entry moves into its place.
pub open spec fn without_entry(entries: Seq<(Vec<u8>, usize)>, i: int) -> Seq<(Vec<u8>, usize)> {
    entries.update(i, entries.last()).drop_last()
}

/// A released buffer of this capacity is kept by a pool holding `entries`.
pub open spec fn is_retained(entries: Seq<(Vec<u8>, usize)>, capacity: nat) -> bool {
    &&& 0 < capacity <= MAX_BUFFER_CAPACITY
    &&& entries.len() < MAX_POOL_SIZE
}

/// The best fit, when there is one, is unique.
pub proof fn lemma_best_fit_unique(entries: Seq<(Vec<u8>, usize)>, len: nat, i: int, k: int)
    requires
        is_best_fit(entries, len, i),
        is_best_fit(entries, len, k),
    ensures
        i == k,
{
    assert(entries[k].1 >= len);
    assert(entries[i].1 >= len);
}

/// There is a best fit exactly when some entry fits.
pub proof fn lemma_best_fit_exists(entries: Seq<(Vec<u8>, usize)>, len: nat)
    requires
        has_fit(entries, len),
    ensures
        is_best_fit(entries, len, best_fit(entries, len)),
    decreases entries.len(),
{
    let n = entries.len() as int;
    let rest = entries.drop_last();
    if has_fit(rest, len) {
        lemma_best_fit_exists(rest, len);
        let i = best_fit(rest, len);
        assert(rest[i] == entries[i]);
        if entries[n - 1].1 >= len && entries[n - 1].1 < entries[i].1 {
            assert forall|j: int| 0 <= j < entries.len() && #[trigger] entries[j].1 >= len implies
                entries[n - 1].1 < entries[j].1 || (entries[n - 1].1 == entries[j].1 && n - 1 <= j) by {
                if j < n - 1 {
                    assert(rest[j] == entries[j]);
                }
            }
            assert(is_best_fit(entries, len, n - 1));
        } else {
            assert forall|j: int| 0 <= j < entries.len() && #[trigger] entries[j].1 >= len implies
                entries[i].1 < entries[j].1 || (entries[i].1 == entries[j].1 && i <= j) by {
                if j < n - 1 {
                    assert(rest[j] == entries[j]);
                }
            }
            assert(is_best_fit(entries, len, i));
        }
    } else {
        let j0 = choose|j: int| 0 <= j < entries.len() && #[trigger] entries[j].1 >= len;
        if j0 < n - 1 {
            assert(rest[j0] == entries[j0]);
            assert(false);
        }
        assert forall|j: int| 0 <= j < entries.len() && #[trigger] entries[j].1 >= len implies
            entries[n - 1].1 < entries[j].1 || (entries[n - 1].1 == entries[j].1 && n - 1 <= j) by {
            if j < n - 1 {
                assert(rest[j] == entries[j]);
            }
        }
        assert(is_best_fit(entries, len, n - 1));
    }
}

/// A buffer released into an empty pool, with a capacity of `capacity` bytes,
/// is kept, and a following request for `len` bytes, no more than that
/// capacity, takes that same buffer back and leaves the pool empty again.
pub proof fn law_recycle_then_take_returns_same_buffer(
    before: Seq<(Vec<u8>, usize)>,
    after: Seq<(Vec<u8>, usize)>,
    capacity: nat,
    len: nat,
)
    requires
        before.len() == 0,
        0 < len <= capacity <= MAX_BUFFER_CAPACITY,
        after.len() == before.len() + 1,
        after.drop_last() == before,
        after.last().1 == capacity,
    ensures
        is_retained(before, capacity),
        has_fit(after, len),
        best_fit(after, len) == 0,
        after[best_fit(after, len)].0 == after.last().0,
        without_entry(after, best_fit(after, len)) == before,
{
    assert(after[0].1 >= len);
    lemma_best_fit_exists(after, len);
    assert(is_best_fit(after, len, 0));
    lemma_best_fit_unique(after, len, 0, best_fit(after, len));
    assert(without_entry(after, 0) =~= before);
}

/// A buffer handed over to the caller as its bytes, length and capacity.
///
/// Once handed over it belongs to the caller until the caller gives it back
/// through `BufferPool::release`, which consumes it.
pub struct ByteArray {
    buffer: Vec<u8>,
    len: usize,
    cap: usize,
}

impl View for ByteArray {
    type V = Seq<u8>;

    closed spec fn view(&self) -> Seq<u8> {
        self.buffer@
    }
}

impl ByteArray {
    /// The capacity recorded for the buffer when it was handed over.
    pub closed spec fn spec_capacity(&self) -> nat {
        self.cap as nat
    }

    #[verifier::type_invariant]
    spec fn inv(self) -> bool {
        &&& self.len == self.buffer@.len()
        &&& self.len <= self.cap
    }

    /// Takes over a buffer, recording its length and capacity.
    pub fn from_vec(vec: Vec<u8>) -> (r: ByteArray)
        ensures
            r@ == vec@,
            r.spec_capacity() >= vec@.len(),
    {
        let len = vec.len();
        let cap = capacity_of(&vec);
        ByteArray { buffer: vec, len, cap }
    }

    /// A record of no bytes.
    pub fn empty() -> (r: ByteArray)
        ensures
            r@.len() == 0,
    {
        ByteArray::from_vec(Vec::new())
    }

    /// The number of bytes held.
    pub fn len(&self) -> (r: usize)
        ensures
            r == self@.len(),
    {
        proof {
            use_type_invariant(self);
        }
        self.len
    }

    /// The capacity recorded for the buffer.
    pub fn capacity(&self) -> (r: usize)
        ensures
            r == self.spec_capacity(),
            r >= self@.len(),
    {
        proof {
            use_type_invariant(self);
        }
        self.cap
    }

    /// The bytes held.
    pub fn as_slice(&self) -> (r: &[u8])
        ensures
            r@ == self@,
    {
        self.buffer.as_slice()
    }

    /// Gives up the record, handing back its buffer.
    pub fn into_vec(self) -> (r: Vec<u8>)
        ensures
            r@ == self@,
    {
        self.buffer
    }
}

/// A pool of released buffers, reused best-fit by later requests.
///
/// Each entry is a buffer with no contents together with the capacity that
/// was reported for it when it was released.
pub struct BufferPool {
    buffers: Vec<(Vec<u8>, usize)>,
}

impl View for BufferPool {
    type V = Seq<(Vec<u8>, usize)>;

    closed spec fn view(&self) -> Seq<(Vec<u8>, usize)> {
        self.buffers@
    }
}

impl BufferPool {
    /// The pool's bounds: at most `MAX_POOL_SIZE` entries, each an empty
    /// buffer with a capacity in `1..=MAX_BUFFER_CAPACITY`.
    pub open spec fn wf(&self) -> bool {
        &&& self@.len() <= MAX_POOL_SIZE
        &&& forall|i: int|
            0 <= i < self@.len() ==> {
                &&& 0 < (#[trigger] self@[i]).1 <= MAX_BUFFER_CAPACITY
                &&& self@[i].0@.len() == 0
            }
    }

    /// An empty pool.
    pub fn new() -> (r: BufferPool)
        ensures
            r.wf(),
            r@.len() == 0,
    {
        BufferPool { buffers: Vec::new() }
    }

    /// The number of buffers held.
    pub fn len(&self) -> (r: usize)
        ensures
            r == self@.len(),
    {
        self.buffers.len()
    }

    /// Drops every buffer held.
    pub fn clear(&mut self)
        ensures
            final(self).wf(),
            final(self)@.len() == 0,
    {
        self.buffers = Vec::new();
    }

    /// A buffer with no contents for a payload of `len` bytes.
    ///
    /// For `len == 0` a new empty buffer, the pool untouched. Otherwise the
    /// best-fitting pooled buffer is taken out of the pool, the last entry
    /// moving into its place; where none fits, a new buffer is allocated with
    /// room for `len` bytes.
    pub fn take(&mut self, len: usize) -> (r: Vec<u8>)
        requires
            old(self).wf(),
        ensures
            final(self).wf(),
            r@.len() == 0,
            len == 0 || !has_fit(old(self)@, len as nat) ==> final(self)@ == old(self)@,
            len > 0 && has_fit(old(self)@, len as nat) ==> {
                let i = best_fit(old(self)@, len as nat);
                &&& r == old(self)@[i].0
                &&& final(self)@ == without_entry(old(self)@, i)
            },
    {
        if len == 0 {
            return Vec::new();
        }
        let n = self.buffers.len();
        let mut selected: Option<usize> = None;
        let mut i: usize = 0;
        assert(self@.take(n as int) =~= self@);
        while i < n
            invariant_except_break
                i <= n,
                selected matches Some(s) ==> is_best_fit(self@.take(i as int), len as nat, s as int),
                selected is None ==> !has_fit(self@.take(i as int), len as nat),
            invariant
                self.wf(),
                n == self@.len(),
                self@.take(n as int) == self@,
            ensures
                selected matches Some(s) ==> is_best_fit(self@, len as nat, s as int),
                selected is None ==> !has_fit(self@, len as nat),
            decreases n - i,
        {
            let capacity = self.buffers[i].1;
            let better = match selected {
                None => capacity >= len,
                Some(s) => capacity >= len && capacity < self.buffers[s].1,
            };
            let ghost prefix = self@.take(i as int);
            let ghost next = self@.take(i + 1);
            proof {
                assert forall|j: int| 0 <= j < i implies #[trigger] next[j] == prefix[j] by {}
                assert(next[i as int] == self@[i as int]);
            }
            if better {
                proof {
                    assert forall|j: int| 0 <= j < next.len() && #[trigger] next[j].1 >= len implies
                        next[i as int].1 < next[j].1 || (next[i as int].1 == next[j].1 && i <= j) by {
                        if j < i {
                            assert(prefix[j] == next[j]);
                            if selected is None {
                                assert(has_fit(prefix, len as nat));
                            }
                        }
                    }
                    assert(is_best_fit(next, len as nat, i as int));
                }
                selected = Some(i);
                if capacity == len {
                    proof {
                        assert forall|j: int| 0 <= j < self@.len() && #[trigger] self@[j].1 >= len implies
                            self@[i as int].1 < self@[j].1 || (self@[i as int].1 == self@[j].1 && i <= j) by {
                            if j < i {
                                assert(next[j] == self@[j]);
                            }
                        }
                    }
                    break;
                }
            } else {
                proof {
                    if let Some(s) = selected {
                        assert forall|j: int| 0 <= j < next.len() && #[trigger] next[j].1 >= len implies
                            next[s as int].1 < next[j].1 || (next[s as int].1 == next[j].1 && s <= j) by {
                            if j < i {
                                assert(prefix[j] == next[j]);
                            }
                        }
                        assert(next[s as int] == prefix[s as int]);
                        assert(is_best_fit(next, len as nat, s as int));
                    } else {
                        if has_fit(next, len as nat) {
                            let j = choose|j: int| 0 <= j < next.len() && #[trigger] next[j].1 >= len;
                            if j < i {
                                assert(prefix[j] == next[j]);
                                assert(has_fit(prefix, len as nat));
                            }
                        }
                    }
                }
            }
            i = i + 1;
        }
        match selected {
            Some(s) => {
                proof {
                    lemma_best_fit_exists(self@, len as nat);
                    lemma_best_fit_unique(self@, len as nat, s as int, best_fit(self@, len as nat));
                }
                let entry = self.buffers.swap_remove(s);
                proof {
                    let old_entries = old(self)@;
                    let next = final(self)@;
                    assert forall|k: int| 0 <= k < self@.len() implies {
                        &&& 0 < (#[trigger] self@[k]).1 <= MAX_BUFFER_CAPACITY
                        &&& self@[k].0@.len() == 0
                    } by {
                        if k == s {
                            assert(self@[k] == old_entries[old_entries.len() - 1]);
                        } else {
                            assert(self@[k] == old_entries[k]);
                        }
                    }
                }
                entry.0
            },
            None => Vec::with_capacity(len),
        }
    }

    /// Returns a buffer whose capacity is `capacity` to the pool.
    ///
    /// A buffer with no capacity, or with more than `MAX_BUFFER_CAPACITY`, is
    /// dropped, and so is one that arrives when the pool already holds
    /// `MAX_POOL_SIZE` buffers; any other is emptied and added at the end.
    pub fn recycle_with_capacity(&mut self, buffer: Vec<u8>, capacity: usize)
        requires
            old(self).wf(),
        ensures
            final(self).wf(),
            final(self)@.len() <= MAX_POOL_SIZE,
            is_retained(old(self)@, capacity as nat) ==> {
                &&& final(self)@.len() == old(self)@.len() + 1
                &&& final(self)@.drop_last() == old(self)@
                &&& final(self)@.last().1 == capacity
                &&& final(self)@.last().0@.len() == 0
            },
            !is_retained(old(self)@, capacity as nat) ==> final(self)@ == old(self)@,
    {
        if capacity == 0 || capacity > MAX_BUFFER_CAPACITY {
            return;
        }
        let mut buffer = buffer;
        buffer.clear();
        if self.buffers.len() >= MAX_POOL_SIZE {
            return;
        }
        self.buffers.push((buffer, capacity));
        proof {
            assert(self@.drop_last() =~= old(self)@);
            assert forall|k: int| 0 <= k < self@.len() implies {
                &&& 0 < (#[trigger] self@[k]).1 <= MAX_BUFFER_CAPACITY
                &&& self@[k].0@.len() == 0
            } by {
                if k < old(self)@.len() {
                    assert(self@[k] == old(self)@[k]);
                }
            }
        }
    }

    /// Takes back a record handed to the caller: its buffer returns to the
    /// pool by the capacity recorded in the record, as `recycle_with_capacity`
    /// says.
    pub fn release(&mut self, array: ByteArray)
        requires
            old(self).wf(),
        ensures
            final(self).wf(),
            is_retained(old(self)@, array.spec_capacity()) ==> {
                &&& final(self)@.len() == old(self)@.len() + 1
                &&& final(self)@.drop_last() == old(self)@
                &&& final(self)@.last().1 == array.spec_capacity()
                &&& final(self)@.last().0@.len() == 0
            },
            !is_retained(old(self)@, array.spec_capacity()) ==> final(self)@ == old(self)@,
    {
        let capacity = array.capacity();
        let buffer = array.into_vec();
        self.recycle_with_capacity(buffer, capacity);
    }

    /// A record holding a copy of `data`, in a buffer that `take` provides.
    pub fn copy_to_byte_array(&mut self, data: &[u8]) -> (r: ByteArray)
        requires
            old(self).wf(),
        ensures
            final(self).wf(),
            r@ == data@,
            data@.len() == 0 || !has_fit(old(self)@, data@.len()) ==> final(self)@ == old(self)@,
            data@.len() > 0 && has_fit(old(self)@, data@.len()) ==> final(self)@ == without_entry(
                old(self)@,
                best_fit(old(self)@, data@.len()),
            ),
    {
        if data.len() == 0 {
            return ByteArray::empty();
        }
        let mut buffer = self.take(data.len());
        let mut i: usize = 0;
        while i < data.len()
            invariant
                i <= data@.len(),
                buffer@ == data@.take(i as int),
            decreases data@.len() - i,
        {
            buffer.push(data[i]);
            i = i + 1;
            assert(buffer@ =~= data@.take(i as int));
        }
        assert(data@.take(data@.len() as int) =~= data@);
        ByteArray::from_vec(buffer)
    }

    /// Returns a buffer to the pool, by the capacity that it reports.
    pub fn recycle(&mut self, buffer: Vec<u8>)
        requires
            old(self).wf(),
        ensures
            final(self).wf(),
            final(self)@.len() <= MAX_POOL_SIZE,
            final(self)@ == old(self)@ || {
                &&& is_retained(old(self)@, final(self)@.last().1 as nat)
                &&& final(self)@.len() == old(self)@.len() + 1
                &&& final(self)@.drop_last() == old(self)@
                &&& final(self)@.last().1 >= buffer@.len()
                &&& final(self)@.last().0@.len() == 0
            },
    {
        let capacity = capacity_of(&buffer);
        self.recycle_with_capacity(buffer, capacity);
    }
}

} // verus!
