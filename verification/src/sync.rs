//! Synchronisation primitives of the kernel: a spin lock, a value initialised
//! once at boot, a mutex, and the circular buffer that carries keyboard
//! events from the interrupt handler to the console.
//!
//! The mutex and the ring hand out guards that borrow them mutably, so that
//! only one user at a time reaches the data; the borrow is what the guard
//! holds, and what is done through the guard is the data's value when the
//! guard is gone.

use vstd::prelude::*;
use core::sync::atomic::AtomicBool;
use core::sync::atomic::Ordering;

verus! {

/// A lock taken by spinning on an atomic flag.
pub struct SpinLock {
    locked: AtomicBool,
}

impl SpinLock {
    /// An unlocked lock.
    pub fn new() -> Self {
        SpinLock { locked: AtomicBool::new(false) }
    }

    /// Makes one attempt at taking the lock: the flag goes from unlocked to
    /// locked if it was unlocked. Returns whether this attempt took it.
    ///
    /// The outcome depends on the other users of the lock, so nothing is
    /// stated of it.
    pub fn try_lock(&self) -> bool {
        self.locked.compare_exchange(false, true, Ordering::Acquire, Ordering::Relaxed).is_ok()
    }

    /// Releases the lock.
    pub fn unlock(&self) {
        self.locked.store(false, Ordering::Release);
    }
}

/// A value that is initialised once at boot, then read.
pub struct OnceInit<T> {
    val: Option<T>,
}

impl<T> OnceInit<T> {
    /// The value held, if it was initialised.
    pub closed spec fn value(&self) -> Option<T> {
        self.val
    }

    /// A value waiting to be initialised.
    pub fn new() -> (r: Self)
        ensures
            r.value() is None,
    {
        OnceInit { val: None }
    }

    /// Initialises with the given value. A previous value is replaced.
    pub fn init(&mut self, val: T)
        ensures
            final(self).value() == Some(val),
    {
        self.val = Some(val);
    }

    /// Whether the value was initialised.
    pub fn is_init(&self) -> (r: bool)
        ensures
            r == self.value() is Some,
    {
        self.val.is_some()
    }

    /// Returns the inner value, which must have been initialised.
    pub fn get(&self) -> (r: &T)
        requires
            self.value() is Some,
        ensures
            *r == self.value()->0,
    {
        self.val.as_ref().unwrap()
    }
}

impl<T> OnceInit<T> {
    /// Returns the inner value as mutable; it must have been initialised.
    pub fn get_mut(&mut self) -> (r: &mut T)
        requires
            old(self).value() is Some,
        ensures
            *r == old(self).value()->0,
            final(self).value() == Some(*final(r)),
    {
        self.val.as_mut().unwrap()
    }
}

/// A value that only one user at a time may access: locking borrows the
/// mutex mutably, so no other user can reach the value while the guard
/// lives.
pub struct Mutex<T> {
    data: T,
}

impl<T> Mutex<T> {
    /// The value protected by the mutex.
    pub closed spec fn value(&self) -> T {
        self.data
    }

    /// Creates a new mutex owning the given data.
    pub fn new(data: T) -> (r: Self)
        ensures
            r.value() == data,
    {
        Mutex { data }
    }

    /// Consumes the mutex and returns the inner value.
    pub fn into_inner(self) -> (r: T)
        ensures
            r == self.value(),
    {
        self.data
    }

    /// Locks the mutex: the guard gives the only access to the value for as
    /// long as it lives, and what is written through it is the mutex's value
    /// afterwards.
    pub fn lock(&mut self) -> (r: MutexGuard<'_, T>)
        ensures
            *r.data == old(self).value(),
            final(self).value() == *final(r.data),
    {
        MutexGuard { data: &mut self.data }
    }
}

/// Access to the value of a locked mutex.
pub struct MutexGuard<'m, T> {
    pub data: &'m mut T,
}

/// A first-in first-out queue of fixed capacity stored in a ring of slots.
///
/// The elements are the slots from `start` up to `end`, wrapping around at
/// the end of the ring; one slot always stays free, so that a full ring is
/// told apart from an empty one.
pub struct CircularBuffer<T> {
    buffer: Vec<Option<T>>,
    buffer_size: usize,
    start: usize,
    end: usize,
}

impl<T: Copy> CircularBuffer<T> {
    /// The number of slots of the ring.
    pub closed spec fn capacity_spec(&self) -> nat {
        self.buffer_size as nat
    }

    /// The number of elements in the ring.
    pub closed spec fn len_spec(&self) -> nat {
        if self.end >= self.start {
            (self.end - self.start) as nat
        } else {
            (self.end + self.buffer_size - self.start) as nat
        }
    }

    /// The elements, oldest first.
    pub closed spec fn view(&self) -> Seq<T> {
        Seq::new(
            self.len_spec(),
            |i: int| self.buffer@[(self.start + i) % (self.buffer_size as int)]->0,
        )
    }

    /// The ring's internal invariant.
    pub closed spec fn wf(&self) -> bool {
        &&& self.buffer@.len() == self.buffer_size
        &&& (self.buffer_size == 0 ==> self.start == 0 && self.end == 0)
        &&& (self.buffer_size > 0 ==> self.start < self.buffer_size && self.end < self.buffer_size)
        &&& forall|i: int|
            0 <= i < self.len_spec() ==> (#[trigger] self.buffer@[(self.start + i) % (
            self.buffer_size as int)]) is Some
    }

    /// An empty ring filling `pages` pages of memory: it has as many slots as
    /// elements fit in those pages.
    pub fn allocate(pages: usize) -> (r: Self)
        requires
            core::mem::size_of::<T>() > 0,
            pages * 4096 <= usize::MAX,
        ensures
            r.wf(),
            r@ == Seq::<T>::empty(),
            r.capacity_spec() == (pages * 4096) / (core::mem::size_of::<T>() as int),
    {
        let elem_size = core::mem::size_of::<T>();
        let buffer_size = pages * 4096 / elem_size;
        let mut buffer: Vec<Option<T>> = Vec::new();
        let mut i: usize = 0;
        while i < buffer_size
            invariant
                i <= buffer_size,
                buffer@.len() == i,
            decreases buffer_size - i,
        {
            buffer.push(None);
            i = i + 1;
        }
        let r = CircularBuffer { buffer, buffer_size, start: 0, end: 0 };
        assert(r@ =~= Seq::<T>::empty());
        r
    }

    /// The number of slots of the ring; at most one less can hold elements.
    pub fn capacity(&self) -> (r: usize)
        ensures
            r == self.capacity_spec(),
    {
        self.buffer_size
    }

    /// The number of elements in the ring.
    pub fn size(&self) -> (r: usize)
        requires
            self.wf(),
        ensures
            r == self@.len(),
    {
        if self.end < self.start {
            // The difference wraps around below zero; adding the number of
            // slots brings it back.
            self.end.wrapping_sub(self.start).wrapping_add(self.buffer_size)
        } else {
            self.end - self.start
        }
    }

    /// Appends a value at the back. The ring must have a free slot besides
    /// the one that always stays free.
    fn push(&mut self, value: T)
        requires
            old(self).wf(),
            old(self)@.len() + 1 < old(self).capacity_spec(),
        ensures
            final(self).wf(),
            final(self)@ == old(self)@.push(value),
            final(self).capacity_spec() == old(self).capacity_spec(),
    {
        let ghost old_view = self@;
        let ghost n = self.buffer_size as int;
        let end = self.end;
        self.buffer.set(end, Some(value));
        self.end = (end + 1) % self.buffer_size;
        proof {
            lemma_ring_push(self.start as int, end as int, n, old_view.len() as int);
            assert(self.len_spec() == old_view.len() + 1);
            assert forall|i: int| 0 <= i < self.len_spec() implies (#[trigger] self.buffer@[(
            self.start + i) % n]) is Some by {
                lemma_ring_last(self.start as int, end as int, old_view.len() as int, n);
                if i < old_view.len() {
                    lemma_ring_index_distinct(self.start as int, i, old_view.len() as int, n);
                }
            }
            assert forall|i: int| 0 <= i < self.len_spec() implies #[trigger] self@[i]
                == old_view.push(value)[i] by {
                lemma_ring_last(self.start as int, end as int, old_view.len() as int, n);
                if i < old_view.len() {
                    lemma_ring_index_distinct(self.start as int, i, old_view.len() as int, n);
                    assert(self.buffer@[(self.start + i) % n] == old(self).buffer@[(self.start + i)
                        % n]);
                    assert(old_view[i] == old(self).buffer@[(self.start + i) % n]->0);
                } else {
                    assert(self.buffer@[end as int] == Some(value));
                }
            }
            assert(self@ =~= old_view.push(value));
        }
    }

    /// Removes and returns the value at the front. The ring must not be
    /// empty.
    fn pop(&mut self) -> (r: T)
        requires
            old(self).wf(),
            old(self)@.len() > 0,
        ensures
            final(self).wf(),
            r == old(self)@[0],
            final(self)@ == old(self)@.drop_first(),
            final(self).capacity_spec() == old(self).capacity_spec(),
    {
        let ghost old_view = self@;
        let ghost n = self.buffer_size as int;
        let start = self.start;
        proof {
            assert(self.buffer@[(start + 0) % n] is Some);
            assert((start + 0) % n == start as int) by (nonlinear_arith)
                requires 0 <= start < n;
        }
        let value = self.buffer[start].unwrap();
        self.start = (start + 1) % self.buffer_size;
        proof {
            lemma_ring_pop(start as int, self.end as int, n, old_view.len() as int);
            assert forall|i: int| 0 <= i < self.len_spec() implies (#[trigger] self.buffer@[(
            self.start + i) % n]) is Some by {
                lemma_ring_shift(start as int, i, n);
                assert(old(self).buffer@[(start + (i + 1)) % n] is Some);
            }
            assert forall|i: int| 0 <= i < self.len_spec() implies #[trigger] self@[i]
                == old_view.drop_first()[i] by {
                lemma_ring_shift(start as int, i, n);
            }
            assert(self@ =~= old_view.drop_first());
        }
        value
    }
    /// Gives the writing end of the ring: the guard holds the ring for as
    /// long as it lives, and what it does to the ring is what the ring holds
    /// afterwards.
    pub fn writer(&mut self) -> (r: CircularWriteLock<'_, T>)
        ensures
            *r.buffer == *old(self),
            *final(self) == *final(r.buffer),
    {
        CircularWriteLock { buffer: self }
    }

    /// Gives the reading end of the ring: the guard holds the ring for as
    /// long as it lives, and what it does to the ring is what the ring holds
    /// afterwards.
    pub fn reader(&mut self) -> (r: CircularReadLock<'_, T>)
        ensures
            *r.buffer == *old(self),
            *final(self) == *final(r.buffer),
    {
        CircularReadLock { buffer: self }
    }
}

/// The writing end of a ring, held while values are appended.
pub struct CircularWriteLock<'a, T> {
    pub buffer: &'a mut CircularBuffer<T>,
}

impl<'a, T: Copy> CircularWriteLock<'a, T> {
    /// Appends a value at the back of the ring. The ring must have a free
    /// slot besides the one that always stays free.
    pub fn push_back(&mut self, value: T)
        requires
            old(self).buffer.wf(),
            old(self).buffer@.len() + 1 < old(self).buffer.capacity_spec(),
        ensures
            final(self).buffer.wf(),
            final(self).buffer@ == old(self).buffer@.push(value),
            final(self).buffer.capacity_spec() == old(self).buffer.capacity_spec(),
            *final(final(self).buffer) == *final(old(self).buffer),
    {
        self.buffer.push(value);
    }

    /// The number of elements in the ring.
    pub fn size(&self) -> (r: usize)
        requires
            self.buffer.wf(),
        ensures
            r == old(self.buffer)@.len(),
    {
        self.buffer.size()
    }
}

/// The reading end of a ring, held while values are taken out.
pub struct CircularReadLock<'a, T> {
    pub buffer: &'a mut CircularBuffer<T>,
}

impl<'a, T: Copy> CircularReadLock<'a, T> {
    /// Removes and returns the value at the front of the ring, which must
    /// not be empty.
    pub fn pop_front(&mut self) -> (r: T)
        requires
            old(self).buffer.wf(),
            old(self).buffer@.len() > 0,
        ensures
            final(self).buffer.wf(),
            r == old(self).buffer@[0],
            final(self).buffer@ == old(self).buffer@.drop_first(),
            final(self).buffer.capacity_spec() == old(self).buffer.capacity_spec(),
            *final(final(self).buffer) == *final(old(self).buffer),
    {
        self.buffer.pop()
    }

    /// The number of elements in the ring.
    pub fn size(&self) -> (r: usize)
        requires
            self.buffer.wf(),
        ensures
            r == old(self.buffer)@.len(),
    {
        self.buffer.size()
    }
}

/// Values leave a ring in the order they entered it: after pushing `v` onto
/// a ring holding `q`, popping gives the oldest value of `q`, or `v` if `q`
/// was empty, and leaves the rest of `q` followed by `v`.
pub proof fn lemma_ring_fifo<T>(q: Seq<T>, v: T)
    ensures
        q.len() > 0 ==> q.push(v)[0] == q[0] && q.push(v).drop_first() == q.drop_first().push(v),
        q.len() == 0 ==> q.push(v)[0] == v && q.push(v).drop_first() == q,
{
    if q.len() > 0 {
        assert(q.push(v).drop_first() =~= q.drop_first().push(v));
    } else {
        assert(q.push(v).drop_first() =~= q);
    }
}

/// The elements of a ring holding `q` after the values `vs` are pushed in
/// order.
pub open spec fn pushed_all<T>(q: Seq<T>, vs: Seq<T>) -> Seq<T>
    decreases vs.len(),
{
    if vs.len() == 0 {
        q
    } else {
        pushed_all(q, vs.drop_last()).push(vs.last())
    }
}

/// The elements of a ring holding `q` after `k` values are popped.
pub open spec fn popped<T>(q: Seq<T>, k: nat) -> Seq<T>
    decreases k,
{
    if k == 0 {
        q
    } else {
        popped(q, (k - 1) as nat).drop_first()
    }
}

/// Pushing values in order appends them.
proof fn lemma_pushed_all<T>(q: Seq<T>, vs: Seq<T>)
    ensures
        pushed_all(q, vs) == q + vs,
    decreases vs.len(),
{
    if vs.len() > 0 {
        lemma_pushed_all(q, vs.drop_last());
        assert(q + vs =~= (q + vs.drop_last()).push(vs.last()));
    } else {
        assert(q + vs =~= q);
    }
}

/// Popping `k` values drops the first `k`.
proof fn lemma_popped<T>(q: Seq<T>, k: nat)
    requires
        k <= q.len(),
    ensures
        popped(q, k) == q.skip(k as int),
    decreases k,
{
    if k == 0 {
        assert(q.skip(0) =~= q);
    } else {
        lemma_popped(q, (k - 1) as nat);
        assert(q.skip(k - 1).drop_first() =~= q.skip(k as int));
    }
}

/// Values leave a ring in the order they entered it: after the values `vs`
/// are pushed in order onto an empty ring, the ring holds `vs`; after `k`
/// of them are popped, the next pop gives `vs[k]`; after all of them are
/// popped, the ring is empty.
pub proof fn lemma_ring_fifo_all<T>(vs: Seq<T>)
    ensures
        pushed_all(Seq::empty(), vs) == vs,
        forall|k: nat| k < vs.len() ==> (#[trigger] popped(vs, k)).len() == vs.len() - k && popped(vs, k)[0] == vs[k as int],
        popped(vs, vs.len()).len() == 0,
{
    lemma_pushed_all(Seq::empty(), vs);
    assert(Seq::<T>::empty() + vs =~= vs);
    assert forall|k: nat| k < vs.len() implies (#[trigger] popped(vs, k)).len() == vs.len() - k && popped(vs, k)[0] == vs[k as int] by {
        lemma_popped(vs, k);
    }
    lemma_popped(vs, vs.len());
}

/// Distinct positions of the ring within its length are distinct slots; in
/// particular the slot after the last element holds none of them.
proof fn lemma_ring_index_distinct(start: int, i: int, len: int, n: int)
    requires
        0 <= start < n,
        0 <= i < len,
        len + 1 < n,
    ensures
        (start + i) % n != (start + len) % n,
{
    assert((start + i) % n != (start + len) % n) by (nonlinear_arith)
        requires
            0 <= start < n,
            0 <= i < len,
            len + 1 < n,
    {
        vstd::arithmetic::div_mod::lemma_fundamental_div_mod(start + i, n);
        vstd::arithmetic::div_mod::lemma_fundamental_div_mod(start + len, n);
    }
}

/// The slot after the last element is `end`.
proof fn lemma_ring_last(start: int, end: int, len: int, n: int)
    requires
        0 <= start < n,
        0 <= end < n,
        len == (if end >= start { end - start } else { end + n - start }),
    ensures
        (start + len) % n == end,
{
    if end >= start {
        vstd::arithmetic::div_mod::lemma_small_mod(end as nat, n as nat);
    } else {
        vstd::arithmetic::div_mod::lemma_mod_add_multiples_vanish(end, n);
        vstd::arithmetic::div_mod::lemma_small_mod(end as nat, n as nat);
    }
}

/// Moving the start one slot on shifts every position by one.
proof fn lemma_ring_shift(start: int, i: int, n: int)
    requires
        0 <= start < n,
        0 <= i,
    ensures
        ((start + 1) % n + i) % n == (start + (i + 1)) % n,
{
    vstd::arithmetic::div_mod::lemma_add_mod_noop_right(i, start + 1, n);
    assert(i + (start + 1) == start + (i + 1));
}

/// Pushing lengthens the ring by one.
proof fn lemma_ring_push(start: int, end: int, n: int, len: int)
    requires
        0 <= start < n,
        0 <= end < n,
        len == (if end >= start { end - start } else { end + n - start }),
        len + 1 < n,
    ensures
        ({
            let e2 = (end + 1) % n;
            (if e2 >= start { e2 - start } else { e2 + n - start }) == len + 1
        }),
{
    if end + 1 < n {
        vstd::arithmetic::div_mod::lemma_small_mod((end + 1) as nat, n as nat);
    } else {
        vstd::arithmetic::div_mod::lemma_mod_self_0(n);
    }
}

/// Popping shortens the ring by one.
proof fn lemma_ring_pop(start: int, end: int, n: int, len: int)
    requires
        0 <= start < n,
        0 <= end < n,
        len == (if end >= start { end - start } else { end + n - start }),
        len > 0,
    ensures
        ({
            let s2 = (start + 1) % n;
            (if end >= s2 { end - s2 } else { end + n - s2 }) == len - 1
        }),
{
    if start + 1 < n {
        vstd::arithmetic::div_mod::lemma_small_mod((start + 1) as nat, n as nat);
    } else {
        vstd::arithmetic::div_mod::lemma_mod_self_0(n);
    }
}

} // verus!

