//! A generic circular buffer of fixed capacity.
//!
//! Elements are addressed by their logical index: index 0 is the oldest
//! element that is still retained. Pushing into a full buffer overwrites the
//! oldest element and hands it back to the caller.

use vstd::prelude::*;

verus! {

/// Fixed-capacity circular store.
///
/// The backing vector grows until it holds `capacity` elements and is reused
/// in place afterwards. `start` is the slot of the oldest element, `end` the
/// slot after the newest one; both being zero means that the buffer is empty.
pub struct RingBuffer<A> {
    buffer: Vec<A>,
    start: usize,
    end: usize,
    capacity: usize,
}

/// The contents after `v` is pushed onto a buffer of capacity `cap` that
/// holds `s`: `v` comes last, and a full buffer loses its oldest element.
pub open spec fn after_push<A>(s: Seq<A>, cap: nat, v: A) -> Seq<A> {
    if s.len() < cap {
        s.push(v)
    } else {
        s.push(v).skip(1)
    }
}

/// The contents after each element of `vals` is pushed in turn.
pub open spec fn after_pushes<A>(s: Seq<A>, cap: nat, vals: Seq<A>) -> Seq<A>
    decreases vals.len(),
{
    if vals.len() == 0 {
        s
    } else {
        after_push(after_pushes(s, cap, vals.drop_last()), cap, vals.last())
    }
}

/// The last `cap` elements of `s`, or all of `s` if it has fewer.
pub open spec fn newest<A>(s: Seq<A>, cap: nat) -> Seq<A> {
    if s.len() <= cap {
        s
    } else {
        s.skip(s.len() - cap)
    }
}

/// The contents after `v` is inserted at logical index `idx` into a buffer
/// of capacity `cap` that holds `s`. An index past the end changes nothing;
/// a full buffer loses the oldest element of the lengthened sequence.
pub open spec fn after_insert<A>(s: Seq<A>, cap: nat, idx: int, v: A) -> Seq<A> {
    if idx > s.len() {
        s
    } else if s.len() < cap {
        s.insert(idx, v)
    } else {
        s.insert(idx, v).skip(1)
    }
}

/// What is left of `s` when every second element is kept, beginning with the
/// second: the elements that stood at the odd positions.
pub open spec fn halved<A>(s: Seq<A>) -> Seq<A> {
    Seq::new((s.len() / 2) as nat, |k: int| s[2 * k + 1])
}

/// The slot that lies `i` positions after `start` in a ring of `cap` slots.
spec fn wrap(start: int, i: int, cap: int) -> int {
    if start + i < cap {
        start + i
    } else {
        start + i - cap
    }
}

impl<A> View for RingBuffer<A> {
    type V = Seq<A>;

    /// The retained elements, oldest first.
    closed spec fn view(&self) -> Seq<A> {
        Seq::new(
            self.spec_len(),
            |i: int| self.buffer@[wrap(self.start as int, i, self.capacity as int)],
        )
    }
}

/// Creates an empty buffer that holds at most `size` elements.
pub fn new<A>(size: usize) -> (rb: RingBuffer<A>)
    requires
        size > 0,
    ensures
        rb.wf(),
        rb@ == Seq::<A>::empty(),
        rb.spec_capacity() == size,
{
    let rb = RingBuffer { buffer: Vec::<A>::with_capacity(size), start: 0, end: 0, capacity: size };
    assert(rb@ =~= Seq::<A>::empty());
    rb
}

impl<A> RingBuffer<A> {
    /// The number of elements that the buffer can hold.
    pub closed spec fn spec_capacity(&self) -> nat {
        self.capacity as nat
    }

    spec fn spec_len(&self) -> nat {
        if self.start == 0 && self.end == 0 {
            0
        } else if self.start < self.end {
            (self.end - self.start) as nat
        } else {
            (self.capacity - self.start + self.end) as nat
        }
    }

    /// The representation invariant: both cursors lie inside the ring and
    /// every slot between them is backed by the vector.
    pub closed spec fn wf(&self) -> bool {
        &&& self.capacity >= 1
        &&& self.buffer@.len() <= self.capacity
        &&& self.start < self.capacity
        &&& self.end <= self.capacity
        &&& (self.start < self.end ==> self.end <= self.buffer@.len())
        &&& (self.start >= self.end && !(self.start == 0 && self.end == 0)
            ==> self.buffer@.len() == self.capacity)
    }

    /// The number of retained elements.
    pub fn len(&self) -> (n: usize)
        requires
            self.wf(),
        ensures
            n == self@.len(),
            n <= self.spec_capacity(),
    {
        if self.start == 0 && self.end == 0 {
            0
        } else if self.start < self.end {
            self.end - self.start
        } else {
            self.capacity - self.start + self.end
        }
    }

    /// The capacity that the buffer was created with.
    pub fn get_capacity(&self) -> (c: usize)
        ensures
            c == self.spec_capacity(),
    {
        self.capacity
    }

    /// Applies `cont` to the oldest element, if there is one.
    pub fn peek_first<B, F: Fn(&A) -> B>(&self, cont: F) -> (r: Option<B>)
        requires
            self.wf(),
            self@.len() > 0 ==> cont.requires((&self@[0],)),
        ensures
            self@.len() == 0 ==> r is None,
            self@.len() > 0 ==> r is Some && cont.ensures((&self@[0],), r.unwrap()),
    {
        if self.start == 0 && self.end == 0 {
            None
        } else {
            Some(cont(&self.buffer[self.start]))
        }
    }

    /// Applies `cont` to the newest element, if there is one.
    pub fn peek_last<B, F: Fn(&A) -> B>(&self, cont: F) -> (r: Option<B>)
        requires
            self.wf(),
            self@.len() > 0 ==> cont.requires((&self@.last(),)),
        ensures
            self@.len() == 0 ==> r is None,
            self@.len() > 0 ==> r is Some && cont.ensures((&self@.last(),), r.unwrap()),
    {
        if self.start == 0 && self.end == 0 {
            None
        } else {
            let last = if self.end == 0 {
                self.capacity - 1
            } else {
                self.end - 1
            };
            Some(cont(&self.buffer[last]))
        }
    }

    /// Appends `val` as the newest element. A full buffer gives up its oldest
    /// element to make room and returns it.
    pub fn push(&mut self, val: A) -> (displaced: Option<A>)
        requires
            old(self).wf(),
        ensures
            final(self).wf(),
            final(self).spec_capacity() == old(self).spec_capacity(),
            final(self)@.len() <= final(self).spec_capacity(),
            final(self)@ == after_push(old(self)@, old(self).spec_capacity(), val),
            displaced == (if old(self)@.len() < old(self).spec_capacity() {
                None
            } else {
                Some(old(self)@[0])
            }),
    {
        let ghost before = old(self)@;
        let ghost newest = val;
        if self.start == 0 {
            if self.end >= self.capacity {
                let mut val = val;
                core::mem::swap(&mut self.buffer[0], &mut val);
                if self.capacity > 1 {
                    self.start = 1;
                    self.end = 1;
                }
                assert(self@ =~= before.push(newest).skip(1));
                Some(val)
            } else {
                if self.end >= self.buffer.len() {
                    self.buffer.push(val);
                } else {
                    self.buffer[self.end] = val;
                }
                self.end += 1;
                assert(self@ =~= before.push(newest));
                None
            }
        } else if self.start == self.end {
            let mut val = val;
            core::mem::swap(&mut self.buffer[self.end], &mut val);
            self.end += 1;
            if self.end < self.capacity {
                self.start = self.end;
            } else {
                self.start = 0;
            }
            assert(self@ =~= before.push(newest).skip(1));
            Some(val)
        } else {
            let at = if self.end >= self.capacity {
                0
            } else {
                self.end
            };
            if at >= self.buffer.len() {
                self.buffer.push(val);
            } else {
                self.buffer[at] = val;
            }
            self.end = self.next_slot(at);
            assert(self@ =~= before.push(newest));
            None
        }
    }

    /// Replaces the element at logical index `idx` and returns the previous
    /// one. An index past the end changes nothing.
    pub fn replace(&mut self, idx: usize, val: A) -> (previous: Option<A>)
        requires
            old(self).wf(),
        ensures
            final(self).wf(),
            final(self).spec_capacity() == old(self).spec_capacity(),
            final(self)@.len() <= final(self).spec_capacity(),
            idx < old(self)@.len() ==> previous == Some(old(self)@[idx as int]) && final(self)@
                == old(self)@.update(idx as int, val),
            idx >= old(self)@.len() ==> previous is None && final(self)@ == old(self)@,
    {
        if idx < self.len() {
            let ghost before = self@;
            let ghost fresh = val;
            let dest_idx = self.slot(idx);
            let mut val = val;
            core::mem::swap(&mut self.buffer[dest_idx], &mut val);
            assert(self@ =~= before.update(idx as int, fresh));
            Some(val)
        } else {
            None
        }
    }

    /// Inserts `val` so that it follows the first `idx` elements, moving the
    /// later ones one position toward the end. An index past the end hands
    /// `val` back and changes nothing. A full buffer then gives up the
    /// oldest element of the lengthened sequence and returns it.
    pub fn insert_at(&mut self, idx: usize, val: A) -> (r: Option<A>)
        requires
            old(self).wf(),
        ensures
            final(self).wf(),
            final(self).spec_capacity() == old(self).spec_capacity(),
            final(self)@.len() <= final(self).spec_capacity(),
            final(self)@ == after_insert(old(self)@, old(self).spec_capacity(), idx as int, val),
            r == (if idx > old(self)@.len() {
                Some(val)
            } else if old(self)@.len() < old(self).spec_capacity() {
                None
            } else {
                Some(old(self)@.insert(idx as int, val)[0])
            }),
    {
        let len = self.len();
        if idx > len {
            return Some(val);
        }
        let ghost before = self@;
        let ghost fresh = val;
        if idx == len {
            assert(before.push(fresh) =~= before.insert(idx as int, fresh));
            return self.push(val);
        }
        let ghost target = before.insert(idx as int, fresh);
        let mut val = val;
        let mut write_idx = self.slot(idx);
        let mut count = len - idx;
        let ghost mut j: int = idx as int;
        assert(self@ =~= Seq::new(
            len as nat,
            |m: int|
                if m < j {
                    target[m]
                } else {
                    before[m]
                },
        ));
        while count > 0
            invariant
                self.wf(),
                self.start == old(self).start,
                self.end == old(self).end,
                self.capacity == old(self).capacity,
                self.buffer@.len() == old(self).buffer@.len(),
                len == before.len(),
                len == self.spec_len(),
                target == before.insert(idx as int, fresh),
                idx <= j <= len,
                idx < len,
                count == len - j,
                write_idx == wrap(self.start as int, j, self.capacity as int),
                val == target[j],
                self@ == Seq::new(
                    len as nat,
                    |m: int|
                        if m < j {
                            target[m]
                        } else {
                            before[m]
                        },
                ),
            decreases count,
        {
            let ghost shifted = *self;
            let ghost carried = val;
            assert(write_idx < self.capacity);
            assert(self@[j] == self.buffer@[write_idx as int]);
            core::mem::swap(&mut self.buffer[write_idx], &mut val);
            write_idx = self.next_slot(write_idx);
            count -= 1;
            proof {
                Self::lemma_store(shifted, *self, j, carried);
                j = j + 1;
                assert(self@ =~= Seq::new(
                    len as nat,
                    |m: int|
                        if m < j {
                            target[m]
                        } else {
                            before[m]
                        },
                ));
            }
        }
        assert(self@ =~= target.take(len as int));
        let ghost shifted = *self;
        let ghost carried = val;
        if self.start == 0 && self.end < self.capacity {
            self.end += 1;
        } else {
            let end_slot = if self.end >= self.capacity {
                0
            } else {
                self.end
            };
            self.end = self.next_slot(end_slot);
        }
        if len == self.capacity {
            self.start = self.next_slot(self.start);
            if self.start == self.end && self.start == 0 {
                self.end = self.capacity;
            }
        }
        if write_idx >= self.buffer.len() {
            self.buffer.push(val);
            proof {
                Self::lemma_append(shifted, *self, carried);
                assert(target.take(len as int).push(carried) =~= target);
            }
            return None;
        }
        assert(len == self.capacity ==> shifted@[0] == shifted.buffer@[write_idx as int]);
        core::mem::swap(&mut self.buffer[write_idx], &mut val);
        if len == self.capacity {
            proof {
                Self::lemma_append_full(shifted, *self, carried);
                assert(target.take(len as int).push(carried).skip(1) =~= target.skip(1));
            }
            Some(val)
        } else {
            proof {
                Self::lemma_append(shifted, *self, carried);
                assert(target.take(len as int).push(carried) =~= target);
            }
            None
        }
    }

    /// Keeps every second element, beginning with the second oldest, and
    /// discards the others.
    pub fn halve_data(&mut self)
        requires
            old(self).wf(),
        ensures
            final(self).wf(),
            final(self).spec_capacity() == old(self).spec_capacity(),
            final(self)@.len() <= final(self).spec_capacity(),
            final(self)@ == halved(old(self)@),
    {
        let len = self.len();
        let ghost before = self@;
        if len <= 1 {
            self.start = 0;
            self.end = 0;
            assert(self@ =~= halved(before));
            return ;
        }
        let new_len = len / 2;
        let mut read_idx = self.slot(1);
        let mut write_idx = self.start;
        let mut k: usize = 0;
        while k < new_len
            invariant
                self.wf(),
                self.start == old(self).start,
                self.end == old(self).end,
                self.capacity == old(self).capacity,
                self.buffer@.len() == old(self).buffer@.len(),
                before == old(self)@,
                len == before.len(),
                len >= 2,
                new_len == len / 2,
                k <= new_len,
                write_idx == wrap(self.start as int, k as int, self.capacity as int),
                read_idx < self.capacity,
                2 * k + 1 < len ==> read_idx == wrap(
                    self.start as int,
                    2 * k + 1,
                    self.capacity as int,
                ),
                forall|m: int|
                    0 <= m < k ==> self.buffer@[wrap(self.start as int, m, self.capacity as int)]
                        == before[2 * m + 1],
                forall|m: int|
                    2 * k + 1 <= m < len ==> self.buffer@[wrap(
                        self.start as int,
                        m,
                        self.capacity as int,
                    )] == before[m],
            decreases new_len - k,
        {
            swap_slots(&mut self.buffer, read_idx, write_idx);
            read_idx = self.step(read_idx, 2);
            write_idx = self.next_slot(write_idx);
            k += 1;
        }
        self.end = write_idx;
        assert(self@ =~= halved(before));
    }

    /// Evicts the `n` oldest elements, or all of them if there are no more
    /// than `n`.
    pub fn drop_first(&mut self, n: usize)
        requires
            old(self).wf(),
        ensures
            final(self).wf(),
            final(self).spec_capacity() == old(self).spec_capacity(),
            final(self)@.len() <= final(self).spec_capacity(),
            n < old(self)@.len() ==> final(self)@ == old(self)@.skip(n as int),
            n >= old(self)@.len() ==> final(self)@ == Seq::<A>::empty(),
    {
        let len = self.len();
        if n >= len {
            self.start = 0;
            self.end = 0;
            assert(self@ =~= Seq::<A>::empty());
            return ;
        }
        let ghost before = self@;
        let ghost total = n;
        let mut n = n;
        let ghost dropped: int = 0;
        while n > 0
            invariant
                self.wf(),
                self.capacity == old(self).capacity,
                dropped + n == total,
                total < before.len(),
                dropped >= 0,
                self@.len() == before.len() - dropped,
                self@ == before.skip(dropped),
            decreases n,
        {
            let ghost current = self@;
            if self.start < self.end {
                self.start += 1;
            } else {
                self.start = self.next_slot(self.start);
            }
            n -= 1;
            proof {
                dropped = dropped + 1;
                assert(self@ =~= current.skip(1));
                assert(current.skip(1) =~= before.skip(dropped));
            }
        }
    }

    /// Calls `f` with a cursor over the first `limit` elements.
    pub fn with_limited_iter<R, F>(&mut self, limit: usize, f: F) -> (r: R) where
        F: FnOnce(RingBufferViewIter<'_, A>) -> R,

        requires
            old(self).wf(),
            f.requires((cursor(old(self), Some(limit)),)),
        ensures
            *final(self) == *old(self),
            f.ensures((cursor(old(self), Some(limit)),), r),
    {
        let it = freeze(self).iter_limited(limit);
        f(it)
    }

    /// Calls `f` with a read-only handle on the buffer.
    pub fn with_view<R, F>(&mut self, f: F) -> (r: R) where
        F: FnOnce(RingBufferView<'_, A>) -> R,

        requires
            f.requires((frozen(old(self)),)),
        ensures
            *final(self) == *old(self),
            f.ensures((frozen(old(self)),), r),
    {
        let vw = freeze(self);
        f(vw)
    }

    fn slot(&self, idx: usize) -> (r: usize)
        requires
            self.wf(),
            idx <= self.capacity,
        ensures
            r == wrap(self.start as int, idx as int, self.capacity as int),
            r < self.capacity,
    {
        let room = self.capacity - self.start;
        if idx < room {
            self.start + idx
        } else {
            idx - room
        }
    }

    fn next_slot(&self, p: usize) -> (r: usize)
        requires
            self.capacity >= 1,
            p < self.capacity,
        ensures
            r == wrap(p as int, 1, self.capacity as int),
            r < self.capacity,
    {
        if p < self.capacity - 1 {
            p + 1
        } else {
            0
        }
    }

    fn step(&self, p: usize, by: usize) -> (r: usize)
        requires
            p < self.capacity,
            by <= self.capacity,
        ensures
            r == wrap(p as int, by as int, self.capacity as int),
            r < self.capacity,
    {
        let room = self.capacity - p;
        if by < room {
            p + by
        } else {
            by - room
        }
    }

    /// Storing `v` in the slot of logical index `j` changes that element of
    /// the contents and no other.
    proof fn lemma_store(a: Self, b: Self, j: int, v: A)
        requires
            a.wf(),
            0 <= j < a@.len(),
            b.start == a.start,
            b.end == a.end,
            b.capacity == a.capacity,
            b.buffer@ == a.buffer@.update(wrap(a.start as int, j, a.capacity as int), v),
        ensures
            b.wf(),
            b@ == a@.update(j, v),
    {
        assert(b@ =~= a@.update(j, v));
    }

    /// Writing `v` into the slot after the newest element of a buffer that
    /// is not full, and moving `end` past it, appends `v` to the contents.
    proof fn lemma_append(a: Self, b: Self, v: A)
        requires
            a.wf(),
            1 <= a@.len() < a.capacity,
            b.capacity == a.capacity,
            b.start == a.start,
            b.end == (if a.start == 0 && a.end < a.capacity {
                a.end + 1
            } else {
                wrap(
                    if a.end >= a.capacity {
                        0
                    } else {
                        a.end as int
                    },
                    1,
                    a.capacity as int,
                )
            }),
            b.buffer@ == (if wrap(a.start as int, a@.len() as int, a.capacity as int)
                >= a.buffer@.len() {
                a.buffer@.push(v)
            } else {
                a.buffer@.update(wrap(a.start as int, a@.len() as int, a.capacity as int), v)
            }),
        ensures
            b.wf(),
            b@ == a@.push(v),
    {
        assert(b@ =~= a@.push(v));
    }

    /// Writing `v` over the oldest element of a full buffer, and moving both
    /// cursors past it, drops that element and appends `v`.
    proof fn lemma_append_full(a: Self, b: Self, v: A)
        requires
            a.wf(),
            a@.len() == a.capacity,
            b.capacity == a.capacity,
            wrap(a.start as int, 1, a.capacity as int) == 0 ==> b.start == 0 && b.end
                == a.capacity,
            wrap(a.start as int, 1, a.capacity as int) != 0 ==> b.start == b.end && b.start
                == wrap(a.start as int, 1, a.capacity as int),
            b.buffer@ == a.buffer@.update(a.start as int, v),
        ensures
            b.wf(),
            b@ == a@.push(v).skip(1),
    {
        assert(b@ =~= a@.push(v).skip(1));
    }
}

/// Exchanges the elements in slots `a` and `b` of `v`.
fn swap_slots<A>(v: &mut Vec<A>, a: usize, b: usize)
    requires
        a < old(v)@.len(),
        b < old(v)@.len(),
    ensures
        final(v)@ == old(v)@.update(a as int, old(v)@[b as int]).update(b as int, old(v)@[a as int]),
{
    if a == b {
        assert(v@ =~= v@.update(a as int, v@[b as int]).update(b as int, v@[a as int]));
        return ;
    }
    let (lo, hi) = if a < b {
        (a, b)
    } else {
        (b, a)
    };
    let (left, right) = v.as_mut_slice().split_at_mut(hi);
    core::mem::swap(&mut left[lo], &mut right[0]);
    assert(v@ =~= old(v)@.update(a as int, old(v)@[b as int]).update(b as int, old(v)@[a as int]));
}

/// A read-only handle on a buffer, valid for as long as the buffer is
/// borrowed.
pub struct RingBufferView<'a, A> {
    ring_buffer: &'a RingBuffer<A>,
}

impl<'a, A> View for RingBufferView<'a, A> {
    type V = Seq<A>;

    /// The elements of the buffer that the handle reads, oldest first.
    closed spec fn view(&self) -> Seq<A> {
        self.ring_buffer@
    }
}

/// The handle that `freeze` returns for `ring_buffer`.
pub closed spec fn frozen<'a, A>(ring_buffer: &'a RingBuffer<A>) -> RingBufferView<'a, A> {
    RingBufferView { ring_buffer }
}

/// A handle shows the contents of the buffer that it was made for, and is
/// well formed when that buffer is.
pub proof fn lemma_frozen_view<'a, A>(ring_buffer: &'a RingBuffer<A>)
    ensures
        frozen(ring_buffer)@ == ring_buffer@,
        frozen(ring_buffer).wf() == ring_buffer.wf(),
{
}

/// Borrows `ring_buffer` for reading.
pub fn freeze<'a, A>(ring_buffer: &'a RingBuffer<A>) -> (vw: RingBufferView<'a, A>)
    ensures
        vw == frozen(ring_buffer),
        vw.source() == ring_buffer,
        vw@ == ring_buffer@,
        vw.wf() == ring_buffer.wf(),
{
    RingBufferView { ring_buffer }
}

impl<'a, A> RingBufferView<'a, A> {
    /// The buffer behind the handle is well formed.
    pub closed spec fn wf(&self) -> bool {
        self.ring_buffer.wf()
    }

    /// The buffer that the handle reads.
    pub closed spec fn source(&self) -> &'a RingBuffer<A> {
        self.ring_buffer
    }

    /// The element at logical index `idx`, if there is one.
    pub fn at(&self, idx: usize) -> (r: Option<&'a A>)
        requires
            self.wf(),
        ensures
            idx < self@.len() ==> r == Some(&self@[idx as int]),
            idx >= self@.len() ==> r is None,
    {
        if idx >= self.ring_buffer.len() {
            return None;
        }
        let idx = self.ring_buffer.slot(idx);
        Some(&self.ring_buffer.buffer[idx])
    }

    /// The number of elements that the handle shows.
    pub fn len(&self) -> (n: usize)
        requires
            self.wf(),
        ensures
            n == self@.len(),
    {
        self.ring_buffer.len()
    }

    /// A cursor over the first `limit` elements, or over all of them if
    /// there are fewer.
    pub fn iter_limited(&self, limit: usize) -> (it: RingBufferViewIter<'a, A>)
        requires
            self.wf(),
        ensures
            it == cursor(self.source(), Some(limit)),
            it.wf(),
            it@ == self@.take(limited_len(self@, Some(limit))),
    {
        proof {
            lemma_cursor_view(self.ring_buffer, Some(limit));
        }
        RingBufferViewIter {
            buffer: self.ring_buffer,
            index: 0,
            len: self.ring_buffer.len(),
            limit: Some(limit),
        }
    }

    /// A cursor over all elements, oldest first.
    pub fn into_iter(&self) -> (it: RingBufferViewIter<'a, A>)
        requires
            self.wf(),
        ensures
            it == cursor(self.source(), None),
            it.wf(),
            it@ == self@,
    {
        proof {
            lemma_cursor_view(self.ring_buffer, None);
            assert(self@.take(self@.len() as int) =~= self@);
        }
        RingBufferViewIter {
            buffer: self.ring_buffer,
            index: 0,
            len: self.ring_buffer.len(),
            limit: None,
        }
    }

    /// Gives up the handle and returns the buffer that it was reading.
    pub fn thaw(self) -> (ring_buffer: &'a RingBuffer<A>)
        ensures
            ring_buffer == self.source(),
            frozen(ring_buffer) == self,
            ring_buffer@ == self@,
            ring_buffer.wf() == self.wf(),
    {
        self.ring_buffer
    }
}

/// A cursor that walks a buffer in ascending logical order.
pub struct RingBufferViewIter<'a, A> {
    buffer: &'a RingBuffer<A>,
    index: usize,
    len: usize,
    limit: Option<usize>,
}

impl<'a, A> View for RingBufferViewIter<'a, A> {
    type V = Seq<A>;

    /// The elements that the cursor has yet to yield, in order.
    closed spec fn view(&self) -> Seq<A> {
        self.buffer@.subrange(self.index as int, self.stop())
    }
}

/// The cursor that a handle on `ring_buffer` returns: over the first `limit`
/// elements, or over all of them where `limit` is `None`.
pub closed spec fn cursor<'a, A>(
    ring_buffer: &'a RingBuffer<A>,
    limit: Option<usize>,
) -> RingBufferViewIter<'a, A> {
    RingBufferViewIter {
        buffer: ring_buffer,
        index: 0,
        len: ring_buffer.spec_len() as usize,
        limit,
    }
}

/// The number of elements that a cursor over `s` yields under `limit`.
pub open spec fn limited_len<A>(s: Seq<A>, limit: Option<usize>) -> int {
    match limit {
        Some(l) if l < s.len() => l as int,
        _ => s.len() as int,
    }
}

/// A fresh cursor on a well-formed buffer is well formed and has yet to
/// yield the elements that its limit admits.
pub proof fn lemma_cursor_view<'a, A>(ring_buffer: &'a RingBuffer<A>, limit: Option<usize>)
    requires
        ring_buffer.wf(),
    ensures
        cursor(ring_buffer, limit).wf(),
        cursor(ring_buffer, limit)@ == ring_buffer@.take(limited_len(ring_buffer@, limit)),
{
    assert(cursor(ring_buffer, limit)@ =~= ring_buffer@.take(limited_len(ring_buffer@, limit)));
}

impl<'a, A> RingBufferViewIter<'a, A> {
    spec fn stop(&self) -> int {
        match self.limit {
            Some(l) if l < self.len => l as int,
            _ => self.len as int,
        }
    }

    /// The cursor lies inside the range that it walks.
    pub closed spec fn wf(&self) -> bool {
        &&& self.buffer.wf()
        &&& self.len == self.buffer@.len()
        &&& self.index <= self.stop()
    }

    /// Yields the next element, or `None` when the cursor is exhausted.
    pub fn next(&mut self) -> (r: Option<&'a A>)
        requires
            old(self).wf(),
        ensures
            final(self).wf(),
            old(self)@.len() == 0 ==> r is None && final(self)@ == old(self)@,
            old(self)@.len() > 0 ==> r == Some(&old(self)@[0]) && final(self)@ == old(self)@.skip(
                1,
            ),
    {
        let limited = match self.limit {
            Some(l) => self.index >= l,
            None => false,
        };
        if self.index >= self.len || limited {
            return None;
        }
        let idx = self.buffer.slot(self.index);
        self.index += 1;
        assert(self@ =~= old(self)@.skip(1));
        Some(&self.buffer.buffer[idx])
    }
}

/// The number of retained elements never exceeds the capacity, and the
/// capacity is at least one. Every operation of the buffer returns a
/// well-formed buffer, so this holds after every call.
pub proof fn lemma_capacity_invariant<A>(rb: &RingBuffer<A>)
    requires
        rb.wf(),
    ensures
        0 <= rb@.len() <= rb.spec_capacity(),
        rb.spec_capacity() >= 1,
{
}

/// Pushing never lengthens the contents beyond the capacity.
pub proof fn lemma_push_bounded<A>(s: Seq<A>, cap: nat, v: A)
    requires
        s.len() <= cap,
        cap >= 1,
    ensures
        after_push(s, cap, v).len() <= cap,
        after_push(s, cap, v).last() == v,
{
}

/// After any run of pushes the buffer holds the newest elements, in the
/// order in which they were pushed: the last `cap` of what it held before
/// followed by what was pushed.
pub proof fn lemma_pushes_keep_newest<A>(s: Seq<A>, cap: nat, vals: Seq<A>)
    requires
        s.len() <= cap,
        cap >= 1,
    ensures
        after_pushes(s, cap, vals) == newest(s + vals, cap),
    decreases vals.len(),
{
    if vals.len() == 0 {
        assert(s + vals =~= s);
    } else {
        let front = vals.drop_last();
        lemma_pushes_keep_newest(s, cap, front);
        assert((s + front).push(vals.last()) =~= s + vals);
        assert(after_push(newest(s + front, cap), cap, vals.last()) =~= newest(s + vals, cap));
    }
}

/// Pushing onto a full buffer returns the oldest element, and as soon as at
/// least `cap` elements were pushed the buffer holds exactly the last `cap`
/// of them.
pub proof fn lemma_overwrite_keeps_last_pushed<A>(s: Seq<A>, cap: nat, vals: Seq<A>)
    requires
        s.len() <= cap,
        cap >= 1,
        vals.len() >= cap,
    ensures
        after_pushes(s, cap, vals) == vals.skip(vals.len() - cap),
{
    lemma_pushes_keep_newest(s, cap, vals);
    assert(newest(s + vals, cap) =~= vals.skip(vals.len() - cap));
}

/// Where an insertion at `idx` finds room, the new element stands at `idx`,
/// the elements before it keep their index and the elements from `idx` on
/// move up by one. Where the buffer is full, the oldest element of that
/// sequence is evicted, so every index is one less: the new element stands
/// at `idx - 1`, and an insertion at index 0 evicts the new element itself.
pub proof fn lemma_insert_positions<A>(s: Seq<A>, cap: nat, idx: int, v: A)
    requires
        0 <= idx <= s.len() <= cap,
    ensures
        s.len() < cap ==> {
            let t = after_insert(s, cap, idx, v);
            &&& t.len() == s.len() + 1
            &&& t[idx] == v
            &&& forall|k: int| 0 <= k < idx ==> t[k] == s[k]
            &&& forall|k: int| idx < k <= s.len() ==> t[k] == s[k - 1]
        },
        s.len() == cap ==> {
            let t = after_insert(s, cap, idx, v);
            &&& t.len() == s.len()
            &&& idx >= 1 ==> t[idx - 1] == v
            &&& forall|k: int| 0 <= k < idx - 1 ==> t[k] == s[k + 1]
            &&& forall|k: int| idx <= k < s.len() ==> t[k] == s[k]
            &&& idx == 0 ==> t == s
        },
{
    if s.len() == cap && idx == 0 {
        assert(after_insert(s, cap, idx, v) =~= s);
    }
}

/// Halving keeps half of the elements, rounded down: those that stood at
/// the odd logical indices, in their order.
pub proof fn lemma_halved<A>(s: Seq<A>)
    ensures
        halved(s).len() == s.len() / 2,
        forall|k: int| 0 <= k < s.len() / 2 ==> halved(s)[k] == s[2 * k + 1],
        s.len() <= 1 ==> halved(s) == Seq::<A>::empty(),
{
    if s.len() <= 1 {
        assert(halved(s) =~= Seq::<A>::empty());
    }
}

} // verus!
