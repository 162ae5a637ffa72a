use vstd::prelude::*;

verus! {

/// The slots of `buf` read circularly from `reader`.
spec fn window<T>(buf: Seq<T>, reader: int) -> Seq<T> {
    Seq::new(buf.len(), |i: int| buf[(reader + i) % (buf.len() as int)])
}

/// Writing one slot changes the window at that slot's index only.
proof fn lemma_window_update<T>(buf: Seq<T>, reader: int, i: int, v: T)
    requires
        0 <= reader < buf.len(),
        0 <= i < buf.len(),
    ensures
        window(buf.update((reader + i) % (buf.len() as int), v), reader) == window(buf, reader).update(i, v),
{
    let n = buf.len() as int;
    assert forall|j: int| 0 <= j < n implies #[trigger] window(buf.update((reader + i) % n, v), reader)[j]
        == window(buf, reader).update(i, v)[j] by {
        lemma_slot_of(reader, j, n);
        lemma_slot_of(reader, i, n);
    };
    assert(window(buf.update((reader + i) % n, v), reader) =~= window(buf, reader).update(i, v));
}

proof fn lemma_slot_of(reader: int, i: int, n: int)
    requires
        0 <= reader < n,
        0 <= i < n,
    ensures
        reader + i < n ==> (reader + i) % n == reader + i,
        reader + i >= n ==> (reader + i) % n == reader + i - n,
{
    let s = reader + i;
    if s >= n {
        assert(s % n == s - n) by (nonlinear_arith)
            requires n <= s < 2 * n;
    } else {
        assert(s % n == s) by (nonlinear_arith)
            requires 0 <= s < n;
    }
}

/// The window after `k` pops, each of which drops the head and appends the
/// blank value, as `RingBuffer::pop` states.
pub open spec fn after_pops<T>(w: Seq<T>, blank: T, k: nat) -> Seq<T>
    decreases k,
{
    if k == 0 {
        w
    } else {
        after_pops(w.drop_first().push(blank), blank, (k - 1) as nat)
    }
}

proof fn lemma_after_pops_index<T>(w: Seq<T>, blank: T, k: nat, i: int)
    requires
        0 <= i < w.len(),
    ensures
        after_pops(w, blank, k).len() == w.len(),
        i + k < w.len() ==> after_pops(w, blank, k)[i] == w[i + k],
        i + k >= w.len() ==> after_pops(w, blank, k)[i] == blank,
    decreases k,
{
    if k > 0 {
        let w1 = w.drop_first().push(blank);
        lemma_after_pops_index(w1, blank, (k - 1) as nat, i);
    }
}

/// A value written at window index `d` (through `get_mut`) is what the pop
/// after `d` further pops returns, provided nothing else writes that slot:
/// the head of the window after `d` pops is the written value.
pub proof fn lemma_write_then_pop<T>(w: Seq<T>, blank: T, d: nat, v: T)
    requires
        d < w.len(),
    ensures
        after_pops(w.update(d as int, v), blank, d)[0] == v,
{
    lemma_after_pops_index(w.update(d as int, v), blank, d, 0);
}

/// After `k` pops the last `k` indices of the window read as the blank
/// value: every slot a pop empties reads as blank until it is written.
pub proof fn lemma_popped_slots_blank<T>(w: Seq<T>, blank: T, k: nat, i: int)
    requires
        k <= w.len(),
        w.len() - k <= i < w.len(),
    ensures
        after_pops(w, blank, k)[i] == blank,
{
    lemma_after_pops_index(w, blank, k, i);
}

/// Fixed-capacity circular buffer with O(1) pop at the read head and O(1)
/// indexed access relative to that head.
///
/// Abstractly it is a window of `len()` values: index 0 is the value that the
/// next `pop` returns, index `i` the value that `pop` returns `i` pops later.
pub struct RingBuffer<T> {
    buffer: Vec<T>,
    reader: usize,
    blank: T,
}

impl<T> RingBuffer<T> {
    /// Well-formedness: at least one slot, and the head on one of them.
    pub closed spec fn wf(&self) -> bool {
        &&& 0 < self.buffer@.len()
        &&& self.reader < self.buffer@.len()
    }

    /// The value that fills every slot at creation and every slot that `pop`
    /// has emptied: `T::default()`, taken once when the buffer is made.
    pub closed spec fn blank(&self) -> T {
        self.blank
    }

    /// Number of slots.
    pub closed spec fn capacity(&self) -> nat {
        self.buffer@.len()
    }

    /// Physical slot that window index `i` addresses.
    pub closed spec fn slot(&self, i: int) -> int {
        (self.reader + i) % (self.buffer@.len() as int)
    }

    /// The window, read from the head.
    pub closed spec fn view(&self) -> Seq<T> {
        window(self.buffer@, self.reader as int)
    }
}

impl<T: Copy + Default> RingBuffer<T> {

    /// The window has one entry per slot.
    pub proof fn lemma_view_len(&self)
        ensures
            self@.len() == self.capacity(),
    {
    }

    /// Allocates `capacity` slots, each holding `T::default()`, with the head
    /// on the first slot.
    pub fn with_capacity(capacity: usize) -> (r: Self)
        requires
            capacity > 0,
        ensures
            r.wf(),
            r@ == Seq::new(capacity as nat, |_i: int| r.blank()),
            r.capacity() == capacity,
    {
        let blank = T::default();
        let mut buffer: Vec<T> = Vec::with_capacity(capacity);
        let mut k: usize = 0;
        while k < capacity
            invariant
                k <= capacity,
                buffer@.len() == k,
                forall|j: int| 0 <= j < k ==> buffer@[j] == blank,
            decreases capacity - k,
        {
            buffer.push(blank);
            k = k + 1;
        }
        let r = RingBuffer { buffer, reader: 0, blank };
        assert(r@ =~= Seq::new(capacity as nat, |_i: int| r.blank()));
        r
    }

    /// Returns the value at the head, leaves the blank value in its slot and
    /// moves the head one slot on.
    pub fn pop(&mut self) -> (r: T)
        requires
            old(self).wf(),
        ensures
            final(self).wf(),
            r == old(self)@[0],
            final(self)@ == old(self)@.drop_first().push(old(self).blank()),
            final(self).blank() == old(self).blank(),
            final(self).capacity() == old(self).capacity(),
    {
        let len = self.buffer.len();
        let elem = self.buffer[self.reader];
        proof { self.lemma_slot(0); }
        let blank = self.blank;
        self.buffer.set(self.reader, blank);
        let next = if self.reader + 1 == len { 0 } else { self.reader + 1 };
        self.reader = next;
        proof {
            let n = len as int;
            let expected = old(self)@.drop_first().push(old(self).blank());
            assert forall|i: int| 0 <= i < n implies #[trigger] self@[i] == expected[i] by {
                self.lemma_slot(i);
                if i < n - 1 {
                    old(self).lemma_slot(i + 1);
                } else {
                    old(self).lemma_slot(0);
                }
            };
            assert(self@ =~= expected);
        }
        elem
    }

    /// Reference to window index `index`, or `None` past the last slot.
    pub fn get(&self, index: usize) -> (r: Option<&T>)
        requires
            self.wf(),
        ensures
            index < self.capacity() ==> r == Some(&self@[index as int]),
            index >= self.capacity() ==> r is None,
    {
        let len = self.buffer.len();
        if index < len {
            let at = if index >= len - self.reader { index - (len - self.reader) } else { self.reader + index };
            proof { self.lemma_slot(index as int); }
            Some(&self.buffer[at])
        } else {
            None
        }
    }

    /// Mutable reference to window index `index`, or `None` past the last
    /// slot. A write through it changes that index of the window and nothing
    /// else.
    pub fn get_mut(&mut self, index: usize) -> (r: Option<&mut T>)
        requires
            old(self).wf(),
        ensures
            index < old(self).capacity() ==> r is Some && *r->Some_0 == old(self)@[index as int]
                && final(self).wf()
                && final(self)@ == old(self)@.update(index as int, *final(r->Some_0))
                && final(self).blank() == old(self).blank()
                && final(self).capacity() == old(self).capacity(),
            index >= old(self).capacity() ==> r is None && *final(self) == *old(self),
    {
        let len = self.buffer.len();
        if index < len {
            let at = if index >= len - self.reader { index - (len - self.reader) } else { self.reader + index };
            proof { self.lemma_slot(index as int); }
            let m = &mut self.buffer[at];
            proof {
                lemma_window_update(old(self).buffer@, self.reader as int, index as int, *final(m));
            }
            Some(m)
        } else {
            None
        }
    }

    /// Number of slots, which is fixed at creation.
    pub fn len(&self) -> (r: usize)
        requires
            self.wf(),
        ensures
            r == self.capacity(),
    {
        self.buffer.len()
    }

    proof fn lemma_slot(&self, i: int)
        requires
            0 < self.buffer@.len(),
            self.reader < self.buffer@.len(),
            0 <= i < self.buffer@.len(),
        ensures
            self.reader + i < self.buffer@.len() ==> self.slot(i) == self.reader + i,
            self.reader + i >= self.buffer@.len() ==> self.slot(i) == self.reader + i - self.buffer@.len(),
            0 <= self.slot(i) < self.buffer@.len(),
    {
        lemma_slot_of(self.reader as int, i, self.buffer@.len() as int);
    }
}

} // verus!
