//! A fixed-capacity ring buffer of bytes that moves data between a producer
//! and a consumer.

use vstd::prelude::*;

verus! {

/// `PipeBuffer` holds bytes in arrival order; what is read in at one end is
/// written out, in the same order, at the other.
///
/// The backing storage has one slot more than the capacity, so that a full
/// buffer and an empty one differ in how `start` and `end` stand.
#[derive(Debug)]
pub struct PipeBuffer {
    // the index of the first byte of written data.
    start: usize,
    // the index of buf that new data should be written in.
    end: usize,
    buf: Vec<u8>,
}

/// The smaller of two lengths.
pub open spec fn min_len(a: int, b: int) -> int {
    if a <= b {
        a
    } else {
        b
    }
}

impl PipeBuffer {
    /// The representation invariant: both indices lie inside the storage.
    #[verifier::type_invariant]
    closed spec fn wf(&self) -> bool {
        &&& self.buf.len() >= 1
        &&& self.start < self.buf.len()
        &&& self.end < self.buf.len()
    }

    /// The bytes held, oldest first.
    pub closed spec fn view(&self) -> Seq<u8> {
        if self.start <= self.end {
            self.buf@.subrange(self.start as int, self.end as int)
        } else {
            self.buf@.subrange(self.start as int, self.buf.len() as int) + self.buf@.subrange(
                0,
                self.end as int,
            )
        }
    }

    /// The number of bytes the buffer can hold.
    pub closed spec fn spec_capacity(&self) -> nat {
        (self.buf.len() - 1) as nat
    }

    /// Creates an empty buffer that can hold `capacity` bytes.
    pub fn new(capacity: usize) -> (s: PipeBuffer)
        requires
            capacity < usize::MAX,
        ensures
            s@ == Seq::<u8>::empty(),
            s.spec_capacity() == capacity,
    {
        let mut buf: Vec<u8> = Vec::new();
        let mut i: usize = 0;
        // one extra byte to indicate if buf is full or empty.
        while i <= capacity
            invariant
                capacity < usize::MAX,
                i <= capacity + 1,
                buf.len() == i,
            decreases capacity + 1 - i,
        {
            buf.push(0u8);
            i += 1;
        }
        PipeBuffer { start: 0, end: 0, buf }
    }

    #[inline]
    pub fn len(&self) -> (n: usize)
        ensures
            n == self@.len(),
            n <= self.spec_capacity(),
    {
        proof {
            use_type_invariant(self);
        }
        if self.end >= self.start {
            self.end - self.start
        } else {
            self.buf.len() - self.start + self.end
        }
    }

    #[inline]
    pub fn capacity(&self) -> (n: usize)
        ensures
            n == self.spec_capacity(),
    {
        proof {
            use_type_invariant(self);
        }
        self.buf.len() - 1
    }

    #[inline]
    pub fn is_full(&self) -> (b: bool)
        ensures
            b == (self@.len() == self.spec_capacity()),
    {
        self.len() == self.capacity()
    }

    #[inline]
    pub fn is_empty(&self) -> (b: bool)
        ensures
            b == (self@.len() == 0),
    {
        self.len() == 0
    }

    /// The storage index that follows `i`, wrapping at the end.
    fn next_index(&self, i: usize) -> (j: usize)
        requires
            i < self.buf.len(),
        ensures
            j == if i + 1 == self.buf.len() { 0 } else { i + 1 },
    {
        if i + 1 == self.buf.len() {
            0
        } else {
            i + 1
        }
    }

    /// Appends one byte behind the written data.
    fn push_byte(&mut self, b: u8)
        requires
            old(self)@.len() < old(self).spec_capacity(),
        ensures
            final(self)@ == old(self)@.push(b),
            final(self).spec_capacity() == old(self).spec_capacity(),
    {
        proof {
            use_type_invariant(&*self);
        }
        let end = self.end;
        let next = self.next_index(end);
        self.buf[end] = b;
        self.end = next;
        assert(self@ =~= old(self)@.push(b));
    }

    /// Takes the oldest byte out.
    fn pop_byte(&mut self) -> (b: u8)
        requires
            old(self)@.len() > 0,
        ensures
            b == old(self)@[0],
            final(self)@ == old(self)@.subrange(1, old(self)@.len() as int),
            final(self).spec_capacity() == old(self).spec_capacity(),
    {
        proof {
            use_type_invariant(&*self);
        }
        let start = self.start;
        let b = self.buf[start];
        let next = self.next_index(start);
        assert(old(self)@[0] == b);
        let ghost after = if next <= self.end {
            self.buf@.subrange(next as int, self.end as int)
        } else {
            self.buf@.subrange(next as int, self.buf.len() as int) + self.buf@.subrange(
                0,
                self.end as int,
            )
        };
        assert(after =~= old(self)@.subrange(1, old(self)@.len() as int));
        self.start = next;
        b
    }

    /// The byte at offset `i` of the written data.
    fn byte_at(&self, i: usize) -> (b: u8)
        requires
            i < self@.len(),
        ensures
            b == self@[i as int],
    {
        proof {
            use_type_invariant(self);
        }
        let right = self.buf.len() - self.start;
        if i < right {
            self.buf[self.start + i]
        } else {
            self.buf[i - right]
        }
    }

    /// Ensure the capacity of inner buf not less than `capacity`.
    ///
    /// If `capacity` is larger than the current capacity, the buffer is
    /// rebuilt with exactly that capacity; the bytes held stay as they are.
    pub fn ensure(&mut self, capacity: usize)
        requires
            capacity < usize::MAX,
        ensures
            final(self)@ == old(self)@,
            final(self).spec_capacity() == if capacity <= old(self).spec_capacity() {
                old(self).spec_capacity()
            } else {
                capacity as nat
            },
    {
        if capacity <= self.capacity() {
            return ;
        }
        let held = self.len();
        let mut grown = PipeBuffer::new(capacity);
        while !self.is_empty()
            invariant
                old(self)@.len() <= old(self).spec_capacity(),
                grown@ + self@ == old(self)@,
                grown.spec_capacity() == capacity,
                self.spec_capacity() == old(self).spec_capacity(),
                old(self).spec_capacity() < capacity,
            decreases self@.len(),
        {
            let ghost rest = self@;
            let ghost moved = grown@;
            let b = self.pop_byte();
            grown.push_byte(b);
            assert(grown@ + self@ =~= moved + rest);
        }
        assert(grown@ =~= grown@ + self@);
        *self = grown;
    }

    /// Shrinks the inner buf to capacity `len`, keeping the oldest bytes that
    /// still fit.
    pub fn shrink_to(&mut self, len: usize)
        requires
            len < old(self).spec_capacity(),
        ensures
            final(self).spec_capacity() == len,
            final(self)@ == old(self)@.subrange(0, min_len(len as int, old(self)@.len() as int)),
    {
        let held = self.len();
        let cap = self.capacity();
        let to_keep = if len <= held {
            len
        } else {
            held
        };
        let mut shrunk = PipeBuffer::new(len);
        let mut i: usize = 0;
        while i < to_keep
            invariant
                i <= to_keep,
                to_keep <= len,
                to_keep <= old(self)@.len(),
                shrunk.spec_capacity() == len,
                shrunk@ == old(self)@.subrange(0, i as int),
                self@ == old(self)@.subrange(i as int, old(self)@.len() as int),
            decreases to_keep - i,
        {
            let b = self.pop_byte();
            shrunk.push_byte(b);
            i += 1;
            assert(shrunk@ =~= old(self)@.subrange(0, i as int));
            assert(self@ =~= old(self)@.subrange(i as int, old(self)@.len() as int));
        }
        *self = shrunk;
    }

    /// Reads data from `r` and fills the inner buf with as much of it as fits.
    ///
    /// Returns how many bytes were taken from the front of `r`. The capacity
    /// does not change: call a capacity-related method to adjust it.
    pub fn read_from(&mut self, r: &[u8]) -> (readed: usize)
        ensures
            readed == min_len(r@.len() as int, old(self).spec_capacity() - old(self)@.len()),
            final(self)@ == old(self)@ + r@.subrange(0, readed as int),
            final(self).spec_capacity() == old(self).spec_capacity(),
    {
        let mut readed: usize = 0;
        let held = self.len();
        let ghost room = self.spec_capacity() - self@.len();
        while readed < r.len() && !self.is_full()
            invariant
                readed <= r@.len(),
                room == old(self).spec_capacity() - old(self)@.len(),
                readed <= room,
                self@ == old(self)@ + r@.subrange(0, readed as int),
                self.spec_capacity() == old(self).spec_capacity(),
            decreases r@.len() - readed,
        {
            self.push_byte(r[readed]);
            readed += 1;
            assert(self@ =~= old(self)@ + r@.subrange(0, readed as int));
        }
        readed
    }

    /// Writes the inner buffer to `w`, oldest byte first, over the front of
    /// what `w` holds.
    ///
    /// Returns how many bytes were written: as many as the buffer held, or as
    /// `w` has room for. They leave the buffer; the rest of `w` stays.
    pub fn write_to(&mut self, w: &mut Vec<u8>) -> (written: usize)
        ensures
            written == min_len(old(self)@.len() as int, old(w)@.len() as int),
            final(w)@ == old(self)@.subrange(0, written as int) + old(w)@.subrange(
                written as int,
                old(w)@.len() as int,
            ),
            final(self)@ == old(self)@.subrange(written as int, old(self)@.len() as int),
            final(self).spec_capacity() == old(self).spec_capacity(),
    {
        let mut written: usize = 0;
        while written < w.len() && !self.is_empty()
            invariant
                written <= old(self)@.len(),
                written <= w@.len(),
                w@.len() == old(w)@.len(),
                w@ == old(self)@.subrange(0, written as int) + old(w)@.subrange(
                    written as int,
                    old(w)@.len() as int,
                ),
                self@ == old(self)@.subrange(written as int, old(self)@.len() as int),
                self.spec_capacity() == old(self).spec_capacity(),
            decreases w@.len() - written,
        {
            let b = self.pop_byte();
            w.set(written, b);
            written += 1;
            assert(w@ =~= old(self)@.subrange(0, written as int) + old(w)@.subrange(
                written as int,
                old(w)@.len() as int,
            ));
            assert(self@ =~= old(self)@.subrange(written as int, old(self)@.len() as int));
        }
        written
    }

    /// Whether the buffer holds exactly the bytes of `right`, in order.
    pub fn eq_slice(&self, right: &[u8]) -> (b: bool)
        ensures
            b == (self@ == right@),
    {
        let n = self.len();
        if n != right.len() {
            return false;
        }
        let mut i: usize = 0;
        while i < n
            invariant
                i <= n,
                n == self@.len(),
                n == right@.len(),
                forall|k: int| 0 <= k < i ==> self@[k] == right@[k],
            decreases n - i,
        {
            if self.byte_at(i) != right[i] {
                return false;
            }
            i += 1;
        }
        assert(self@ =~= right@);
        true
    }

    /// The bytes held, oldest first, copied out.
    pub fn to_vec(&self) -> (v: Vec<u8>)
        ensures
            v@ == self@,
    {
        let n = self.len();
        let mut v: Vec<u8> = Vec::new();
        let mut i: usize = 0;
        while i < n
            invariant
                i <= n,
                n == self@.len(),
                v@ == self@.subrange(0, i as int),
            decreases n - i,
        {
            v.push(self.byte_at(i));
            i += 1;
            assert(v@ =~= self@.subrange(0, i as int));
        }
        assert(v@ =~= self@);
        v
    }
}

impl PartialEq for PipeBuffer {
    /// Two buffers are equal when they hold the same bytes in the same order,
    /// wherever those lie in their storage.
    fn eq(&self, right: &PipeBuffer) -> (b: bool) {
        let n = self.len();
        if n != right.len() {
            return false;
        }
        let mut i: usize = 0;
        while i < n
            invariant
                i <= n,
                n == self@.len(),
                n == right@.len(),
                forall|k: int| 0 <= k < i ==> self@[k] == right@[k],
            decreases n - i,
        {
            if self.byte_at(i) != right.byte_at(i) {
                return false;
            }
            i += 1;
        }
        assert(self@ =~= right@);
        true
    }
}

impl vstd::std_specs::cmp::PartialEqSpecImpl for PipeBuffer {
    open spec fn obeys_eq_spec() -> bool {
        true
    }

    open spec fn eq_spec(&self, right: &PipeBuffer) -> bool {
        self@ == right@
    }
}

} // verus!
