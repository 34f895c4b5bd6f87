use vstd::prelude::*;

verus! {

/// Capacity a buffer takes on its first read.
pub const INITIAL_CAPACITY: usize = 4096;

/// A growable byte region with a parse cursor (`rpos`) and a drain cursor (`wpos`).
///
/// The stored bytes are exactly the bytes received or appended so far; `end`
/// is their count, and `capacity` is the size of the region offered to a read.
pub struct Buffer {
    data: Vec<u8>,
    rpos: usize,
    wpos: usize,
    capacity: usize,
}

impl Buffer {
    pub closed spec fn bytes(&self) -> Seq<u8> {
        self.data@
    }

    pub closed spec fn spec_rpos(&self) -> nat {
        self.rpos as nat
    }

    pub closed spec fn spec_wpos(&self) -> nat {
        self.wpos as nat
    }

    pub closed spec fn spec_capacity(&self) -> nat {
        self.capacity as nat
    }

    pub open spec fn spec_end(&self) -> nat {
        self.bytes().len()
    }

    /// Cursors never pass the end of the stored bytes, which never pass the capacity.
    pub open spec fn wf(&self) -> bool {
        &&& self.spec_rpos() <= self.spec_end()
        &&& self.spec_wpos() <= self.spec_end()
        &&& self.spec_end() <= self.spec_capacity()
    }

    /// The bytes not yet consumed by the parser.
    pub open spec fn unread(&self) -> Seq<u8> {
        self.bytes().subrange(self.spec_rpos() as int, self.spec_end() as int)
    }

    /// The bytes not yet drained to the socket.
    pub open spec fn unwritten_bytes(&self) -> Seq<u8> {
        self.bytes().subrange(self.spec_wpos() as int, self.spec_end() as int)
    }

    pub fn new() -> (b: Buffer)
        ensures
            b.wf(),
            b.bytes().len() == 0,
            b.spec_rpos() == 0,
            b.spec_wpos() == 0,
            b.spec_capacity() == INITIAL_CAPACITY,
    {
        Buffer { data: Vec::new(), rpos: 0, wpos: 0, capacity: INITIAL_CAPACITY }
    }

    /// Forgets all stored bytes and rewinds both cursors.
    pub fn reset(&mut self)
        requires
            old(self).wf(),
        ensures
            final(self).wf(),
            final(self).bytes().len() == 0,
            final(self).spec_rpos() == 0,
            final(self).spec_wpos() == 0,
            final(self).spec_capacity() == old(self).spec_capacity(),
    {
        self.rpos = 0;
        self.wpos = 0;
        self.data.clear();
    }

    /// Consumes one byte.
    pub fn getc(&mut self) -> (c: u8)
        requires
            old(self).wf(),
            old(self).spec_rpos() < old(self).spec_end(),
        ensures
            final(self).wf(),
            c == old(self).bytes()[old(self).spec_rpos() as int],
            final(self).spec_rpos() == old(self).spec_rpos() + 1,
            final(self).bytes() == old(self).bytes(),
            final(self).spec_wpos() == old(self).spec_wpos(),
            final(self).spec_capacity() == old(self).spec_capacity(),
    {
        let c = self.data[self.rpos];
        self.rpos = self.rpos + 1;
        c
    }

    /// Appends bytes at the end, growing the capacity to hold them.
    pub fn extend(&mut self, slice: &[u8])
        requires
            old(self).wf(),
            old(self).spec_end() + slice@.len() <= usize::MAX,
        ensures
            final(self).wf(),
            final(self).bytes() == old(self).bytes() + slice@,
            final(self).spec_rpos() == old(self).spec_rpos(),
            final(self).spec_wpos() == old(self).spec_wpos(),
            final(self).spec_capacity() == if old(self).spec_end() + slice@.len() <= old(self).spec_capacity() {
                old(self).spec_capacity()
            } else {
                old(self).spec_end() + slice@.len()
            },
    {
        let mut i: usize = 0;
        let ghost start = self.data@;
        while i < slice.len()
            invariant
                i <= slice@.len(),
                self.data@ == start + slice@.subrange(0, i as int),
                self.rpos == old(self).rpos,
                self.wpos == old(self).wpos,
                self.capacity == old(self).capacity,
                start == old(self).data@,
                start.len() + slice@.len() <= usize::MAX,
            decreases slice@.len() - i,
        {
            self.data.push(slice[i]);
            i = i + 1;
            proof {
                assert(slice@.subrange(0, i as int) == slice@.subrange(0, i - 1) + seq![slice@[i - 1]]);
            }
        }
        assert(slice@.subrange(0, slice@.len() as int) == slice@);
        if self.data.len() > self.capacity {
            self.capacity = self.data.len();
        }
    }

    /// True when the parser has consumed every stored byte.
    pub fn end(&self) -> (r: bool)
        requires
            self.wf(),
        ensures
            r == (self.spec_rpos() >= self.spec_end()),
    {
        self.rpos >= self.data.len()
    }

    /// Consumes and returns every unread byte.
    pub fn tail(&mut self) -> (r: Vec<u8>)
        requires
            old(self).wf(),
        ensures
            final(self).wf(),
            r@ == old(self).unread(),
            final(self).spec_rpos() == old(self).spec_end(),
            final(self).bytes() == old(self).bytes(),
            final(self).spec_wpos() == old(self).spec_wpos(),
            final(self).spec_capacity() == old(self).spec_capacity(),
    {
        let end = self.data.len();
        let r = copy_range(&self.data, self.rpos, end);
        self.rpos = end;
        r
    }

    /// Consumes and returns up to `len` unread bytes.
    pub fn chunk(&mut self, len: usize) -> (r: Vec<u8>)
        requires
            old(self).wf(),
        ensures
            final(self).wf(),
            r@ == old(self).unread().take(
                if len <= old(self).unread().len() { len as int } else { old(self).unread().len() as int },
            ),
            final(self).spec_rpos() == old(self).spec_rpos() + r@.len(),
            final(self).bytes() == old(self).bytes(),
            final(self).spec_wpos() == old(self).spec_wpos(),
            final(self).spec_capacity() == old(self).spec_capacity(),
    {
        let avail = self.data.len() - self.rpos;
        let n = if len <= avail { len } else { avail };
        let stop = self.rpos + n;
        let r = copy_range(&self.data, self.rpos, stop);
        self.rpos = stop;
        assert(r@ == old(self).unread().take(n as int));
        r
    }

    /// Number of unread bytes.
    pub fn len(&self) -> (r: usize)
        requires
            self.wf(),
        ensures
            r == self.unread().len(),
    {
        self.data.len() - self.rpos
    }

    pub fn wpos(&self) -> (r: usize)
        ensures
            r == self.spec_wpos(),
    {
        self.wpos
    }

    pub fn rpos(&self) -> (r: usize)
        ensures
            r == self.spec_rpos(),
    {
        self.rpos
    }

    pub fn capacity(&self) -> (r: usize)
        ensures
            r == self.spec_capacity(),
    {
        self.capacity
    }

    /// Readies the buffer for a socket read and returns how many bytes the
    /// read may deliver. Once the stored bytes fill half of the capacity, the
    /// capacity doubles first.
    pub fn reserve_read(&mut self) -> (room: usize)
        requires
            old(self).wf(),
            old(self).spec_capacity() * 2 <= usize::MAX,
        ensures
            final(self).wf(),
            final(self).bytes() == old(self).bytes(),
            final(self).spec_rpos() == old(self).spec_rpos(),
            final(self).spec_wpos() == old(self).spec_wpos(),
            final(self).spec_capacity() == if old(self).spec_end() >= old(self).spec_capacity() / 2 {
                if old(self).spec_capacity() == 0 { INITIAL_CAPACITY as nat } else { old(self).spec_capacity() * 2 }
            } else {
                old(self).spec_capacity()
            },
            room == final(self).spec_capacity() - final(self).spec_end(),
    {
        if self.data.len() >= self.capacity / 2 {
            self.capacity = if self.capacity == 0 { INITIAL_CAPACITY } else { self.capacity * 2 };
        }
        self.capacity - self.data.len()
    }

    /// Records the bytes that a socket read delivered; returns `(eof, n)`,
    /// where `eof` means that the read delivered nothing.
    pub fn complete_read(&mut self, received: &[u8]) -> (r: (bool, usize))
        requires
            old(self).wf(),
            old(self).spec_end() + received@.len() <= old(self).spec_capacity(),
        ensures
            final(self).wf(),
            final(self).bytes() == old(self).bytes() + received@,
            final(self).spec_rpos() == old(self).spec_rpos(),
            final(self).spec_wpos() == old(self).spec_wpos(),
            final(self).spec_capacity() == old(self).spec_capacity(),
            r == (received@.len() == 0, received@.len() as usize),
    {
        self.extend(received);
        (received.len() == 0, received.len())
    }

    /// The unread bytes, left unread.
    pub fn peek(&self) -> (r: Vec<u8>)
        requires
            self.wf(),
        ensures
            r@ == self.unread(),
    {
        copy_range(&self.data, self.rpos, self.data.len())
    }

    /// The bytes still to be drained to the socket.
    pub fn unwritten(&self) -> (r: Vec<u8>)
        requires
            self.wf(),
        ensures
            r@ == self.unwritten_bytes(),
    {
        copy_range(&self.data, self.wpos, self.data.len())
    }

    /// Records that a socket write took `n` bytes; returns `(drained_all, n)`.
    pub fn complete_write(&mut self, n: usize) -> (r: (bool, usize))
        requires
            old(self).wf(),
            old(self).spec_wpos() + n <= old(self).spec_end(),
        ensures
            final(self).wf(),
            final(self).bytes() == old(self).bytes(),
            final(self).spec_rpos() == old(self).spec_rpos(),
            final(self).spec_wpos() == old(self).spec_wpos() + n,
            final(self).spec_capacity() == old(self).spec_capacity(),
            r == (final(self).spec_wpos() == final(self).spec_end(), n),
    {
        self.wpos = self.wpos + n;
        (self.wpos == self.data.len(), n)
    }
}

/// Copies `v[from..to]` into a new vector.
pub fn copy_range(v: &Vec<u8>, from: usize, to: usize) -> (r: Vec<u8>)
    requires
        from <= to <= v@.len(),
    ensures
        r@ == v@.subrange(from as int, to as int),
{
    let mut r: Vec<u8> = Vec::new();
    let mut i: usize = from;
    while i < to
        invariant
            from <= i <= to <= v@.len(),
            r@ == v@.subrange(from as int, i as int),
        decreases to - i,
    {
        r.push(v[i]);
        i = i + 1;
        assert(r@ == v@.subrange(from as int, i as int));
    }
    r
}

} // verus!
