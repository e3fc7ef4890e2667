use vstd::prelude::*;

verus! {

/// An in-memory buffered source. It hands out bounded chunks of the bytes
/// that remain and lets the scanner mark how much of the last chunk it
/// consumed. The chunk bound stands in for however a real stream happens to
/// arrive; the rows the reader produces do not depend on it.
pub struct BufSource {
    data: Vec<u8>,
    pos: usize,
    chunk: usize,
}

impl BufSource {
    /// The bytes this source was created over.
    pub closed spec fn spec_data(&self) -> Seq<u8> {
        self.data@
    }

    /// How many bytes have been consumed so far.
    pub closed spec fn spec_pos(&self) -> int {
        self.pos as int
    }

    /// The largest chunk this source hands out at once.
    pub closed spec fn spec_chunk(&self) -> int {
        self.chunk as int
    }

    /// The consumed prefix never passes the end, and chunks are non-empty
    /// while bytes remain.
    pub open spec fn wf(&self) -> bool {
        &&& 0 <= self.spec_pos() <= self.spec_data().len()
        &&& self.spec_data().len() <= usize::MAX
        &&& self.spec_chunk() >= 1
    }

    /// The bytes not yet consumed.
    pub open spec fn remaining(&self) -> Seq<u8> {
        self.spec_data().skip(self.spec_pos())
    }

    /// A source over `data` that hands out at most `chunk` bytes at a time.
    pub fn new(data: Vec<u8>, chunk: usize) -> (r: BufSource)
        requires
            chunk >= 1,
        ensures
            r.wf(),
            r.spec_data() == data@,
            r.spec_pos() == 0,
            r.spec_chunk() == chunk,
    {
        proof {
            assert(data@.len() == data.len());
        }
        BufSource { data, pos: 0, chunk }
    }

    /// The index the next unconsumed byte stands at.
    pub fn position(&self) -> (r: usize)
        ensures
            r == self.spec_pos(),
    {
        self.pos
    }

    /// One chunk of unconsumed bytes, as the index range `[r.0, r.1)` into
    /// the data. The range is empty exactly at end of stream, however often
    /// it is asked again.
    pub fn fill(&self) -> (r: (usize, usize))
        requires
            self.wf(),
        ensures
            r.0 == self.spec_pos(),
            r.0 <= r.1 <= self.spec_data().len(),
            r.1 - r.0 <= self.spec_chunk(),
            r.1 == if self.spec_pos() + self.spec_chunk() <= self.spec_data().len() {
                self.spec_pos() + self.spec_chunk()
            } else {
                self.spec_data().len() as int
            },
    {
        let end: usize = if self.chunk <= self.data.len() - self.pos {
            self.pos + self.chunk
        } else {
            self.data.len()
        };
        (self.pos, end)
    }

    /// Reads the byte at index `i` of the data.
    pub fn get(&self, i: usize) -> (b: u8)
        requires
            i < self.spec_data().len(),
        ensures
            b == self.spec_data()[i as int],
    {
        self.data[i]
    }

    /// Marks `n` further bytes as consumed.
    pub fn consume(&mut self, n: usize)
        requires
            old(self).wf(),
            old(self).spec_pos() + n <= old(self).spec_data().len(),
        ensures
            final(self).wf(),
            final(self).spec_data() == old(self).spec_data(),
            final(self).spec_chunk() == old(self).spec_chunk(),
            final(self).spec_pos() == old(self).spec_pos() + n,
    {
        proof {
            assert(self.data@.len() == self.data.len());
        }
        self.pos = self.pos + n;
    }
}

} // verus!
