//! The fragment: a bounded write cursor over exactly one shared region,
//! tracking how many bytes of the region have been written so far.

use crate::temporary_buffer::TemporaryBuffer;
use crate::BufError;
use vstd::prelude::*;

verus! {

/// One shared region plus a count of the bytes written into it. The view is
/// the written prefix of the region.
pub struct IoFragment {
    buf: TemporaryBuffer,
    used_bytes: usize,
}

impl View for IoFragment {
    type V = Seq<u8>;

    /// The bytes written into this fragment so far.
    closed spec fn view(&self) -> Seq<u8> {
        self.buf@.subrange(0, self.used_bytes as int)
    }
}

impl IoFragment {
    /// The write count stays inside the region.
    pub closed spec fn wf(&self) -> bool {
        self.buf.wf() && self.used_bytes <= self.buf@.len()
    }

    /// How many bytes the underlying region can hold in total.
    pub closed spec fn capacity_spec(&self) -> int {
        self.buf@.len() as int
    }

    /// How much free capacity is left.
    pub open spec fn available_spec(&self) -> int {
        self.capacity_spec() - self@.len()
    }

    /// A fragment with no free capacity left.
    pub open spec fn is_full(&self) -> bool {
        self@.len() == self.capacity_spec()
    }

    /// Where the region's window begins within its backing allocation.
    pub closed spec fn start_spec(&self) -> usize {
        self.buf.start()
    }

    /// A well-formed fragment's written prefix fits its capacity.
    pub proof fn lemma_wf_bounds(&self)
        requires
            self.wf(),
        ensures
            0 <= self@.len() <= self.capacity_spec(),
    {
    }

    /// A fresh, empty fragment over a newly allocated region of exactly
    /// `size` bytes.
    pub fn new(size: usize) -> (r: IoFragment)
        ensures
            r.wf(),
            r@ == Seq::<u8>::empty(),
            r.capacity_spec() == size,
    {
        let r = IoFragment { buf: TemporaryBuffer::new(size), used_bytes: 0 };
        proof {
            assert(r@ =~= Seq::<u8>::empty());
        }
        r
    }

    /// Initialize a fragment from the provided temporary buffer. The amount
    /// of pre-existing valid data is supplied explicitly as `already_used`.
    pub fn from_temporary_buffer(buffer: TemporaryBuffer, already_used: usize) -> (r: IoFragment)
        requires
            buffer.wf(),
            already_used <= buffer@.len(),
        ensures
            r.wf(),
            r@ == buffer@.take(already_used as int),
            r.capacity_spec() == buffer@.len(),
    {
        let r = IoFragment { buf: buffer, used_bytes: already_used };
        proof {
            assert(r@ =~= buffer@.take(already_used as int));
        }
        r
    }

    /// Where the region's window begins within its backing allocation.
    pub fn get_start(&self) -> (r: usize)
        ensures
            r == self.start_spec(),
    {
        self.buf.begin()
    }

    /// How many bytes have been written into this fragment.
    pub fn used_bytes(&self) -> (r: usize)
        requires
            self.wf(),
        ensures
            r == self@.len(),
    {
        self.used_bytes
    }

    /// Whether nothing has been written yet.
    pub fn is_empty(&self) -> (r: bool)
        requires
            self.wf(),
        ensures
            r == (self@.len() == 0),
    {
        self.used_bytes == 0
    }

    /// How much free capacity is left.
    pub fn available_bytes(&self) -> (r: usize)
        requires
            self.wf(),
        ensures
            r == self.available_spec(),
    {
        self.buf.size() - self.used_bytes
    }

    /// How much data is taken.
    pub fn size(&self) -> (r: usize)
        requires
            self.wf(),
        ensures
            r == self@.len(),
    {
        self.used_bytes
    }

    /// How much the temporary buffer can hold.
    pub fn capacity(&self) -> (r: usize)
        requires
            self.wf(),
        ensures
            r == self.capacity_spec(),
    {
        self.buf.size()
    }

    /// Copies the first `len` bytes of `src` into the free capacity, as many
    /// of them as fit, and returns how many bytes were appended. Fails with
    /// `ExclusivityViolation`, leaving the written prefix untouched, when the
    /// region is currently aliased.
    pub fn append(&mut self, src: &[u8], len: usize) -> (r: Result<usize, BufError>)
        requires
            old(self).wf(),
            len <= src@.len(),
        ensures
            final(self).wf(),
            final(self).capacity_spec() == old(self).capacity_spec(),
            r matches Ok(n) ==> {
                &&& n == if old(self).available_spec() < len {
                    old(self).available_spec()
                } else {
                    len as int
                }
                &&& final(self)@ == old(self)@ + src@.subrange(0, n as int)
            },
            r matches Err(e) ==> e == BufError::ExclusivityViolation && final(self)@
                == old(self)@,
            len == 0 || old(self).available_spec() == 0 ==> r is Ok,
    {
        let avail = self.buf.size() - self.used_bytes;
        let n = if avail < len {
            avail
        } else {
            len
        };
        let part = vstd::slice::slice_subrange(src, 0, n);
        let ghost prev_buf = self.buf@;
        match self.buf.write_from(self.used_bytes, part) {
            Ok(()) => {
                self.used_bytes = self.used_bytes + n;
                proof {
                    assert(self@ =~= old(self)@ + src@.subrange(0, n as int));
                }
                Ok(n)
            },
            Err(e) => {
                proof {
                    assert(self@ =~= old(self)@);
                }
                Err(e)
            },
        }
    }

    /// A zero-copy slice over `[pos, pos + len)` of the already-written
    /// bytes; `OutOfBounds` when that range leaves the written prefix.
    pub fn share(&self, pos: usize, len: usize) -> (r: Result<TemporaryBuffer, BufError>)
        requires
            self.wf(),
        ensures
            pos + len <= self@.len() ==> match r {
                Ok(b) => b.wf() && b@ == self@.subrange(pos as int, pos + len) && b.start()
                    == self.start_spec() + pos,
                Err(_) => false,
            },
            pos + len > self@.len() ==> (r matches Err(e) && e == BufError::OutOfBounds),
    {
        if pos <= self.used_bytes && len <= self.used_bytes - pos {
            match self.buf.share_slice(pos, len) {
                Ok(b) => {
                    proof {
                        assert(b@ =~= self@.subrange(pos as int, pos + len));
                    }
                    Ok(b)
                },
                Err(_) => vstd::pervasive::unreached(),
            }
        } else {
            Err(BufError::OutOfBounds)
        }
    }

    /// A zero-copy slice over everything written so far.
    pub fn share_whole(&self) -> (r: TemporaryBuffer)
        requires
            self.wf(),
        ensures
            r.wf(),
            r@ == self@,
    {
        match self.share(0, self.used_bytes) {
            Ok(b) => {
                proof {
                    assert(self@.subrange(0, self@.len() as int) =~= self@);
                }
                b
            },
            Err(_) => vstd::pervasive::unreached(),
        }
    }
}

} // verus!
