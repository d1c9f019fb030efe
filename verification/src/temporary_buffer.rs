//! The shared region: reference-counted ownership of one contiguous heap
//! allocation, with full and partial aliasing (slicing).
//!
//! Every handle produced by `share` or `share_slice` participates in one
//! reference-counted group over the same backing allocation; the allocation
//! is freed exactly once, when the last handle of the group is dropped. A
//! handle sees the backing bytes through its own `(offset, len)` window.
//! Mutation is permitted only while the handle is the group's sole member,
//! so the bytes a handle can see never change behind its back.

use crate::BufError;
use std::sync::Arc;
use vstd::prelude::*;

verus! {

/// One window into a shared, reference-counted byte allocation.
pub struct TemporaryBuffer {
    data: Arc<Vec<u8>>,
    offset: usize,
    len: usize,
}

/// Relies on `Arc::clone`: the new handle points at the same allocation and
/// holds the same value; the clone aborts the process if the reference count
/// would saturate (the deliberate safety valve against pathological
/// over-cloning).
#[verifier::external_body]
fn backing_clone(data: &Arc<Vec<u8>>) -> (r: Arc<Vec<u8>>)
    ensures
        r@ == data@,
{
    Arc::clone(data)
}

/// Relies on `Arc::strong_count`: the number of handles in this group. At
/// least this handle exists, so the count is at least one; other threads may
/// change it at any moment, so nothing more is promised.
#[verifier::external_body]
fn backing_ref_count(data: &Arc<Vec<u8>>) -> (r: usize)
    ensures
        r >= 1,
{
    Arc::strong_count(data)
}

/// Relies on `Arc::get_mut`: mutable access is handed out only while this is
/// the sole handle to the allocation, so a successful write is exclusive and
/// no other handle can observe the bytes changing. `Arc::get_mut` performs
/// the acquire synchronization against sibling handles that have dropped.
#[verifier::external_body]
fn backing_write_byte(data: &mut Arc<Vec<u8>>, i: usize, b: u8) -> (r: bool)
    requires
        i < old(data)@.len(),
    ensures
        r ==> final(data)@ == old(data)@.update(i as int, b),
        !r ==> final(data)@ == old(data)@,
{
    match Arc::get_mut(data) {
        Some(v) => {
            v[i] = b;
            true
        },
        None => false,
    }
}

impl View for TemporaryBuffer {
    type V = Seq<u8>;

    /// The bytes visible through this handle's window.
    closed spec fn view(&self) -> Seq<u8> {
        self.data@.subrange(self.offset as int, self.offset + self.len)
    }
}

impl TemporaryBuffer {
    /// The window lies inside the backing allocation.
    pub closed spec fn wf(&self) -> bool {
        self.offset + self.len <= self.data@.len()
    }

    /// Where the window begins within the backing allocation.
    pub closed spec fn start(&self) -> usize {
        self.offset
    }

    /// Creates a temporary buffer of a specified size, in bytes, zero-filled.
    pub fn new(size: usize) -> (r: TemporaryBuffer)
        ensures
            r.wf(),
            r@ == Seq::new(size as nat, |i: int| 0u8),
            r.start() == 0,
    {
        let mut v: Vec<u8> = Vec::new();
        let mut i: usize = 0;
        while i < size
            invariant
                i <= size,
                v@ == Seq::new(i as nat, |j: int| 0u8),
            decreases size - i,
        {
            v.push(0u8);
            i = i + 1;
            proof {
                assert(v@ =~= Seq::new(i as nat, |j: int| 0u8));
            }
        }
        let r = TemporaryBuffer { data: Arc::new(v), offset: 0, len: size };
        proof {
            assert(r@ =~= Seq::new(size as nat, |i: int| 0u8));
        }
        r
    }

    /// Creates a temporary buffer containing a copy of the provided data.
    pub fn new_and_copy_data(data: &[u8]) -> (r: TemporaryBuffer)
        ensures
            r.wf(),
            r@ == data@,
            r.start() == 0,
    {
        let v = vstd::slice::slice_to_vec(data);
        let n = data.len();
        let r = TemporaryBuffer { data: Arc::new(v), offset: 0, len: n };
        proof {
            assert(r@ =~= data@);
        }
        r
    }

    /// Wraps an already-filled byte vector without copying it.
    pub fn from_vec(bytes: Vec<u8>) -> (r: TemporaryBuffer)
        ensures
            r.wf(),
            r@ == bytes@,
            r.start() == 0,
    {
        let n = bytes.len();
        let r = TemporaryBuffer { data: Arc::new(bytes), offset: 0, len: n };
        proof {
            assert(r@ =~= bytes@);
        }
        r
    }

    /// How many bytes the window holds.
    pub fn size(&self) -> (r: usize)
        requires
            self.wf(),
        ensures
            r == self@.len(),
    {
        self.len
    }

    /// The number of handles currently sharing this group's allocation.
    pub fn get_ref_count(&self) -> (r: usize)
        ensures
            r >= 1,
    {
        backing_ref_count(&self.data)
    }

    /// Create a new temporary buffer referring to the same underlying data.
    /// The underlying allocation will not be destroyed until both the
    /// original and the clone have been destroyed.
    pub fn share(&self) -> (r: TemporaryBuffer)
        requires
            self.wf(),
        ensures
            r.wf(),
            r@ == self@,
            r.start() == self.start(),
    {
        TemporaryBuffer { data: backing_clone(&self.data), offset: self.offset, len: self.len }
    }

    /// Create a new temporary buffer referring to a substring of the same
    /// underlying data. The underlying allocation will not be destroyed
    /// until both the original and the clone have been destroyed. Fails with
    /// `OutOfBounds` when the requested window does not lie inside this one.
    pub fn share_slice(&self, pos: usize, len: usize) -> (r: Result<TemporaryBuffer, BufError>)
        requires
            self.wf(),
        ensures
            pos + len <= self@.len() ==> match r {
                Ok(b) => b.wf() && b@ == self@.subrange(pos as int, pos + len)
                    && b.start() == self.start() + pos,
                Err(_) => false,
            },
            pos + len > self@.len() ==> (r matches Err(e) && e == BufError::OutOfBounds),
    {
        proof {
            vstd::std_specs::vec::axiom_spec_len(&*self.data);
        }
        if pos <= self.len && len <= self.len - pos {
            let b = TemporaryBuffer {
                data: backing_clone(&self.data),
                offset: self.offset + pos,
                len,
            };
            proof {
                assert(b@ =~= self@.subrange(pos as int, pos + len));
            }
            Ok(b)
        } else {
            Err(BufError::OutOfBounds)
        }
    }

    /// Reads the data in the window as an immutable slice.
    pub fn as_slice(&self) -> (r: &[u8])
        requires
            self.wf(),
        ensures
            r@ == self@,
    {
        proof {
            vstd::std_specs::vec::axiom_spec_len(&*self.data);
        }
        vstd::slice::slice_subrange(self.data.as_slice(), self.offset, self.offset + self.len)
    }

    /// Where the window begins within the backing allocation.
    pub fn begin(&self) -> (r: usize)
        ensures
            r == self.start(),
    {
        self.offset
    }

    /// Reports whether this handle currently has exclusive write access,
    /// that is, whether it is the only member of its reference-counted
    /// group. Use only when you are certain no user expects the buffer data
    /// not to change.
    pub fn get_write(&self) -> bool {
        backing_ref_count(&self.data) == 1
    }

    /// Copies `src` into the window starting at `at`. Succeeds only while
    /// this handle is the group's sole member; otherwise fails with
    /// `ExclusivityViolation`, and the bytes outside `[at, at + src.len())`
    /// are untouched either way.
    pub fn write_from(&mut self, at: usize, src: &[u8]) -> (r: Result<(), BufError>)
        requires
            old(self).wf(),
            at + src@.len() <= old(self)@.len(),
        ensures
            final(self).wf(),
            final(self).start() == old(self).start(),
            final(self)@.len() == old(self)@.len(),
            forall|i: int|
                0 <= i < old(self)@.len() && !(at <= i < at + src@.len())
                    ==> final(self)@[i] == old(self)@[i],
            r matches Ok(()) ==> final(self)@ == old(self)@.subrange(0, at as int) + src@
                + old(self)@.subrange(at + src@.len(), old(self)@.len() as int),
            r matches Err(e) ==> e == BufError::ExclusivityViolation,
            src@.len() == 0 ==> r matches Ok(()),
    {
        let ghost orig = self@;
        let n = src.len();
        let mut i: usize = 0;
        while i < n
            invariant
                self.wf(),
                self.start() == old(self).start(),
                orig == old(self)@,
                i <= n,
                n == src@.len(),
                at + n <= self@.len(),
                self@.len() == orig.len(),
                forall|j: int| 0 <= j < orig.len() && !(at <= j < at + i) ==> self@[j] == orig[j],
                forall|j: int| at <= j < at + i ==> self@[j] == src@[j - at],
            decreases n - i,
        {
            proof {
                vstd::std_specs::vec::axiom_spec_len(&*self.data);
            }
            let b = *vstd::slice::slice_index_get(src, i);
            let ghost prev = self@;
            let ghost prev_data = self.data@;
            let ghost idx = self.offset + at + i;
            let ok = backing_write_byte(&mut self.data, self.offset + at + i, b);
            if !ok {
                return Err(BufError::ExclusivityViolation);
            }
            proof {
                assert(self.data@ == prev_data.update(idx as int, b));
                assert forall|j: int| 0 <= j < orig.len() implies self@[j] == (if j == at + i {
                    b
                } else {
                    prev[j]
                }) by {
                    assert(self@[j] == self.data@[self.offset + j]);
                    assert(prev[j] == prev_data[self.offset + j]);
                }
            }
            i = i + 1;
        }
        proof {
            assert(self@ =~= orig.subrange(0, at as int) + src@
                + orig.subrange(at + src@.len(), orig.len() as int));
        }
        Ok(())
    }

    /// Checks whether the buffer is empty.
    pub fn is_empty(&self) -> (r: bool)
        requires
            self.wf(),
        ensures
            r == (self@.len() == 0),
    {
        self.len == 0
    }
}

} // verus!
