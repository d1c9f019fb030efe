//! The segmented buffer: an ordered, append-only sequence of fragments
//! representing one logical byte stream. It grows by planning new fragment
//! capacities with the allocation-size planner; sharing produces a new
//! buffer whose fragments are zero-copy slices of the original's regions.

use crate::io_allocation_size::planned_caps;
use crate::io_allocation_size::IoAllocationSize;
use crate::io_fragment::IoFragment;
use crate::io_iterator_consumer::IoIteratorConsumer;
use crate::temporary_buffer::TemporaryBuffer;
use crate::BufError;
use vstd::prelude::*;

verus! {

/// The concatenation of a sequence of byte sequences, in order.
pub open spec fn concat_all(ss: Seq<Seq<u8>>) -> Seq<u8>
    decreases ss.len(),
{
    if ss.len() == 0 {
        Seq::empty()
    } else {
        ss.first() + concat_all(ss.drop_first())
    }
}

/// The bytes of each fragment, in order.
pub open spec fn frag_views(frags: Seq<IoFragment>) -> Seq<Seq<u8>> {
    Seq::new(frags.len(), |i: int| frags[i]@)
}

/// The bytes of each buffer handle, in order.
pub open spec fn buf_views(bufs: Seq<TemporaryBuffer>) -> Seq<Seq<u8>> {
    Seq::new(bufs.len(), |i: int| bufs[i]@)
}

pub proof fn lemma_concat_push(ss: Seq<Seq<u8>>, x: Seq<u8>)
    ensures
        concat_all(ss.push(x)) == concat_all(ss) + x,
    decreases ss.len(),
{
    if ss.len() == 0 {
        assert(ss.push(x).first() == x);
        assert(ss.push(x).drop_first() =~= Seq::<Seq<u8>>::empty());
        assert(ss =~= Seq::<Seq<u8>>::empty());
        assert(concat_all(Seq::<Seq<u8>>::empty()) == Seq::<u8>::empty());
        assert(concat_all(ss.push(x)) == x + Seq::<u8>::empty());
        assert(concat_all(ss.push(x)) =~= concat_all(ss) + x);
    } else {
        assert(ss.push(x).drop_first() =~= ss.drop_first().push(x));
        lemma_concat_push(ss.drop_first(), x);
        assert(concat_all(ss.push(x)) =~= concat_all(ss) + x);
    }
}

pub proof fn lemma_concat_split(ss: Seq<Seq<u8>>, i: int)
    requires
        0 <= i <= ss.len(),
    ensures
        concat_all(ss) == concat_all(ss.take(i)) + concat_all(ss.skip(i)),
    decreases i,
{
    if i == 0 {
        assert(ss.take(0) =~= Seq::<Seq<u8>>::empty());
        assert(ss.skip(0) =~= ss);
        assert(concat_all(ss) =~= concat_all(ss.take(0)) + concat_all(ss.skip(0)));
    } else {
        lemma_concat_split(ss.drop_first(), i - 1);
        assert(ss.take(i).drop_first() =~= ss.drop_first().take(i - 1));
        assert(ss.skip(i) =~= ss.drop_first().skip(i - 1));
        assert(concat_all(ss) =~= concat_all(ss.take(i)) + concat_all(ss.skip(i)));
    }
}

pub proof fn lemma_concat_take_succ(ss: Seq<Seq<u8>>, i: int)
    requires
        0 <= i < ss.len(),
    ensures
        concat_all(ss.take(i + 1)) == concat_all(ss.take(i)) + ss[i],
{
    assert(ss.take(i + 1) =~= ss.take(i).push(ss[i]));
    lemma_concat_push(ss.take(i), ss[i]);
}

/// The bytes of element `i` sit contiguously inside the concatenation,
/// right after the concatenation of the elements before it.
pub proof fn lemma_concat_index_range(ss: Seq<Seq<u8>>, i: int, lo: int, hi: int)
    requires
        0 <= i < ss.len(),
        0 <= lo <= hi <= ss[i].len(),
    ensures
        concat_all(ss.take(i)).len() + ss[i].len() <= concat_all(ss).len(),
        concat_all(ss).subrange(
            concat_all(ss.take(i)).len() + lo,
            concat_all(ss.take(i)).len() + hi,
        ) == ss[i].subrange(lo, hi),
{
    lemma_concat_split(ss, i);
    assert(ss.skip(i).first() == ss[i]);
    assert(ss.skip(i).drop_first() =~= ss.skip(i + 1));
    assert(concat_all(ss.skip(i)) == ss[i] + concat_all(ss.skip(i + 1)));
    let a = concat_all(ss.take(i));
    assert(concat_all(ss).subrange(a.len() + lo, a.len() + hi) =~= ss[i].subrange(lo, hi));
}

/// The number of bytes in the first `k` elements together.
pub open spec fn prefix_len(ss: Seq<Seq<u8>>, k: int) -> int {
    concat_all(ss.take(k)).len() as int
}

/// Prefix lengths grow with the number of elements taken.
pub proof fn lemma_prefix_len_monotone(ss: Seq<Seq<u8>>, i: int, j: int)
    requires
        0 <= i <= j <= ss.len(),
    ensures
        concat_all(ss.take(i)).len() <= concat_all(ss.take(j)).len(),
    decreases j - i,
{
    if i < j {
        lemma_prefix_len_monotone(ss, i, j - 1);
        lemma_concat_take_succ(ss, j - 1);
    }
}

/// A stream grown from empty by appending each chunk at the tail, in order:
/// the shape that each successful `IoBuf::append` gives the stream.
pub open spec fn grown_stream(chunks: Seq<Seq<u8>>) -> Seq<u8>
    decreases chunks.len(),
{
    if chunks.len() == 0 {
        Seq::empty()
    } else {
        grown_stream(chunks.drop_last()) + chunks.last()
    }
}

/// The total length of a sequence of chunks.
pub open spec fn total_len(chunks: Seq<Seq<u8>>) -> int
    decreases chunks.len(),
{
    if chunks.len() == 0 {
        0
    } else {
        total_len(chunks.drop_last()) + chunks.last().len()
    }
}

/// Append correctness: a stream grown from empty by any sequence of
/// appends is exactly the concatenation of the appended chunks, and its
/// length (which `size` reports) is the total of the chunk lengths; reading
/// the whole stream back, which `consume_to_arr` promises on a fresh
/// cursor, therefore reproduces the concatenation byte for byte.
pub proof fn lemma_append_stream_concat(chunks: Seq<Seq<u8>>)
    ensures
        grown_stream(chunks) == concat_all(chunks),
        grown_stream(chunks).len() == total_len(chunks),
        grown_stream(chunks).take(grown_stream(chunks).len() as int) == grown_stream(chunks),
    decreases chunks.len(),
{
    if chunks.len() == 0 {
        assert(concat_all(chunks) == Seq::<u8>::empty());
    } else {
        lemma_append_stream_concat(chunks.drop_last());
        assert(chunks =~= chunks.drop_last().push(chunks.last()));
        lemma_concat_push(chunks.drop_last(), chunks.last());
    }
    assert(grown_stream(chunks).take(grown_stream(chunks).len() as int) =~= grown_stream(
        chunks,
    ));
}

/// An append-only ordered sequence of fragments and the cached total of
/// their written bytes.
pub struct IoBuf {
    pub(crate) frags: Vec<IoFragment>,
    pub(crate) size: usize,
}

impl View for IoBuf {
    type V = Seq<u8>;

    /// The whole logical byte stream: the written bytes of every fragment,
    /// in order.
    open(crate) spec fn view(&self) -> Seq<u8> {
        concat_all(frag_views(self.frags@))
    }
}

impl IoBuf {
    /// Every fragment is well formed, the cached size matches the stream,
    /// and only the last fragment may be partially filled.
    pub open(crate) spec fn wf(&self) -> bool {
        &&& forall|i: int| 0 <= i < self.frags@.len() ==> (#[trigger] self.frags@[i]).wf()
        &&& self.size == self@.len()
        &&& forall|i: int|
            0 <= i < self.frags@.len() - 1 ==> (#[trigger] self.frags@[i]).is_full()
    }

    /// How many fragments the buffer holds.
    pub open(crate) spec fn frag_count(&self) -> int {
        self.frags@.len() as int
    }

    /// Fragment `i` of the buffer, in stream order.
    pub open(crate) spec fn frag_at(&self, i: int) -> IoFragment {
        self.frags@[i]
    }

    /// The free capacity of the tail fragment, if any.
    pub open(crate) spec fn available_spec(&self) -> int {
        if self.frags@.len() == 0 {
            0
        } else {
            self.frags@.last().available_spec()
        }
    }

    /// An empty buffer with no fragments.
    pub fn new() -> (r: IoBuf)
        ensures
            r.wf(),
            r@ == Seq::<u8>::empty(),
            r.frag_count() == 0,
            r.available_spec() == 0,
    {
        let r = IoBuf { frags: Vec::new(), size: 0 };
        proof {
            assert(frag_views(r.frags@) =~= Seq::<Seq<u8>>::empty());
        }
        r
    }

    /// The total number of bytes in the stream.
    pub fn size(&self) -> (r: usize)
        requires
            self.wf(),
        ensures
            r == self@.len(),
    {
        self.size
    }

    /// The free capacity in the tail fragment only (0 if the buffer has no
    /// fragments); only the tail can take more bytes without a new fragment.
    pub fn available_bytes(&self) -> (r: usize)
        requires
            self.wf(),
        ensures
            r == self.available_spec(),
    {
        if self.frags.len() == 0 {
            0
        } else {
            proof {
                assert(self.frags@[self.frags@.len() - 1].wf());
            }
            let last = &self.frags[self.frags.len() - 1];
            last.available_bytes()
        }
    }

    /// Append a fragment at the tail. The stream grows by the fragment's
    /// written bytes; the previous tail must have no free capacity left, so
    /// that only the last fragment is ever partially filled.
    pub fn append_fragment(&mut self, fragment: IoFragment)
        requires
            old(self).wf(),
            fragment.wf(),
            old(self).available_spec() == 0,
            old(self)@.len() + fragment@.len() <= usize::MAX,
        ensures
            final(self).wf(),
            final(self)@ == old(self)@ + fragment@,
            final(self).frag_count() == old(self).frag_count() + 1,
            final(self).frag_at(old(self).frag_count()) == fragment,
            forall|i: int|
                0 <= i < old(self).frag_count() ==> final(self).frag_at(i) == old(self).frag_at(
                    i,
                ),
            final(self).available_spec() == fragment.available_spec(),
    {
        let n = fragment.size();
        proof {
            lemma_concat_push(frag_views(self.frags@), fragment@);
        }
        self.size = self.size + n;
        self.frags.push(fragment);
        proof {
            assert(frag_views(self.frags@) =~= frag_views(old(self).frags@).push(fragment@));
            assert(self@ == old(self)@ + fragment@);
            assert forall|i: int| 0 <= i < self.frags@.len() - 1 implies (#[trigger] self
                .frags@[i]).is_full() by {
                if i == self.frags@.len() - 2 && old(self).frags@.len() > 0 {
                    assert(old(self).frags@.last().available_spec() == 0);
                }
            }
        }
    }

    /// Ingest an already-populated buffer as a new, fully-used fragment,
    /// with zero copying.
    pub fn append_temporary_buffer(&mut self, buffer: TemporaryBuffer)
        requires
            old(self).wf(),
            buffer.wf(),
            old(self).available_spec() == 0,
            old(self)@.len() + buffer@.len() <= usize::MAX,
        ensures
            final(self).wf(),
            final(self)@ == old(self)@ + buffer@,
            final(self).frag_count() == old(self).frag_count() + 1,
            final(self).available_spec() == 0,
    {
        let n = buffer.size();
        let ghost bytes = buffer@;
        let fragment = IoFragment::from_temporary_buffer(buffer, n);
        proof {
            assert(fragment@ =~= bytes);
        }
        self.append_fragment(fragment);
    }

    /// Append the first `len` bytes of `src` to the stream: the tail
    /// fragment's free capacity is filled first, then freshly planned
    /// fragments take the remainder. On success the stream grows by exactly
    /// those bytes, each copied once. Fails with `ExclusivityViolation`,
    /// leaving the stream unchanged, when the tail's region is aliased.
    pub fn append(&mut self, src: &[u8], len: usize) -> (r: Result<(), BufError>)
        requires
            old(self).wf(),
            len <= src@.len(),
            old(self)@.len() + len <= usize::MAX,
        ensures
            final(self).wf(),
            r matches Ok(()) ==> final(self)@ == old(self)@ + src@.subrange(0, len as int),
            len == 0 ==> (r matches Ok(()) && *final(self) == *old(self)),
            old(self).available_spec() == 0 ==> r matches Ok(()),
            r matches Ok(()) ==> ({
                let fill = if old(self).available_spec() < len {
                    old(self).available_spec()
                } else {
                    len as int
                };
                let caps = planned_caps(len - fill);
                &&& final(self).frag_count() == old(self).frag_count() + caps.len()
                &&& forall|j: int|
                    old(self).frag_count() <= j < old(self).frag_count() + caps.len()
                        ==> (#[trigger] final(self).frag_at(j)).capacity_spec() == caps[j - old(
                        self,
                    ).frag_count()]
            }),
            r matches Err(e) ==> {
                &&& e == BufError::ExclusivityViolation
                &&& final(self)@ == old(self)@
                &&& final(self).frag_count() == old(self).frag_count()
                &&& final(self).available_spec() == old(self).available_spec()
            },
    {
        let ghost orig = self@;
        proof {
            if self.frags@.len() > 0 {
                self.frags@[self.frags@.len() - 1].lemma_wf_bounds();
            }
            assert(self.available_spec() >= 0);
        }
        if len == 0 {
            proof {
                assert(orig + src@.subrange(0, 0) =~= orig);
                assert(planned_caps(0) =~= Seq::<int>::empty());
            }
            return Ok(());
        }
        let mut written: usize = 0;
        if self.frags.len() > 0 {
            let mut tail = self.frags.pop().unwrap();
            proof {
                assert(old(self).frags@[old(self).frags@.len() - 1].wf());
            }
            let avail = tail.available_bytes();
            if avail > 0 {
                let n = if avail < len {
                    avail
                } else {
                    len
                };
                let part = vstd::slice::slice_subrange(src, 0, n);
                let ghost tail0 = tail;
                match tail.append(part, n) {
                    Ok(_) => {
                        self.size = self.size + n;
                        self.frags.push(tail);
                        written = n;
                        proof {
                            assert(tail@ == tail0@ + src@.subrange(0, n as int));
                            assert(self.frags@ =~= old(self).frags@.drop_last().push(tail));
                            Self::lemma_tail_replaced(old(self).frags@, tail0, tail);
                            assert(self@ =~= orig + src@.subrange(0, written as int));
                            assert(self.frag_count() == old(self).frag_count());
                        }
                    },
                    Err(e) => {
                        self.frags.push(tail);
                        proof {
                            assert(tail@ == tail0@);
                            assert(self.frags@ =~= old(self).frags@.drop_last().push(tail));
                            Self::lemma_tail_replaced(old(self).frags@, tail0, tail);
                            assert(self@ =~= orig);
                        }
                        return Err(e);
                    },
                }
            } else {
                self.frags.push(tail);
                proof {
                    assert(self.frags@ =~= old(self).frags@);
                }
            }
        }
        let ghost base = self.frag_count();
        let ghost fillg = written as int;
        let ghost caps = planned_caps(len - fillg);
        let ghost mut done: Seq<int> = Seq::empty();
        proof {
            assert(base == old(self).frag_count());
            assert(fillg == if old(self).available_spec() < len {
                old(self).available_spec()
            } else {
                len as int
            });
            assert(caps =~= done + planned_caps(len - written));
        }
        while written < len
            invariant
                self.wf(),
                written <= len,
                len <= src@.len(),
                orig.len() + len <= usize::MAX,
                self@ == orig + src@.subrange(0, written as int),
                written < len ==> self.available_spec() == 0,
                base == old(self).frag_count(),
                caps == planned_caps(len - fillg),
                self.frag_count() == base + done.len(),
                forall|j: int|
                    base <= j < base + done.len() ==> (#[trigger] self.frag_at(j)).capacity_spec()
                        == done[j - base],
                caps == done + planned_caps(len - written),
            decreases len - written,
        {
            let rem = len - written;
            let cap = IoAllocationSize::next_allocation_size(rem);
            let take = if cap < rem {
                cap
            } else {
                rem
            };
            let mut v: Vec<u8> = Vec::new();
            let mut j: usize = 0;
            while j < take
                invariant
                    j <= take,
                    written + take <= len,
                    len <= src@.len(),
                    v@ == src@.subrange(written as int, written + j),
                decreases take - j,
            {
                v.push(*vstd::slice::slice_index_get(src, written + j));
                j = j + 1;
                proof {
                    assert(v@ =~= src@.subrange(written as int, written + j));
                }
            }
            while v.len() < cap
                invariant
                    take <= v@.len() <= cap,
                    len <= src@.len(),
                    written + take <= len,
                    v@.subrange(0, take as int) == src@.subrange(written as int, written + take),
                decreases cap - v@.len(),
            {
                v.push(0u8);
                proof {
                    assert(v@.subrange(0, take as int) =~= v@.drop_last().subrange(
                        0,
                        take as int,
                    ));
                }
            }
            let tb = TemporaryBuffer::from_vec(v);
            let frag = IoFragment::from_temporary_buffer(tb, take);
            let ghost plan_rest = planned_caps(rem - take);
            proof {
                assert(frag@ =~= src@.subrange(written as int, written + take));
                assert(self@.len() + frag@.len() <= usize::MAX);
                assert(planned_caps(rem as int) == seq![cap as int] + plan_rest);
                assert(caps =~= done.push(cap as int) + plan_rest);
            }
            self.append_fragment(frag);
            written = written + take;
            proof {
                done = done.push(cap as int);
                assert(self@ =~= orig + src@.subrange(0, written as int));
                if written < len {
                    assert(take == cap);
                    assert(self.available_spec() == 0);
                }
                assert(self.frag_at(base + done.len() - 1) == frag);
                assert(done[done.len() - 1] == cap as int);
                assert(frag.capacity_spec() == cap as int);
            }
        }
        proof {
            assert(planned_caps(0) =~= Seq::<int>::empty());
            assert(caps =~= done);
        }
        Ok(())
    }

    /// Shares the underlying temporary buffers: builds a new, independent
    /// buffer over the logical range `[pos, pos + len)` whose fragments are
    /// zero-copy slices of this buffer's backing regions.
    pub fn share(&self, pos: usize, len: usize) -> (r: IoBuf)
        requires
            self.wf(),
            len > 0 ==> pos + len <= self@.len(),
        ensures
            r.wf(),
            pos + len <= self@.len() ==> r@ == self@.subrange(pos as int, pos + len),
            len == 0 ==> r@ == Seq::<u8>::empty() && r.frag_count() == 0,
            r.available_spec() == 0,
    {
        if len == 0 {
            return IoBuf::new();
        }
        let ghost target = self@.subrange(pos as int, pos + len);
        let mut ret = IoBuf::new();
        let mut it = IoIteratorConsumer::new(self);
        let skipped: usize = it.skip(pos);
        proof {
            assert(skipped == pos);
        }
        let mut spans = it.consume(len);
        proof {
            assert(concat_all(buf_views(spans@)) == self@.skip(pos as int).take(len as int));
            assert(self@.skip(pos as int).take(len as int) =~= target);
            assert(ret@ + concat_all(buf_views(spans@)) =~= target);
        }
        while spans.len() > 0
            invariant
                ret.wf(),
                ret.available_spec() == 0,
                target.len() <= self@.len() <= usize::MAX,
                forall|i: int| 0 <= i < spans@.len() ==> (#[trigger] spans@[i]).wf(),
                ret@ + concat_all(buf_views(spans@)) == target,
            decreases spans@.len(),
        {
            let ghost spans0 = spans@;
            let b = spans.remove(0);
            proof {
                assert(buf_views(spans@) =~= buf_views(spans0).drop_first());
                assert(concat_all(buf_views(spans0)) == b@ + concat_all(buf_views(spans@)));
                assert(ret@.len() + b@.len() <= target.len());
            }
            ret.append_temporary_buffer(b);
            proof {
                assert(ret@ + concat_all(buf_views(spans@)) =~= target);
            }
        }
        proof {
            assert(buf_views(spans@) =~= Seq::<Seq<u8>>::empty());
            assert(ret@ =~= target);
        }
        ret
    }

    /// Replacing the tail fragment changes only the tail's contribution to
    /// the stream and keeps the rest intact.
    proof fn lemma_tail_replaced(frags: Seq<IoFragment>, tail0: IoFragment, tail1: IoFragment)
        requires
            frags.len() > 0,
            frags.last() == tail0,
        ensures
            concat_all(frag_views(frags.drop_last().push(tail1))) == concat_all(
                frag_views(frags.drop_last()),
            ) + tail1@,
            concat_all(frag_views(frags)) == concat_all(frag_views(frags.drop_last())) + tail0@,
    {
        assert(frag_views(frags.drop_last().push(tail1)) =~= frag_views(
            frags.drop_last(),
        ).push(tail1@));
        lemma_concat_push(frag_views(frags.drop_last()), tail1@);
        assert(frag_views(frags) =~= frag_views(frags.drop_last()).push(tail0@));
        lemma_concat_push(frag_views(frags.drop_last()), tail0@);
    }
}

} // verus!
