//! The consumer: a forward-only read cursor walking a segmented buffer's
//! fragment sequence, surfacing contiguous spans or materializing them into
//! an owned buffer. Running out of data before the requested count is a
//! short read, not a failure: each operation reports the count actually
//! produced.

use crate::iobuf::buf_views;
use crate::iobuf::concat_all;
use crate::iobuf::frag_views;
use crate::iobuf::lemma_concat_index_range;
use crate::iobuf::lemma_prefix_len_monotone;
use crate::iobuf::prefix_len;
use crate::iobuf::lemma_concat_push;
use crate::iobuf::lemma_concat_take_succ;
use crate::iobuf::IoBuf;
use crate::temporary_buffer::TemporaryBuffer;
use vstd::prelude::*;

verus! {

/// A forward-only cursor over a buffer's fragments: the current fragment
/// index and the read position within that fragment.
pub struct IoIteratorConsumer<'a> {
    buf: &'a IoBuf,
    frag_idx: usize,
    pos: usize,
}

impl<'a> IoIteratorConsumer<'a> {
    /// How many bytes of the stream lie before the cursor.
    pub closed spec fn consumed(&self) -> int {
        concat_all(frag_views(self.buf.frags@).take(self.frag_idx as int)).len() + self.pos
    }

    /// The bytes of the stream not yet consumed.
    pub closed spec fn remaining(&self) -> Seq<u8> {
        self.buf@.skip(self.consumed())
    }

    /// Whether stream position `p` falls on a fragment boundary: the end of
    /// the bytes of some prefix of the buffer's fragments.
    pub closed spec fn at_fragment_end(&self, p: int) -> bool {
        exists|i: int|
            0 <= i <= self.buf.frags@.len() && p == concat_all(
                frag_views(self.buf.frags@).take(i),
            ).len()
    }

    /// The cursor points at a valid position of a well-formed buffer.
    pub closed spec fn wf(&self) -> bool {
        &&& self.buf.wf()
        &&& self.frag_idx <= self.buf.frags@.len()
        &&& if self.frag_idx < self.buf.frags@.len() {
            self.pos <= self.buf.frags@[self.frag_idx as int]@.len()
        } else {
            self.pos == 0
        }
        &&& 0 <= self.consumed() <= self.buf@.len()
    }

    /// A cursor positioned at the very first byte of the buffer (or
    /// exhausted immediately if the buffer is empty).
    pub fn new(buf: &'a IoBuf) -> (r: IoIteratorConsumer<'a>)
        requires
            buf.wf(),
        ensures
            r.wf(),
            r.remaining() == buf@,
    {
        let r = IoIteratorConsumer { buf, frag_idx: 0, pos: 0 };
        proof {
            assert(frag_views(buf.frags@).take(0) =~= Seq::<Seq<u8>>::empty());
            assert(r.consumed() == 0);
            if buf.frags@.len() > 0 {
                assert(buf.frags@[0].wf());
            }
            assert(r.remaining() =~= buf@);
        }
        r
    }

    /// Walks forward across fragments and hands back one zero-copy span per
    /// maximal contiguous run within a single fragment, until `n` bytes have
    /// been produced or the fragment sequence is exhausted (a short read).
    /// The spans concatenate to exactly the consumed bytes; every span is
    /// non-empty, lies within a single fragment (no span interior crosses a
    /// fragment boundary), and every span but the last ends exactly at a
    /// fragment boundary, so each fragment's run is surfaced whole.
    pub fn consume(&mut self, n: usize) -> (spans: Vec<TemporaryBuffer>)
        requires
            old(self).wf(),
        ensures
            final(self).wf(),
            concat_all(buf_views(spans@)) == old(self).remaining().take(
                if n <= old(self).remaining().len() {
                    n as int
                } else {
                    old(self).remaining().len() as int
                },
            ),
            final(self).remaining() == old(self).remaining().skip(
                if n <= old(self).remaining().len() {
                    n as int
                } else {
                    old(self).remaining().len() as int
                },
            ),
            forall|i: int|
                0 <= i < spans@.len() ==> (#[trigger] spans@[i]).wf() && spans@[i]@.len() > 0,
            old(self).remaining().len() == 0 ==> spans@.len() == 0,
            forall|k: int|
                #![trigger prefix_len(buf_views(spans@), k)]
                1 <= k < spans@.len() ==> old(self).at_fragment_end(
                    old(self).consumed() + prefix_len(buf_views(spans@), k),
                ),
            forall|k: int, p: int|
                #![trigger prefix_len(buf_views(spans@), k), old(self).at_fragment_end(p)]
                1 <= k <= spans@.len() && old(self).consumed() + prefix_len(
                    buf_views(spans@),
                    k - 1,
                ) < p < old(self).consumed() + prefix_len(buf_views(spans@), k)
                    ==> !old(self).at_fragment_end(p),
    {
        let ghost rem0 = self.remaining();
        let ghost c0 = self.consumed();
        let mut spans: Vec<TemporaryBuffer> = Vec::new();
        let mut got: usize = 0;
        while got < n && self.frag_idx < self.buf.frags.len()
            invariant
                self.wf(),
                self.buf == old(self).buf,
                rem0 == old(self).remaining(),
                c0 == old(self).consumed(),
                got <= n,
                self.consumed() == c0 + got,
                got <= rem0.len(),
                concat_all(buf_views(spans@)) == rem0.take(got as int),
                forall|i: int|
                    0 <= i < spans@.len() ==> (#[trigger] spans@[i]).wf() && spans@[i]@.len()
                        > 0,
                forall|k: int|
                    #![trigger prefix_len(buf_views(spans@), k)]
                    1 <= k < spans@.len() ==> old(self).at_fragment_end(
                        c0 + prefix_len(buf_views(spans@), k),
                    ),
                forall|k: int, p: int|
                    #![trigger prefix_len(buf_views(spans@), k), old(self).at_fragment_end(p)]
                    1 <= k <= spans@.len() && c0 + prefix_len(buf_views(spans@), k - 1) < p < c0
                        + prefix_len(buf_views(spans@), k) ==> !old(self).at_fragment_end(p),
                spans@.len() > 0 && got < n ==> old(self).at_fragment_end(c0 + got),
            decreases self.buf.frags@.len() - self.frag_idx, n - got,
        {
            let ghost fv = frag_views(self.buf.frags@);
            let ghost idx = self.frag_idx as int;
            proof {
                assert(self.buf.frags@[idx].wf());
            }
            let bufref = self.buf;
            let frag = &bufref.frags[self.frag_idx];
            let frag_len = frag.size();
            if frag_len == self.pos {
                proof {
                    lemma_concat_take_succ(fv, idx);
                }
                self.frag_idx = self.frag_idx + 1;
                self.pos = 0;
                proof {
                    if self.frag_idx < self.buf.frags@.len() {
                        assert(self.buf.frags@[self.frag_idx as int].wf());
                    }
                    assert(self.consumed() == c0 + got);
                }
            } else {
                let left = frag_len - self.pos;
                let want = n - got;
                let step = if left < want {
                    left
                } else {
                    want
                };
                let ghost p = self.pos as int;
                proof {
                    lemma_concat_index_range(fv, idx, p, p + step);
                }
                match frag.share(self.pos, step) {
                    Ok(b) => {
                        let ghost bs0 = buf_views(spans@);
                        let ghost got0 = got as int;
                        proof {
                            assert(b@ == fv[idx].subrange(p, p + step));
                            assert(concat_all(fv.take(idx)).len() + p == c0 + got);
                            assert(self.buf@.subrange(c0 + got, c0 + got + step) == b@);
                            assert(c0 + got + step <= self.buf@.len());
                            assert(rem0.take(got + step) =~= rem0.take(got as int) + b@);
                            lemma_concat_push(buf_views(spans@), b@);
                            assert(buf_views(spans@.push(b)) =~= buf_views(spans@).push(b@));
                        }
                        spans.push(b);
                        self.pos = self.pos + step;
                        got = got + step;
                        proof {
                            assert(self.consumed() == c0 + got);
                            assert(concat_all(buf_views(spans@)) == rem0.take(got as int));
                            assert forall|k: int| 0 <= k <= bs0.len() implies prefix_len(
                                buf_views(spans@),
                                k,
                            ) == prefix_len(bs0, k) by {
                                assert(buf_views(spans@).take(k) =~= bs0.take(k));
                            }
                            assert(buf_views(spans@).len() == bs0.len() + 1);
                            assert(concat_all(bs0) == rem0.take(got0));
                            assert(prefix_len(buf_views(spans@), bs0.len() as int) == got0) by {
                                assert(buf_views(spans@).take(bs0.len() as int) =~= bs0);
                                assert(got0 <= rem0.len());
                            }
                            assert(prefix_len(buf_views(spans@), buf_views(spans@).len() as int)
                                == got0 + step) by {
                                assert(buf_views(spans@).take(buf_views(spans@).len() as int)
                                    =~= buf_views(spans@));
                            }
                            assert forall|k: int|
                                1 <= k < buf_views(spans@).len() implies old(
                                self,
                            ).at_fragment_end(c0 + prefix_len(buf_views(spans@), k)) by {
                                if k < bs0.len() {
                                    assert(prefix_len(buf_views(spans@), k) == prefix_len(
                                        bs0,
                                        k,
                                    ));
                                } else {
                                    assert(k == bs0.len());
                                    assert(prefix_len(buf_views(spans@), k) == got0);
                                }
                            }
                            assert forall|k: int, q: int|
                                #![trigger prefix_len(buf_views(spans@), k), old(self).at_fragment_end(q)]
                                1 <= k <= buf_views(spans@).len() && c0 + prefix_len(
                                    buf_views(spans@),
                                    k - 1,
                                ) < q < c0 + prefix_len(buf_views(spans@), k) implies !old(
                                self,
                            ).at_fragment_end(q) by {
                                if k <= bs0.len() {
                                    assert(prefix_len(buf_views(spans@), k) == prefix_len(
                                        bs0,
                                        k,
                                    ));
                                    assert(prefix_len(buf_views(spans@), k - 1) == prefix_len(
                                        bs0,
                                        k - 1,
                                    ));
                                } else {
                                    assert(prefix_len(buf_views(spans@), k - 1) == got0);
                                    assert(prefix_len(buf_views(spans@), k) == got0 + step);
                                    if old(self).at_fragment_end(q) {
                                        let i = choose|i: int|
                                            0 <= i <= old(self).buf.frags@.len() && q
                                                == concat_all(
                                                frag_views(old(self).buf.frags@).take(i),
                                            ).len();
                                        assert(frag_views(old(self).buf.frags@) =~= fv);
                                        assert(concat_all(fv.take(i)).len() == q);
                                        if i <= idx {
                                            lemma_prefix_len_monotone(fv, i, idx);
                                            assert(q <= c0 + got0 - p);
                                        } else {
                                            lemma_concat_take_succ(fv, idx);
                                            lemma_prefix_len_monotone(fv, idx + 1, i);
                                            assert(q >= c0 + got0 + step);
                                        }
                                        assert(false);
                                    }
                                }
                            }
                            if got < n {
                                assert(step == left);
                                lemma_concat_take_succ(fv, idx);
                                assert(c0 + got == concat_all(
                                    frag_views(old(self).buf.frags@).take(idx + 1),
                                ).len());
                                assert(old(self).at_fragment_end(c0 + got));
                            }
                        }
                    },
                    Err(_) => {
                        proof {
                            assert(false);
                        }
                        vstd::pervasive::unreached()
                    },
                }
            }
        }
        proof {
            let m = if n <= rem0.len() {
                n as int
            } else {
                rem0.len() as int
            };
            if got < n {
                assert(self.frag_idx == self.buf.frags@.len());
                assert(frag_views(self.buf.frags@).take(self.frag_idx as int) =~= frag_views(
                    self.buf.frags@,
                ));
                assert(self.consumed() == self.buf@.len());
            }
            assert(rem0.len() == self.buf@.len() - c0);
            assert(got == m);
            assert(self.remaining() =~= rem0.skip(m));
        }
        spans
    }

    /// Copies up to `n` of the remaining bytes, in order, into a freshly
    /// allocated owned buffer. If fewer than `n` bytes are available the
    /// result is exactly the shorter count; its length reports the count
    /// actually produced.
    pub fn consume_to_arr(&mut self, n: usize) -> (r: Vec<u8>)
        requires
            old(self).wf(),
        ensures
            final(self).wf(),
            r@ == old(self).remaining().take(
                if n <= old(self).remaining().len() {
                    n as int
                } else {
                    old(self).remaining().len() as int
                },
            ),
            final(self).remaining() == old(self).remaining().skip(r@.len() as int),
    {
        let spans = self.consume(n);
        let ghost target = concat_all(buf_views(spans@));
        let mut r: Vec<u8> = Vec::new();
        let mut k: usize = 0;
        while k < spans.len()
            invariant
                k <= spans@.len(),
                forall|i: int|
                    0 <= i < spans@.len() ==> (#[trigger] spans@[i]).wf() && spans@[i]@.len()
                        > 0,
                target == concat_all(buf_views(spans@)),
                r@ == concat_all(buf_views(spans@).take(k as int)),
            decreases spans@.len() - k,
        {
            let sl = spans[k].as_slice();
            let m = sl.len();
            let mut j: usize = 0;
            while j < m
                invariant
                    j <= m,
                    m == sl@.len(),
                    sl@ == spans@[k as int]@,
                    k < spans@.len(),
                    r@ == concat_all(buf_views(spans@).take(k as int)) + sl@.subrange(
                        0,
                        j as int,
                    ),
                decreases m - j,
            {
                r.push(*vstd::slice::slice_index_get(sl, j));
                j = j + 1;
                proof {
                    assert(r@ =~= concat_all(buf_views(spans@).take(k as int)) + sl@.subrange(
                        0,
                        j as int,
                    ));
                }
            }
            k = k + 1;
            proof {
                lemma_concat_take_succ(buf_views(spans@), k - 1);
                assert(sl@.subrange(0, m as int) =~= sl@);
                assert(r@ == concat_all(buf_views(spans@).take(k as int)));
            }
        }
        proof {
            assert(buf_views(spans@).take(spans@.len() as int) =~= buf_views(spans@));
            assert(r@ == target);
        }
        r
    }

    /// Advances the cursor by up to `n` bytes, crossing fragment boundaries
    /// exactly as `consume` does but producing no spans, and returns the
    /// count actually skipped (short when the stream runs out first).
    pub fn skip(&mut self, n: usize) -> (r: usize)
        requires
            old(self).wf(),
        ensures
            final(self).wf(),
            r == if n <= old(self).remaining().len() {
                n as int
            } else {
                old(self).remaining().len() as int
            },
            final(self).remaining() == old(self).remaining().skip(r as int),
    {
        let ghost rem0 = self.remaining();
        let ghost c0 = self.consumed();
        let mut got: usize = 0;
        while got < n && self.frag_idx < self.buf.frags.len()
            invariant
                self.wf(),
                self.buf == old(self).buf,
                rem0 == old(self).remaining(),
                c0 == old(self).consumed(),
                got <= n,
                self.consumed() == c0 + got,
                got <= rem0.len(),
            decreases self.buf.frags@.len() - self.frag_idx, n - got,
        {
            let ghost fv = frag_views(self.buf.frags@);
            let ghost idx = self.frag_idx as int;
            proof {
                assert(self.buf.frags@[idx].wf());
            }
            let bufref = self.buf;
            let frag = &bufref.frags[self.frag_idx];
            let frag_len = frag.size();
            if frag_len == self.pos {
                proof {
                    lemma_concat_take_succ(fv, idx);
                }
                self.frag_idx = self.frag_idx + 1;
                self.pos = 0;
                proof {
                    if self.frag_idx < self.buf.frags@.len() {
                        assert(self.buf.frags@[self.frag_idx as int].wf());
                    }
                    assert(self.consumed() == c0 + got);
                }
            } else {
                let left = frag_len - self.pos;
                let want = n - got;
                let step = if left < want {
                    left
                } else {
                    want
                };
                let ghost p = self.pos as int;
                proof {
                    lemma_concat_index_range(fv, idx, p, p + step);
                    assert(concat_all(fv.take(idx)).len() + p == c0 + got);
                    assert(c0 + got + step <= self.buf@.len());
                }
                self.pos = self.pos + step;
                got = got + step;
                proof {
                    assert(self.consumed() == c0 + got);
                }
            }
        }
        proof {
            if got < n {
                assert(self.frag_idx == self.buf.frags@.len());
                assert(frag_views(self.buf.frags@).take(self.frag_idx as int) =~= frag_views(
                    self.buf.frags@,
                ));
                assert(self.consumed() == self.buf@.len());
            }
            assert(rem0.len() == self.buf@.len() - c0);
            assert(self.remaining() =~= rem0.skip(got as int));
        }
        got
    }
}

} // verus!
