//! Adaptive Batcher: accumulates canonical PCM samples and releases
//! fixed-size chunks, smoothing the highly variable frame sizes that
//! hardware callbacks deliver.
//!
//! The chunk size is one quarter second of audio at the outbound sample
//! rate, floored at 800 samples so no degenerate tiny chunks are sent.

use vstd::arithmetic::div_mod::lemma_add_mod_noop;
use vstd::arithmetic::div_mod::lemma_mod_self_0;
use vstd::arithmetic::div_mod::lemma_small_mod;
use vstd::prelude::*;

verus! {

proof fn lemma_whole_chunks_grow(a: int, t: int)
    requires
        t >= 1,
        a >= 0,
        a % t == 0,
    ensures
        (a + t) % t == 0,
{
    lemma_mod_self_0(t);
    lemma_add_mod_noop(a, t, t);
    lemma_small_mod(0, t as nat);
}

/// Chunk size for an outbound sample rate: 250 ms of samples, at least 800.
pub open spec fn batch_threshold(rate: u32) -> int {
    if rate / 4 > 800 {
        (rate / 4) as int
    } else {
        800
    }
}

/// Compute the batching threshold for `rate`.
pub fn compute_threshold(rate: u32) -> (t: usize)
    ensures
        t == batch_threshold(rate),
{
    let quarter = (rate / 4) as usize;
    if quarter > 800 {
        quarter
    } else {
        800
    }
}

/// Accumulates samples and releases them in chunks of exactly
/// `threshold` samples; a shorter remainder stays buffered.
///
/// One instance belongs to exactly one active session; it is fed from a
/// single place and never shared.
pub struct Batcher {
    threshold: usize,
    buf: Vec<i16>,
    pushed: Ghost<Seq<i16>>,
    released: Ghost<Seq<i16>>,
}

impl Batcher {
    /// All samples ever handed to `push`, in order.
    pub closed spec fn pushed(self) -> Seq<i16> {
        self.pushed@
    }

    /// All samples ever released, in order: the concatenation of every
    /// chunk handed back by `push`.
    pub closed spec fn released(self) -> Seq<i16> {
        self.released@
    }

    /// The samples still held back, waiting for a full chunk.
    pub closed spec fn buffered(self) -> Seq<i16> {
        self.buf@
    }

    /// The configured chunk size.
    pub closed spec fn threshold(self) -> int {
        self.threshold as int
    }

    /// Well-formedness: nothing is dropped or duplicated (what came in is
    /// what went out plus what is held), the held remainder is shorter
    /// than a chunk, and the released stream is whole chunks only.
    pub closed spec fn wf(self) -> bool {
        &&& self.threshold >= 1
        &&& self.buf@.len() < self.threshold
        &&& self.pushed@ == self.released@ + self.buf@
        &&& self.released@.len() as int % (self.threshold as int) == 0
    }

    /// A fresh batcher for an outbound sample rate.
    pub fn new(rate: u32) -> (r: Batcher)
        ensures
            r.wf(),
            r.threshold() == batch_threshold(rate),
            r.pushed() == Seq::<i16>::empty(),
            r.released() == Seq::<i16>::empty(),
            r.buffered() == Seq::<i16>::empty(),
    {
        let threshold = compute_threshold(rate);
        proof {
            lemma_small_mod(0, threshold as nat);
        }
        Batcher {
            threshold,
            buf: Vec::new(),
            pushed: Ghost(Seq::empty()),
            released: Ghost(Seq::empty()),
        }
    }

    /// Feed samples in; get back every full chunk now available, in order.
    ///
    /// Every returned chunk holds exactly `threshold` samples; the
    /// remainder, shorter than a chunk, stays buffered for the next push.
    /// At every point, released plus buffered equals pushed.
    pub fn push(&mut self, input: &Vec<i16>) -> (batches: Vec<Vec<i16>>)
        requires
            old(self).wf(),
            old(self).buffered().len() + input@.len() <= usize::MAX,
        ensures
            final(self).wf(),
            final(self).threshold() == old(self).threshold(),
            final(self).pushed() == old(self).pushed() + input@,
            final(self).released() == old(self).released() + batches.deep_view().flatten(),
            forall|i: int|
                0 <= i < batches@.len() ==> (#[trigger] batches@[i])@.len() == old(
                    self,
                ).threshold(),
            batches.deep_view().flatten() + final(self).buffered() == old(self).buffered()
                + input@,
    {
        let ghost old_released = self.released@;
        let mut i: usize = 0;
        while i < input.len()
            invariant
                i <= input@.len(),
                self.buf@.len() + input@.len() - i <= usize::MAX,
                self.buf@ == old(self).buf@ + input@.take(i as int),
                self.threshold == old(self).threshold,
                self.pushed@ == old(self).pushed@,
                self.released@ == old(self).released@,
            decreases input@.len() - i,
        {
            self.buf.push(input[i]);
            i += 1;
            proof {
                assert(self.buf@ =~= old(self).buf@ + input@.take(i as int));
            }
        }
        proof {
            assert(input@.take(input@.len() as int) =~= input@);
        }
        self.pushed = Ghost(self.pushed@ + input@);
        proof {
            assert(self.pushed@ =~= self.released@ + self.buf@);
        }

        let mut batches: Vec<Vec<i16>> = Vec::new();
        while self.buf.len() >= self.threshold
            invariant
                self.threshold == old(self).threshold,
                old(self).threshold >= 1,
                self.pushed@ == old(self).pushed@ + input@,
                self.released@.len() as int % (self.threshold as int) == 0,
                self.pushed@ == self.released@ + self.buf@,
                self.released@ == old_released + batches.deep_view().flatten(),
                forall|j: int|
                    0 <= j < batches@.len() ==> (#[trigger] batches@[j])@.len()
                        == self.threshold,
            decreases self.buf@.len(),
        {
            let t = self.threshold;
            let mut chunk: Vec<i16> = Vec::new();
            let mut k: usize = 0;
            while k < t
                invariant
                    k <= t,
                    t <= self.buf@.len(),
                    chunk@ == self.buf@.take(k as int),
                decreases t - k,
            {
                chunk.push(self.buf[k]);
                k += 1;
                proof {
                    assert(chunk@ =~= self.buf@.take(k as int));
                }
            }
            let mut rest: Vec<i16> = Vec::new();
            let mut m: usize = t;
            while m < self.buf.len()
                invariant
                    t <= m <= self.buf@.len(),
                    rest@ == self.buf@.subrange(t as int, m as int),
                decreases self.buf@.len() - m,
            {
                rest.push(self.buf[m]);
                m += 1;
                proof {
                    assert(rest@ =~= self.buf@.subrange(t as int, m as int));
                }
            }
            proof {
                assert(chunk@ + rest@ =~= self.buf@);
            }
            let ghost prior = batches.deep_view();
            batches.push(chunk);
            self.buf = rest;
            let ghost c = batches.deep_view()[prior.len() as int];
            self.released = Ghost(self.released@ + c);
            proof {
                assert(batches.deep_view() =~= prior.push(c));
                prior.lemma_flatten_push(c);
                assert(self.released@ =~= old_released + batches.deep_view().flatten());
                assert(self.pushed@ =~= self.released@ + self.buf@);
                lemma_whole_chunks_grow(
                    (self.released@.len() - c.len()) as int,
                    self.threshold as int,
                );
            }
        }
        proof {
            let flat = batches.deep_view().flatten();
            let n = old_released.len() as int;
            assert((self.released@ + self.buf@) =~= ((old_released + old(self).buf@) + input@));
            assert(flat + self.buf@ =~= (self.released@ + self.buf@).skip(n));
            assert(old(self).buf@ + input@ =~= ((old_released + old(self).buf@) + input@).skip(n));
        }
        batches
    }
}

/// Conservation: a well-formed batcher never drops or duplicates a sample.
/// What was pushed is exactly what was released followed by what is still
/// buffered, the buffered remainder is shorter than one chunk, and the
/// released stream is a whole number of chunks.
pub proof fn lemma_batcher_conservation(b: Batcher)
    requires
        b.wf(),
    ensures
        b.pushed() == b.released() + b.buffered(),
        b.buffered().len() < b.threshold(),
        b.released().len() as int % b.threshold() == 0,
{
}

} // verus!
