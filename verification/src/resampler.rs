//! Streaming Resampler: linear-interpolation sample-rate conversion that is
//! fed input frame by frame and produces output incrementally, with no
//! discontinuity across frame boundaries.
//!
//! The read position is kept as an exact fraction over the output rate
//! (`pos = pos_num / out_rate`), so the conversion is deterministic and, by
//! construction, invariant under how the input stream is chunked: the
//! cumulative output is a function of the cumulative input alone.

use vstd::arithmetic::div_mod::lemma_div_is_ordered;
use vstd::arithmetic::div_mod::lemma_div_pos_is_pos;
use vstd::arithmetic::div_mod::lemma_fundamental_div_mod;
use vstd::arithmetic::div_mod::lemma_fundamental_div_mod_converse;
use vstd::arithmetic::mul::lemma_mul_inequality;
use vstd::prelude::*;

verus! {

/// How many output samples exist once `len` input samples have arrived.
///
/// Output sample `k` sits at input position `k * in_rate / out_rate` and
/// interpolates between that sample and the next one, so it exists exactly
/// when `k * in_rate < (len - 1) * out_rate`; the count is the ceiling of
/// `(len - 1) * out_rate / in_rate`.
pub open spec fn out_count(in_rate: int, out_rate: int, len: int) -> int {
    if len < 2 {
        0
    } else {
        ((len - 1) * out_rate + in_rate - 1) / in_rate
    }
}

/// Round a ratio `num / den` to the nearest integer, ties away from zero.
pub open spec fn round_div_half_away(num: int, den: int) -> int
    recommends
        den >= 1,
{
    if num >= 0 {
        (2 * num + den) / (2 * den)
    } else {
        -((2 * -num + den) / (2 * den))
    }
}

/// Clamp a mathematical integer into the signed 16-bit range.
pub open spec fn clamp_i16(v: int) -> i16 {
    if v > 32767 {
        32767i16
    } else if v < -32768 {
        -32768i16
    } else {
        v as i16
    }
}

/// Output sample `k`: the linear interpolation between the input samples on
/// either side of position `k * in_rate / out_rate`, with the fractional
/// part of the position as the weight, rounded to nearest and clamped.
pub open spec fn sample_at(inp: Seq<i16>, in_rate: int, out_rate: int, k: int) -> i16 {
    let t = k * in_rate;
    let i = t / out_rate;
    let rem = t % out_rate;
    let num = inp[i] * (out_rate - rem) + inp[i + 1] * rem;
    clamp_i16(round_div_half_away(num, out_rate))
}

/// The whole output stream produced from the input stream `inp`.
/// Equal rates are a pure passthrough; otherwise every producible
/// interpolated sample, in order.
pub open spec fn resampled(in_rate: int, out_rate: int, inp: Seq<i16>) -> Seq<i16> {
    if in_rate == out_rate {
        inp
    } else {
        Seq::new(
            out_count(in_rate, out_rate, inp.len() as int) as nat,
            |k: int| sample_at(inp, in_rate, out_rate, k),
        )
    }
}

/// The output count is never negative.
proof fn lemma_out_count_nonneg(in_rate: int, out_rate: int, len: int)
    requires
        in_rate >= 1,
        out_rate >= 1,
    ensures
        out_count(in_rate, out_rate, len) >= 0,
{
    if len >= 2 {
        assert((len - 1) * out_rate >= 0) by (nonlinear_arith)
            requires
                len >= 2,
                out_rate >= 1,
        ;
        lemma_div_pos_is_pos((len - 1) * out_rate + in_rate - 1, in_rate);
    }
}

/// Output sample `k` exists exactly when its interpolation window fits in
/// the first `len` input samples.
proof fn lemma_emittable_iff(in_rate: int, out_rate: int, len: int, k: int)
    requires
        in_rate >= 1,
        out_rate >= 1,
        len >= 2,
        k >= 0,
    ensures
        k * in_rate < (len - 1) * out_rate <==> k < out_count(in_rate, out_rate, len),
{
    let m = (len - 1) * out_rate;
    let c = (m + in_rate - 1) / in_rate;
    lemma_fundamental_div_mod(m + in_rate - 1, in_rate);
    let r = (m + in_rate - 1) % in_rate;
    assert(m + in_rate - 1 == in_rate * c + r);
    assert(m >= 1) by (nonlinear_arith)
        requires
            len >= 2,
            out_rate >= 1,
            m == (len - 1) * out_rate,
    ;
    if k * in_rate < m {
        if k >= c {
            lemma_mul_inequality(c, k, in_rate);
            assert(c * in_rate == in_rate * c) by (nonlinear_arith);
            assert(false);
        }
    }
    if k < c {
        lemma_mul_inequality(k, c - 1, in_rate);
        assert((c - 1) * in_rate == in_rate * c - in_rate) by (nonlinear_arith);
        assert(k * in_rate <= m - 1 - r);
    }
}

/// A position strictly inside the first `len - 1` samples reads an index
/// whose successor is still in range.
proof fn lemma_read_index_bound(out_rate: int, t: int, len: int)
    requires
        out_rate >= 1,
        t >= 0,
        t < (len - 1) * out_rate,
    ensures
        0 <= t / out_rate < len - 1,
{
    lemma_fundamental_div_mod(t, out_rate);
    let q = t / out_rate;
    if q >= len - 1 {
        lemma_mul_inequality(len - 1, q, out_rate);
        assert(q * out_rate == out_rate * q) by (nonlinear_arith);
        assert((len - 1) * out_rate == out_rate * (len - 1)) by (nonlinear_arith);
        assert(false);
    }
    lemma_div_pos_is_pos(t, out_rate);
}

/// Growing the input only appends to the output: every sample producible
/// from a prefix has the same value over the longer input.
proof fn lemma_resampled_prefix(in_rate: int, out_rate: int, a: Seq<i16>, b: Seq<i16>)
    requires
        in_rate >= 1,
        out_rate >= 1,
        in_rate != out_rate,
        a.len() <= b.len(),
        a == b.subrange(0, a.len() as int),
    ensures
        out_count(in_rate, out_rate, a.len() as int) <= out_count(
            in_rate,
            out_rate,
            b.len() as int,
        ),
        resampled(in_rate, out_rate, b).subrange(0, out_count(in_rate, out_rate, a.len() as int))
            == resampled(in_rate, out_rate, a),
{
    let la = a.len() as int;
    let lb = b.len() as int;
    let ca = out_count(in_rate, out_rate, la);
    let cb = out_count(in_rate, out_rate, lb);
    if la >= 2 {
        assert((la - 1) * out_rate <= (lb - 1) * out_rate) by (nonlinear_arith)
            requires
                la <= lb,
                out_rate >= 1,
        ;
        lemma_div_is_ordered(
            (la - 1) * out_rate + in_rate - 1,
            (lb - 1) * out_rate + in_rate - 1,
            in_rate,
        );
    } else {
        if lb >= 2 {
            assert((lb - 1) * out_rate + in_rate - 1 >= 0) by (nonlinear_arith)
                requires
                    lb >= 2,
                    out_rate >= 1,
                    in_rate >= 1,
            ;
            lemma_div_pos_is_pos((lb - 1) * out_rate + in_rate - 1, in_rate);
        }
    }
    assert(ca <= cb);
    assert forall|k: int| 0 <= k < ca implies sample_at(b, in_rate, out_rate, k) == sample_at(
        a,
        in_rate,
        out_rate,
        k,
    ) by {
        lemma_emittable_iff(in_rate, out_rate, la, k);
        assert(k * in_rate >= 0) by (nonlinear_arith)
            requires
                k >= 0,
                in_rate >= 1,
        ;
        lemma_read_index_bound(out_rate, k * in_rate, la);
        let i = (k * in_rate) / out_rate;
        assert(a[i] == b[i]);
        assert(a[i + 1] == b[i + 1]);
    }
    assert(resampled(in_rate, out_rate, b).subrange(0, ca) =~= resampled(in_rate, out_rate, a));
}

/// Streaming linear-interpolation rate converter.
///
/// `pos_num / out_rate` is the fractional read position into the tail
/// buffer; after every push the consumed prefix is purged and the position
/// rebased, so the buffer holds at most one sample of lookahead.
pub struct Resampler {
    in_rate: u32,
    out_rate: u32,
    buf: Vec<i16>,
    pos_num: u64,
    hist: Ghost<Seq<i16>>,
}

impl Resampler {
    /// The input rate this converter was built for.
    pub closed spec fn in_rate(self) -> u32 {
        self.in_rate
    }

    /// The output rate this converter was built for.
    pub closed spec fn out_rate(self) -> u32 {
        self.out_rate
    }

    /// Every input sample ever pushed, in order.
    pub closed spec fn inputs(self) -> Seq<i16> {
        self.hist@
    }

    /// Every output sample ever produced, in order: always exactly the
    /// resampling of the cumulative input.
    pub open spec fn outputs(self) -> Seq<i16> {
        resampled(self.in_rate() as int, self.out_rate() as int, self.inputs())
    }

    /// Internal invariant tying the tail buffer and fractional position to
    /// the cumulative input stream.
    pub closed spec fn wf(self) -> bool {
        let in_r = self.in_rate as int;
        let out_r = self.out_rate as int;
        let len_h = self.hist@.len() as int;
        let d = len_h - self.buf@.len() as int;
        &&& self.in_rate >= 1
        &&& self.out_rate >= 1
        &&& if in_r == out_r {
            self.buf@.len() == 0 && self.pos_num == 0
        } else {
            &&& self.buf@.len() <= 1
            &&& d >= 0
            &&& self.buf@ == self.hist@.subrange(d, len_h)
            &&& self.pos_num == out_count(in_r, out_r, len_h) * in_r - d * out_r
            &&& self.pos_num < in_r + out_r
        }
    }

    /// A fresh converter between the two rates.
    pub fn new(in_rate: u32, out_rate: u32) -> (r: Resampler)
        requires
            in_rate >= 1,
            out_rate >= 1,
        ensures
            r.wf(),
            r.in_rate() == in_rate,
            r.out_rate() == out_rate,
            r.inputs() == Seq::<i16>::empty(),
            r.outputs() == Seq::<i16>::empty(),
    {
        let r = Resampler {
            in_rate,
            out_rate,
            buf: Vec::new(),
            pos_num: 0,
            hist: Ghost(Seq::empty()),
        };
        proof {
            assert(r.buf@ =~= r.hist@.subrange(0, 0));
            assert(r.outputs() =~= Seq::<i16>::empty());
        }
        r
    }

    /// Push a frame of input; get back every output sample that is now
    /// producible.
    ///
    /// The cumulative output is always exactly `resampled` of the
    /// cumulative input, whatever the chunking; at equal rates each push
    /// returns its input unchanged.
    pub fn push(&mut self, input: &Vec<i16>) -> (out: Vec<i16>)
        requires
            old(self).wf(),
            input@.len() <= 0x4000_0000,
        ensures
            final(self).wf(),
            final(self).in_rate() == old(self).in_rate(),
            final(self).out_rate() == old(self).out_rate(),
            final(self).inputs() == old(self).inputs() + input@,
            old(self).outputs() + out@ == final(self).outputs(),
            old(self).in_rate() == old(self).out_rate() ==> out@ == input@,
            out@.len() <= input@.len() * (old(self).out_rate() as int) + 1,
    {
        let ghost in_r = self.in_rate as int;
        let ghost out_r = self.out_rate as int;

        if self.in_rate == self.out_rate {
            self.hist = Ghost(self.hist@ + input@);
            let mut out: Vec<i16> = Vec::new();
            let mut i: usize = 0;
            while i < input.len()
                invariant
                    i <= input@.len(),
                    out@ == input@.take(i as int),
                decreases input@.len() - i,
            {
                out.push(input[i]);
                i += 1;
                proof {
                    assert(out@ =~= input@.take(i as int));
                }
            }
            proof {
                assert(input@.take(input@.len() as int) =~= input@);
                assert(old(self).outputs() + out@ =~= self.outputs());
                assert(out@.len() <= input@.len() * (self.out_rate as int) + 1)
                    by (nonlinear_arith)
                    requires
                        out@.len() == input@.len(),
                        self.out_rate as int >= 1,
                ;
            }
            return out;
        }

        let ghost old_hist = self.hist@;
        let ghost hist_new = self.hist@ + input@;
        let ghost old_emitted = out_count(in_r, out_r, old_hist.len() as int);
        let ghost d0 = old_hist.len() as int - self.buf@.len() as int;

        // Append the new input to the tail buffer.
        let mut i: usize = 0;
        while i < input.len()
            invariant
                i <= input@.len(),
                self.buf@.len() + input@.len() - i <= usize::MAX,
                self.buf@ == old(self).buf@ + input@.take(i as int),
                self.in_rate == old(self).in_rate,
                self.out_rate == old(self).out_rate,
                self.pos_num == old(self).pos_num,
                self.hist == old(self).hist,
            decreases input@.len() - i,
        {
            self.buf.push(input[i]);
            i += 1;
            proof {
                assert(self.buf@ =~= old(self).buf@ + input@.take(i as int));
            }
        }
        self.hist = Ghost(hist_new);
        proof {
            assert(input@.take(input@.len() as int) =~= input@);
            assert(self.buf@ =~= hist_new.subrange(d0, hist_new.len() as int));
        }

        let ghost len_new = hist_new.len() as int;
        let ghost count_new = out_count(in_r, out_r, len_new);
        let out_rate_64 = self.out_rate as u64;
        let in_rate_64 = self.in_rate as u64;

        proof {
            assert(old_hist =~= hist_new.subrange(0, old_hist.len() as int));
            lemma_resampled_prefix(in_r, out_r, old_hist, hist_new);
            lemma_out_count_nonneg(in_r, out_r, old_hist.len() as int);
        }

        // Emit every producible sample.
        let mut out: Vec<i16> = Vec::new();
        let ghost mut k = old_emitted;
        proof {
            assert(out@ =~= Seq::new(
                (k - old_emitted) as nat,
                |j: int| sample_at(hist_new, in_r, out_r, old_emitted + j),
            ));
        }
        loop
            invariant_except_break
                self.in_rate >= 1,
                self.out_rate >= 1,
                in_r == self.in_rate as int,
                out_r == self.out_rate as int,
                in_r != out_r,
                in_rate_64 == self.in_rate as u64,
                out_rate_64 == self.out_rate as u64,
                self.in_rate == old(self).in_rate,
                self.out_rate == old(self).out_rate,
                self.hist@ == hist_new,
                len_new == hist_new.len() as int,
                count_new == out_count(in_r, out_r, len_new),
                self.buf@ == hist_new.subrange(d0, len_new),
                d0 == len_new - self.buf@.len() as int,
                d0 >= 0,
                self.buf@.len() <= 0x4000_0002,
                0 <= old_emitted <= k <= count_new,
                self.pos_num == k * in_r - d0 * out_r,
                self.pos_num < in_r + out_r || self.pos_num < (self.buf@.len() as int - 1) * out_r
                    + in_r,
                out@ == Seq::new(
                    (k - old_emitted) as nat,
                    |j: int| sample_at(hist_new, in_r, out_r, old_emitted + j),
                ),
            ensures
                self.in_rate == old(self).in_rate,
                self.out_rate == old(self).out_rate,
                self.hist@ == hist_new,
                self.buf@ == hist_new.subrange(d0, len_new),
                d0 == len_new - self.buf@.len() as int,
                k == count_new,
                self.pos_num == k * in_r - d0 * out_r,
                self.pos_num < in_r + out_r || self.pos_num < (self.buf@.len() as int - 1) * out_r
                    + in_r,
                (self.pos_num as int) / out_r + 1 >= self.buf@.len() as int,
                out@ == Seq::new(
                    (k - old_emitted) as nat,
                    |j: int| sample_at(hist_new, in_r, out_r, old_emitted + j),
                ),
            decreases count_new - k,
        {
            let pw64 = self.pos_num / out_rate_64;
            let ghost rem = self.pos_num as int % out_r;
            proof {
                lemma_fundamental_div_mod(self.pos_num as int, out_r);
            }
            let blen64 = self.buf.len() as u64;
            if blen64 < 2 || pw64 >= blen64 - 1 {
                proof {
                    let t = k * in_r;
                    if len_new >= 2 {
                        lemma_emittable_iff(in_r, out_r, len_new, k);
                        if k < count_new {
                            assert(k * in_r >= 0) by (nonlinear_arith)
                                requires
                                    k >= 0,
                                    in_r >= 1,
                            ;
                            lemma_read_index_bound(out_r, t, len_new);
                            assert(out_r * (d0 + pw64 as int) + rem == t) by (nonlinear_arith)
                                requires
                                    self.pos_num as int == out_r * (pw64 as int) + rem,
                                    t == self.pos_num as int + d0 * out_r,
                                    self.pos_num == k * in_r - d0 * out_r,
                                    t == k * in_r,
                            ;
                            lemma_fundamental_div_mod_converse(t, out_r, d0 + pw64 as int, rem);
                            assert(d0 + pw64 as int <= len_new - 2);
                            assert(false);
                        }
                    } else {
                        assert(count_new == 0);
                    }
                    assert(k == count_new);
                }
                break;
            }
            // The interpolation window [pw, pw + 1] lies inside the buffer.
            let pw = pw64 as usize;
            let s0 = self.buf[pw];
            let s1 = self.buf[pw + 1];
            let rem_exec = self.pos_num % out_rate_64;
            proof {
                assert(s0 * ((out_r - rem) as int) <= 32767 * 0x1_0000_0000 && s0 * ((out_r
                    - rem) as int) >= -32768 * 0x1_0000_0000) by (nonlinear_arith)
                    requires
                        -32768 <= s0 <= 32767,
                        0 <= out_r - rem <= 0x1_0000_0000,
                ;
                assert(s1 * (rem as int) <= 32767 * 0x1_0000_0000 && s1 * (rem as int) >= -32768
                    * 0x1_0000_0000) by (nonlinear_arith)
                    requires
                        -32768 <= s1 <= 32767,
                        0 <= rem <= 0x1_0000_0000,
                ;
            }
            let num: i64 = (s0 as i64) * ((out_rate_64 - rem_exec) as i64) + (s1 as i64) * (
            rem_exec as i64);
            let (mag, neg): (u64, bool) = if num >= 0 {
                (num as u64, false)
            } else {
                ((-num) as u64, true)
            };
            let q64: u64 = (2 * mag + out_rate_64) / (2 * out_rate_64);
            proof {
                // the quotient is small enough to negate and to compare
                assert(q64 <= 2 * mag + out_rate_64);
                lemma_div_is_ordered(
                    2 * (mag as int) + out_r,
                    0x2_0000_0000_0000_0000int,
                    2 * out_r,
                );
            }
            let rounded: i64 = if neg {
                -(q64 as i64)
            } else {
                q64 as i64
            };
            let val: i16 = if rounded > 32767 {
                32767
            } else if rounded < -32768 {
                -32768
            } else {
                rounded as i16
            };
            proof {
                let t = k * in_r;
                assert(out_r * (d0 + pw64 as int) + rem == t) by (nonlinear_arith)
                    requires
                        self.pos_num as int == out_r * (pw64 as int) + rem,
                        self.pos_num == k * in_r - d0 * out_r,
                        t == k * in_r,
                ;
                assert(0 <= rem < out_r);
                assert(t >= 0) by (nonlinear_arith)
                    requires
                        k >= 0,
                        in_r >= 1,
                        t == k * in_r,
                ;
                lemma_fundamental_div_mod_converse(t, out_r, d0 + pw64 as int, rem);
                assert(t / out_r == d0 + pw);
                assert(t % out_r == rem);
                assert(hist_new[d0 + pw] == self.buf@[pw as int]);
                assert(hist_new[d0 + pw + 1] == self.buf@[pw as int + 1]);
                let numi = hist_new[t / out_r] * (out_r - rem) + hist_new[t / out_r + 1] * rem;
                assert(num == numi);
                assert(val == clamp_i16(round_div_half_away(numi, out_r)));
                assert(val == sample_at(hist_new, in_r, out_r, k));
                // k is still below the new count
                assert(t < (len_new - 1) * out_r) by {
                    assert(d0 + pw64 as int + 1 < len_new);
                    assert(out_r * (d0 + pw64 as int) + rem < (len_new - 1) * out_r)
                        by (nonlinear_arith)
                        requires
                            d0 + pw64 as int <= len_new - 2,
                            out_r >= 1,
                            rem < out_r,
                    ;
                }
                assert(len_new >= 2) by {
                    if len_new < 2 {
                        assert(self.buf@.len() as int <= len_new);
                    }
                }
                lemma_emittable_iff(in_r, out_r, len_new, k);
                assert(k < count_new);
                // the advanced position stays in range
                assert(self.pos_num < (self.buf@.len() as int - 1) * out_r) by (nonlinear_arith)
                    requires
                        self.pos_num as int == out_r * (pw64 as int) + rem,
                        pw64 as int <= self.buf@.len() as int - 2,
                        rem < out_r,
                        out_r >= 1,
                ;
                assert((self.buf@.len() as int - 1) * out_r + in_r <= 0x4000_0002
                    * 0x1_0000_0000 + 0x1_0000_0000) by (nonlinear_arith)
                    requires
                        self.buf@.len() as int <= 0x4000_0002,
                        1 <= out_r <= 0x1_0000_0000,
                        1 <= in_r <= 0x1_0000_0000,
                ;
            }
            out.push(val);
            self.pos_num = self.pos_num + in_rate_64;
            proof {
                let k_next = k + 1;
                assert(self.pos_num == k_next * in_r - d0 * out_r) by (nonlinear_arith)
                    requires
                        self.pos_num == k * in_r - d0 * out_r + in_r,
                        k_next == k + 1,
                ;
                k = k_next;
                assert(self.pos_num < (self.buf@.len() as int - 1) * out_r + in_r);
                assert(out@ =~= Seq::new(
                    (k - old_emitted) as nat,
                    |j: int| sample_at(hist_new, in_r, out_r, old_emitted + j),
                ));
            }
        }

        // Purge the consumed prefix and rebase the position.
        let ghost pos_exit = self.pos_num as int;
        let pw64 = self.pos_num / out_rate_64;
        let blen = self.buf.len();
        let drop_n: usize = if pw64 >= blen as u64 {
            blen
        } else {
            pw64 as usize
        };
        proof {
            lemma_fundamental_div_mod(pos_exit, out_r);
            assert((drop_n as int) * out_r <= pos_exit) by {
                if pw64 >= blen as u64 {
                    lemma_mul_inequality(blen as int, pw64 as int, out_r);
                    assert((pw64 as int) * out_r == out_r * (pw64 as int)) by (nonlinear_arith);
                    assert((blen as int) * out_r == out_r * (blen as int)) by (nonlinear_arith);
                } else {
                    assert(out_r * (pw64 as int) <= pos_exit);
                    assert((pw64 as int) * out_r == out_r * (pw64 as int)) by (nonlinear_arith);
                }
            }
            assert((drop_n as u64) as int * out_r == (drop_n as int) * out_r);
        }
        let mut rest: Vec<i16> = Vec::new();
        let mut m: usize = drop_n;
        while m < blen
            invariant
                drop_n <= m <= blen,
                blen == self.buf@.len(),
                rest@ == self.buf@.subrange(drop_n as int, m as int),
            decreases blen - m,
        {
            rest.push(self.buf[m]);
            m += 1;
            proof {
                assert(rest@ =~= self.buf@.subrange(drop_n as int, m as int));
            }
        }
        let ghost pre_purge = self.buf@;
        self.buf = rest;
        self.pos_num = self.pos_num - (drop_n as u64) * out_rate_64;
        proof {
            let d1 = d0 + drop_n as int;
            assert(self.buf@ =~= hist_new.subrange(d1, len_new)) by {
                assert forall|j: int| 0 <= j < self.buf@.len() implies self.buf@[j] == hist_new[d1
                    + j] by {
                    assert(pre_purge[drop_n + j] == hist_new[d0 + (drop_n + j)]);
                }
            }
            assert(self.pos_num == count_new * in_r - d1 * out_r) by (nonlinear_arith)
                requires
                    self.pos_num == count_new * in_r - d0 * out_r - (drop_n as int) * out_r,
                    d1 == d0 + drop_n as int,
            ;
            // The rebased position is once again small.
            assert(self.pos_num < in_r + out_r) by {
                if pw64 >= blen as u64 {
                    // the whole buffer was dropped
                    if pos_exit < in_r + out_r {
                        assert((drop_n as int) * out_r >= 0) by (nonlinear_arith)
                            requires
                                drop_n as int >= 0,
                                out_r >= 1,
                        ;
                    } else {
                        assert(pos_exit < (blen as int - 1) * out_r + in_r);
                        assert(pos_exit - (blen as int) * out_r < in_r - out_r)
                            by (nonlinear_arith)
                            requires
                                pos_exit < (blen as int - 1) * out_r + in_r,
                        ;
                    }
                } else {
                    // exactly the whole-sample part of the position was dropped
                    assert(self.pos_num as int == pos_exit - out_r * (pw64 as int)) by {
                        assert((drop_n as int) * out_r == out_r * (pw64 as int))
                            by (nonlinear_arith)
                            requires
                                drop_n as int == pw64 as int,
                        ;
                    }
                    assert(self.pos_num as int == pos_exit % out_r);
                }
            }
            // At most one sample of lookahead survives the purge.
            assert(self.buf@.len() <= 1) by {
                if pw64 >= blen as u64 {
                } else {
                    assert(pw64 as int + 1 >= blen as int);
                }
            }
            assert(self.wf());
            // The emitted chunk extends the cumulative output.
            assert(old(self).outputs() + out@ =~= self.outputs()) by {
                assert(self.outputs() == resampled(in_r, out_r, hist_new));
                assert(old(self).outputs() == resampled(in_r, out_r, hist_new).subrange(
                    0,
                    old_emitted,
                ));
                assert forall|x: int| 0 <= x < count_new implies (old(self).outputs() + out@)[x]
                    == self.outputs()[x] by {
                    if x < old_emitted {
                        assert((old(self).outputs() + out@)[x] == old(self).outputs()[x]);
                    } else {
                        assert((old(self).outputs() + out@)[x] == out@[x - old_emitted]);
                        assert(out@[x - old_emitted] == sample_at(hist_new, in_r, out_r, x));
                    }
                }
            }
            // The chunk is at most one sample per unit of output rate.
            let delta = count_new - old_emitted;
            let m = input@.len() as int;
            assert(delta <= m * out_r + 1) by {
                if delta >= 1 {
                    assert(len_new >= 2);
                    lemma_emittable_iff(in_r, out_r, len_new, count_new - 1);
                    assert((count_new - 1) * in_r < (len_new - 1) * out_r);
                    if old_hist.len() >= 2 {
                        lemma_emittable_iff(in_r, out_r, old_hist.len() as int, old_emitted);
                        assert(old_emitted * in_r >= (old_hist.len() - 1) * out_r);
                        assert((delta - 1) * in_r < m * out_r) by (nonlinear_arith)
                            requires
                                (count_new - 1) * in_r < (len_new - 1) * out_r,
                                old_emitted * in_r >= (old_hist.len() - 1) * out_r,
                                delta == count_new - old_emitted,
                                len_new == old_hist.len() + m,
                        ;
                    } else {
                        assert(old_emitted == 0);
                        assert((delta - 1) * in_r < m * out_r) by (nonlinear_arith)
                            requires
                                (count_new - 1) * in_r < (len_new - 1) * out_r,
                                delta == count_new,
                                len_new - 1 <= m,
                                out_r >= 1,
                        ;
                    }
                    assert(delta - 1 < m * out_r) by (nonlinear_arith)
                        requires
                            (delta - 1) * in_r < m * out_r,
                            delta >= 1,
                            in_r >= 1,
                    ;
                } else {
                    assert(m * out_r >= 0) by (nonlinear_arith)
                        requires
                            m >= 0,
                            out_r >= 1,
                    ;
                }
            }
        }
        out
    }
}

/// Chunk-boundary invariance: two converters with the same rates that have
/// been fed the same cumulative input have produced the same cumulative
/// output, no matter how differently that input was split into pushes.
pub proof fn lemma_chunk_boundary_invariance(a: Resampler, b: Resampler)
    requires
        a.wf(),
        b.wf(),
        a.in_rate() == b.in_rate(),
        a.out_rate() == b.out_rate(),
        a.inputs() == b.inputs(),
    ensures
        a.outputs() == b.outputs(),
{
}

/// Equal rates are the identity transform: the cumulative output equals the
/// cumulative input, sample for sample.
pub proof fn lemma_equal_rates_identity(r: Resampler)
    requires
        r.wf(),
        r.in_rate() == r.out_rate(),
    ensures
        r.outputs() == r.inputs(),
{
}

} // verus!
