//! Level meter: the root-mean-square loudness of a frame, computed exactly
//! over integers. The unverified shell divides the result by the maximum
//! sample magnitude to obtain the normalized value it reports.

use vstd::prelude::*;

verus! {

/// Sum of the squares of the samples.
pub open spec fn sum_sq(s: Seq<i16>) -> int
    decreases s.len(),
{
    if s.len() == 0 {
        0
    } else {
        sum_sq(s.drop_last()) + s.last() * s.last()
    }
}

proof fn lemma_sum_sq_bounds(s: Seq<i16>)
    ensures
        0 <= sum_sq(s) <= s.len() * 0x4000_0000,
    decreases s.len(),
{
    if s.len() == 0 {
    } else {
        lemma_sum_sq_bounds(s.drop_last());
        let x = s.last() as int;
        assert(0 <= x * x <= 0x4000_0000) by (nonlinear_arith)
            requires
                -32768 <= x <= 32767,
        ;
        assert((s.len() - 1) * 0x4000_0000 + 0x4000_0000 == s.len() * 0x4000_0000)
            by (nonlinear_arith);
    }
}

/// The integer square root: the greatest `r` with `r * r <= v`.
pub fn isqrt_u64(v: u64) -> (r: u64)
    ensures
        r * r <= v < (r + 1) * (r + 1),
        r <= 0xFFFF_FFFF,
{
    let mut lo: u64 = 0;
    let mut hi: u64 = 0x1_0000_0000;
    proof {
        assert((0x1_0000_0000u64 as int) * (0x1_0000_0000u64 as int) > u64::MAX as int)
            by (nonlinear_arith);
    }
    while lo + 1 < hi
        invariant
            lo < hi <= 0x1_0000_0000,
            (lo as int) * (lo as int) <= v as int,
            (hi as int) * (hi as int) > v as int,
        decreases hi - lo,
    {
        let mid = lo + (hi - lo) / 2;
        proof {
            assert(lo < mid < hi);
            assert((mid as int) * (mid as int) <= 0xFFFF_FFFF * 0xFFFF_FFFF) by (nonlinear_arith)
                requires
                    0 <= mid as int <= 0xFFFF_FFFF,
            ;
        }
        if mid * mid <= v {
            lo = mid;
        } else {
            hi = mid;
        }
    }
    proof {
        assert(hi == lo + 1);
    }
    lo
}

/// The RMS level of a frame, on the raw sample scale: the integer square
/// root of the mean of the squared samples, so between 0 and 32768. An
/// empty frame has level 0.
pub fn rms_level(samples: &Vec<i16>) -> (r: u16)
    requires
        samples@.len() <= 0x2_0000_0000,
    ensures
        samples@.len() == 0 ==> r == 0,
        samples@.len() > 0 ==> (r as int) * (r as int) <= sum_sq(samples@) / (
        samples@.len() as int) < (r as int + 1) * (r as int + 1),
        r <= 32768,
{
    let n = samples.len();
    if n == 0 {
        return 0;
    }
    let mut sum: u64 = 0;
    let mut i: usize = 0;
    while i < n
        invariant
            i <= n,
            n == samples@.len(),
            n <= 0x2_0000_0000,
            sum == sum_sq(samples@.take(i as int)),
            sum <= (i as int) * 0x4000_0000,
        decreases n - i,
    {
        let s = samples[i];
        proof {
            let x = s as int;
            assert(0 <= x * x <= 0x4000_0000) by (nonlinear_arith)
                requires
                    -32768 <= x <= 32767,
            ;
        }
        let sq: u64 = ((s as i64) * (s as i64)) as u64;
        proof {
            assert((i as int) * 0x4000_0000 + 0x4000_0000 == (i as int + 1) * 0x4000_0000)
                by (nonlinear_arith);
            assert((i as int + 1) * 0x4000_0000 <= 0x2_0000_0000 * 0x4000_0000)
                by (nonlinear_arith)
                requires
                    i as int + 1 <= 0x2_0000_0000,
            ;
        }
        sum = sum + sq;
        i += 1;
        proof {
            assert(samples@.take(i as int).drop_last() =~= samples@.take(i as int - 1));
        }
    }
    proof {
        assert(samples@.take(n as int) =~= samples@);
    }
    let mean: u64 = sum / (n as u64);
    let root = isqrt_u64(mean);
    proof {
        assert(root <= 32768) by {
            if root > 32768 {
                assert((root as int) * (root as int) >= 32769 * 32769) by (nonlinear_arith)
                    requires
                        root as int >= 32769,
                ;
                assert(mean as int <= 0x4000_0000) by {
                    lemma_sum_sq_bounds(samples@);
                    assert(sum as int <= (n as int) * 0x4000_0000);
                    assert(((n as int) * 0x4000_0000) / (n as int) == 0x4000_0000) by {
                        vstd::arithmetic::div_mod::lemma_div_by_multiple(0x4000_0000, n as int);
                    }
                    vstd::arithmetic::div_mod::lemma_div_is_ordered(
                        sum as int,
                        (n as int) * 0x4000_0000,
                        n as int,
                    );
                }
            }
        }
    }
    root as u16
}

} // verus!
