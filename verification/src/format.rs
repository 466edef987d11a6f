//! Format Normalizer: converts hardware-native sample encodings to the
//! pipeline's canonical form, mono signed 16-bit PCM.

use vstd::arithmetic::div_mod::lemma_basic_div;
use vstd::arithmetic::div_mod::lemma_div_is_ordered;
use vstd::arithmetic::power2::lemma2_to64;
use vstd::arithmetic::power2::lemma2_to64_rest;
use vstd::arithmetic::power2::lemma_pow2_pos;
use vstd::arithmetic::power2::lemma_pow2_strictly_increases;
use vstd::arithmetic::power2::pow2;
use vstd::bits::lemma_u64_shr_is_div;
use vstd::prelude::*;

verus! {

/// Canonical value of an unsigned 16-bit hardware sample: the unsigned
/// midpoint 32768 is shifted down to zero.
pub open spec fn canon_of_u16(s: u16) -> i16 {
    (s - 32768) as i16
}

/// Normalize one unsigned 16-bit sample to canonical signed PCM.
pub fn normalize_u16(s: u16) -> (r: i16)
    ensures
        r == canon_of_u16(s),
{
    ((s as i32) - 32768) as i16
}

/// Normalize a whole hardware callback's worth of unsigned 16-bit samples.
pub fn normalize_u16_frame(data: &Vec<u16>) -> (r: Vec<i16>)
    ensures
        r@ == data@.map(|_i: int, s: u16| canon_of_u16(s)),
{
    let mut out: Vec<i16> = Vec::new();
    let mut i: usize = 0;
    while i < data.len()
        invariant
            i <= data@.len(),
            out@ == data@.take(i as int).map(|_j: int, s: u16| canon_of_u16(s)),
        decreases data@.len() - i,
    {
        out.push(normalize_u16(data[i]));
        i += 1;
        proof {
            assert(data@.take(i as int).drop_last() =~= data@.take(i - 1));
            assert(out@ =~= data@.take(i as int).map(|_j: int, s: u16| canon_of_u16(s)));
        }
    }
    proof {
        assert(data@.take(data@.len() as int) =~= data@);
    }
    out
}

/// Magnitude of a 32-bit float with biased exponent `exp` and fraction
/// `frac`, scaled by 32767 and truncated toward zero.
///
/// A normal number is `(2^23 + frac) * 2^(exp - 150)`, a subnormal is
/// `frac * 2^-149`; multiplying by 32767 and truncating is an exact
/// integer computation over those fields.
pub open spec fn f32_scaled_mag(exp: nat, frac: nat) -> int {
    let mant: int = if exp == 0 {
        frac as int
    } else {
        0x80_0000 + frac as int
    };
    let m32 = mant * 32767;
    if exp >= 150 {
        m32 * pow2((exp - 150) as nat)
    } else if exp == 0 {
        m32 / pow2(149) as int
    } else {
        m32 / pow2((150 - exp) as nat) as int
    }
}

/// Canonical value of a hardware float sample given by its raw bits:
/// the sample times 32767, truncated toward zero and saturated to the
/// 16-bit range; anything that is not a number maps to silence.
pub open spec fn canon_of_f32_bits(bits: u32) -> i16 {
    let sign = bits >> 31;
    let exp = ((bits >> 23) & 0xff) as nat;
    let frac = (bits & 0x7f_ffff) as nat;
    if exp == 255 && frac != 0 {
        0i16
    } else {
        let mag = f32_scaled_mag(exp, frac);
        if sign == 0 {
            if mag > 32767 {
                32767i16
            } else {
                mag as i16
            }
        } else {
            if mag > 32768 {
                -32768i16
            } else {
                (-mag) as i16
            }
        }
    }
}

/// Normalize one hardware float sample, given as its raw IEEE 754 bits,
/// to canonical signed PCM.
pub fn normalize_f32_bits(bits: u32) -> (r: i16)
    ensures
        r == canon_of_f32_bits(bits),
{
    let sign = bits >> 31;
    let exp = (bits >> 23) & 0xff;
    let frac = bits & 0x7f_ffff;
    proof {
        assert(bits >> 23 == (bits >> 23) & 0x1ff) by (bit_vector);
        assert((bits >> 23) & 0xff <= 0xff) by (bit_vector);
        assert(bits & 0x7f_ffff < 0x80_0000) by (bit_vector);
        lemma2_to64();
        lemma2_to64_rest();
    }
    if exp == 255 && frac != 0 {
        // not a number: silence
        return 0;
    }
    if exp >= 150 {
        // magnitude at least 2^23: saturates in either direction
        proof {
            let e = exp as nat;
            let f = frac as nat;
            let mant: int = 0x80_0000 + f as int;
            let m32 = mant * 32767;
            lemma_pow2_pos((e - 150) as nat);
            assert(m32 >= 0x80_0000 * 32767) by (nonlinear_arith)
                requires
                    mant >= 0x80_0000,
                    m32 == mant * 32767,
            ;
            assert(m32 * pow2((e - 150) as nat) >= m32) by (nonlinear_arith)
                requires
                    m32 >= 1,
                    pow2((e - 150) as nat) >= 1,
            ;
            assert(f32_scaled_mag(e, f) > 32768);
        }
        if sign == 0 {
            return 32767;
        } else {
            return -32768;
        }
    }
    if exp == 0 {
        // a subnormal times 32767 is far below one: truncates to zero
        proof {
            let f = frac as nat;
            assert((f as int) * 32767 < 0x80_0000 * 32767) by (nonlinear_arith)
                requires
                    f < 0x80_0000,
            ;
            lemma_pow2_strictly_increases(39, 149);
            assert(pow2(39) == 0x80_0000_0000);
            lemma_basic_div((f as int) * 32767, pow2(149) as int);
        }
        return 0;
    }
    // a normal number below 2^23: an exact shift of the scaled mantissa
    let mant: u64 = 0x80_0000u64 + frac as u64;
    let m32: u64 = mant * 32767;
    let shift: u32 = 150 - exp;
    let ghost e = exp as nat;
    let ghost f = frac as nat;
    proof {
        assert(m32 < 0x8000_0000_0000) by (nonlinear_arith)
            requires
                mant < 0x100_0000,
                m32 == mant as int * 32767,
        ;
    }
    if shift >= 39 {
        // the scaled mantissa is below 2^39, the divisor at least 2^39
        proof {
            assert(m32 < 0x80_0000_0000) by (nonlinear_arith)
                requires
                    mant < 0x100_0000,
                    m32 == mant as int * 32767,
            ;
            if shift > 39 {
                lemma_pow2_strictly_increases(39, shift as nat);
            }
            assert(pow2(39) == 0x80_0000_0000);
            lemma_basic_div(m32 as int, pow2(shift as nat) as int);
        }
        return 0;
    }
    let mag: u64 = m32 >> shift;
    proof {
        lemma_u64_shr_is_div(m32, shift as u64);
        assert(mag == f32_scaled_mag(e, f));
        lemma_pow2_pos(shift as nat);
        assert(mag <= m32) by {
            lemma_div_is_ordered(0, m32 as int, pow2(shift as nat) as int);
            assert(m32 as nat / pow2(shift as nat) <= m32 as nat / 1) by {
                vstd::arithmetic::div_mod::lemma_div_is_ordered_by_denominator(
                    m32 as int,
                    1,
                    pow2(shift as nat) as int,
                );
            }
        }
    }
    if sign == 0 {
        if mag > 32767 {
            32767
        } else {
            mag as i16
        }
    } else {
        if mag > 32768 {
            -32768
        } else {
            -(mag as i32) as i16
        }
    }
}

/// Normalize a whole callback of hardware float samples given as raw bits.
pub fn normalize_f32_frame(data: &Vec<u32>) -> (r: Vec<i16>)
    ensures
        r@ == data@.map(|_i: int, b: u32| canon_of_f32_bits(b)),
{
    let mut out: Vec<i16> = Vec::new();
    let mut i: usize = 0;
    while i < data.len()
        invariant
            i <= data@.len(),
            out@ == data@.take(i as int).map(|_j: int, b: u32| canon_of_f32_bits(b)),
        decreases data@.len() - i,
    {
        out.push(normalize_f32_bits(data[i]));
        i += 1;
        proof {
            assert(out@ =~= data@.take(i as int).map(|_j: int, b: u32| canon_of_f32_bits(b)));
        }
    }
    proof {
        assert(data@.take(data@.len() as int) =~= data@);
    }
    out
}

/// Fold an interleaved multi-channel frame to mono by keeping the first
/// channel's sample of each frame, as the capture worker does.
pub fn downmix_first_channel(data: &Vec<i16>, channels: usize) -> (r: Vec<i16>)
    requires
        channels >= 1,
    ensures
        r@ == Seq::new(data@.len() / channels as nat, |i: int| data@[i * channels]),
{
    let mut out: Vec<i16> = Vec::new();
    let n = data.len() / channels;
    let mut i: usize = 0;
    proof {
        assert((data@.len() as int / channels as int) * (channels as int) <= data@.len() as int)
            by (nonlinear_arith)
            requires
                channels as int >= 1,
                data@.len() as int >= 0,
        ;
    }
    let dlen = data.len();
    while i < n
        invariant
            i <= n,
            channels >= 1,
            dlen == data@.len(),
            n == data@.len() as int / channels as int,
            (n as int) * (channels as int) <= data@.len(),
            out@ == Seq::new(i as nat, |j: int| data@[j * channels]),
        decreases n - i,
    {
        proof {
            assert((i as int) * (channels as int) < (n as int) * (channels as int))
                by (nonlinear_arith)
                requires
                    0 <= i < n,
                    channels >= 1,
            ;
            assert(i * channels <= (n - 1) * channels) by (nonlinear_arith)
                requires
                    i <= n - 1,
                    channels >= 1,
            ;
        }
        out.push(data[i * channels]);
        i += 1;
        proof {
            assert(out@ =~= Seq::new(i as nat, |j: int| data@[j * channels]));
        }
    }
    proof {
        assert(Seq::new(i as nat, |j: int| data@[j * channels]) =~= Seq::new(
            data@.len() / channels as nat,
            |j: int| data@[j * channels],
        ));
    }
    out
}

} // verus!
