//! Worker Transport wire protocol: a framed binary stream from the capture
//! worker to the host, and the little-endian PCM encoding shared with the
//! outbound streaming session.
//!
//! Layout: one 8-byte handshake (4 ASCII magic bytes, then the sample rate as
//! a little-endian u32), followed by frames of a little-endian u32 sample
//! count and that many little-endian signed 16-bit samples.

use vstd::prelude::*;

verus! {

/// The 4-byte ASCII magic token `SRAT` that opens the worker's stream.
pub open spec fn magic_bytes() -> Seq<u8> {
    seq![0x53u8, 0x52u8, 0x41u8, 0x54u8]
}

/// Little-endian byte sequence of a u32.
pub open spec fn le_bytes_of_u32(x: u32) -> Seq<u8> {
    seq![
        (x & 0xff) as u8,
        ((x >> 8) & 0xff) as u8,
        ((x >> 16) & 0xff) as u8,
        ((x >> 24) & 0xff) as u8,
    ]
}

/// The u32 encoded by four little-endian bytes.
pub open spec fn u32_of_le_bytes(b0: u8, b1: u8, b2: u8, b3: u8) -> u32 {
    (b0 + b1 * 0x100 + b2 * 0x1_0000 + b3 * 0x100_0000) as u32
}

/// Little-endian byte pair of a signed 16-bit sample.
pub open spec fn le_bytes_of_i16(s: i16) -> Seq<u8> {
    seq![((s as u16) & 0xff) as u8, ((s as u16) >> 8) as u8]
}

/// The i16 encoded by a little-endian byte pair.
pub open spec fn i16_of_le_bytes(lo: u8, hi: u8) -> i16 {
    ((lo + hi * 0x100) as u16) as i16
}

/// Raw little-endian PCM encoding of a sample sequence: two bytes per sample.
pub open spec fn pcm_bytes(s: Seq<i16>) -> Seq<u8> {
    Seq::new(
        2 * s.len(),
        |i: int| if i % 2 == 0 { le_bytes_of_i16(s[i / 2])[0] } else { le_bytes_of_i16(s[i / 2])[1] },
    )
}

/// The 8-byte handshake: magic token, then the sample rate.
pub open spec fn handshake_bytes(rate: u32) -> Seq<u8> {
    magic_bytes() + le_bytes_of_u32(rate)
}

/// One frame: the sample count, then the samples as little-endian PCM.
pub open spec fn frame_bytes(s: Seq<i16>) -> Seq<u8> {
    le_bytes_of_u32(s.len() as u32) + pcm_bytes(s)
}

proof fn lemma_u32_le_roundtrip(x: u32)
    ensures
        u32_of_le_bytes(
            (x & 0xff) as u8,
            ((x >> 8) & 0xff) as u8,
            ((x >> 16) & 0xff) as u8,
            ((x >> 24) & 0xff) as u8,
        ) == x,
{
    assert(((x & 0xff) as u8) + (((x >> 8) & 0xff) as u8) * 0x100 + (((x >> 16) & 0xff) as u8)
        * 0x1_0000 + (((x >> 24) & 0xff) as u8) * 0x100_0000 == x) by (bit_vector);
}

proof fn lemma_i16_le_roundtrip(s: i16)
    ensures
        i16_of_le_bytes(le_bytes_of_i16(s)[0], le_bytes_of_i16(s)[1]) == s,
{
    let lo = ((s as u16) & 0xff) as u8;
    let hi = ((s as u16) >> 8) as u8;
    assert((((((s as u16) & 0xff) as u8) + (((s as u16) >> 8) as u8) * 0x100) as u16) as i16 == s)
        by (bit_vector);
}

/// Append the little-endian bytes of `x` to `out`.
fn push_le_u32(out: &mut Vec<u8>, x: u32)
    ensures
        final(out)@ == old(out)@ + le_bytes_of_u32(x),
{
    out.push((x & 0xff) as u8);
    out.push(((x >> 8) & 0xff) as u8);
    out.push(((x >> 16) & 0xff) as u8);
    out.push(((x >> 24) & 0xff) as u8);
    proof {
        assert(final(out)@ =~= old(out)@ + le_bytes_of_u32(x));
    }
}

/// Encode the worker handshake for `rate`.
pub fn encode_handshake(rate: u32) -> (r: Vec<u8>)
    ensures
        r@ == handshake_bytes(rate),
        r@.len() == 8,
{
    let mut out: Vec<u8> = Vec::new();
    out.push(0x53);
    out.push(0x52);
    out.push(0x41);
    out.push(0x54);
    proof {
        assert(out@ =~= magic_bytes());
    }
    push_le_u32(&mut out, rate);
    out
}

/// Encode a sample sequence as raw little-endian PCM: two bytes per sample.
pub fn encode_pcm(samples: &Vec<i16>) -> (r: Vec<u8>)
    requires
        samples@.len() * 2 <= usize::MAX,
    ensures
        r@ == pcm_bytes(samples@),
{
    let mut out: Vec<u8> = Vec::new();
    let mut i: usize = 0;
    while i < samples.len()
        invariant
            i <= samples@.len(),
            samples@.len() * 2 <= usize::MAX,
            out@ == pcm_bytes(samples@.take(i as int)),
        decreases samples@.len() - i,
    {
        let s = samples[i];
        out.push(((s as u16) & 0xff) as u8);
        out.push(((s as u16) >> 8) as u8);
        i += 1;
        proof {
            assert(out@ =~= pcm_bytes(samples@.take(i as int)));
        }
    }
    proof {
        assert(samples@.take(samples@.len() as int) =~= samples@);
    }
    out
}

/// Encode one worker frame: sample count, then the samples.
pub fn encode_frame(samples: &Vec<i16>) -> (r: Vec<u8>)
    requires
        samples@.len() <= u32::MAX,
        samples@.len() * 2 + 4 <= usize::MAX,
    ensures
        r@ == frame_bytes(samples@),
{
    let mut out: Vec<u8> = Vec::new();
    push_le_u32(&mut out, samples.len() as u32);
    let pcm = encode_pcm(samples);
    let mut j: usize = 0;
    while j < pcm.len()
        invariant
            j <= pcm@.len(),
            pcm@ == pcm_bytes(samples@),
            out@ == le_bytes_of_u32(samples@.len() as u32) + pcm@.take(j as int),
        decreases pcm@.len() - j,
    {
        out.push(pcm[j]);
        j += 1;
        proof {
            assert(out@ =~= le_bytes_of_u32(samples@.len() as u32) + pcm@.take(j as int));
        }
    }
    proof {
        assert(pcm@.take(pcm@.len() as int) =~= pcm@);
    }
    out
}

/// Result of reading the 8-byte handshake. A wrong magic token is recorded
/// but deliberately non-fatal: the host logs it and goes on reading frames.
pub struct Handshake {
    pub magic_ok: bool,
    pub rate: u32,
}

/// Spec-level handshake parse: `None` iff fewer than 8 bytes are available.
pub open spec fn parse_handshake_spec(b: Seq<u8>) -> Option<(bool, u32)> {
    if b.len() < 8 {
        None
    } else {
        Some(
            (
                b.subrange(0, 4) == magic_bytes(),
                u32_of_le_bytes(b[4], b[5], b[6], b[7]),
            ),
        )
    }
}

/// Decode the worker handshake from the first 8 bytes of `b`.
pub fn decode_handshake(b: &Vec<u8>) -> (r: Option<Handshake>)
    ensures
        match r {
            Some(h) => parse_handshake_spec(b@) == Some((h.magic_ok, h.rate)),
            None => parse_handshake_spec(b@) is None,
        },
{
    if b.len() < 8 {
        return None;
    }
    let magic_ok = b[0] == 0x53 && b[1] == 0x52 && b[2] == 0x41 && b[3] == 0x54;
    proof {
        if magic_ok {
            assert(b@.subrange(0, 4) =~= magic_bytes());
        } else {
            assert(b@.subrange(0, 4)[0] == b@[0]);
            assert(b@.subrange(0, 4)[1] == b@[1]);
            assert(b@.subrange(0, 4)[2] == b@[2]);
            assert(b@.subrange(0, 4)[3] == b@[3]);
        }
    }
    let rate = decode_le_u32(b[4], b[5], b[6], b[7]);
    Some(Handshake { magic_ok, rate })
}

/// Assemble a u32 from its little-endian bytes.
pub fn decode_le_u32(b0: u8, b1: u8, b2: u8, b3: u8) -> (r: u32)
    ensures
        r == u32_of_le_bytes(b0, b1, b2, b3),
{
    proof {
        lemma_le_u32_assemble(b0, b1, b2, b3);
    }
    (b0 as u32) | ((b1 as u32) << 8) | ((b2 as u32) << 16) | ((b3 as u32) << 24)
}

proof fn lemma_le_u32_assemble(b0: u8, b1: u8, b2: u8, b3: u8)
    ensures
        (b0 as u32) | ((b1 as u32) << 8) | ((b2 as u32) << 16) | ((b3 as u32) << 24)
            == u32_of_le_bytes(b0, b1, b2, b3),
{
    assert((b0 as u32) | ((b1 as u32) << 8) | ((b2 as u32) << 16) | ((b3 as u32) << 24) == ((
    b0 + b1 * 0x100 + b2 * 0x1_0000 + b3 * 0x100_0000) as u32)) by (bit_vector);
}

/// Assemble an i16 sample from its little-endian bytes.
pub fn decode_le_i16(lo: u8, hi: u8) -> (r: i16)
    ensures
        r == i16_of_le_bytes(lo, hi),
{
    proof {
        assert(((lo as u16) | ((hi as u16) << 8)) == ((lo + hi * 0x100) as u16)) by (bit_vector);
    }
    ((lo as u16) | ((hi as u16) << 8)) as i16
}

/// What one attempted frame parse at offset `start` yields.
pub enum FrameParse {
    /// The bytes from `start` on do not yet hold a complete frame.
    NeedMore,
    /// A complete frame: its samples and the offset just past it.
    Frame(Vec<i16>, usize),
}

/// The sample count a frame at `start` declares, if the 4-byte header is there.
pub open spec fn frame_len_at(b: Seq<u8>, start: int) -> Option<u32> {
    if start + 4 <= b.len() {
        Some(u32_of_le_bytes(b[start], b[start + 1], b[start + 2], b[start + 3]))
    } else {
        None
    }
}

/// Whether a complete frame lies at offset `start`.
pub open spec fn frame_complete_at(b: Seq<u8>, start: int) -> bool {
    match frame_len_at(b, start) {
        Some(n) => start + 4 + 2 * (n as int) <= b.len(),
        None => false,
    }
}

/// The samples of the complete frame at `start`.
pub open spec fn frame_samples_at(b: Seq<u8>, start: int) -> Seq<i16>
    recommends
        frame_complete_at(b, start),
{
    let n = frame_len_at(b, start)->0 as int;
    Seq::new(n as nat, |k: int| i16_of_le_bytes(b[start + 4 + 2 * k], b[start + 4 + 2 * k + 1]))
}

/// Try to decode one frame from `b` starting at offset `start`.
///
/// A short read never fails: it reports `NeedMore` and the caller reads on.
/// The stream source decides whether a short final read is fatal.
pub fn decode_frame(b: &Vec<u8>, start: usize) -> (r: FrameParse)
    requires
        start <= b@.len(),
    ensures
        match r {
            FrameParse::NeedMore => !frame_complete_at(b@, start as int),
            FrameParse::Frame(samples, next) => {
                &&& frame_complete_at(b@, start as int)
                &&& samples@ == frame_samples_at(b@, start as int)
                &&& next == start + 4 + 2 * (frame_len_at(b@, start as int)->0 as int)
            },
        },
{
    if b.len() - start < 4 {
        return FrameParse::NeedMore;
    }
    let n = decode_le_u32(b[start], b[start + 1], b[start + 2], b[start + 3]);
    let avail: u64 = (b.len() - start - 4) as u64;
    if (n as u64) * 2 > avail {
        return FrameParse::NeedMore;
    }
    proof {
        assert(2 * (n as int) <= b@.len() - start - 4);
    }
    let n_us = n as usize;
    let blen = b.len();
    let mut samples: Vec<i16> = Vec::new();
    let base = start + 4;
    let mut k: usize = 0;
    while k < n_us
        invariant
            k <= n_us,
            b@.len() == blen,
            n_us == frame_len_at(b@, start as int)->0 as int,
            frame_complete_at(b@, start as int),
            base == start + 4,
            base + 2 * n_us <= b@.len(),
            samples@ == frame_samples_at(b@, start as int).take(k as int),
        decreases n_us - k,
    {
        proof {
            assert(base + 2 * k + 1 < b@.len());
        }
        let s = decode_le_i16(b[base + 2 * k], b[base + 2 * k + 1]);
        samples.push(s);
        k += 1;
        proof {
            assert(samples@ =~= frame_samples_at(b@, start as int).take(k as int));
        }
    }
    proof {
        assert(frame_samples_at(b@, start as int).take(n_us as int) =~= frame_samples_at(
            b@,
            start as int,
        ));
    }
    FrameParse::Frame(samples, base + 2 * n_us)
}

/// The handshake round-trips: decoding what `encode_handshake` wrote
/// recovers the rate, and the magic token checks out.
pub proof fn lemma_handshake_roundtrip(rate: u32)
    ensures
        parse_handshake_spec(handshake_bytes(rate)) == Some((true, rate)),
{
    let b = handshake_bytes(rate);
    assert(b.subrange(0, 4) =~= magic_bytes());
    lemma_u32_le_roundtrip(rate);
}

/// A frame round-trips: a complete frame lies at the start of
/// `frame_bytes(s)`, its samples are exactly `s`, and it spans the whole
/// encoding, `4 + 2 * s.len()` bytes.
pub proof fn lemma_frame_roundtrip(s: Seq<i16>)
    requires
        s.len() <= u32::MAX,
    ensures
        frame_complete_at(frame_bytes(s), 0),
        frame_samples_at(frame_bytes(s), 0) == s,
        frame_bytes(s).len() == 4 + 2 * s.len(),
{
    let b = frame_bytes(s);
    lemma_u32_le_roundtrip(s.len() as u32);
    assert(frame_len_at(b, 0) == Some(s.len() as u32));
    assert forall|k: int| 0 <= k < s.len() implies frame_samples_at(b, 0)[k] == s[k] by {
        assert(b[4 + 2 * k] == pcm_bytes(s)[2 * k]);
        assert(b[4 + 2 * k + 1] == pcm_bytes(s)[2 * k + 1]);
        assert((2 * k) / 2 == k && (2 * k) % 2 == 0);
        assert((2 * k + 1) / 2 == k && (2 * k + 1) % 2 == 1);
        lemma_i16_le_roundtrip(s[k]);
    }
    assert(frame_samples_at(b, 0) =~= s);
}

/// Parsing is concatenation-friendly: a frame decoded at `start` inside a
/// longer stream sees only its own bytes, so back-to-back frames decode
/// independently.
pub proof fn lemma_frame_at_offset(prefix: Seq<u8>, s: Seq<i16>, suffix: Seq<u8>)
    requires
        s.len() <= u32::MAX,
    ensures
        frame_complete_at(prefix + frame_bytes(s) + suffix, prefix.len() as int),
        frame_samples_at(prefix + frame_bytes(s) + suffix, prefix.len() as int) == s,
{
    let b = prefix + frame_bytes(s) + suffix;
    let start = prefix.len() as int;
    lemma_frame_roundtrip(s);
    assert forall|j: int| 0 <= j < frame_bytes(s).len() implies b[start + j] == frame_bytes(s)[j]
    by {}
    lemma_u32_le_roundtrip(s.len() as u32);
    assert(frame_len_at(b, start) == Some(s.len() as u32));
    assert forall|k: int| 0 <= k < s.len() implies frame_samples_at(b, start)[k] == s[k] by {
        assert(b[start + 4 + 2 * k] == frame_bytes(s)[4 + 2 * k]);
        assert(b[start + 4 + 2 * k + 1] == frame_bytes(s)[4 + 2 * k + 1]);
        assert(frame_samples_at(frame_bytes(s), 0)[k] == s[k]);
    }
    assert(frame_samples_at(b, start) =~= s);
}

} // verus!
