//! Audio format conversion: PCM S16LE bytes and 16-bit samples.

use vstd::prelude::*;

verus! {

/// The sample value that two little-endian bytes encode (two's complement).
pub open spec fn le_pair_value(lo: u8, hi: u8) -> int {
    let u = lo as int + 256 * (hi as int);
    if u >= 32768 { u - 65536 } else { u }
}

/// The samples that a byte sequence decodes to: one per complete pair of
/// bytes, a trailing odd byte ignored.
pub open spec fn decode_le(bytes: Seq<u8>) -> Seq<i16> {
    Seq::new(bytes.len() / 2, |i: int| le_pair_value(bytes[2 * i], bytes[2 * i + 1]) as i16)
}

/// Convert bytes to i16 samples (little-endian).
pub fn bytes_to_i16_le(bytes: &[u8]) -> (samples: Vec<i16>)
    ensures
        samples@ == decode_le(bytes@),
{
    let n: usize = bytes.len() / 2;
    let mut out: Vec<i16> = Vec::with_capacity(n);
    let mut i: usize = 0;
    while i < n
        invariant
            n == bytes@.len() / 2,
            2 * n <= bytes@.len() <= usize::MAX,
            i <= n,
            out@.len() == i,
            forall|j: int| 0 <= j < i ==> out@[j] == decode_le(bytes@)[j],
        decreases n - i,
    {
        let lo = bytes[2 * i];
        let hi = bytes[2 * i + 1];
        let u: i32 = lo as i32 + (hi as i32) * 256;
        let v: i32 = if u >= 32768 { u - 65536 } else { u };
        out.push(v as i16);
        i += 1;
    }
    assert(out@ =~= decode_le(bytes@));
    out
}

/// The 16-bit two's-complement pattern of a sample, as an unsigned value.
pub open spec fn unsigned16(s: i16) -> int {
    if s < 0 {
        s + 65536
    } else {
        s as int
    }
}

/// The little-endian bytes of samples: low byte, then high byte, per sample.
pub open spec fn encode_le(samples: Seq<i16>) -> Seq<u8> {
    Seq::new(
        2 * samples.len(),
        |i: int|
            if i % 2 == 0 {
                (unsigned16(samples[i / 2]) % 256) as u8
            } else {
                (unsigned16(samples[i / 2]) / 256) as u8
            },
    )
}

/// Convert i16 samples to bytes (little-endian).
pub fn i16_to_bytes_le(samples: &[i16]) -> (bytes: Vec<u8>)
    ensures
        bytes@ == encode_le(samples@),
{
    let n: usize = samples.len();
    let mut out: Vec<u8> = Vec::new();
    let mut i: usize = 0;
    while i < n
        invariant
            n == samples@.len(),
            i <= n,
            out@.len() == 2 * i,
            forall|j: int| 0 <= j < 2 * i ==> out@[j] == encode_le(samples@)[j],
        decreases n - i,
    {
        let s: i16 = samples[i];
        let u: i32 = if s < 0 { s as i32 + 65536 } else { s as i32 };
        let lo: u8 = (u % 256) as u8;
        let hi: u8 = (u / 256) as u8;
        out.push(lo);
        out.push(hi);
        proof {
            let e = encode_le(samples@);
            assert((2 * i) % 2 == 0 && (2 * i) / 2 == i);
            assert((2 * i + 1) % 2 == 1 && (2 * i + 1) / 2 == i);
            assert(out@[2 * i] == e[2 * i]);
            assert(out@[2 * i + 1] == e[2 * i + 1]);
        }
        i += 1;
    }
    assert(out@ =~= encode_le(samples@));
    out
}

/// Decoding the encoding of samples gives the samples back.
pub proof fn lemma_decode_encode(samples: Seq<i16>)
    ensures
        decode_le(encode_le(samples)) == samples,
{
    let e = encode_le(samples);
    assert forall|i: int| 0 <= i < samples.len() implies #[trigger] decode_le(e)[i] == samples[i] by {
        assert((2 * i) % 2 == 0 && (2 * i) / 2 == i);
        assert((2 * i + 1) % 2 == 1 && (2 * i + 1) / 2 == i);
        let u = unsigned16(samples[i]);
        assert(0 <= u < 65536);
        assert((u % 256) + 256 * (u / 256) == u);
    }
    assert(decode_le(e) =~= samples);
}

/// Encoding the decoded samples gives the bytes back, without a trailing odd
/// byte.
pub proof fn lemma_encode_decode(bytes: Seq<u8>)
    ensures
        encode_le(decode_le(bytes)) == bytes.take(2 * (bytes.len() / 2) as int),
{
    let d = decode_le(bytes);
    let e = encode_le(d);
    let t = bytes.take(2 * (bytes.len() / 2) as int);
    assert forall|i: int| 0 <= i < t.len() implies #[trigger] e[i] == t[i] by {
        let k = i / 2;
        assert(0 <= k < d.len());
        let lo = bytes[2 * k];
        let hi = bytes[2 * k + 1];
        let u = lo as int + 256 * (hi as int);
        assert(unsigned16(d[k]) == u);
        assert(u % 256 == lo as int && u / 256 == hi as int);
        if i % 2 == 0 {
            assert(i == 2 * k);
        } else {
            assert(i == 2 * k + 1);
        }
    }
    assert(e =~= t);
}

/// Start offsets of the analysis windows over `len` samples: every multiple
/// of `hop` below `len - win` (none when `len <= win`), in increasing order.
pub fn window_starts(len: usize, win: usize, hop: usize) -> (starts: Vec<usize>)
    requires
        hop > 0,
    ensures
        forall|i: int|
            0 <= i < starts@.len() ==> #[trigger] starts@[i] == i * hop && starts@[i] + win < len,
        starts@.len() * hop + win >= len,
{
    let limit: usize = if len > win { len - win } else { 0 };
    let mut starts: Vec<usize> = Vec::new();
    if limit == 0 {
        return starts;
    }
    let mut start: usize = 0;
    proof {
        assert(starts@.len() * hop == 0) by (nonlinear_arith)
            requires
                starts@.len() == 0,
        ;
    }
    loop
        invariant_except_break
            start < limit,
            start == starts@.len() * hop,
        invariant
            limit == len - win,
            limit > 0,
            hop > 0,
            forall|i: int|
                0 <= i < starts@.len() ==> #[trigger] starts@[i] == i * hop && starts@[i] + win < len,
        ensures
            forall|i: int|
                0 <= i < starts@.len() ==> #[trigger] starts@[i] == i * hop && starts@[i] + win < len,
            starts@.len() * hop >= limit,
        decreases limit - start,
    {
        let ghost k = starts@.len();
        starts.push(start);
        proof {
            assert((k + 1) * hop == k * hop + hop) by (nonlinear_arith);
        }
        if limit - start <= hop {
            break;
        }
        start = start + hop;
    }
    starts
}

/// Audio format configuration.
pub struct AudioConfig {
    /// Sample rate in Hz
    pub sample_rate: u32,
    /// Number of channels (1 = mono, 2 = stereo)
    pub channels: u16,
    /// Bits per sample (16 for PCM S16LE)
    pub bits_per_sample: u16,
}

impl Default for AudioConfig {
    fn default() -> (res: Self)
        ensures
            res.sample_rate == 16000,
            res.channels == 1,
            res.bits_per_sample == 16,
    {
        AudioConfig { sample_rate: 16000, channels: 1, bits_per_sample: 16 }
    }
}

/// Simple linear resampler between two sample rates.
pub struct Resampler {
    from_rate: u32,
    to_rate: u32,
}

impl Resampler {
    /// The source sample rate.
    pub closed spec fn source_rate(&self) -> u32 {
        self.from_rate
    }

    /// The target sample rate.
    pub closed spec fn target_rate(&self) -> u32 {
        self.to_rate
    }

    pub fn new(from_rate: u32, to_rate: u32) -> (r: Self)
        ensures
            r.source_rate() == from_rate,
            r.target_rate() == to_rate,
    {
        Resampler { from_rate, to_rate }
    }

    /// The source sample rate.
    pub fn from_rate(&self) -> (r: u32)
        ensures
            r == self.source_rate(),
    {
        self.from_rate
    }

    /// The target sample rate.
    pub fn to_rate(&self) -> (r: u32)
        ensures
            r == self.target_rate(),
    {
        self.to_rate
    }

    /// Whether the two rates agree, so that resampling hands the samples back
    /// unchanged.
    pub fn is_identity(&self) -> (b: bool)
        ensures
            b == (self.source_rate() == self.target_rate()),
    {
        self.from_rate == self.to_rate
    }
}

} // verus!
