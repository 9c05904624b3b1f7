//! Little-endian signed 16-bit PCM: the sample format of every audio
//! stream this tool reads and writes.

use vstd::prelude::*;

verus! {

/// Unsigned 16-bit pattern of a sample (two's complement).
pub open spec fn spec_sample_bits(s: i16) -> int {
    if s < 0 {
        s + 65536
    } else {
        s as int
    }
}

/// The sample whose little-endian bytes are `lo`, `hi`.
pub open spec fn spec_le_i16(lo: u8, hi: u8) -> i16 {
    let u = lo + 256 * hi;
    (if u >= 32768 {
        u - 65536
    } else {
        u
    }) as i16
}

/// Low byte of a sample in little-endian order.
pub open spec fn spec_low_byte(s: i16) -> u8 {
    (spec_sample_bits(s) % 256) as u8
}

/// High byte of a sample in little-endian order.
pub open spec fn spec_high_byte(s: i16) -> u8 {
    (spec_sample_bits(s) / 256) as u8
}

/// The samples held by `bytes`, read pairwise; a trailing odd byte is dropped.
pub open spec fn spec_samples_from_le(bytes: Seq<u8>) -> Seq<i16> {
    Seq::new(bytes.len() / 2, |k: int| spec_le_i16(bytes[2 * k], bytes[2 * k + 1]))
}

/// The little-endian byte stream of `samples`.
pub open spec fn spec_samples_to_le(samples: Seq<i16>) -> Seq<u8> {
    Seq::new(
        2 * samples.len(),
        |i: int|
            if i % 2 == 0 {
                spec_low_byte(samples[i / 2])
            } else {
                spec_high_byte(samples[i / 2])
            },
    )
}

/// Decodes one sample from its two little-endian bytes.
pub fn le_i16(lo: u8, hi: u8) -> (s: i16)
    ensures
        s == spec_le_i16(lo, hi),
{
    let u: u32 = lo as u32 + 256 * (hi as u32);
    if u >= 32768 {
        (u as i32 - 65536) as i16
    } else {
        u as i16
    }
}

/// Encodes one sample as its two little-endian bytes.
pub fn i16_le_bytes(s: i16) -> (r: (u8, u8))
    ensures
        r.0 == spec_low_byte(s),
        r.1 == spec_high_byte(s),
{
    let u: u32 = if s < 0 {
        (s as i32 + 65536) as u32
    } else {
        s as u32
    };
    ((u % 256) as u8, (u / 256) as u8)
}

/// Reads a whole PCM stream into samples; an odd trailing byte is dropped.
pub fn read_all_i16(bytes: &[u8]) -> (samples: Vec<i16>)
    ensures
        samples@ == spec_samples_from_le(bytes@),
{
    let len = bytes.len();
    let n = len / 2;
    let mut samples: Vec<i16> = Vec::new();
    let mut k: usize = 0;
    while k < n
        invariant
            len == bytes@.len(),
            n == len / 2,
            k <= n,
            samples@.len() == k,
            forall|j: int|
                0 <= j < k ==> #[trigger] samples@[j] == spec_le_i16(
                    bytes@[2 * j],
                    bytes@[2 * j + 1],
                ),
        decreases n - k,
    {
        samples.push(le_i16(bytes[2 * k], bytes[2 * k + 1]));
        k = k + 1;
    }
    assert(samples@ =~= spec_samples_from_le(bytes@));
    samples
}

/// Writes samples as a little-endian PCM byte stream.
pub fn samples_to_le_bytes(samples: &[i16]) -> (bytes: Vec<u8>)
    requires
        2 * samples@.len() <= usize::MAX,
    ensures
        bytes@ == spec_samples_to_le(samples@),
{
    let mut bytes: Vec<u8> = Vec::new();
    let mut k: usize = 0;
    while k < samples.len()
        invariant
            2 * samples@.len() <= usize::MAX,
            k <= samples@.len(),
            bytes@.len() == 2 * k,
            forall|i: int|
                0 <= i < 2 * k ==> #[trigger] bytes@[i] == (if i % 2 == 0 {
                    spec_low_byte(samples@[i / 2])
                } else {
                    spec_high_byte(samples@[i / 2])
                }),
        decreases samples@.len() - k,
    {
        let (lo, hi) = i16_le_bytes(samples[k]);
        bytes.push(lo);
        bytes.push(hi);
        k = k + 1;
    }
    assert(bytes@ =~= spec_samples_to_le(samples@));
    bytes
}

/// Reading back the bytes of one sample gives the sample.
pub proof fn lemma_sample_bytes_roundtrip(s: i16)
    ensures
        spec_le_i16(spec_low_byte(s), spec_high_byte(s)) == s,
{
}

/// Writing samples and reading the bytes back gives the same samples.
pub proof fn lemma_pcm_roundtrip(samples: Seq<i16>)
    ensures
        spec_samples_from_le(spec_samples_to_le(samples)) == samples,
{
    let bytes = spec_samples_to_le(samples);
    let back = spec_samples_from_le(bytes);
    assert forall|k: int| 0 <= k < samples.len() implies back[k] == samples[k] by {
        assert((2 * k) % 2 == 0);
        assert((2 * k + 1) % 2 == 1);
        assert((2 * k) / 2 == k);
        assert((2 * k + 1) / 2 == k);
        lemma_sample_bytes_roundtrip(samples[k]);
    }
    assert(back =~= samples);
}

/// Reading an even-length byte stream and writing the samples back gives
/// the same bytes.
pub proof fn lemma_pcm_bytes_roundtrip(bytes: Seq<u8>)
    requires
        bytes.len() % 2 == 0,
    ensures
        spec_samples_to_le(spec_samples_from_le(bytes)) == bytes,
{
    let samples = spec_samples_from_le(bytes);
    let back = spec_samples_to_le(samples);
    assert forall|i: int| 0 <= i < bytes.len() implies back[i] == bytes[i] by {
        let k = i / 2;
        if i % 2 == 0 {
            assert(i == 2 * k);
        } else {
            assert(i == 2 * k + 1);
        }
    }
    assert(back =~= bytes);
}

} // verus!
