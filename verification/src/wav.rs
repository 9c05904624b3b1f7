//! The RIFF/WAVE container: reading the chunk list up to the `data`
//! chunk, and writing the canonical 44-byte mono 16-bit header.

use vstd::prelude::*;
use crate::pcm::{read_all_i16, spec_samples_from_le};

verus! {

/// Format of a mono 16-bit PCM WAV stream.
#[derive(Clone, Copy, Debug, PartialEq, Eq)]
pub struct WavInfo {
    pub sample_rate: i32,
    pub channels: u16,
    pub bits_per_sample: u16,
}

/// What the chunk list of a WAV stream says: its format, the declared
/// length of the `data` chunk and where that chunk's bytes begin.
#[derive(Clone, Copy, Debug, PartialEq, Eq)]
pub struct WavHeader {
    pub info: WavInfo,
    pub data_len: u32,
    pub data_start: usize,
}

/// Reasons a WAV chunk list is refused.
#[derive(Clone, Copy, Debug, PartialEq, Eq)]
pub enum WavError {
    /// Fewer than four bytes where a chunk id should stand.
    MissingChunkHeader,
    /// A chunk id without its four size bytes.
    TruncatedChunkSize,
    /// A `fmt ` chunk shorter than 16 bytes.
    FmtTooSmall,
    /// A `fmt ` chunk cut short by the end of the stream.
    TruncatedFmt,
    /// The audio format is not PCM (1).
    NotPcm,
    /// More or fewer than one channel.
    NotMono,
    /// Samples are not 16 bits wide.
    Not16Bit,
    /// A skipped chunk, or its padding byte, cut short.
    TruncatedChunk,
    /// The `data` chunk came before any `fmt ` chunk.
    MissingFmt,
}

/// Little-endian 16-bit value at `p`.
pub open spec fn spec_le_u16_at(b: Seq<u8>, p: int) -> int {
    b[p] + 256 * b[p + 1]
}

/// Little-endian 32-bit value at `p`.
pub open spec fn spec_le_u32_at(b: Seq<u8>, p: int) -> int {
    b[p] + 256 * b[p + 1] + 65536 * b[p + 2] + 16777216 * b[p + 3]
}

/// Whether the four bytes at `p` spell `t0 t1 t2 t3`.
pub open spec fn spec_tag_at(b: Seq<u8>, p: int, t0: u8, t1: u8, t2: u8, t3: u8) -> bool {
    b[p] == t0 && b[p + 1] == t1 && b[p + 2] == t2 && b[p + 3] == t3
}

/// `fmt ` chunk id.
pub open spec fn spec_is_fmt_tag(b: Seq<u8>, p: int) -> bool {
    spec_tag_at(b, p, 0x66, 0x6d, 0x74, 0x20)
}

/// `data` chunk id.
pub open spec fn spec_is_data_tag(b: Seq<u8>, p: int) -> bool {
    spec_tag_at(b, p, 0x64, 0x61, 0x74, 0x61)
}

/// The result of walking the chunk list of `b` from `pos`, with `fmt` the
/// format (channels, bits per sample, sample rate) seen so far. Chunks
/// other than `fmt ` and `data` are skipped; odd-sized chunks carry one
/// padding byte; the walk ends at the first `data` chunk.
pub open spec fn spec_wav_chunks(b: Seq<u8>, pos: int, fmt: Option<(u16, u16, u32)>) -> Result<
    WavHeader,
    WavError,
>
    decreases b.len() - pos,
{
    if pos < 0 || b.len() - pos < 4 {
        Err(WavError::MissingChunkHeader)
    } else if b.len() - pos < 8 {
        Err(WavError::TruncatedChunkSize)
    } else {
        let size = spec_le_u32_at(b, pos + 4);
        let body = pos + 8;
        let pad = size % 2;
        if spec_is_fmt_tag(b, pos) {
            if size < 16 {
                Err(WavError::FmtTooSmall)
            } else if b.len() - body < size {
                Err(WavError::TruncatedFmt)
            } else if spec_le_u16_at(b, body) != 1 {
                Err(WavError::NotPcm)
            } else if spec_le_u16_at(b, body + 2) != 1 {
                Err(WavError::NotMono)
            } else if spec_le_u16_at(b, body + 14) != 16 {
                Err(WavError::Not16Bit)
            } else if pad == 1 && b.len() - (body + size) < 1 {
                Err(WavError::TruncatedChunk)
            } else {
                spec_wav_chunks(
                    b,
                    body + size + pad,
                    Some((1u16, 16u16, spec_le_u32_at(b, body + 4) as u32)),
                )
            }
        } else if spec_is_data_tag(b, pos) {
            match fmt {
                None => Err(WavError::MissingFmt),
                Some((channels, bits, rate)) => Ok(
                    WavHeader {
                        info: WavInfo {
                            sample_rate: rate as i32,
                            channels: channels,
                            bits_per_sample: bits,
                        },
                        data_len: size as u32,
                        data_start: body as usize,
                    },
                ),
            }
        } else if b.len() - body < size {
            Err(WavError::TruncatedChunk)
        } else if pad == 1 && b.len() - (body + size) < 1 {
            Err(WavError::TruncatedChunk)
        } else {
            spec_wav_chunks(b, body + size + pad, fmt)
        }
    }
}

fn le_u16_at(b: &[u8], p: usize) -> (v: u16)
    requires
        p + 2 <= b@.len(),
    ensures
        v == spec_le_u16_at(b@, p as int),
{
    b[p] as u16 + 256 * (b[p + 1] as u16)
}

fn le_u32_at(b: &[u8], p: usize) -> (v: u32)
    requires
        p + 4 <= b@.len(),
    ensures
        v == spec_le_u32_at(b@, p as int),
{
    b[p] as u32 + 256 * (b[p + 1] as u32) + 65536 * (b[p + 2] as u32) + 16777216 * (b[
        p + 3
    ] as u32)
}

fn tag_at(b: &[u8], p: usize, t0: u8, t1: u8, t2: u8, t3: u8) -> (r: bool)
    requires
        p + 4 <= b@.len(),
    ensures
        r == spec_tag_at(b@, p as int, t0, t1, t2, t3),
{
    b[p] == t0 && b[p + 1] == t1 && b[p + 2] == t2 && b[p + 3] == t3
}

/// Skips `size` bytes of a stream of `len` bytes read up to `pos`: the new
/// position, or `TruncatedChunk` where fewer than `size` bytes remain.
pub fn skip_bytes(len: usize, pos: usize, size: usize) -> (r: Result<usize, WavError>)
    requires
        pos <= len,
    ensures
        len - pos >= size ==> r == Ok::<usize, WavError>((pos + size) as usize),
        len - pos < size ==> r == Err::<usize, WavError>(WavError::TruncatedChunk),
{
    if len - pos < size {
        Err(WavError::TruncatedChunk)
    } else {
        Ok(pos + size)
    }
}

/// Walks the chunk list of `bytes` from `start` (just after `RIFF`, the
/// RIFF size and `WAVE`) up to the `data` chunk.
pub fn parse_wav_header(bytes: &[u8], start: usize) -> (r: Result<WavHeader, WavError>)
    requires
        start <= bytes@.len(),
    ensures
        r == spec_wav_chunks(bytes@, start as int, None),
{
    let len = bytes.len();
    let mut pos = start;
    let mut fmt: Option<(u16, u16, u32)> = None;
    loop
        invariant
            len == bytes@.len(),
            pos <= len,
            spec_wav_chunks(bytes@, start as int, None) == spec_wav_chunks(
                bytes@,
                pos as int,
                fmt,
            ),
        decreases len - pos,
    {
        if len - pos < 4 {
            return Err(WavError::MissingChunkHeader);
        }
        if len - pos < 8 {
            return Err(WavError::TruncatedChunkSize);
        }
        let size = le_u32_at(bytes, pos + 4);
        let body = pos + 8;
        let is_fmt = tag_at(bytes, pos, 0x66, 0x6d, 0x74, 0x20);
        let is_data = tag_at(bytes, pos, 0x64, 0x61, 0x74, 0x61);
        let next;
        if is_fmt {
            if size < 16 {
                return Err(WavError::FmtTooSmall);
            }
            if ((len - body) as u64) < size as u64 {
                return Err(WavError::TruncatedFmt);
            }
            let audio_format = le_u16_at(bytes, body);
            let channels = le_u16_at(bytes, body + 2);
            let sample_rate = le_u32_at(bytes, body + 4);
            let bits_per_sample = le_u16_at(bytes, body + 14);
            if audio_format != 1 {
                return Err(WavError::NotPcm);
            }
            if channels != 1 {
                return Err(WavError::NotMono);
            }
            if bits_per_sample != 16 {
                return Err(WavError::Not16Bit);
            }
            fmt = Some((channels, bits_per_sample, sample_rate));
            next = body + size as usize;
        } else if is_data {
            match fmt {
                None => {
                    return Err(WavError::MissingFmt);
                },
                Some((channels, bits_per_sample, sample_rate)) => {
                    return Ok(
                        WavHeader {
                            info: WavInfo {
                                sample_rate: sample_rate as i32,
                                channels,
                                bits_per_sample,
                            },
                            data_len: size,
                            data_start: body,
                        },
                    );
                },
            }
        } else {
            match skip_bytes(len, body, size as usize) {
                Ok(p) => {
                    next = p;
                },
                Err(e) => {
                    return Err(e);
                },
            }
        }
        if size % 2 == 1 {
            match skip_bytes(len, next, 1) {
                Ok(p) => {
                    pos = p;
                },
                Err(e) => {
                    return Err(e);
                },
            }
        } else {
            pos = next;
        }
    }
}


/// Where the audio of an input stream lies: for a WAV stream, its format
/// and the bytes of its `data` chunk as far as the declared length and
/// the stream allow; for raw PCM, the whole stream.
#[derive(Clone, Copy, Debug, PartialEq, Eq)]
pub struct InputLayout {
    pub wav: Option<WavInfo>,
    pub data_start: usize,
    pub data_end: usize,
}

/// Reasons an input stream is refused.
#[derive(Clone, Copy, Debug, PartialEq, Eq)]
pub enum InputError {
    /// The stream holds no byte.
    Empty,
    /// The stream starts as a WAV file whose chunk list is refused.
    Wav(WavError),
}

/// Whether `b` starts with `RIFF`, four size bytes and `WAVE`.
pub open spec fn spec_is_riff_wave(b: Seq<u8>) -> bool {
    b.len() >= 12 && spec_tag_at(b, 0, 0x52, 0x49, 0x46, 0x46) && spec_tag_at(
        b,
        8,
        0x57,
        0x41,
        0x56,
        0x45,
    )
}

/// How an input stream is read: a RIFF/WAVE stream by its chunk list, with
/// the audio ending where the declared `data` length or the stream ends;
/// any other non-empty stream as raw PCM.
pub open spec fn spec_open_input(b: Seq<u8>) -> Result<InputLayout, InputError> {
    if b.len() == 0 {
        Err(InputError::Empty)
    } else if spec_is_riff_wave(b) {
        match spec_wav_chunks(b, 12, None) {
            Err(e) => Err(InputError::Wav(e)),
            Ok(h) => Ok(
                InputLayout {
                    wav: Some(h.info),
                    data_start: h.data_start,
                    data_end: if h.data_start + h.data_len <= b.len() {
                        (h.data_start + h.data_len) as usize
                    } else {
                        b.len() as usize
                    },
                },
            ),
        }
    } else {
        Ok(InputLayout { wav: None, data_start: 0, data_end: b.len() as usize })
    }
}

/// Lays out an input stream that has been read into `bytes`: detects a
/// RIFF/WAVE file and bounds its audio by the declared `data` length.
pub fn open_input(bytes: &[u8]) -> (r: Result<InputLayout, InputError>)
    ensures
        r == spec_open_input(bytes@),
        r matches Ok(l) ==> l.data_start <= l.data_end <= bytes@.len(),
{
    let len = bytes.len();
    if len == 0 {
        return Err(InputError::Empty);
    }
    if len >= 12 && tag_at(bytes, 0, 0x52, 0x49, 0x46, 0x46) && tag_at(
        bytes,
        8,
        0x57,
        0x41,
        0x56,
        0x45,
    ) {
        match parse_wav_header(bytes, 12) {
            Err(e) => Err(InputError::Wav(e)),
            Ok(h) => {
                proof {
                    lemma_wav_data_start_in_bounds(bytes@, 12, None);
                }
                let end = if ((len - h.data_start) as u64) >= h.data_len as u64 {
                    h.data_start + h.data_len as usize
                } else {
                    len
                };
                Ok(InputLayout { wav: Some(h.info), data_start: h.data_start, data_end: end })
            },
        }
    } else {
        Ok(InputLayout { wav: None, data_start: 0, data_end: len })
    }
}

/// A successful chunk walk ends inside the stream.
pub proof fn lemma_wav_data_start_in_bounds(b: Seq<u8>, pos: int, fmt: Option<(u16, u16, u32)>)
    requires
        b.len() <= usize::MAX,
    ensures
        spec_wav_chunks(b, pos, fmt) matches Ok(h) ==> pos + 8 <= h.data_start <= b.len(),
    decreases b.len() - pos,
{
    if pos >= 0 && b.len() - pos >= 8 {
        let size = spec_le_u32_at(b, pos + 4);
        let body = pos + 8;
        let pad = size % 2;
        assert(size >= 0) by {
            assert(b[pos + 4] >= 0 && b[pos + 5] >= 0 && b[pos + 6] >= 0 && b[pos + 7] >= 0);
        }
        if spec_is_data_tag(b, pos) && !spec_is_fmt_tag(b, pos) {
        } else if b.len() - body < size || (pad == 1 && b.len() - (body + size) < 1) {
        } else if spec_is_fmt_tag(b, pos) {
            lemma_wav_data_start_in_bounds(
                b,
                body + size + pad,
                Some((1u16, 16u16, spec_le_u32_at(b, body + 4) as u32)),
            );
        } else if !spec_is_data_tag(b, pos) {
            lemma_wav_data_start_in_bounds(b, body + size + pad, fmt);
        }
    }
}

/// Reasons a reference stream is refused.
#[derive(Clone, Copy, Debug, PartialEq, Eq)]
pub enum ReferenceError {
    /// The stream cannot be laid out.
    Input(InputError),
    /// The reference WAV is not mono 16-bit.
    NotMono16,
    /// The reference WAV's rate differs from the decoding rate.
    RateMismatch { reference: i32, expected: i32 },
}

/// The reference samples a stream holds, or why it is refused.
pub open spec fn spec_load_reference_samples(b: Seq<u8>, sample_rate: i32) -> Result<
    Seq<i16>,
    ReferenceError,
> {
    match spec_open_input(b) {
        Err(e) => Err(ReferenceError::Input(e)),
        Ok(l) => match l.wav {
            Some(w) => if w.channels != 1 || w.bits_per_sample != 16 {
                Err(ReferenceError::NotMono16)
            } else if w.sample_rate != sample_rate {
                Err(ReferenceError::RateMismatch { reference: w.sample_rate, expected: sample_rate })
            } else {
                Ok(spec_samples_from_le(b.subrange(l.data_start as int, l.data_end as int)))
            },
            None => Ok(spec_samples_from_le(b.subrange(l.data_start as int, l.data_end as int))),
        },
    }
}

/// Reads the samples of a reference stream (raw PCM or WAV) that decoded
/// audio is compared against; a WAV reference must match `sample_rate`.
pub fn load_reference_samples(bytes: &[u8], sample_rate: i32) -> (r: Result<
    Vec<i16>,
    ReferenceError,
>)
    ensures
        r matches Ok(s) ==> spec_load_reference_samples(bytes@, sample_rate) == Ok::<
            Seq<i16>,
            ReferenceError,
        >(s@),
        r matches Err(e) ==> spec_load_reference_samples(bytes@, sample_rate) == Err::<
            Seq<i16>,
            ReferenceError,
        >(e),
{
    let layout = match open_input(bytes) {
        Err(e) => {
            return Err(ReferenceError::Input(e));
        },
        Ok(l) => l,
    };
    if let Some(w) = layout.wav {
        if w.channels != 1 || w.bits_per_sample != 16 {
            return Err(ReferenceError::NotMono16);
        }
        if w.sample_rate != sample_rate {
            return Err(ReferenceError::RateMismatch { reference: w.sample_rate, expected: sample_rate });
        }
    }
    Ok(read_all_i16(&bytes[layout.data_start..layout.data_end]))
}


/// Little-endian bytes of a 32-bit value.
pub open spec fn spec_le32_bytes(v: int) -> Seq<u8> {
    seq![
        (v % 256) as u8,
        ((v / 256) % 256) as u8,
        ((v / 65536) % 256) as u8,
        ((v / 16777216) % 256) as u8,
    ]
}

/// Little-endian bytes of a 16-bit value.
pub open spec fn spec_le16_bytes(v: int) -> Seq<u8> {
    seq![(v % 256) as u8, ((v / 256) % 256) as u8]
}

/// The RIFF size field: 36 plus the data length, saturating at `u32::MAX`.
pub open spec fn spec_riff_size(data_len: u32) -> int {
    if 36 + data_len <= u32::MAX {
        36 + data_len
    } else {
        u32::MAX as int
    }
}

/// The 44-byte header of a mono 16-bit PCM WAV file.
pub open spec fn spec_wav_header_bytes(sample_rate: u32, data_len: u32) -> Seq<u8> {
    seq![0x52u8, 0x49, 0x46, 0x46] + spec_le32_bytes(spec_riff_size(data_len)) + seq![
        0x57u8,
        0x41,
        0x56,
        0x45,
    ] + seq![0x66u8, 0x6d, 0x74, 0x20] + spec_le32_bytes(16) + spec_le16_bytes(1)
        + spec_le16_bytes(1) + spec_le32_bytes(sample_rate as int) + spec_le32_bytes(
        sample_rate * 2,
    ) + spec_le16_bytes(2) + spec_le16_bytes(16) + seq![0x64u8, 0x61, 0x74, 0x61]
        + spec_le32_bytes(data_len as int)
}

fn push_le32(out: &mut Vec<u8>, v: u32)
    ensures
        final(out)@ == old(out)@ + spec_le32_bytes(v as int),
{
    out.push((v % 256) as u8);
    out.push(((v / 256) % 256) as u8);
    out.push(((v / 65536) % 256) as u8);
    out.push(((v / 16777216) % 256) as u8);
    assert(final(out)@ =~= old(out)@ + spec_le32_bytes(v as int));
}

fn push_le16(out: &mut Vec<u8>, v: u16)
    ensures
        final(out)@ == old(out)@ + spec_le16_bytes(v as int),
{
    out.push((v % 256) as u8);
    out.push(((v / 256) % 256) as u8);
    assert(final(out)@ =~= old(out)@ + spec_le16_bytes(v as int));
}

fn push_tag(out: &mut Vec<u8>, t0: u8, t1: u8, t2: u8, t3: u8)
    ensures
        final(out)@ == old(out)@ + seq![t0, t1, t2, t3],
{
    out.push(t0);
    out.push(t1);
    out.push(t2);
    out.push(t3);
    assert(final(out)@ =~= old(out)@ + seq![t0, t1, t2, t3]);
}

/// The header of a mono 16-bit PCM WAV file at `sample_rate` whose `data`
/// chunk holds `data_len` bytes.
pub fn write_wav_header(sample_rate: u32, data_len: u32) -> (out: Vec<u8>)
    requires
        sample_rate * 2 <= u32::MAX,
    ensures
        out@ == spec_wav_header_bytes(sample_rate, data_len),
        out@.len() == 44,
        spec_le_u32_at(out@, 24) == sample_rate,
        spec_le_u32_at(out@, 28) == 2 * sample_rate,
        spec_le_u16_at(out@, 22) == 1,
        spec_le_u16_at(out@, 32) == 2,
        spec_le_u16_at(out@, 34) == 16,
        spec_le_u32_at(out@, 40) == data_len,
{
    let byte_rate = sample_rate * 2;
    let riff_size = 36u32.saturating_add(data_len);
    let mut out: Vec<u8> = Vec::new();
    push_tag(&mut out, 0x52, 0x49, 0x46, 0x46);
    push_le32(&mut out, riff_size);
    push_tag(&mut out, 0x57, 0x41, 0x56, 0x45);
    push_tag(&mut out, 0x66, 0x6d, 0x74, 0x20);
    push_le32(&mut out, 16);
    push_le16(&mut out, 1);
    push_le16(&mut out, 1);
    push_le32(&mut out, sample_rate);
    push_le32(&mut out, byte_rate);
    push_le16(&mut out, 2);
    push_le16(&mut out, 16);
    push_tag(&mut out, 0x64, 0x61, 0x74, 0x61);
    push_le32(&mut out, data_len);
    proof {
        lemma_wav_header_fields(sample_rate, data_len);
    }
    out
}

/// Reading back the little-endian bytes of a 32-bit value gives the value.
pub proof fn lemma_le32_roundtrip(v: int)
    requires
        0 <= v <= u32::MAX,
    ensures
        spec_le_u32_at(spec_le32_bytes(v), 0) == v,
{
}

/// Reading back the little-endian bytes of a 16-bit value gives the value.
pub proof fn lemma_le16_roundtrip(v: int)
    requires
        0 <= v <= u16::MAX,
    ensures
        spec_le_u16_at(spec_le16_bytes(v), 0) == v,
{
}

/// The fields of the WAV header: `RIFF` with the file size less 8 (36 plus
/// the data length, saturating), `WAVE`, a 16-byte `fmt ` chunk for PCM
/// (format 1) with one channel at `sample_rate`, 16 bits per sample, so a
/// block of 2 bytes and a byte rate of twice the sample rate, then the
/// `data` chunk id with `data_len`.
pub proof fn lemma_wav_header_fields(sample_rate: u32, data_len: u32)
    requires
        sample_rate * 2 <= u32::MAX,
    ensures
        ({
            let h = spec_wav_header_bytes(sample_rate, data_len);
            &&& h.len() == 44
            &&& spec_tag_at(h, 0, 0x52, 0x49, 0x46, 0x46)
            &&& spec_le_u32_at(h, 4) == if 36 + data_len <= u32::MAX {
                36 + data_len
            } else {
                u32::MAX as int
            }
            &&& spec_tag_at(h, 8, 0x57, 0x41, 0x56, 0x45)
            &&& spec_is_fmt_tag(h, 12)
            &&& spec_le_u32_at(h, 16) == 16
            &&& spec_le_u16_at(h, 20) == 1
            &&& spec_le_u16_at(h, 22) == 1
            &&& spec_le_u32_at(h, 24) == sample_rate
            &&& spec_le_u32_at(h, 28) == 2 * sample_rate
            &&& spec_le_u16_at(h, 32) == 2
            &&& spec_le_u16_at(h, 34) == 16
            &&& spec_le_u32_at(h, 28) == spec_le_u16_at(h, 32) * spec_le_u32_at(h, 24)
            &&& spec_le_u16_at(h, 32) == spec_le_u16_at(h, 22) * spec_le_u16_at(h, 34) / 8
            &&& spec_is_data_tag(h, 36)
            &&& spec_le_u32_at(h, 40) == data_len
        }),
{
    let h = spec_wav_header_bytes(sample_rate, data_len);
    lemma_le32_roundtrip(spec_riff_size(data_len));
    lemma_le32_roundtrip(16);
    lemma_le16_roundtrip(1);
    lemma_le16_roundtrip(2);
    lemma_le16_roundtrip(16);
    lemma_le32_roundtrip(sample_rate as int);
    lemma_le32_roundtrip(2 * sample_rate);
    lemma_le32_roundtrip(data_len as int);
    assert(spec_le_u32_at(h, 4) == spec_riff_size(data_len)) by {
        assert(h.subrange(4, 8) =~= spec_le32_bytes(spec_riff_size(data_len)));
    }
    assert(spec_le_u32_at(h, 16) == 16) by {
        assert(h.subrange(16, 20) =~= spec_le32_bytes(16));
    }
    assert(spec_le_u16_at(h, 20) == 1) by {
        assert(h.subrange(20, 22) =~= spec_le16_bytes(1));
    }
    assert(spec_le_u16_at(h, 22) == 1) by {
        assert(h.subrange(22, 24) =~= spec_le16_bytes(1));
    }
    assert(spec_le_u32_at(h, 24) == sample_rate) by {
        assert(h.subrange(24, 28) =~= spec_le32_bytes(sample_rate as int));
    }
    assert(spec_le_u32_at(h, 28) == 2 * sample_rate) by {
        assert(h.subrange(28, 32) =~= spec_le32_bytes(sample_rate * 2));
    }
    assert(spec_le_u16_at(h, 32) == 2) by {
        assert(h.subrange(32, 34) =~= spec_le16_bytes(2));
    }
    assert(spec_le_u16_at(h, 34) == 16) by {
        assert(h.subrange(34, 36) =~= spec_le16_bytes(16));
    }
    assert(spec_le_u32_at(h, 40) == data_len) by {
        assert(h.subrange(40, 44) =~= spec_le32_bytes(data_len as int));
    }
}

/// A stream made of the header written for `sample_rate` and `data_len`
/// followed by any bytes is read as a mono 16-bit WAV at `sample_rate`
/// whose audio starts after the header and stops after `data_len` bytes,
/// or at the end of the stream if that comes first.
pub proof fn lemma_wav_header_roundtrip(sample_rate: u32, data_len: u32, data: Seq<u8>)
    requires
        sample_rate * 2 <= u32::MAX,
        44 + data.len() <= usize::MAX,
    ensures
        spec_open_input(spec_wav_header_bytes(sample_rate, data_len) + data) == Ok::<
            InputLayout,
            InputError,
        >(
            InputLayout {
                wav: Some(WavInfo { sample_rate: sample_rate as i32, channels: 1, bits_per_sample: 16 }),
                data_start: 44,
                data_end: if data_len <= data.len() {
                    (44 + data_len) as usize
                } else {
                    (44 + data.len()) as usize
                },
            },
        ),
{
    let h = spec_wav_header_bytes(sample_rate, data_len);
    let b = h + data;
    lemma_le32_roundtrip(spec_riff_size(data_len));
    lemma_le32_roundtrip(16);
    lemma_le16_roundtrip(1);
    lemma_le16_roundtrip(16);
    lemma_le32_roundtrip(sample_rate as int);
    lemma_le32_roundtrip(data_len as int);
    assert(h.len() == 44);
    assert(spec_le_u32_at(b, 16) == 16) by {
        assert(b.subrange(16, 20) =~= spec_le32_bytes(16));
    }
    assert(spec_le_u16_at(b, 20) == 1) by {
        assert(b.subrange(20, 22) =~= spec_le16_bytes(1));
    }
    assert(spec_le_u16_at(b, 22) == 1) by {
        assert(b.subrange(22, 24) =~= spec_le16_bytes(1));
    }
    assert(spec_le_u32_at(b, 24) == sample_rate) by {
        assert(b.subrange(24, 28) =~= spec_le32_bytes(sample_rate as int));
    }
    assert(spec_le_u16_at(b, 34) == 16) by {
        assert(b.subrange(34, 36) =~= spec_le16_bytes(16));
    }
    assert(spec_le_u32_at(b, 40) == data_len) by {
        assert(b.subrange(40, 44) =~= spec_le32_bytes(data_len as int));
    }
    assert(spec_is_riff_wave(b));
    assert(spec_is_fmt_tag(b, 12));
    assert(!spec_is_data_tag(b, 12));
    assert(spec_is_data_tag(b, 36));
    assert(!spec_is_fmt_tag(b, 36));
    assert(spec_wav_chunks(b, 12, None) == spec_wav_chunks(
        b,
        36,
        Some((1u16, 16u16, sample_rate)),
    ));
}


/// A WAV file made of the header for `samples` and their bytes reads back
/// as a mono 16-bit WAV at `sample_rate` holding exactly `samples`.
#[verifier::rlimit(40)]
pub proof fn lemma_wav_file_roundtrip(sample_rate: u32, samples: Seq<i16>)
    requires
        sample_rate * 2 <= u32::MAX,
        2 * samples.len() <= u32::MAX,
        44 + 2 * samples.len() <= usize::MAX,
    ensures
        ({
            let data = crate::pcm::spec_samples_to_le(samples);
            let b = spec_wav_header_bytes(sample_rate, (2 * samples.len()) as u32) + data;
            &&& spec_open_input(b) matches Ok(l) && {
                &&& l.wav == Some(
                    WavInfo { sample_rate: sample_rate as i32, channels: 1, bits_per_sample: 16 },
                )
                &&& spec_samples_from_le(b.subrange(l.data_start as int, l.data_end as int))
                    == samples
            }
        }),
{
    let data = crate::pcm::spec_samples_to_le(samples);
    let h = spec_wav_header_bytes(sample_rate, (2 * samples.len()) as u32);
    let b = h + data;
    lemma_wav_header_roundtrip(sample_rate, (2 * samples.len()) as u32, data);
    assert(h.len() == 44);
    assert(b.subrange(44, 44 + data.len() as int) =~= data);
    crate::pcm::lemma_pcm_roundtrip(samples);
}


proof fn lemma_wav_chunks_mono16(b: Seq<u8>, pos: int, fmt: Option<(u16, u16, u32)>)
    requires
        fmt matches Some((c, bits, r)) ==> c == 1 && bits == 16,
    ensures
        spec_wav_chunks(b, pos, fmt) matches Ok(h) ==> h.info.channels == 1
            && h.info.bits_per_sample == 16,
    decreases b.len() - pos,
{
    if pos >= 0 && b.len() - pos >= 8 {
        let size = spec_le_u32_at(b, pos + 4);
        let body = pos + 8;
        let pad = size % 2;
        assert(size >= 0) by {
            assert(b[pos + 4] >= 0 && b[pos + 5] >= 0 && b[pos + 6] >= 0 && b[pos + 7] >= 0);
        }
        if spec_is_data_tag(b, pos) && !spec_is_fmt_tag(b, pos) {
        } else if b.len() - body < size || (pad == 1 && b.len() - (body + size) < 1) {
        } else if spec_is_fmt_tag(b, pos) {
            lemma_wav_chunks_mono16(
                b,
                body + size + pad,
                Some((1u16, 16u16, spec_le_u32_at(b, body + 4) as u32)),
            );
        } else {
            lemma_wav_chunks_mono16(b, body + size + pad, fmt);
        }
    }
}

/// Every WAV input that is accepted is mono with 16-bit samples.
pub proof fn lemma_accepted_wav_is_mono16(b: Seq<u8>)
    ensures
        match spec_open_input(b) {
            Ok(l) => match l.wav {
                Some(w) => w.channels == 1 && w.bits_per_sample == 16,
                None => true,
            },
            Err(_) => true,
        },
{
    lemma_wav_chunks_mono16(b, 12, None);
}

} // verus!
