//! The decisions of the `decode` command around the codec calls: which
//! inputs and rates are accepted, what each decoded or failed frame turns
//! into under each tolerant mode, and what the output sink writes and
//! counts.

use vstd::prelude::*;
use crate::args::TolerantMode;
use crate::container::{next_packet, spec_next_packet, ContainerError, PacketRead};
use crate::encoder::MAX_INPUT_FRAMES;
use crate::rates::{is_supported_sample_rate, spec_supported_sample_rate, MAX_API_FS_HZ};
use crate::wav::{open_input, spec_open_input, InputError, ReferenceError};

verus! {

/// Longest frame the codec may return, in milliseconds.
pub const MAX_FRAME_LENGTH_MS: i32 = 60;

/// Room, in samples, of the buffer the codec decodes into: 60 ms at 48 kHz.
pub const MAX_FRAME_SAMPLES: usize = 2880;

/// Reasons a decoding run stops with an error.
#[derive(Clone, Copy, Debug, PartialEq, Eq)]
pub enum DecodeError {
    /// The sample rate is not in 1..=48000.
    SampleRateOutOfRange { rate: i32 },
    /// The sample rate is not one of the supported rates.
    UnsupportedSampleRate { rate: i32 },
    /// The input cannot be laid out.
    Input(InputError),
    /// The input is a WAV file, not a SILK stream.
    WavInput,
    /// The reference stream is refused.
    Reference(ReferenceError),
    /// A WAV output was asked for on standard output.
    WavToStdout,
    /// The SILK container is malformed.
    Container(ContainerError),
    /// The codec reported an error code.
    DecodeFailed { code: i32 },
    /// The codec reported more samples than its buffer holds.
    FrameTooLarge,
    /// A packet held more frames than a packet may.
    TooManyFrames,
}

/// The first checks of a decoding run: the sample rate.
pub open spec fn spec_check_decode_rate(rate: i32) -> Result<(), DecodeError> {
    if rate <= 0 || rate > MAX_API_FS_HZ {
        Err(DecodeError::SampleRateOutOfRange { rate })
    } else if !spec_supported_sample_rate(rate as int) {
        Err(DecodeError::UnsupportedSampleRate { rate })
    } else {
        Ok(())
    }
}

/// Checks the decoding sample rate.
pub fn check_decode_rate(rate: i32) -> (r: Result<(), DecodeError>)
    ensures
        r == spec_check_decode_rate(rate),
        r is Ok <==> (rate == 8000 || rate == 12000 || rate == 16000 || rate == 24000 || rate
            == 48000),
{
    if rate <= 0 || rate > MAX_API_FS_HZ {
        return Err(DecodeError::SampleRateOutOfRange { rate });
    }
    if !is_supported_sample_rate(rate) {
        return Err(DecodeError::UnsupportedSampleRate { rate });
    }
    Ok(())
}

/// A SILK input must be non-empty and must not be a WAV file.
pub open spec fn spec_check_silk_input(b: Seq<u8>) -> Result<(), DecodeError> {
    match spec_open_input(b) {
        Err(e) => Err(DecodeError::Input(e)),
        Ok(l) => if l.wav is Some {
            Err(DecodeError::WavInput)
        } else {
            Ok(())
        },
    }
}

/// Checks that an input to decode is not empty and not a WAV file.
pub fn check_silk_input(bytes: &[u8]) -> (r: Result<(), DecodeError>)
    ensures
        r == spec_check_silk_input(bytes@),
{
    match open_input(bytes) {
        Err(e) => Err(DecodeError::Input(e)),
        Ok(l) => if l.wav.is_some() {
            Err(DecodeError::WavInput)
        } else {
            Ok(())
        },
    }
}

/// Samples in one 20 ms frame at `rate`.
pub fn frame_samples_at(rate: i32) -> (r: usize)
    requires
        spec_supported_sample_rate(rate as int),
    ensures
        r == 20 * rate / 1000,
        r <= 960,
{
    (20 * rate / 1000) as usize
}

/// What follows a frame within its packet.
#[derive(Clone, Copy, Debug, PartialEq, Eq)]
pub enum FrameNext {
    /// Decode the next frame of the packet.
    Continue,
    /// The packet is done; read the next one.
    EndPacket,
    /// Stop the run with this error.
    Fail(DecodeError),
}

/// What to do with the outcome of one codec call, in this order: write
/// the `samples` the codec returned (when `write_output`), write
/// `silence_samples` zero samples, count `frames` decoded frames, then go
/// on as `next` says.
#[derive(Clone, Copy, Debug, PartialEq, Eq)]
pub struct FrameAction {
    pub write_output: bool,
    pub samples: usize,
    pub silence_samples: usize,
    pub frames: u64,
    pub next: FrameNext,
}

/// Whether the codec's reported sample count fits its buffer.
pub open spec fn spec_out_len_ok(out_len: i16, capacity: usize) -> bool {
    0 <= out_len && out_len <= capacity
}

/// The action for a failed call (`error`) on a packet, under `mode`:
/// stop the packet, fill `silence_frames` frames with silence, or fail.
pub open spec fn spec_broken_frame(
    mode: TolerantMode,
    error: DecodeError,
    silence_frames: int,
    frame_samples: int,
    skip_next: FrameNext,
) -> FrameAction {
    match mode {
        TolerantMode::Skip => FrameAction {
            write_output: false,
            samples: 0,
            silence_samples: 0,
            frames: 0,
            next: skip_next,
        },
        TolerantMode::Silence => FrameAction {
            write_output: false,
            samples: 0,
            silence_samples: (silence_frames * frame_samples) as usize,
            frames: silence_frames as u64,
            next: FrameNext::EndPacket,
        },
        TolerantMode::Off => FrameAction {
            write_output: false,
            samples: 0,
            silence_samples: 0,
            frames: 0,
            next: FrameNext::Fail(error),
        },
    }
}

/// The action after the codec decoded frame number `frames_done + 1` of a
/// packet that arrived, with result code `ret`, `out_len` samples and the
/// codec's `more_frames` flag.
pub open spec fn spec_coded_frame_action(
    mode: TolerantMode,
    ret: i32,
    out_len: i16,
    capacity: usize,
    frames_done: usize,
    more_frames: i32,
    frame_samples: usize,
) -> FrameAction {
    if ret != 0 {
        spec_broken_frame(
            mode,
            DecodeError::DecodeFailed { code: ret },
            1,
            frame_samples as int,
            FrameNext::EndPacket,
        )
    } else if !spec_out_len_ok(out_len, capacity) {
        spec_broken_frame(mode, DecodeError::FrameTooLarge, 1, frame_samples as int, FrameNext::EndPacket)
    } else if frames_done + 1 > MAX_INPUT_FRAMES {
        match mode {
            TolerantMode::Skip => FrameAction {
                write_output: true,
                samples: out_len as usize,
                silence_samples: 0,
                frames: 1,
                next: FrameNext::EndPacket,
            },
            TolerantMode::Silence => FrameAction {
                write_output: true,
                samples: out_len as usize,
                silence_samples: frame_samples,
                frames: 2,
                next: FrameNext::EndPacket,
            },
            TolerantMode::Off => FrameAction {
                write_output: true,
                samples: out_len as usize,
                silence_samples: 0,
                frames: 1,
                next: FrameNext::Fail(DecodeError::TooManyFrames),
            },
        }
    } else {
        FrameAction {
            write_output: true,
            samples: out_len as usize,
            silence_samples: 0,
            frames: 1,
            next: if more_frames == 0 {
                FrameNext::EndPacket
            } else {
                FrameNext::Continue
            },
        }
    }
}

/// Decides what follows a codec call on a packet that arrived.
pub fn coded_frame_action(
    mode: TolerantMode,
    ret: i32,
    out_len: i16,
    capacity: usize,
    frames_done: usize,
    more_frames: i32,
    frame_samples: usize,
) -> (a: FrameAction)
    ensures
        a == spec_coded_frame_action(
            mode,
            ret,
            out_len,
            capacity,
            frames_done,
            more_frames,
            frame_samples,
        ),
{
    let broken_error = if ret != 0 {
        Some(DecodeError::DecodeFailed { code: ret })
    } else if out_len < 0 || out_len as usize > capacity {
        Some(DecodeError::FrameTooLarge)
    } else {
        None
    };
    if let Some(error) = broken_error {
        return match mode {
            TolerantMode::Skip => FrameAction {
                write_output: false,
                samples: 0,
                silence_samples: 0,
                frames: 0,
                next: FrameNext::EndPacket,
            },
            TolerantMode::Silence => FrameAction {
                write_output: false,
                samples: 0,
                silence_samples: frame_samples,
                frames: 1,
                next: FrameNext::EndPacket,
            },
            TolerantMode::Off => FrameAction {
                write_output: false,
                samples: 0,
                silence_samples: 0,
                frames: 0,
                next: FrameNext::Fail(error),
            },
        };
    }
    let samples = out_len as usize;
    if frames_done >= MAX_INPUT_FRAMES as usize {
        match mode {
            TolerantMode::Skip => FrameAction {
                write_output: true,
                samples,
                silence_samples: 0,
                frames: 1,
                next: FrameNext::EndPacket,
            },
            TolerantMode::Silence => FrameAction {
                write_output: true,
                samples,
                silence_samples: frame_samples,
                frames: 2,
                next: FrameNext::EndPacket,
            },
            TolerantMode::Off => FrameAction {
                write_output: true,
                samples,
                silence_samples: 0,
                frames: 1,
                next: FrameNext::Fail(DecodeError::TooManyFrames),
            },
        }
    } else {
        FrameAction {
            write_output: true,
            samples,
            silence_samples: 0,
            frames: 1,
            next: if more_frames == 0 {
                FrameNext::EndPacket
            } else {
                FrameNext::Continue
            },
        }
    }
}

/// How many frames to conceal for a lost (empty) packet: the codec's
/// frames-per-packet count, or one when that count is not positive.
pub open spec fn spec_lost_frame_count(frames_per_packet: i32) -> i32 {
    if frames_per_packet > 0 {
        frames_per_packet
    } else {
        1
    }
}

/// How many frames to conceal for a lost packet.
pub fn lost_frame_count(frames_per_packet: i32) -> (r: i32)
    ensures
        r == spec_lost_frame_count(frames_per_packet),
        r >= 1,
{
    if frames_per_packet > 0 {
        frames_per_packet
    } else {
        1
    }
}

/// The action after concealing frame `frame_idx` of `frames` for a lost
/// packet, with result code `ret` and `out_len` samples. A broken frame
/// under `Silence` fills the rest of the packet with silence.
pub open spec fn spec_lost_frame_action(
    mode: TolerantMode,
    ret: i32,
    out_len: i16,
    capacity: usize,
    frame_idx: i32,
    frames: i32,
    frame_samples: usize,
) -> FrameAction {
    let last = if frame_idx + 1 >= frames {
        FrameNext::EndPacket
    } else {
        FrameNext::Continue
    };
    if ret != 0 {
        spec_broken_frame(
            mode,
            DecodeError::DecodeFailed { code: ret },
            frames - frame_idx,
            frame_samples as int,
            last,
        )
    } else if !spec_out_len_ok(out_len, capacity) {
        spec_broken_frame(
            mode,
            DecodeError::FrameTooLarge,
            frames - frame_idx,
            frame_samples as int,
            last,
        )
    } else {
        FrameAction {
            write_output: true,
            samples: out_len as usize,
            silence_samples: 0,
            frames: 1,
            next: last,
        }
    }
}

/// Decides what follows a concealment call for a lost packet.
pub fn lost_frame_action(
    mode: TolerantMode,
    ret: i32,
    out_len: i16,
    capacity: usize,
    frame_idx: i32,
    frames: i32,
    frame_samples: usize,
) -> (a: FrameAction)
    requires
        0 <= frame_idx < frames,
        (frames - frame_idx) * frame_samples <= usize::MAX,
    ensures
        a == spec_lost_frame_action(
            mode,
            ret,
            out_len,
            capacity,
            frame_idx,
            frames,
            frame_samples,
        ),
{
    let last = if frame_idx + 1 >= frames {
        FrameNext::EndPacket
    } else {
        FrameNext::Continue
    };
    let broken_error = if ret != 0 {
        Some(DecodeError::DecodeFailed { code: ret })
    } else if out_len < 0 || out_len as usize > capacity {
        Some(DecodeError::FrameTooLarge)
    } else {
        None
    };
    match broken_error {
        Some(error) => {
            let remaining = (frames - frame_idx) as usize;
            match mode {
                TolerantMode::Skip => FrameAction {
                    write_output: false,
                    samples: 0,
                    silence_samples: 0,
                    frames: 0,
                    next: last,
                },
                TolerantMode::Silence => FrameAction {
                    write_output: false,
                    samples: 0,
                    silence_samples: remaining * frame_samples,
                    frames: remaining as u64,
                    next: FrameNext::EndPacket,
                },
                TolerantMode::Off => FrameAction {
                    write_output: false,
                    samples: 0,
                    silence_samples: 0,
                    frames: 0,
                    next: FrameNext::Fail(error),
                },
            }
        },
        None => FrameAction {
            write_output: true,
            samples: out_len as usize,
            silence_samples: 0,
            frames: 1,
            next: last,
        },
    }
}


/// The `data` length and rate of a WAV output being written.
#[derive(Clone, Copy, Debug, PartialEq, Eq)]
pub struct WavState {
    pub data_len: u32,
    pub sample_rate: u32,
}

/// Counters of a decoding run, and the reference it is compared against.
/// Energies are sums of squared sample values.
#[derive(Debug, PartialEq, Eq)]
pub struct DecodeStats {
    pub packets: u64,
    pub frames: u64,
    pub samples: u64,
    pub bytes: u64,
    pub energy: u128,
    pub ref_energy: u128,
    pub noise_energy: u128,
    pub ref_pos: usize,
    pub reference: Option<Vec<i16>>,
}

/// Where decoded audio goes: the WAV header state, if the output is WAV,
/// and the counters, if metrics were asked for. The byte stream itself is
/// written by the caller.
#[derive(Debug, PartialEq, Eq)]
pub struct OutputSink {
    pub wav: Option<WavState>,
    pub stats: Option<DecodeStats>,
}

/// The counters after one output sample `x`: its energy, and, while
/// reference samples remain, the reference's energy and the energy of the
/// difference.
pub open spec fn spec_stats_sample(st: DecodeStats, x: int, counts_energy: bool) -> DecodeStats {
    let st2 = DecodeStats {
        energy: if counts_energy {
            (st.energy + x * x) as u128
        } else {
            st.energy
        },
        samples: (st.samples + 1) as u64,
        ..st
    };
    match st.reference {
        Some(r) => if st.ref_pos < r@.len() {
            let rv = r@[st.ref_pos as int] as int;
            DecodeStats {
                ref_energy: (st.ref_energy + rv * rv) as u128,
                noise_energy: (st.noise_energy + (rv - x) * (rv - x)) as u128,
                ref_pos: (st.ref_pos + 1) as usize,
                ..st2
            }
        } else {
            st2
        },
        None => st2,
    }
}

/// The counters after the output samples `xs`, in order.
pub open spec fn spec_stats_samples(st: DecodeStats, xs: Seq<i16>) -> DecodeStats
    decreases xs.len(),
{
    if xs.len() == 0 {
        st
    } else {
        spec_stats_sample(spec_stats_samples(st, xs.drop_last()), xs.last() as int, true)
    }
}

/// The counters after `n` samples of silence: no energy, but reference
/// samples still count, all of their energy as noise.
pub open spec fn spec_stats_silence(st: DecodeStats, n: nat) -> DecodeStats
    decreases n,
{
    if n == 0 {
        st
    } else {
        spec_stats_sample(spec_stats_silence(st, (n - 1) as nat), 0, false)
    }
}

/// Whether the counters can take `n` more samples without overflow.
pub open spec fn spec_stats_room(st: DecodeStats, n: int) -> bool {
    &&& st.samples + n <= u64::MAX
    &&& st.energy + 1073741824 * n <= u128::MAX
    &&& st.ref_energy + 1073741824 * n <= u128::MAX
    &&& st.noise_energy + 4294967296 * n <= u128::MAX
}

/// The `data` length after `n_bytes` more bytes, saturating.
pub open spec fn spec_wav_grow(w: WavState, n_bytes: u32) -> WavState {
    WavState {
        data_len: if w.data_len + n_bytes <= u32::MAX {
            (w.data_len + n_bytes) as u32
        } else {
            u32::MAX
        },
        ..w
    }
}

/// How the sink's WAV state changes after writing `n` samples.
pub open spec fn spec_sink_wav_after(wav: Option<WavState>, n: usize) -> Option<WavState> {
    match wav {
        Some(w) => Some(spec_wav_grow(w, (n * 2) as u32)),
        None => None,
    }
}

fn stats_sample(st: &mut DecodeStats, x: i16, counts_energy: bool)
    requires
        spec_stats_room(*old(st), 1),
    ensures
        *final(st) == spec_stats_sample(*old(st), x as int, counts_energy),
{
    let xv = x as i64;
    assert(0 <= xv * xv <= 1073741824) by (nonlinear_arith)
        requires
            -32768 <= xv <= 32767,
    ;
    if counts_energy {
        st.energy = st.energy + (xv * xv) as u128;
    }
    st.samples = st.samples + 1;
    let mut hit: Option<i16> = None;
    match &st.reference {
        Some(r) => {
            if st.ref_pos < r.len() {
                hit = Some(r[st.ref_pos]);
            }
        },
        None => {},
    }
    if let Some(rv) = hit {
        let rvv = rv as i64;
        assert(0 <= rvv * rvv <= 1073741824) by (nonlinear_arith)
            requires
                -32768 <= rvv <= 32767,
        ;
        assert(0 <= (rvv - xv) * (rvv - xv) <= 4294967296) by (nonlinear_arith)
            requires
                -32768 <= rvv <= 32767,
                -32768 <= xv <= 32767,
        ;
        st.ref_energy = st.ref_energy + (rvv * rvv) as u128;
        let d = rvv - xv;
        st.noise_energy = st.noise_energy + (d * d) as u128;
        st.ref_pos = st.ref_pos + 1;
    }
}


/// One more sample keeps the room for the rest.
pub proof fn lemma_stats_room_step(st: DecodeStats, x: int, counts_energy: bool, n: int)
    requires
        spec_stats_room(st, n),
        n >= 1,
        -32768 <= x <= 32767,
    ensures
        spec_stats_room(spec_stats_sample(st, x, counts_energy), n - 1),
{
    assert(0 <= x * x <= 1073741824) by (nonlinear_arith)
        requires
            -32768 <= x <= 32767,
    ;
    match st.reference {
        Some(r) => if st.ref_pos < r@.len() {
            let rv = r@[st.ref_pos as int] as int;
            assert(0 <= rv * rv <= 1073741824) by (nonlinear_arith)
                requires
                    -32768 <= rv <= 32767,
            ;
            assert(0 <= (rv - x) * (rv - x) <= 4294967296) by (nonlinear_arith)
                requires
                    -32768 <= rv <= 32767,
                    -32768 <= x <= 32767,
            ;
        },
        None => {},
    }
}

/// Bytes taken from `len` samples of a buffer of `buffer_len`: at most
/// what the buffer holds.
pub open spec fn spec_taken(len: usize, buffer_len: int) -> int {
    if len <= buffer_len {
        len as int
    } else {
        buffer_len
    }
}

/// The sink's counters after a write of `xs`.
pub open spec fn spec_sink_stats_after(stats: Option<DecodeStats>, xs: Seq<i16>) -> Option<
    DecodeStats,
> {
    match stats {
        Some(st) => Some(spec_stats_samples(st, xs)),
        None => None,
    }
}

/// The sink's counters after `n` samples of silence.
pub open spec fn spec_sink_stats_silence(stats: Option<DecodeStats>, n: nat) -> Option<
    DecodeStats,
> {
    match stats {
        Some(st) => Some(spec_stats_silence(st, n)),
        None => None,
    }
}

/// Whether the sink's counters can take `n` more samples.
pub open spec fn spec_sink_room(stats: Option<DecodeStats>, n: int) -> bool {
    match stats {
        Some(st) => spec_stats_room(st, n),
        None => true,
    }
}

impl OutputSink {
    /// Writes the first `len` samples of `buffer` (as many as it holds):
    /// the little-endian bytes to write; counts them in the WAV length
    /// (by `len`, saturating) and in the metrics.
    pub fn write_samples(&mut self, buffer: &[i16], len: usize) -> (bytes: Vec<u8>)
        requires
            len <= usize::MAX / 2,
            spec_sink_room(old(self).stats, spec_taken(len, buffer@.len() as int)),
        ensures
            bytes@ == crate::pcm::spec_samples_to_le(
                buffer@.take(spec_taken(len, buffer@.len() as int)),
            ),
            final(self).wav == spec_sink_wav_after(old(self).wav, len),
            final(self).stats == spec_sink_stats_after(
                old(self).stats,
                buffer@.take(spec_taken(len, buffer@.len() as int)),
            ),
            len <= buffer@.len() ==> spec_write_step(
                *old(self),
                *final(self),
                buffer@.take(len as int),
                bytes@,
            ),
    {
        let taken = if len <= buffer.len() {
            len
        } else {
            buffer.len()
        };
        let part = &buffer[0..taken];
        let bytes = crate::pcm::samples_to_le_bytes(part);
        let ghost xs = buffer@.take(taken as int);
        assert(part@ =~= xs);
        match self.stats.take() {
            Some(mut st) => {
                let ghost st0 = st;
                let mut k: usize = 0;
                while k < taken
                    invariant
                        k <= taken,
                        part@ == xs,
                        xs.len() == taken,
                        st == spec_stats_samples(st0, xs.take(k as int)),
                        spec_stats_room(st, (taken - k) as int),
                    decreases taken - k,
                {
                    proof {
                        lemma_stats_room_step(st, part@[k as int] as int, true, (taken - k) as int);
                        assert(xs.take(k + 1).drop_last() =~= xs.take(k as int));
                    }
                    stats_sample(&mut st, part[k], true);
                    k = k + 1;
                }
                assert(xs.take(taken as int) =~= xs);
                self.stats = Some(st);
            },
            None => {},
        }
        match &mut self.wav {
            Some(w) => {
                w.data_len = w.data_len.saturating_add((len * 2) as u32);
            },
            None => {},
        }
        bytes
    }

    /// Writes `len_samples` samples of silence: the zero bytes to write;
    /// counts them in the WAV length and in the metrics (no energy; any
    /// reference samples they cover count as noise).
    pub fn write_silence(&mut self, len_samples: usize) -> (bytes: Vec<u8>)
        requires
            len_samples <= usize::MAX / 2,
            spec_sink_room(old(self).stats, len_samples as int),
        ensures
            bytes@ == Seq::new((2 * len_samples) as nat, |i: int| 0u8),
            len_samples == 0 ==> *final(self) == *old(self),
            len_samples > 0 ==> final(self).wav == spec_sink_wav_after(old(self).wav, len_samples),
            final(self).stats == spec_sink_stats_silence(old(self).stats, len_samples as nat),
            spec_write_step(
                *old(self),
                *final(self),
                Seq::new(len_samples as nat, |i: int| 0i16),
                bytes@,
            ),
    {
        let mut bytes: Vec<u8> = Vec::new();
        proof {
            lemma_silence_bytes(len_samples as nat);
        }
        if len_samples == 0 {
            assert(bytes@ =~= Seq::new(0nat, |i: int| 0u8));
            assert(bytes@ =~= Seq::new(2 * 0nat, |i: int| 0u8));
            return bytes;
        }
        let mut i: usize = 0;
        while i < 2 * len_samples
            invariant
                len_samples <= usize::MAX / 2,
                i <= 2 * len_samples,
                bytes@ =~= Seq::new(i as nat, |j: int| 0u8),
            decreases 2 * len_samples - i,
        {
            bytes.push(0);
            i = i + 1;
        }
        match &mut self.wav {
            Some(w) => {
                w.data_len = w.data_len.saturating_add((len_samples * 2) as u32);
            },
            None => {},
        }
        match self.stats.take() {
            Some(mut st) => {
                let ghost st0 = st;
                let mut k: usize = 0;
                while k < len_samples
                    invariant
                        k <= len_samples,
                        st == spec_stats_silence(st0, k as nat),
                        spec_stats_room(st, (len_samples - k) as int),
                    decreases len_samples - k,
                {
                    proof {
                        lemma_stats_room_step(st, 0, false, (len_samples - k) as int);
                    }
                    stats_sample(&mut st, 0, false);
                    k = k + 1;
                }
                self.stats = Some(st);
            },
            None => {},
        }
        bytes
    }

    /// Counts `frames` decoded frames in the metrics.
    pub fn record_frames(&mut self, frames: u64)
        requires
            old(self).stats matches Some(st) ==> st.frames + frames <= u64::MAX,
        ensures
            final(self).wav == old(self).wav,
            match old(self).stats {
                Some(st) => final(self).stats == Some(DecodeStats { frames: (st.frames + frames) as u64, ..st }),
                None => final(self).stats is None,
            },
    {
        match &mut self.stats {
            Some(st) => {
                st.frames = st.frames + frames;
            },
            None => {},
        }
    }

    /// Counts a packet of `n_bytes` payload bytes (plus its two size bytes)
    /// in the metrics.
    pub fn record_packet(&mut self, n_bytes: usize)
        requires
            old(self).stats matches Some(st) ==> st.packets + 1 <= u64::MAX && st.bytes + n_bytes
                + 2 <= u64::MAX,
        ensures
            final(self).wav == old(self).wav,
            match old(self).stats {
                Some(st) => final(self).stats == Some(
                    DecodeStats {
                        packets: (st.packets + 1) as u64,
                        bytes: (st.bytes + n_bytes + 2) as u64,
                        ..st
                    },
                ),
                None => final(self).stats is None,
            },
    {
        match &mut self.stats {
            Some(st) => {
                st.packets = st.packets + 1;
                st.bytes = st.bytes + (n_bytes as u64) + 2;
            },
            None => {},
        }
    }

    /// The WAV header to write over the first 44 bytes once decoding ends,
    /// with the final `data` length; `None` for a raw PCM output.
    pub fn finalize(&self) -> (r: Option<Vec<u8>>)
        requires
            self.wav matches Some(w) ==> w.sample_rate * 2 <= u32::MAX,
        ensures
            match self.wav {
                Some(w) => r matches Some(h) && h@ == crate::wav::spec_wav_header_bytes(
                    w.sample_rate,
                    w.data_len,
                ),
                None => r is None,
            },
    {
        match &self.wav {
            Some(w) => Some(crate::wav::write_wav_header(w.sample_rate, w.data_len)),
            None => None,
        }
    }
}


/// The decoded samples an action writes.
pub open spec fn spec_action_samples(action: FrameAction, out: Seq<i16>) -> Seq<i16> {
    if action.write_output {
        out.take(spec_taken(action.samples, out.len() as int))
    } else {
        Seq::<i16>::empty()
    }
}

/// The bytes an action writes: its decoded samples, then its silence.
pub open spec fn spec_apply_bytes(action: FrameAction, out: Seq<i16>) -> Seq<u8> {
    crate::pcm::spec_samples_to_le(spec_action_samples(action, out)) + Seq::new(
        (2 * action.silence_samples) as nat,
        |i: int| 0u8,
    )
}

/// The sink after an action: the WAV length grows by the decoded samples
/// and then by the silence; the metrics count the decoded samples, the
/// silence and the action's frames.
pub open spec fn spec_apply_sink(sink: OutputSink, action: FrameAction, out: Seq<i16>) -> OutputSink {
    let wav1 = if action.write_output {
        spec_sink_wav_after(sink.wav, action.samples)
    } else {
        sink.wav
    };
    let stats1 = spec_sink_stats_silence(
        spec_sink_stats_after(sink.stats, spec_action_samples(action, out)),
        action.silence_samples as nat,
    );
    OutputSink {
        wav: if action.silence_samples > 0 {
            spec_sink_wav_after(wav1, action.silence_samples)
        } else {
            wav1
        },
        stats: match stats1 {
            Some(st) => Some(DecodeStats { frames: (st.frames + action.frames) as u64, ..st }),
            None => None,
        },
    }
}

/// Whether the sink's counters can take an action on a buffer of
/// `out_len` samples.
pub open spec fn spec_action_fits(sink: OutputSink, action: FrameAction, out_len: int) -> bool {
    &&& action.samples <= usize::MAX / 2
    &&& action.silence_samples <= usize::MAX / 2
    &&& spec_sink_room(sink.stats, spec_taken(action.samples, out_len) + action.silence_samples)
    &&& sink.stats matches Some(st) ==> st.frames + action.frames <= u64::MAX
}

/// Where decoded audio is written, as decided from the output path and the
/// options: standard output for `-`, a WAV file when asked for or when the
/// path ends in `.wav`.
pub open spec fn spec_output_kind(path: Seq<char>, force_wav: bool) -> Result<(bool, bool), DecodeError> {
    let is_stdout = path == "-"@;
    let is_wav = force_wav || (crate::path::spec_path_extension(path) matches Some(e)
        && crate::text::spec_eq_ignore_ascii_case(e, "wav"@));
    if is_stdout && is_wav {
        Err(DecodeError::WavToStdout)
    } else {
        Ok((is_stdout, is_wav))
    }
}

/// Asking for WAV output always gives WAV output: with `--wav`, a path other
/// than `-` is a WAV file whatever its extension, and `-` is refused.
pub proof fn lemma_forced_wav_output(path: Seq<char>)
    ensures
        path != "-"@ ==> spec_output_kind(path, true) == Ok::<(bool, bool), DecodeError>(
            (false, true),
        ),
        path == "-"@ ==> spec_output_kind(path, true) == Err::<(bool, bool), DecodeError>(
            DecodeError::WavToStdout,
        ),
{
}

impl OutputSink {
    /// Opens the sink for an output path: the sink, whether the output is
    /// standard output, and the bytes to write first (a WAV header with an
    /// empty `data` chunk, or nothing). Metrics are kept when `with_stats`.
    pub fn new(
        path: &str,
        sample_rate: i32,
        force_wav: bool,
        with_stats: bool,
        reference: Option<Vec<i16>>,
    ) -> (r: Result<(OutputSink, bool, Vec<u8>), DecodeError>)
        requires
            spec_output_kind(path@, force_wav) matches Ok((_s, is_wav)) ==> (is_wav ==> sample_rate
                >= 0),
        ensures
            match spec_output_kind(path@, force_wav) {
                Err(e) => r == Err::<(OutputSink, bool, Vec<u8>), DecodeError>(e),
                Ok((is_stdout, is_wav)) => r matches Ok((sink, out_stdout, header)) && {
                    &&& out_stdout == is_stdout
                    &&& is_wav ==> sink.wav == Some(
                        WavState { data_len: 0, sample_rate: sample_rate as u32 },
                    ) && header@ == crate::wav::spec_wav_header_bytes(sample_rate as u32, 0)
                    &&& !is_wav ==> sink.wav is None && header@.len() == 0
                    &&& with_stats ==> sink.stats == Some(
                        DecodeStats {
                            packets: 0,
                            frames: 0,
                            samples: 0,
                            bytes: 0,
                            energy: 0,
                            ref_energy: 0,
                            noise_energy: 0,
                            ref_pos: 0,
                            reference,
                        },
                    )
                    &&& !with_stats ==> sink.stats is None
                },
            },
            force_wav && path@ == "-"@ ==> r == Err::<(OutputSink, bool, Vec<u8>), DecodeError>(
                DecodeError::WavToStdout,
            ),
            force_wav && path@ != "-"@ ==> (r matches Ok((sink, out_stdout, header)) && {
                &&& !out_stdout
                &&& sink.wav == Some(WavState { data_len: 0, sample_rate: sample_rate as u32 })
                &&& header@.len() == 44
                &&& header@ == crate::wav::spec_wav_header_bytes(sample_rate as u32, 0)
            }),
            path@ != "-"@ && (crate::path::spec_path_extension(path@) matches Some(e)
                && crate::text::spec_eq_ignore_ascii_case(e, "wav"@)) ==> (r matches Ok(
                (sink, out_stdout, header),
            ) && {
                &&& !out_stdout
                &&& sink.wav == Some(WavState { data_len: 0, sample_rate: sample_rate as u32 })
                &&& header@ == crate::wav::spec_wav_header_bytes(sample_rate as u32, 0)
            }),
            !force_wav && !(crate::path::spec_path_extension(path@) matches Some(e)
                && crate::text::spec_eq_ignore_ascii_case(e, "wav"@)) ==> (r matches Ok(
                (sink, out_stdout, header),
            ) && {
                &&& out_stdout == (path@ == "-"@)
                &&& sink.wav is None
                &&& header@.len() == 0
            }),
    {
        let is_stdout = crate::text::str_eq(path, "-");
        let is_wav = force_wav || crate::path::has_wav_extension(path);
        if is_stdout && is_wav {
            return Err(DecodeError::WavToStdout);
        }
        let (wav, header) = if is_wav {
            let rate = sample_rate as u32;
            (
                Some(WavState { data_len: 0, sample_rate: rate }),
                crate::wav::write_wav_header(rate, 0),
            )
        } else {
            (None, Vec::new())
        };
        let stats = if with_stats {
            Some(
                DecodeStats {
                    packets: 0,
                    frames: 0,
                    samples: 0,
                    bytes: 0,
                    energy: 0,
                    ref_energy: 0,
                    noise_energy: 0,
                    ref_pos: 0,
                    reference,
                },
            )
        } else {
            None
        };
        Ok((OutputSink { wav, stats }, is_stdout, header))
    }

    /// Carries out a frame action on the codec output `out`: the bytes to
    /// write (decoded samples, then silence), with the frames counted.
    pub fn apply(&mut self, action: &FrameAction, out: &[i16]) -> (bytes: Vec<u8>)
        requires
            spec_action_fits(*old(self), *action, out@.len() as int),
        ensures
            bytes@ == spec_apply_bytes(*action, out@),
            *final(self) == spec_apply_sink(*old(self), *action, out@),
    {
        let mut bytes: Vec<u8> = Vec::new();
        if action.write_output {
            bytes = self.write_samples(out, action.samples);
        } else {
            assert(crate::pcm::spec_samples_to_le(Seq::<i16>::empty()) =~= bytes@);
        }
        let ghost mid = self.stats;
        proof {
            lemma_silence_room(mid, spec_taken(action.samples, out@.len() as int), action.silence_samples as int, action.write_output, old(self).stats, out@.take(spec_taken(action.samples, out@.len() as int)));
        }
        let mut silence = self.write_silence(action.silence_samples);
        bytes.append(&mut silence);
        proof {
            lemma_silence_frames(mid, action.silence_samples as nat);
        }
        self.record_frames(action.frames);
        bytes
    }
}

/// Counting samples leaves the frame count and the room for what remains.
pub proof fn lemma_silence_room(
    mid: Option<DecodeStats>,
    taken: int,
    silence: int,
    wrote: bool,
    before: Option<DecodeStats>,
    xs: Seq<i16>,
)
    requires
        spec_sink_room(before, taken + silence),
        xs.len() == taken,
        taken >= 0,
        silence >= 0,
        mid == (if wrote {
            spec_sink_stats_after(before, xs)
        } else {
            before
        }),
    ensures
        spec_sink_room(mid, silence),
        mid matches Some(m) ==> before matches Some(b) && m.frames == b.frames,
{
    if wrote {
        match before {
            Some(b) => {
                lemma_stats_samples_room(b, xs, taken + silence);
            },
            None => {},
        }
    }
}

/// Counting samples keeps the frame count and uses one unit of room each.
pub proof fn lemma_stats_samples_room(st: DecodeStats, xs: Seq<i16>, n: int)
    requires
        spec_stats_room(st, n),
        xs.len() <= n,
    ensures
        spec_stats_room(spec_stats_samples(st, xs), n - xs.len()),
        spec_stats_samples(st, xs).frames == st.frames,
    decreases xs.len(),
{
    if xs.len() > 0 {
        lemma_stats_samples_room(st, xs.drop_last(), n);
        lemma_stats_room_step(
            spec_stats_samples(st, xs.drop_last()),
            xs.last() as int,
            true,
            n - xs.drop_last().len(),
        );
    }
}

/// Counting silence keeps the frame count.
pub proof fn lemma_silence_frames(stats: Option<DecodeStats>, n: nat)
    ensures
        spec_sink_stats_silence(stats, n) matches Some(s) ==> stats matches Some(b) && s.frames
            == b.frames,
    decreases n,
{
    if n > 0 {
        lemma_silence_frames(stats, (n - 1) as nat);
    }
}


/// Whether a codec call's outcome is broken: an error code or a sample
/// count that does not fit the buffer.
pub open spec fn spec_frame_broken(ret: i32, out_len: i16, capacity: usize) -> bool {
    ret != 0 || !spec_out_len_ok(out_len, capacity)
}

/// The tolerant modes, for a frame of a packet that arrived: only `Off`
/// ever fails the run; `Skip` never writes silence and drops a broken
/// frame; `Silence` writes exactly one frame of silence, counted as one
/// frame, for a broken frame; a frame that decoded is always written.
/// Under `Off` a failed call fails the run with the codec's code, and an
/// output longer than the buffer with `FrameTooLarge`. A decoded frame
/// among the first five of its packet counts one frame and ends the packet
/// exactly when the codec reports no more frames; a decoded frame past the
/// fifth ends the packet, failing with `TooManyFrames` under `Off` and
/// followed by one frame of silence under `Silence`.
pub proof fn lemma_coded_tolerant_modes(
    mode: TolerantMode,
    ret: i32,
    out_len: i16,
    capacity: usize,
    frames_done: usize,
    more_frames: i32,
    frame_samples: usize,
)
    ensures
        ({
            let a = spec_coded_frame_action(
                mode,
                ret,
                out_len,
                capacity,
                frames_done,
                more_frames,
                frame_samples,
            );
            &&& mode != TolerantMode::Off ==> !(a.next is Fail)
            &&& mode != TolerantMode::Silence ==> a.silence_samples == 0
            &&& spec_frame_broken(ret, out_len, capacity) ==> !a.write_output
            &&& !spec_frame_broken(ret, out_len, capacity) ==> a.write_output && a.samples
                == out_len
            &&& (mode == TolerantMode::Silence && spec_frame_broken(ret, out_len, capacity)) ==> (
            a.silence_samples == frame_samples && a.frames == 1 && a.next == FrameNext::EndPacket)
            &&& (mode == TolerantMode::Skip && spec_frame_broken(ret, out_len, capacity)) ==> (a.frames
                == 0 && a.next == FrameNext::EndPacket)
            &&& (mode == TolerantMode::Off && ret != 0) ==> a.next == FrameNext::Fail(
                DecodeError::DecodeFailed { code: ret },
            ) && a.frames == 0
            &&& (mode == TolerantMode::Off && ret == 0 && (out_len < 0 || out_len > capacity)) ==> a.next
                == FrameNext::Fail(DecodeError::FrameTooLarge) && a.frames == 0
            &&& (ret == 0 && 0 <= out_len <= capacity && frames_done < 5) ==> a.frames == 1
                && a.silence_samples == 0 && a.next == if more_frames == 0 {
                FrameNext::EndPacket
            } else {
                FrameNext::Continue
            }
            &&& (ret == 0 && 0 <= out_len <= capacity && frames_done >= 5) ==> a.next
                == match mode {
                TolerantMode::Off => FrameNext::Fail(DecodeError::TooManyFrames),
                _ => FrameNext::EndPacket,
            } && a.frames == if mode == TolerantMode::Silence {
                2u64
            } else {
                1u64
            } && a.silence_samples == if mode == TolerantMode::Silence {
                frame_samples
            } else {
                0usize
            }
        }),
{
}

/// The tolerant modes, for a lost packet: only `Off` ever fails the run;
/// `Skip` never writes silence and moves on to the next frame; `Silence`
/// fills every frame left in the packet with silence and counts them.
/// Under `Off` a failed call fails the run with the codec's code, and an
/// output longer than the buffer with `FrameTooLarge`; under `Skip` a
/// broken frame writes and counts nothing. After the last frame the packet
/// ends.
pub proof fn lemma_lost_tolerant_modes(
    mode: TolerantMode,
    ret: i32,
    out_len: i16,
    capacity: usize,
    frame_idx: i32,
    frames: i32,
    frame_samples: usize,
)
    requires
        0 <= frame_idx < frames,
        (frames - frame_idx) * frame_samples <= usize::MAX,
    ensures
        ({
            let a = spec_lost_frame_action(
                mode,
                ret,
                out_len,
                capacity,
                frame_idx,
                frames,
                frame_samples,
            );
            &&& mode != TolerantMode::Off ==> !(a.next is Fail)
            &&& mode != TolerantMode::Silence ==> a.silence_samples == 0
            &&& (mode == TolerantMode::Silence && spec_frame_broken(ret, out_len, capacity)) ==> (
            a.frames == frames - frame_idx && a.silence_samples == (frames - frame_idx)
                * frame_samples && a.next == FrameNext::EndPacket)
            &&& !spec_frame_broken(ret, out_len, capacity) ==> a.write_output && a.samples
                == out_len && a.frames == 1
            &&& !(a.next is Fail) && frame_idx + 1 < frames && !(mode == TolerantMode::Silence
                && spec_frame_broken(ret, out_len, capacity)) ==> a.next == FrameNext::Continue
            &&& frame_idx + 1 == frames && !(a.next is Fail) ==> a.next == FrameNext::EndPacket
            &&& (mode == TolerantMode::Off && ret != 0) ==> a.next == FrameNext::Fail(
                DecodeError::DecodeFailed { code: ret },
            ) && a.frames == 0
            &&& (mode == TolerantMode::Off && ret == 0 && (out_len < 0 || out_len > capacity)) ==> a.next
                == FrameNext::Fail(DecodeError::FrameTooLarge) && a.frames == 0
            &&& (mode == TolerantMode::Skip && spec_frame_broken(ret, out_len, capacity)) ==> !a.write_output
                && a.frames == 0
        }),
{
}


impl OutputSink {
    /// Whether the counters can take `action` on a buffer of `out_len`
    /// samples without overflowing.
    pub fn has_room(&self, action: &FrameAction, out_len: usize) -> (r: bool)
        ensures
            r == spec_action_fits(*self, *action, out_len as int),
    {
        if action.samples > usize::MAX / 2 || action.silence_samples > usize::MAX / 2 {
            return false;
        }
        let taken = if action.samples <= out_len {
            action.samples
        } else {
            out_len
        };
        let n = taken as u128 + action.silence_samples as u128;
        match &self.stats {
            Some(st) => {
                n <= (u64::MAX - st.samples) as u128 && n <= (u128::MAX - st.energy) / 1073741824
                    && n <= (u128::MAX - st.ref_energy) / 1073741824 && n <= (u128::MAX
                    - st.noise_energy) / 4294967296 && action.frames <= u64::MAX - st.frames
            },
            None => true,
        }
    }
}


/// Where a decoding run stands between two codec calls.
#[derive(Clone, Copy, Debug, PartialEq, Eq)]
pub enum DecodePhase {
    /// Between packets.
    Between,
    /// Decoding the frames of a packet that arrived; `frames_done` frames
    /// of it were written so far.
    Coded { frames_done: usize },
    /// Concealing the `frames` frames of a lost packet, at `frame_idx`.
    Lost { frame_idx: i32, frames: i32 },
}

/// What the codec is to do next.
#[derive(Clone, Copy, Debug, PartialEq, Eq)]
pub enum DecodeRequest {
    /// The stream has ended.
    Finished,
    /// Decode the packet whose payload is `size` bytes at `payload_start`
    /// (an empty payload asks for concealment of a lost packet).
    Packet { payload_start: usize, size: usize },
}

/// The state of a decoding run: the sink, the tolerant mode, the frame
/// length, the read position in the SILK stream, the packets done and the
/// phase.
#[derive(Debug, PartialEq, Eq)]
pub struct DecodeSession {
    pub sink: OutputSink,
    pub mode: TolerantMode,
    pub frame_samples: usize,
    pub pos: usize,
    pub packets: u64,
    pub phase: DecodePhase,
}

/// The action for the codec's outcome in the session's current phase.
pub open spec fn spec_session_action(
    s: DecodeSession,
    ret: i32,
    out_len: i16,
    capacity: usize,
    more_frames: i32,
) -> FrameAction {
    match s.phase {
        DecodePhase::Coded { frames_done } => spec_coded_frame_action(
            s.mode,
            ret,
            out_len,
            capacity,
            frames_done,
            more_frames,
            s.frame_samples,
        ),
        DecodePhase::Lost { frame_idx, frames } => spec_lost_frame_action(
            s.mode,
            ret,
            out_len,
            capacity,
            frame_idx,
            frames,
            s.frame_samples,
        ),
        DecodePhase::Between => FrameAction {
            write_output: false,
            samples: 0,
            silence_samples: 0,
            frames: 0,
            next: FrameNext::EndPacket,
        },
    }
}

/// The phase after an action that does not fail.
pub open spec fn spec_phase_after(phase: DecodePhase, action: FrameAction) -> DecodePhase {
    match action.next {
        FrameNext::Continue => match phase {
            DecodePhase::Coded { frames_done } => DecodePhase::Coded {
                frames_done: (frames_done + if action.write_output {
                    1int
                } else {
                    0int
                }) as usize,
            },
            DecodePhase::Lost { frame_idx, frames } => DecodePhase::Lost {
                frame_idx: (frame_idx + 1) as i32,
                frames,
            },
            DecodePhase::Between => DecodePhase::Between,
        },
        _ => DecodePhase::Between,
    }
}

/// A session whose phase can take a codec outcome.
pub open spec fn spec_decode_session_wf(s: DecodeSession) -> bool {
    &&& s.frame_samples <= 960
    &&& match s.phase {
        DecodePhase::Coded { frames_done } => frames_done <= MAX_INPUT_FRAMES,
        DecodePhase::Lost { frame_idx, frames } => 0 <= frame_idx < frames && frames
            * s.frame_samples <= usize::MAX,
        DecodePhase::Between => true,
    }
}

impl DecodeSession {
    /// A run writing to `sink`, reading packets from `start`.
    pub fn new(sink: OutputSink, mode: TolerantMode, frame_samples: usize, start: usize) -> (s:
        DecodeSession)
        requires
            frame_samples <= 960,
        ensures
            s == (DecodeSession {
                sink,
                mode,
                frame_samples,
                pos: start,
                packets: 0,
                phase: DecodePhase::Between,
            }),
            spec_decode_session_wf(s),
    {
        DecodeSession { sink, mode, frame_samples, pos: start, packets: 0, phase: DecodePhase::Between }
    }

    /// Reads the next packet of `input` between packets: the end of the
    /// run, or the packet for the codec, counted in the metrics. A lost
    /// (empty) packet is concealed in `frames_per_packet` frames, or one.
    pub fn start_packet(&mut self, input: &[u8], frames_per_packet: i32) -> (r: Result<
        DecodeRequest,
        DecodeError,
    >)
        requires
            old(self).phase == DecodePhase::Between,
            old(self).pos <= input@.len(),
            spec_decode_session_wf(*old(self)),
            old(self).sink.stats matches Some(st) ==> st.packets + 1 <= u64::MAX && st.bytes
                + 32767 + 2 <= u64::MAX,
            spec_lost_frame_count(frames_per_packet) * old(self).frame_samples <= usize::MAX,
        ensures
            spec_decode_session_wf(*final(self)),
            final(self).mode == old(self).mode,
            final(self).frame_samples == old(self).frame_samples,
            final(self).packets == old(self).packets,
            final(self).pos <= input@.len(),
            match spec_next_packet(input@.skip(old(self).pos as int)) {
                Err(e) => r == Err::<DecodeRequest, DecodeError>(DecodeError::Container(e)),
                Ok((more, size)) => if !more {
                    r == Ok::<DecodeRequest, DecodeError>(DecodeRequest::Finished)
                        && *final(self) == *old(self)
                } else {
                    &&& r == Ok::<DecodeRequest, DecodeError>(
                        DecodeRequest::Packet {
                            payload_start: (old(self).pos + 2) as usize,
                            size: size as usize,
                        },
                    )
                    &&& final(self).pos == old(self).pos + 2 + size
                    &&& final(self).sink.wav == old(self).sink.wav
                    &&& final(self).sink.stats == match old(self).sink.stats {
                        Some(st) => Some(
                            DecodeStats {
                                packets: (st.packets + 1) as u64,
                                bytes: (st.bytes + size + 2) as u64,
                                ..st
                            },
                        ),
                        None => None,
                    }
                    &&& final(self).phase == if size == 0 {
                        DecodePhase::Lost {
                            frame_idx: 0,
                            frames: spec_lost_frame_count(frames_per_packet),
                        }
                    } else {
                        DecodePhase::Coded { frames_done: 0 }
                    }
                },
            },
    {
        let len = input.len();
        match next_packet(input, self.pos) {
            Err(e) => Err(DecodeError::Container(e)),
            Ok(PacketRead::End) => Ok(DecodeRequest::Finished),
            Ok(PacketRead::Packet { payload_start, size }) => {
                proof {
                    assert(size <= 32767);
                }
                self.pos = payload_start + size;
                self.sink.record_packet(size);
                if size == 0 {
                    self.phase = DecodePhase::Lost {
                        frame_idx: 0,
                        frames: lost_frame_count(frames_per_packet),
                    };
                } else {
                    self.phase = DecodePhase::Coded { frames_done: 0 };
                }
                Ok(DecodeRequest::Packet { payload_start, size })
            },
        }
    }

    /// The action the session will take for a codec outcome.
    pub fn frame_action(&self, ret: i32, out_len: i16, capacity: usize, more_frames: i32) -> (a:
        FrameAction)
        requires
            spec_decode_session_wf(*self),
        ensures
            a == spec_session_action(*self, ret, out_len, capacity, more_frames),
    {
        match self.phase {
            DecodePhase::Coded { frames_done } => coded_frame_action(
                self.mode,
                ret,
                out_len,
                capacity,
                frames_done,
                more_frames,
                self.frame_samples,
            ),
            DecodePhase::Lost { frame_idx, frames } => {
                proof {
                    assert((frames - frame_idx) * self.frame_samples <= frames * self.frame_samples) by (nonlinear_arith)
                        requires
                            0 <= frames - frame_idx <= frames,
                            self.frame_samples >= 0,
                    ;
                }
                lost_frame_action(
                    self.mode,
                    ret,
                    out_len,
                    capacity,
                    frame_idx,
                    frames,
                    self.frame_samples,
                )
            },
            DecodePhase::Between => FrameAction {
                write_output: false,
                samples: 0,
                silence_samples: 0,
                frames: 0,
                next: FrameNext::EndPacket,
            },
        }
    }

    /// Takes the codec's outcome for the current frame (result code `ret`,
    /// `out_len` samples in `out`, its more-frames flag): the bytes to
    /// write, and whether the packet has more frames to decode, or the
    /// error that ends the run.
    pub fn frame_done(&mut self, ret: i32, out_len: i16, out: &[i16], more_frames: i32) -> (r: (
        Vec<u8>,
        Result<bool, DecodeError>,
    ))
        requires
            spec_decode_session_wf(*old(self)),
            old(self).phase != DecodePhase::Between,
            spec_action_fits(
                old(self).sink,
                spec_session_action(*old(self), ret, out_len, out@.len() as usize, more_frames),
                out@.len() as int,
            ),
            old(self).packets + 1 <= u64::MAX,
        ensures
            spec_decode_session_wf(*final(self)),
            ({
                let a = spec_session_action(*old(self), ret, out_len, out@.len() as usize, more_frames);
                &&& r.0@ == spec_apply_bytes(a, out@)
                &&& final(self).sink == spec_apply_sink(old(self).sink, a, out@)
                &&& final(self).mode == old(self).mode
                &&& final(self).frame_samples == old(self).frame_samples
                &&& final(self).pos == old(self).pos
                &&& match a.next {
                    FrameNext::Fail(e) => r.1 == Err::<bool, DecodeError>(e),
                    FrameNext::Continue => r.1 == Ok::<bool, DecodeError>(true) && final(self).phase
                        == spec_phase_after(old(self).phase, a) && final(self).packets
                        == old(self).packets,
                    FrameNext::EndPacket => r.1 == Ok::<bool, DecodeError>(false)
                        && final(self).phase == DecodePhase::Between && final(self).packets
                        == old(self).packets + 1,
                }
            }),
    {
        let action = self.frame_action(ret, out_len, out.len(), more_frames);
        let bytes = self.sink.apply(&action, out);
        match action.next {
            FrameNext::Fail(e) => {
                self.phase = DecodePhase::Between;
                (bytes, Err(e))
            },
            FrameNext::EndPacket => {
                self.phase = DecodePhase::Between;
                self.packets = self.packets + 1;
                (bytes, Ok(false))
            },
            FrameNext::Continue => {
                match self.phase {
                    DecodePhase::Coded { frames_done } => {
                        self.phase = DecodePhase::Coded {
                            frames_done: if action.write_output {
                                frames_done + 1
                            } else {
                                frames_done
                            },
                        };
                    },
                    DecodePhase::Lost { frame_idx, frames } => {
                        self.phase = DecodePhase::Lost { frame_idx: frame_idx + 1, frames };
                    },
                    DecodePhase::Between => {},
                }
                (bytes, Ok(true))
            },
        }
    }
}


/// The samples of several writes, one after the other.
pub open spec fn spec_flatten(chunks: Seq<Seq<i16>>) -> Seq<i16>
    decreases chunks.len(),
{
    if chunks.len() == 0 {
        Seq::empty()
    } else {
        spec_flatten(chunks.drop_last()) + chunks.last()
    }
}

/// One write to a sink: the WAV length grows by twice the `chunk`'s
/// length (saturating), and the bytes written are the chunk's.
pub open spec fn spec_write_step(
    before: OutputSink,
    after: OutputSink,
    chunk: Seq<i16>,
    bytes: Seq<u8>,
) -> bool {
    &&& after.wav == spec_sink_wav_after(before.wav, chunk.len() as usize)
    &&& bytes == crate::pcm::spec_samples_to_le(chunk)
}

/// The bytes of several writes' outputs, one after the other.
pub open spec fn spec_concat_bytes(parts: Seq<Seq<u8>>) -> Seq<u8>
    decreases parts.len(),
{
    if parts.len() == 0 {
        Seq::empty()
    } else {
        spec_concat_bytes(parts.drop_last()) + parts.last()
    }
}

/// The bytes of several writes, one after the other.
pub open spec fn spec_chunks_bytes(chunks: Seq<Seq<i16>>) -> Seq<u8>
    decreases chunks.len(),
{
    if chunks.len() == 0 {
        Seq::empty()
    } else {
        spec_chunks_bytes(chunks.drop_last()) + crate::pcm::spec_samples_to_le(chunks.last())
    }
}

/// The sink's WAV state after several writes.
pub open spec fn spec_wav_after_chunks(wav: Option<WavState>, chunks: Seq<Seq<i16>>) -> Option<
    WavState,
>
    decreases chunks.len(),
{
    if chunks.len() == 0 {
        wav
    } else {
        spec_sink_wav_after(
            spec_wav_after_chunks(wav, chunks.drop_last()),
            chunks.last().len() as usize,
        )
    }
}

/// The bytes written for silence are those of zero samples.
pub proof fn lemma_silence_bytes(n: nat)
    ensures
        Seq::new(2 * n, |i: int| 0u8) == crate::pcm::spec_samples_to_le(
            Seq::new(n, |i: int| 0i16),
        ),
{
    assert(Seq::new(2 * n, |i: int| 0u8) =~= crate::pcm::spec_samples_to_le(
        Seq::new(n, |i: int| 0i16),
    ));
}

/// Writing two runs of samples gives the bytes of each, one after the other.
pub proof fn lemma_samples_to_le_concat(a: Seq<i16>, b: Seq<i16>)
    ensures
        crate::pcm::spec_samples_to_le(a + b) == crate::pcm::spec_samples_to_le(a)
            + crate::pcm::spec_samples_to_le(b),
{
    let l = crate::pcm::spec_samples_to_le(a + b);
    let r = crate::pcm::spec_samples_to_le(a) + crate::pcm::spec_samples_to_le(b);
    assert forall|i: int| 0 <= i < l.len() implies l[i] == r[i] by {
        if i >= 2 * a.len() {
            let j = i - 2 * a.len();
            assert(j % 2 == i % 2);
            assert(j / 2 == i / 2 - a.len());
        }
    }
    assert(l =~= r);
}

proof fn lemma_chunks(chunks: Seq<Seq<i16>>, r: u32)
    requires
        2 * spec_flatten(chunks).len() <= u32::MAX,
    ensures
        spec_chunks_bytes(chunks) == crate::pcm::spec_samples_to_le(spec_flatten(chunks)),
        spec_wav_after_chunks(Some(WavState { data_len: 0, sample_rate: r }), chunks) == Some(
            WavState { data_len: (2 * spec_flatten(chunks).len()) as u32, sample_rate: r },
        ),
    decreases chunks.len(),
{
    if chunks.len() == 0 {
        assert(crate::pcm::spec_samples_to_le(Seq::<i16>::empty()) =~= Seq::<u8>::empty());
    } else {
        let init = chunks.drop_last();
        assert(spec_flatten(chunks).len() == spec_flatten(init).len() + chunks.last().len());
        lemma_chunks(init, r);
        lemma_samples_to_le_concat(spec_flatten(init), chunks.last());
    }
}

/// A WAV output read back: whatever runs of samples are written to a WAV
/// sink opened at `sample_rate` (decoded samples, or zeros for silence),
/// its `data` length is twice their total, and the file made of the header
/// `finalize` gives and the written bytes reads back as a mono 16-bit WAV
/// at `sample_rate` holding exactly those samples, in order.
pub proof fn lemma_wav_sink_roundtrip(sample_rate: u32, chunks: Seq<Seq<i16>>)
    requires
        sample_rate * 2 <= u32::MAX,
        36 + 2 * spec_flatten(chunks).len() <= u32::MAX,
        44 + 2 * spec_flatten(chunks).len() <= usize::MAX,
    ensures
        ({
            let all = spec_flatten(chunks);
            let data_len = (2 * all.len()) as u32;
            let b = crate::wav::spec_wav_header_bytes(sample_rate, data_len) + spec_chunks_bytes(
                chunks,
            );
            &&& spec_wav_after_chunks(
                Some(WavState { data_len: 0, sample_rate }),
                chunks,
            ) == Some(WavState { data_len, sample_rate })
            &&& crate::wav::spec_open_input(b) matches Ok(l) && {
                &&& l.wav == Some(
                    crate::wav::WavInfo {
                        sample_rate: sample_rate as i32,
                        channels: 1,
                        bits_per_sample: 16,
                    },
                )
                &&& crate::pcm::spec_samples_from_le(
                    b.subrange(l.data_start as int, l.data_end as int),
                ) == all
            }
        }),
{
    lemma_chunks(chunks, sample_rate);
    crate::wav::lemma_wav_file_roundtrip(sample_rate, spec_flatten(chunks));
}


proof fn lemma_write_steps(
    states: Seq<OutputSink>,
    chunks: Seq<Seq<i16>>,
    parts: Seq<Seq<u8>>,
)
    requires
        states.len() == chunks.len() + 1,
        parts.len() == chunks.len(),
        forall|i: int|
            0 <= i < chunks.len() ==> spec_write_step(
                #[trigger] states[i],
                states[i + 1],
                chunks[i],
                parts[i],
            ),
    ensures
        states.last().wav == spec_wav_after_chunks(states[0].wav, chunks),
        spec_concat_bytes(parts) == spec_chunks_bytes(chunks),
    decreases chunks.len(),
{
    if chunks.len() > 0 {
        let n = chunks.len() - 1;
        let s1 = states.drop_last();
        let c1 = chunks.drop_last();
        let p1 = parts.drop_last();
        assert forall|i: int| 0 <= i < c1.len() implies spec_write_step(
            #[trigger] s1[i],
            s1[i + 1],
            c1[i],
            p1[i],
        ) by {
            assert(spec_write_step(states[i], states[i + 1], chunks[i], parts[i]));
        }
        lemma_write_steps(s1, c1, p1);
        assert(spec_write_step(states[n], states[n + 1], chunks[n], parts[n]));
    }
}

/// A WAV output read back after any number of write calls: given the sink
/// states and outputs of a run of `write_samples` (each with `len` within
/// its buffer) and `write_silence` calls, each pair of states related as
/// those calls' contracts say (`spec_write_step`), starting from a WAV sink
/// with an empty `data` chunk at `sample_rate`, the last state's `data`
/// length is twice the samples written, and the header `finalize` then
/// gives, followed by everything the calls wrote, reads back as a mono
/// 16-bit WAV at `sample_rate` holding exactly the samples written.
pub proof fn lemma_wav_sink_run_roundtrip(
    sample_rate: u32,
    states: Seq<OutputSink>,
    chunks: Seq<Seq<i16>>,
    parts: Seq<Seq<u8>>,
)
    requires
        states.len() == chunks.len() + 1,
        parts.len() == chunks.len(),
        states[0].wav == Some(WavState { data_len: 0, sample_rate }),
        forall|i: int|
            0 <= i < chunks.len() ==> spec_write_step(
                #[trigger] states[i],
                states[i + 1],
                chunks[i],
                parts[i],
            ),
        sample_rate * 2 <= u32::MAX,
        36 + 2 * spec_flatten(chunks).len() <= u32::MAX,
        44 + 2 * spec_flatten(chunks).len() <= usize::MAX,
    ensures
        ({
            let all = spec_flatten(chunks);
            let data_len = (2 * all.len()) as u32;
            let b = crate::wav::spec_wav_header_bytes(sample_rate, data_len) + spec_concat_bytes(
                parts,
            );
            &&& states.last().wav == Some(WavState { data_len, sample_rate })
            &&& crate::wav::spec_open_input(b) matches Ok(l) && {
                &&& l.wav == Some(
                    crate::wav::WavInfo {
                        sample_rate: sample_rate as i32,
                        channels: 1,
                        bits_per_sample: 16,
                    },
                )
                &&& crate::pcm::spec_samples_from_le(
                    b.subrange(l.data_start as int, l.data_end as int),
                ) == all
            }
        }),
{
    lemma_write_steps(states, chunks, parts);
    lemma_wav_sink_roundtrip(sample_rate, chunks);
}


/// A packet of one frame for which the codec returns `frame_samples`
/// samples (no error, no more frames) writes exactly those samples and
/// ends the packet, in every tolerant mode.
pub proof fn lemma_decode_writes_whole_frames(
    mode: TolerantMode,
    capacity: usize,
    frame_samples: usize,
)
    requires
        frame_samples <= capacity,
        frame_samples <= i16::MAX,
    ensures
        ({
            let a = spec_coded_frame_action(mode, 0, frame_samples as i16, capacity, 0, 0, frame_samples);
            &&& a.write_output
            &&& a.samples == frame_samples
            &&& a.silence_samples == 0
            &&& a.frames == 1
            &&& a.next == FrameNext::EndPacket
        }),
{
}

} // verus!
