//! The decisions of the `encode` command around the codec calls: which
//! settings are accepted, how PCM input is cut into 20 ms frames, when
//! the frames encoded so far make a packet, and what is written.

use vstd::prelude::*;
use crate::args::{lemma_encode_default_rates, spec_parse_encode_args, EncodeArgs, Parsed};
use crate::container::{
    end_marker, packet_bytes, silk_header, spec_end_marker, spec_packet_bytes, spec_silk_header,
};
use crate::pcm::{le_i16, spec_le_i16};
use crate::rates::{
    default_max_internal_rate, is_supported_internal_sample_rate, is_supported_sample_rate,
    spec_default_max_internal_rate, spec_supported_internal_sample_rate,
    spec_supported_sample_rate, MAX_API_FS_HZ, MAX_INTERNAL_FS_HZ,
};

verus! {

/// Length of one codec frame, in milliseconds.
pub const FRAME_LENGTH_MS: i32 = 20;

/// Most frames one packet may hold.
pub const MAX_INPUT_FRAMES: i32 = 5;

/// Largest payload the codec writes for one frame, in bytes.
pub const MAX_BYTES_PER_FRAME: usize = 250;

/// Reasons the encoder settings are refused.
#[derive(Clone, Copy, Debug, PartialEq, Eq)]
pub enum EncodeError {
    /// `--sample-rate` was given and differs from the WAV input's rate.
    WavRateMismatch { given: i32, wav: i32 },
    /// The sample rate is not in 1..=48000.
    SampleRateOutOfRange { rate: i32 },
    /// The sample rate is not one of the supported rates.
    UnsupportedSampleRate { rate: i32 },
    /// The internal rate is not in 1..=24000.
    MaxInternalOutOfRange { rate: i32 },
    /// The internal rate is not one of the supported internal rates.
    UnsupportedMaxInternal { rate: i32 },
    /// The packet length is not a multiple of 20 ms.
    PacketMsNotMultiple { packet_ms: i32 },
    /// The packet length is not in 20..=100 ms.
    PacketMsOutOfRange { packet_ms: i32 },
}

/// Accepted encoder settings.
#[derive(Clone, Copy, Debug, PartialEq, Eq)]
pub struct EncodeSettings {
    pub sample_rate: i32,
    pub max_internal_rate: i32,
    pub packet_ms: i32,
    /// Samples per packet, as handed to the codec.
    pub packet_size: i32,
    /// Samples per 20 ms frame.
    pub frame_samples: i32,
    pub bitrate: i32,
    pub loss: i32,
    pub complexity: i32,
    pub fec: i32,
    pub dtx: i32,
    pub tencent: bool,
}

/// The rate and internal rate after a WAV input's rate is taken into
/// account.
pub open spec fn spec_effective_rates(args: EncodeArgs, wav_rate: Option<i32>) -> (i32, i32) {
    match wav_rate {
        Some(w) => {
            let rate = if args.sample_rate_set {
                args.sample_rate
            } else {
                w
            };
            let internal = if args.max_internal_set {
                args.max_internal_rate
            } else {
                spec_default_max_internal_rate(rate as int) as i32
            };
            (rate, internal)
        },
        None => (args.sample_rate, args.max_internal_rate),
    }
}

/// The settings the options give, or the first rule they break, checked
/// in this order: WAV rate, sample-rate range, sample-rate set, internal
/// range, internal set, packet length multiple, packet length range.
pub open spec fn spec_encode_settings(args: EncodeArgs, wav_rate: Option<i32>) -> Result<
    EncodeSettings,
    EncodeError,
> {
    let (rate, internal) = spec_effective_rates(args, wav_rate);
    if wav_rate is Some && args.sample_rate_set && args.sample_rate != wav_rate->0 {
        Err(EncodeError::WavRateMismatch { given: args.sample_rate, wav: wav_rate->0 })
    } else if rate <= 0 || rate > MAX_API_FS_HZ {
        Err(EncodeError::SampleRateOutOfRange { rate })
    } else if !spec_supported_sample_rate(rate as int) {
        Err(EncodeError::UnsupportedSampleRate { rate })
    } else if internal <= 0 || internal > MAX_INTERNAL_FS_HZ {
        Err(EncodeError::MaxInternalOutOfRange { rate: internal })
    } else if !spec_supported_internal_sample_rate(internal as int) {
        Err(EncodeError::UnsupportedMaxInternal { rate: internal })
    } else if args.packet_ms % FRAME_LENGTH_MS != 0 {
        Err(EncodeError::PacketMsNotMultiple { packet_ms: args.packet_ms })
    } else if args.packet_ms < FRAME_LENGTH_MS || args.packet_ms > FRAME_LENGTH_MS
        * MAX_INPUT_FRAMES {
        Err(EncodeError::PacketMsOutOfRange { packet_ms: args.packet_ms })
    } else {
        Ok(
            EncodeSettings {
                sample_rate: rate,
                max_internal_rate: internal,
                packet_ms: args.packet_ms,
                packet_size: (args.packet_ms * rate / 1000) as i32,
                frame_samples: (FRAME_LENGTH_MS * rate / 1000) as i32,
                bitrate: args.bitrate,
                loss: args.loss,
                complexity: args.complexity,
                fec: args.fec,
                dtx: args.dtx,
                tencent: args.tencent,
            },
        )
    }
}

/// Accepted settings hand the codec the bitrate, expected loss,
/// complexity, in-band FEC, DTX, container flavour and packet length that
/// were asked for, unchanged; without a WAV input the rates are the ones
/// given, and with one the sample rate is the input's and the internal
/// rate, unless given, is that rate capped at 24000. A packet holds
/// `packet_ms` milliseconds of samples and a frame 20. Without a WAV input
/// the settings are accepted exactly when both rates are supported and the
/// packet length is 20, 40, 60, 80 or 100 ms; with one, a `--sample-rate`
/// that differs from the input's rate is refused first.
pub proof fn lemma_settings_keep_options(args: EncodeArgs, wav_rate: Option<i32>)
    ensures
        spec_encode_settings(args, wav_rate) matches Ok(s) ==> {
            &&& s.bitrate == args.bitrate
            &&& s.loss == args.loss
            &&& s.complexity == args.complexity
            &&& s.fec == args.fec
            &&& s.dtx == args.dtx
            &&& s.tencent == args.tencent
            &&& s.packet_ms == args.packet_ms
            &&& wav_rate is None ==> s.sample_rate == args.sample_rate && s.max_internal_rate
                == args.max_internal_rate
            &&& wav_rate matches Some(w) ==> s.sample_rate == w
            &&& s.packet_size * 1000 == s.packet_ms * s.sample_rate
            &&& s.frame_samples * 50 == s.sample_rate
            &&& wav_rate matches Some(w) ==> s.max_internal_rate == if args.max_internal_set {
                args.max_internal_rate
            } else if w < 24_000 {
                w
            } else {
                24_000
            }
        },
        wav_rate is None ==> (spec_encode_settings(args, wav_rate) is Ok <==> {
            &&& spec_supported_sample_rate(args.sample_rate as int)
            &&& spec_supported_internal_sample_rate(args.max_internal_rate as int)
            &&& args.packet_ms == 20 || args.packet_ms == 40 || args.packet_ms == 60
                || args.packet_ms == 80 || args.packet_ms == 100
        }),
        wav_rate matches Some(w) ==> (args.sample_rate_set && args.sample_rate != w
            <==> spec_encode_settings(args, wav_rate) == Err::<EncodeSettings, EncodeError>(
            EncodeError::WavRateMismatch { given: args.sample_rate, wav: w },
        )),
{
    if let Ok(s) = spec_encode_settings(args, wav_rate) {
        let r = s.sample_rate as int;
        let ms = s.packet_ms as int;
        assert(r == 8_000 || r == 12_000 || r == 16_000 || r == 24_000 || r == 48_000);
        assert(ms == 20 || ms == 40 || ms == 60 || ms == 80 || ms == 100);
        assert((ms * r) % 1000 == 0 && 0 <= ms * r <= 4_800_000) by (nonlinear_arith)
            requires
                r == 8_000 || r == 12_000 || r == 16_000 || r == 24_000 || r == 48_000,
                ms == 20 || ms == 40 || ms == 60 || ms == 80 || ms == 100,
        ;
        assert(s.packet_size * 1000 == ms * r);
        assert(s.frame_samples * 50 == r);
    }
}

/// Whether settings are ones the checks accept.
pub open spec fn spec_settings_valid(s: EncodeSettings) -> bool {
    &&& spec_supported_sample_rate(s.sample_rate as int)
    &&& spec_supported_internal_sample_rate(s.max_internal_rate as int)
    &&& s.packet_ms % FRAME_LENGTH_MS == 0
    &&& FRAME_LENGTH_MS <= s.packet_ms <= FRAME_LENGTH_MS * MAX_INPUT_FRAMES
    &&& s.packet_size == s.packet_ms * s.sample_rate / 1000
    &&& s.frame_samples == FRAME_LENGTH_MS * s.sample_rate / 1000
}

/// Checks the `encode` options, with the rate of a WAV input if the input
/// is WAV, and derives the codec settings.
pub fn encode_settings(args: &EncodeArgs, wav_rate: Option<i32>) -> (r: Result<
    EncodeSettings,
    EncodeError,
>)
    ensures
        r == spec_encode_settings(*args, wav_rate),
        r matches Ok(s) ==> spec_settings_valid(s),
        r matches Ok(s) ==> {
            &&& s.bitrate == args.bitrate
            &&& s.loss == args.loss
            &&& s.complexity == args.complexity
            &&& s.fec == args.fec
            &&& s.dtx == args.dtx
            &&& s.tencent == args.tencent
            &&& s.packet_ms == args.packet_ms
            &&& wav_rate is None ==> s.sample_rate == args.sample_rate && s.max_internal_rate
                == args.max_internal_rate
            &&& wav_rate matches Some(w) ==> s.sample_rate == w
            &&& s.packet_size * 1000 == s.packet_ms * s.sample_rate
            &&& s.frame_samples * 50 == s.sample_rate
        },
{
    let mut rate = args.sample_rate;
    let mut internal = args.max_internal_rate;
    if let Some(w) = wav_rate {
        if args.sample_rate_set && args.sample_rate != w {
            return Err(EncodeError::WavRateMismatch { given: args.sample_rate, wav: w });
        }
        if !args.sample_rate_set {
            rate = w;
        }
        if !args.max_internal_set {
            internal = default_max_internal_rate(rate);
        }
    }
    if rate <= 0 || rate > MAX_API_FS_HZ {
        return Err(EncodeError::SampleRateOutOfRange { rate });
    }
    if !is_supported_sample_rate(rate) {
        return Err(EncodeError::UnsupportedSampleRate { rate });
    }
    if internal <= 0 || internal > MAX_INTERNAL_FS_HZ {
        return Err(EncodeError::MaxInternalOutOfRange { rate: internal });
    }
    if !is_supported_internal_sample_rate(internal) {
        return Err(EncodeError::UnsupportedMaxInternal { rate: internal });
    }
    let packet_ms = args.packet_ms;
    let magnitude: i64 = if packet_ms < 0 {
        -(packet_ms as i64)
    } else {
        packet_ms as i64
    };
    if magnitude % 20 != 0 {
        return Err(EncodeError::PacketMsNotMultiple { packet_ms });
    }
    if packet_ms < FRAME_LENGTH_MS || packet_ms > FRAME_LENGTH_MS * MAX_INPUT_FRAMES {
        return Err(EncodeError::PacketMsOutOfRange { packet_ms });
    }
    assert(0 <= packet_ms * rate <= 100 * 48000) by (nonlinear_arith)
        requires
            20 <= packet_ms <= 100,
            0 < rate <= 48000,
    ;
    proof {
        lemma_settings_keep_options(*args, wav_rate);
    }
    Ok(
        EncodeSettings {
            sample_rate: rate,
            max_internal_rate: internal,
            packet_ms,
            packet_size: packet_ms * rate / 1000,
            frame_samples: FRAME_LENGTH_MS * rate / 1000,
            bitrate: args.bitrate,
            loss: args.loss,
            complexity: args.complexity,
            fec: args.fec,
            dtx: args.dtx,
            tencent: args.tencent,
        },
    )
}


/// Decides when the frames handed to the codec make a full packet: after
/// each frame the samples since the last packet are counted, and a packet
/// is written when they span the packet length in milliseconds.
#[derive(Clone, Copy, Debug, PartialEq, Eq)]
pub struct PacketPacer {
    pub frame_samples: i32,
    pub sample_rate: i32,
    pub packet_size_ms: i32,
    pub since_last: i32,
}

/// The pacer after one more frame, and whether that frame ends a packet.
pub open spec fn spec_pacer_step(p: PacketPacer) -> (PacketPacer, bool) {
    let since = p.since_last + p.frame_samples;
    if (1000 * since) / (p.sample_rate as int) == p.packet_size_ms {
        (PacketPacer { since_last: 0, ..p }, true)
    } else {
        (PacketPacer { since_last: since as i32, ..p }, false)
    }
}

/// Frames per packet for a pacer's packet length.
pub open spec fn spec_frames_per_packet(p: PacketPacer) -> int {
    (p.packet_size_ms as int) / (FRAME_LENGTH_MS as int)
}

/// A pacer made from accepted settings, between two frames.
pub open spec fn spec_pacer_wf(p: PacketPacer) -> bool {
    &&& spec_supported_sample_rate(p.sample_rate as int)
    &&& p.frame_samples == FRAME_LENGTH_MS * p.sample_rate / 1000
    &&& p.packet_size_ms % FRAME_LENGTH_MS == 0
    &&& FRAME_LENGTH_MS <= p.packet_size_ms <= FRAME_LENGTH_MS * MAX_INPUT_FRAMES
    &&& p.since_last % p.frame_samples == 0
    &&& 0 <= p.since_last
    &&& p.since_last / p.frame_samples < spec_frames_per_packet(p)
}

/// The arithmetic of one pacer step at a supported rate: after `j + 1`
/// frames the samples span `20 * (j + 1)` ms, and the packet length in
/// samples spans `packet_ms`.
pub proof fn lemma_pacer_arith(rate: int, packet_ms: int, j: int)
    requires
        spec_supported_sample_rate(rate),
        packet_ms % 20 == 0,
        20 <= packet_ms <= 100,
        0 <= j < packet_ms / 20,
    ensures
        (20 * rate / 1000) > 0,
        (1000 * ((j + 1) * (20 * rate / 1000))) / rate == 20 * (j + 1),
        (1000 * (packet_ms * rate / 1000)) / rate == packet_ms,
        1000 * ((j + 1) * (20 * rate / 1000)) <= 100 * 48000 * 1000,
        (j + 1) * (20 * rate / 1000) <= 100 * 48,
{
    let k = packet_ms / 20;
    assert(packet_ms == 20 * k);
    assert(1 <= k <= 5);
    if rate == 8000 {
        assert(20 * rate / 1000 == 160);
        assert((1000 * ((j + 1) * 160)) / 8000 == 20 * (j + 1));
        assert(packet_ms * 8000 / 1000 == 8 * packet_ms);
        assert((1000 * (8 * packet_ms)) / 8000 == packet_ms);
    } else if rate == 12000 {
        assert(20 * rate / 1000 == 240);
        assert((1000 * ((j + 1) * 240)) / 12000 == 20 * (j + 1));
        assert(packet_ms * 12000 / 1000 == 12 * packet_ms);
        assert((1000 * (12 * packet_ms)) / 12000 == packet_ms);
    } else if rate == 16000 {
        assert(20 * rate / 1000 == 320);
        assert((1000 * ((j + 1) * 320)) / 16000 == 20 * (j + 1));
        assert(packet_ms * 16000 / 1000 == 16 * packet_ms);
        assert((1000 * (16 * packet_ms)) / 16000 == packet_ms);
    } else if rate == 24000 {
        assert(20 * rate / 1000 == 480);
        assert((1000 * ((j + 1) * 480)) / 24000 == 20 * (j + 1));
        assert(packet_ms * 24000 / 1000 == 24 * packet_ms);
        assert((1000 * (24 * packet_ms)) / 24000 == packet_ms);
    } else {
        assert(20 * rate / 1000 == 960);
        assert((1000 * ((j + 1) * 960)) / 48000 == 20 * (j + 1));
        assert(packet_ms * 48000 / 1000 == 48 * packet_ms);
        assert((1000 * (48 * packet_ms)) / 48000 == packet_ms);
    }
}

impl PacketPacer {
    /// A pacer for accepted settings, with no frame pending.
    pub fn new(settings: &EncodeSettings) -> (p: PacketPacer)
        requires
            spec_settings_valid(*settings),
        ensures
            spec_pacer_wf(p),
            p.since_last == 0,
            p.frame_samples == settings.frame_samples,
            p.sample_rate == settings.sample_rate,
            p.packet_size_ms == settings.packet_ms,
    {
        proof {
            lemma_pacer_arith(settings.sample_rate as int, settings.packet_ms as int, 0);
        }
        let packet_size_ms = (1000 * settings.packet_size) / settings.sample_rate;
        proof {
            let fs = settings.frame_samples as int;
            assert(fs > 0);
            assert(0int % fs == 0 && 0int / fs == 0) by (nonlinear_arith)
                requires
                    fs > 0,
            ;
        }
        PacketPacer {
            frame_samples: settings.frame_samples,
            sample_rate: settings.sample_rate,
            packet_size_ms,
            since_last: 0,
        }
    }

    /// Counts one more encoded frame: whether it ends a packet.
    pub fn on_frame(&mut self) -> (ends_packet: bool)
        requires
            spec_pacer_wf(*old(self)),
        ensures
            spec_pacer_wf(*final(self)),
            (*final(self), ends_packet) == spec_pacer_step(*old(self)),
    {
        let ghost j = self.since_last / self.frame_samples;
        proof {
            lemma_pacer_arith(self.sample_rate as int, self.packet_size_ms as int, j);
            vstd::arithmetic::div_mod::lemma_fundamental_div_mod(
                self.since_last as int,
                self.frame_samples as int,
            );
            assert(self.since_last == j * self.frame_samples);
            assert((j + 1) * self.frame_samples == self.since_last + self.frame_samples) by (nonlinear_arith)
                requires
                    self.since_last == j * self.frame_samples,
            ;
        }
        let since = self.since_last + self.frame_samples;
        if (1000 * since) / self.sample_rate == self.packet_size_ms {
            self.since_last = 0;
            proof {
                assert(self.since_last / self.frame_samples == 0);
            }
            true
        } else {
            self.since_last = since;
            proof {
                assert(since == (j + 1) * self.frame_samples);
                assert(since % self.frame_samples == 0 && since / self.frame_samples == j + 1) by (nonlinear_arith)
                    requires
                        since == (j + 1) * self.frame_samples,
                        self.frame_samples > 0,
                        j + 1 >= 0,
                ;
                assert(20 * (j + 1) != self.packet_size_ms);
            }
            false
        }
    }
}

/// The pacer after `n` frames.
pub open spec fn spec_pacer_after(p: PacketPacer, n: nat) -> PacketPacer
    decreases n,
{
    if n == 0 {
        p
    } else {
        spec_pacer_step(spec_pacer_after(p, (n - 1) as nat)).0
    }
}

/// From a pacer with no frame pending, frame number `n + 1` ends a packet
/// exactly when `n + 1` is a multiple of the frames per packet, i.e. every
/// `packet_ms / 20` frames a packet is written.
pub proof fn lemma_pacer_period(p: PacketPacer, n: nat)
    requires
        spec_pacer_wf(p),
        p.since_last == 0,
    ensures
        spec_pacer_wf(spec_pacer_after(p, n)),
        spec_pacer_after(p, n).since_last == (n % spec_frames_per_packet(p) as nat)
            * p.frame_samples,
        spec_pacer_step(spec_pacer_after(p, n)).1 == ((n + 1) % spec_frames_per_packet(p) as nat
            == 0),
    decreases n,
{
    let k = spec_frames_per_packet(p);
    lemma_pacer_arith(p.sample_rate as int, p.packet_size_ms as int, 0);
    if n > 0 {
        lemma_pacer_period(p, (n - 1) as nat);
    }
    let q = spec_pacer_after(p, n);
    assert(q.frame_samples == p.frame_samples && q.sample_rate == p.sample_rate
        && q.packet_size_ms == p.packet_size_ms) by {
        lemma_pacer_fields(p, n);
    }
    let j = n % (k as nat);
    if n > 0 {
        let prev = spec_pacer_after(p, (n - 1) as nat);
        let jp = ((n - 1) as nat) % (k as nat);
        lemma_pacer_arith(p.sample_rate as int, p.packet_size_ms as int, jp as int);
        assert(prev.since_last == jp * p.frame_samples);
        assert(prev.since_last + p.frame_samples == (jp + 1) * p.frame_samples) by (nonlinear_arith)
            requires
                prev.since_last == jp * p.frame_samples,
        ;
        lemma_pacer_fields(p, (n - 1) as nat);
        assert(p.packet_size_ms == 20 * k);
        assert(spec_pacer_step(prev).1 == (jp + 1 == k));
        assert(q == spec_pacer_step(prev).0);
        vstd::arithmetic::div_mod::lemma_mod_bound((n - 1) as int, k);
        if jp + 1 == k {
            assert(j == 0) by {
                assert((n - 1) as nat == ((n - 1) as nat / k as nat) * (k as nat) + jp) by (nonlinear_arith)
                    requires
                        jp == ((n - 1) as nat) % (k as nat),
                        k > 0,
                ;
                vstd::arithmetic::div_mod::lemma_mod_multiples_basic(((n - 1) as nat / k as nat + 1) as int, k);
                assert(n == ((n - 1) as nat / k as nat + 1) * k) by (nonlinear_arith)
                    requires
                        (n - 1) as nat == ((n - 1) as nat / k as nat) * (k as nat) + jp,
                        jp + 1 == k,
                        n >= 1,
                ;
            }
        } else {
            assert(j == jp + 1) by {
                vstd::arithmetic::div_mod::lemma_mod_add_multiples_vanish((n - 1) as int, k);
                assert((n - 1) as nat == ((n - 1) as nat / k as nat) * (k as nat) + jp) by (nonlinear_arith)
                    requires
                        jp == ((n - 1) as nat) % (k as nat),
                        k > 0,
                ;
                vstd::arithmetic::div_mod::lemma_fundamental_div_mod_converse(
                    n as int,
                    k,
                    ((n - 1) as nat / k as nat) as int,
                    (jp + 1) as int,
                );
            }
            let fsi = p.frame_samples as int;
            assert((j * fsi) / fsi == j && (j * fsi) % fsi == 0) by (nonlinear_arith)
                requires
                    fsi > 0,
                    j >= 0,
            ;
        }
        if jp + 1 == k {
            assert(q.since_last == 0);
            assert(j * p.frame_samples == 0) by (nonlinear_arith)
                requires
                    j == 0,
            ;
        } else {
            assert(q.since_last == (jp + 1) * p.frame_samples);
        }
    } else {
        assert(k >= 1);
        assert(0nat % (k as nat) == 0) by (nonlinear_arith)
            requires
                k >= 1,
        ;
        assert(j == 0);
        assert(q.since_last == j * p.frame_samples);
    }
    assert(q.since_last == j * p.frame_samples);
    assert(k >= 1);
    assert(j < k) by {
        vstd::arithmetic::div_mod::lemma_mod_bound(n as int, k);
    }
    lemma_pacer_arith(p.sample_rate as int, p.packet_size_ms as int, j as int);
    assert(q.since_last + q.frame_samples == (j + 1) * p.frame_samples) by (nonlinear_arith)
        requires
            q.since_last == j * p.frame_samples,
            q.frame_samples == p.frame_samples,
    ;
    assert(p.packet_size_ms == 20 * k);
    assert(spec_pacer_step(q).1 == (j + 1 == k));
    assert((n + 1) % (k as nat) == 0 <==> j + 1 == k) by {
        vstd::arithmetic::div_mod::lemma_fundamental_div_mod(n as int, k);
        let q0 = (n as nat / k as nat) as int;
        assert(n == k * q0 + j);
        if j + 1 == k {
            assert(n + 1 == (q0 + 1) * k + 0) by (nonlinear_arith)
                requires
                    n == k * q0 + j,
                    j + 1 == k,
            ;
            vstd::arithmetic::div_mod::lemma_fundamental_div_mod_converse(
                (n + 1) as int,
                k,
                (n as nat / k as nat + 1) as int,
                0,
            );
        } else {
            assert(n + 1 == q0 * k + (j + 1)) by (nonlinear_arith)
                requires
                    n == k * q0 + j,
            ;
            vstd::arithmetic::div_mod::lemma_fundamental_div_mod_converse(
                (n + 1) as int,
                k,
                (n as nat / k as nat) as int,
                (j + 1) as int,
            );
        }
    }
}

/// Stepping a pacer keeps its rate, frame size and packet length.
pub proof fn lemma_pacer_fields(p: PacketPacer, n: nat)
    ensures
        spec_pacer_after(p, n).frame_samples == p.frame_samples,
        spec_pacer_after(p, n).sample_rate == p.sample_rate,
        spec_pacer_after(p, n).packet_size_ms == p.packet_size_ms,
    decreases n,
{
    if n > 0 {
        lemma_pacer_fields(p, (n - 1) as nat);
    }
}


/// Byte `i` of a frame buffer filled from `data[start..stop]`: input bytes,
/// then zeros.
pub open spec fn spec_frame_byte(data: Seq<u8>, start: int, stop: int, i: int) -> u8 {
    if start + i < stop {
        data[start + i]
    } else {
        0u8
    }
}

/// The samples of one frame read from `data[start..stop]`, zero-padded to
/// `frame_samples` samples.
pub open spec fn spec_pcm_frame(data: Seq<u8>, start: int, stop: int, frame_samples: int) -> Seq<
    i16,
> {
    Seq::new(
        frame_samples as nat,
        |k: int|
            spec_le_i16(
                spec_frame_byte(data, start, stop, 2 * k),
                spec_frame_byte(data, start, stop, 2 * k + 1),
            ),
    )
}

/// Reads one frame of `frame_samples` samples from `data[start..stop]`:
/// the samples, zero-padded when the input ends inside the frame, and the
/// number of input bytes taken.
pub fn pcm_frame(data: &[u8], start: usize, stop: usize, frame_samples: usize) -> (r: (
    Vec<i16>,
    usize,
))
    requires
        start <= stop <= data@.len(),
        2 * frame_samples <= usize::MAX,
    ensures
        r.1 == (if stop - start < 2 * frame_samples {
            stop - start
        } else {
            2 * frame_samples
        }),
        r.0@ == spec_pcm_frame(data@, start as int, start + r.1, frame_samples as int),
{
    let avail = stop - start;
    let read = if avail < 2 * frame_samples {
        avail
    } else {
        2 * frame_samples
    };
    let end = start + read;
    let mut samples: Vec<i16> = Vec::new();
    let mut k: usize = 0;
    while k < frame_samples
        invariant
            start <= end <= data@.len(),
            end == start + read,
            2 * frame_samples <= usize::MAX,
            k <= frame_samples,
            samples@.len() == k,
            forall|j: int|
                0 <= j < k ==> #[trigger] samples@[j] == spec_le_i16(
                    spec_frame_byte(data@, start as int, end as int, 2 * j),
                    spec_frame_byte(data@, start as int, end as int, 2 * j + 1),
                ),
        decreases frame_samples - k,
    {
        let lo = if 2 * k < read {
            data[start + 2 * k]
        } else {
            0
        };
        let hi = if 2 * k + 1 < read {
            data[start + 2 * k + 1]
        } else {
            0
        };
        samples.push(le_i16(lo, hi));
        k = k + 1;
    }
    assert(samples@ =~= spec_pcm_frame(data@, start as int, end as int, frame_samples as int));
    (samples, read)
}

/// Running totals of an encoding run.
#[derive(Clone, Copy, Debug, PartialEq, Eq)]
pub struct EncodeStats {
    /// Packets written.
    pub packets: u64,
    /// Input samples read (whole samples of the bytes read).
    pub input_samples: u64,
    /// Bytes written to the output.
    pub encoded_bytes: u64,
}

/// The state of an encoding run between two codec calls.
#[derive(Clone, Copy, Debug, PartialEq, Eq)]
pub struct EncodeSession {
    pub settings: EncodeSettings,
    pub pacer: PacketPacer,
    pub stats: EncodeStats,
}

/// A session that the steps below keep working.
pub open spec fn spec_encode_session_wf(s: EncodeSession) -> bool {
    &&& spec_settings_valid(s.settings)
    &&& spec_pacer_wf(s.pacer)
    &&& s.pacer.frame_samples == s.settings.frame_samples
}

impl EncodeSession {
    /// Starts a run: the session and the file header to write.
    pub fn start(settings: &EncodeSettings) -> (r: (EncodeSession, Vec<u8>))
        requires
            spec_settings_valid(*settings),
        ensures
            spec_encode_session_wf(r.0),
            r.0.settings == *settings,
            r.0.pacer.since_last == 0,
            r.0.stats.packets == 0,
            r.0.stats.input_samples == 0,
            r.0.stats.encoded_bytes == r.1@.len(),
            r.1@ == spec_silk_header(settings.tencent),
    {
        let header = silk_header(settings.tencent);
        let pacer = PacketPacer::new(settings);
        let stats = EncodeStats {
            packets: 0,
            input_samples: 0,
            encoded_bytes: header.len() as u64,
        };
        (EncodeSession { settings: *settings, pacer, stats }, header)
    }

    /// Reads the next frame of input from `data[pos..stop]`: `None` once
    /// the input is used up, else the samples for the codec and the
    /// position after the bytes taken.
    pub fn next_frame(&mut self, data: &[u8], pos: usize, stop: usize) -> (r: Option<
        (Vec<i16>, usize),
    >)
        requires
            spec_encode_session_wf(*old(self)),
            pos <= stop <= data@.len(),
            old(self).stats.input_samples + 2400 <= u64::MAX,
        ensures
            spec_encode_session_wf(*final(self)),
            final(self).settings == old(self).settings,
            final(self).pacer == old(self).pacer,
            final(self).stats.packets == old(self).stats.packets,
            final(self).stats.encoded_bytes == old(self).stats.encoded_bytes,
            pos == stop ==> r is None && final(self).stats == old(self).stats,
            pos < stop ==> (r matches Some((samples, next)) && {
                let read = spec_frame_read(
                    pos as int,
                    stop as int,
                    old(self).settings.frame_samples as int,
                );
                &&& next == pos + read
                &&& samples@ == spec_pcm_frame(
                    data@,
                    pos as int,
                    next as int,
                    old(self).settings.frame_samples as int,
                )
                &&& final(self).stats.input_samples == old(self).stats.input_samples + read / 2
            }),
    {
        if pos == stop {
            return None;
        }
        proof {
            lemma_pacer_arith(self.settings.sample_rate as int, self.settings.packet_ms as int, 0);
        }
        let fs = self.settings.frame_samples as usize;
        let (samples, read) = pcm_frame(data, pos, stop, fs);
        self.stats.input_samples = self.stats.input_samples + (read / 2) as u64;
        Some((samples, pos + read))
    }

    /// Takes the codec's output for one frame: the bytes to write when the
    /// frame ends a packet (the packet record of the payload size the codec
    /// reported), else `None`.
    pub fn frame_encoded(&mut self, n_bytes: i16, payload: &[u8]) -> (r: Option<Vec<u8>>)
        requires
            spec_encode_session_wf(*old(self)),
            n_bytes <= payload@.len(),
            old(self).stats.encoded_bytes + 2 + 32767 <= u64::MAX,
            old(self).stats.packets + 1 <= u64::MAX,
        ensures
            spec_encode_session_wf(*final(self)),
            final(self).settings == old(self).settings,
            (final(self).pacer, r is Some) == spec_pacer_step(old(self).pacer),
            final(self).stats.input_samples == old(self).stats.input_samples,
            r matches Some(bytes) ==> {
                &&& bytes@ == spec_packet_bytes(n_bytes, payload@)
                &&& final(self).stats.encoded_bytes == old(self).stats.encoded_bytes + bytes@.len()
                &&& final(self).stats.packets == old(self).stats.packets + 1
            },
            r is None ==> final(self).stats == old(self).stats,
    {
        if self.pacer.on_frame() {
            let bytes = packet_bytes(n_bytes, payload);
            proof {
                if n_bytes > 0 {
                    assert(bytes@.len() == 2 + n_bytes);
                } else {
                    assert(bytes@.len() == 2);
                }
            }
            self.stats.encoded_bytes = self.stats.encoded_bytes + bytes.len() as u64;
            self.stats.packets = self.stats.packets + 1;
            Some(bytes)
        } else {
            None
        }
    }

    /// Ends the run: the end marker to write.
    pub fn finish(&mut self) -> (r: Vec<u8>)
        requires
            old(self).stats.encoded_bytes + 2 <= u64::MAX,
        ensures
            r@ == spec_end_marker(old(self).settings.tencent),
            final(self).stats.encoded_bytes == old(self).stats.encoded_bytes + r@.len(),
            final(self).stats.packets == old(self).stats.packets,
            final(self).stats.input_samples == old(self).stats.input_samples,
            final(self).settings == old(self).settings,
            final(self).pacer == old(self).pacer,
    {
        let marker = end_marker(self.settings.tencent);
        self.stats.encoded_bytes = self.stats.encoded_bytes + marker.len() as u64;
        marker
    }
}


/// For every accepted `encode` command line and input (raw PCM, or WAV at
/// `wav_rate`), unless `--max-internal` is given the internal rate the
/// codec gets is the sample rate capped at 24000: 24000 for 48000 Hz.
pub proof fn lemma_internal_rate_follows_sample_rate(args: Seq<String>, wav_rate: Option<i32>)
    ensures
        spec_parse_encode_args(args) matches Ok(Parsed::Run(a)) ==> (spec_encode_settings(
            a,
            wav_rate,
        ) matches Ok(s) ==> (!a.max_internal_set ==> s.max_internal_rate
            == spec_default_max_internal_rate(s.sample_rate as int))),
{
    lemma_encode_default_rates(args);
}


/// A WAV input and the same audio as raw PCM are encoded alike: with the
/// rates left to their defaults for the WAV input, and given explicitly as
/// the WAV's rate and its default internal rate for the PCM input, both
/// runs get the same settings (so the same header, packet length and
/// pacing), and reading from the same offset of the audio gives the same
/// frames. What the codec returns for those frames is outside this crate.
pub proof fn lemma_wav_and_pcm_inputs_encode_alike(b: Seq<u8>, args: EncodeArgs, args2: EncodeArgs)
    requires
        b.len() <= usize::MAX,
        crate::wav::spec_open_input(b) is Ok,
        crate::wav::spec_open_input(b)->Ok_0.wav is Some,
        !args.sample_rate_set,
        !args.max_internal_set,
        ({
            let w = crate::wav::spec_open_input(b)->Ok_0.wav->Some_0.sample_rate;
            args2 == EncodeArgs {
                input: args2.input,
                output: args2.output,
                sample_rate: w,
                sample_rate_set: true,
                max_internal_rate: spec_default_max_internal_rate(w as int) as i32,
                max_internal_set: true,
                ..args
            }
        }),
    ensures
        ({
            let l = crate::wav::spec_open_input(b)->Ok_0;
            let w = l.wav->Some_0.sample_rate;
            let p = b.subrange(l.data_start as int, l.data_end as int);
            &&& spec_encode_settings(args, Some(w)) == spec_encode_settings(args2, None)
            &&& (p.len() >= 1 && !crate::wav::spec_is_riff_wave(p)) ==> crate::wav::spec_open_input(
                p,
            ) == Ok::<crate::wav::InputLayout, crate::wav::InputError>(
                crate::wav::InputLayout { wav: None, data_start: 0, data_end: p.len() as usize },
            )
            &&& forall|k: int, n: int, fs: int|
                0 <= k && 0 <= n && k + n <= p.len() ==> #[trigger] spec_pcm_frame(
                    b,
                    l.data_start + k,
                    l.data_start + k + n,
                    fs,
                ) == spec_pcm_frame(p, k, k + n, fs)
        }),
{
    let l = crate::wav::spec_open_input(b)->Ok_0;
    let p = b.subrange(l.data_start as int, l.data_end as int);
    assert(l.data_start <= l.data_end <= b.len()) by {
        crate::wav::lemma_wav_data_start_in_bounds(b, 12, None);
    }
    assert forall|k: int, n: int, fs: int|
        0 <= k && 0 <= n && k + n <= p.len() implies #[trigger] spec_pcm_frame(
        b,
        l.data_start + k,
        l.data_start + k + n,
        fs,
    ) == spec_pcm_frame(p, k, k + n, fs) by {
        assert forall|i: int| 0 <= i < 2 * fs + 2 implies #[trigger] spec_frame_byte(
            b,
            l.data_start + k,
            l.data_start + k + n,
            i,
        ) == spec_frame_byte(p, k, k + n, i) by {
            if k + i < k + n {
                assert(p[k + i] == b[l.data_start + k + i]);
            }
        }
        assert(spec_pcm_frame(b, l.data_start + k, l.data_start + k + n, fs) =~= spec_pcm_frame(
            p,
            k,
            k + n,
            fs,
        ));
    }
}


/// Input bytes taken for the frame at `pos`: a whole frame, or what is left.
pub open spec fn spec_frame_read(pos: int, stop: int, frame_samples: int) -> int {
    if stop - pos < 2 * frame_samples {
        stop - pos
    } else {
        2 * frame_samples
    }
}

/// The frames `next_frame` hands the codec for `data[pos..stop]`, in order:
/// each call takes `spec_frame_read` bytes and zero-pads the frame.
pub open spec fn spec_encode_frames(data: Seq<u8>, pos: int, stop: int, frame_samples: int) -> Seq<
    Seq<i16>,
>
    decreases stop - pos,
{
    if pos >= stop || frame_samples <= 0 {
        Seq::empty()
    } else {
        let r = spec_frame_read(pos, stop, frame_samples);
        seq![spec_pcm_frame(data, pos, pos + r, frame_samples)] + spec_encode_frames(
            data,
            pos + r,
            stop,
            frame_samples,
        )
    }
}

/// Flattening a sequence with a first element put in front.
pub proof fn lemma_flatten_cons(a: Seq<i16>, rest: Seq<Seq<i16>>)
    ensures
        crate::decoder::spec_flatten(seq![a] + rest) == a + crate::decoder::spec_flatten(rest),
    decreases rest.len(),
{
    if rest.len() == 0 {
        assert((seq![a] + rest).drop_last() =~= Seq::<Seq<i16>>::empty());
        assert(crate::decoder::spec_flatten(Seq::<Seq<i16>>::empty()) == Seq::<i16>::empty());
        assert(crate::decoder::spec_flatten(seq![a] + rest) =~= a + crate::decoder::spec_flatten(
            rest,
        ));
    } else {
        lemma_flatten_cons(a, rest.drop_last());
        assert((seq![a] + rest).drop_last() =~= seq![a] + rest.drop_last());
        assert(crate::decoder::spec_flatten(seq![a] + rest) =~= a + crate::decoder::spec_flatten(
            rest,
        ));
    }
}

/// Reading samples from two byte runs, the first of even length.
pub proof fn lemma_samples_from_le_concat(a: Seq<u8>, b: Seq<u8>)
    requires
        a.len() % 2 == 0,
    ensures
        crate::pcm::spec_samples_from_le(a + b) == crate::pcm::spec_samples_from_le(a)
            + crate::pcm::spec_samples_from_le(b),
{
    let l = crate::pcm::spec_samples_from_le(a + b);
    let r = crate::pcm::spec_samples_from_le(a) + crate::pcm::spec_samples_from_le(b);
    assert((a.len() + b.len()) / 2 == a.len() / 2 + b.len() / 2);
    assert forall|k: int| 0 <= k < l.len() implies l[k] == r[k] by {
        if k >= a.len() / 2 {
            let j = k - a.len() / 2;
            assert(2 * k == a.len() + 2 * j);
        }
    }
    assert(l =~= r);
}

/// The framing of an encoding run: the input `data[start..stop]` of `L`
/// bytes is handed to the codec as `ceil(L / (2F))` frames of `F` samples
/// each, which together are the input's bytes, zero-padded to a whole
/// number of frames, read as samples: the last partial frame is padded,
/// never dropped. With 20 ms packets every frame ends a packet
/// (`lemma_pacer_period` with one frame per packet), so as many packets are
/// written; a codec that returns `F` samples per frame then decodes to
/// `ceil(L / (2F)) * F` samples (`lemma_decode_writes_whole_frames`).
pub proof fn lemma_encode_framing(data: Seq<u8>, start: int, stop: int, frame_samples: int)
    requires
        0 <= start <= stop <= data.len(),
        frame_samples > 0,
    ensures
        ({
            let m = 2 * frame_samples;
            let len = stop - start;
            let n = (len + m - 1) / m;
            let frames = spec_encode_frames(data, start, stop, frame_samples);
            &&& frames.len() == n
            &&& forall|i: int| 0 <= i < n ==> #[trigger] frames[i].len() == frame_samples
            &&& n * m >= len
            &&& crate::decoder::spec_flatten(frames) == crate::pcm::spec_samples_from_le(
                data.subrange(start, stop) + Seq::new((n * m - len) as nat, |i: int| 0u8),
            )
        }),
    decreases stop - start,
{
    let m = 2 * frame_samples;
    let len = stop - start;
    let n = (len + m - 1) / m;
    let frames = spec_encode_frames(data, start, stop, frame_samples);
    if len == 0 {
        assert(n == 0) by {
            vstd::arithmetic::div_mod::lemma_basic_div(m - 1, m);
        }
        assert(n * m == 0) by (nonlinear_arith)
            requires
                n == 0,
        ;
        assert(frames =~= Seq::<Seq<i16>>::empty());
        assert(crate::decoder::spec_flatten(frames) == Seq::<i16>::empty());
        assert(data.subrange(start, stop) + Seq::new((n * m - len) as nat, |i: int| 0u8)
            =~= Seq::<u8>::empty());
        assert(crate::pcm::spec_samples_from_le(Seq::<u8>::empty()) =~= Seq::<i16>::empty());
    } else {
        let r = spec_frame_read(start, stop, frame_samples);
        let f0 = spec_pcm_frame(data, start, start + r, frame_samples);
        let rest = spec_encode_frames(data, start + r, stop, frame_samples);
        assert(frames == seq![f0] + rest);
        lemma_flatten_cons(f0, rest);
        if len <= m {
            assert(n == 1) by {
                vstd::arithmetic::div_mod::lemma_fundamental_div_mod_converse(len + m - 1, m, 1, len - 1);
            }
            assert(rest =~= Seq::<Seq<i16>>::empty());
            assert(crate::decoder::spec_flatten(rest) =~= Seq::<i16>::empty());
            let padded = data.subrange(start, stop) + Seq::new((n * m - len) as nat, |i: int| 0u8);
            assert(padded.len() == m);
            assert(f0 =~= crate::pcm::spec_samples_from_le(padded)) by {
                assert forall|k: int| 0 <= k < frame_samples implies f0[k]
                    == crate::pcm::spec_samples_from_le(padded)[k] by {
                    assert(spec_frame_byte(data, start, start + r, 2 * k) == padded[2 * k]);
                    assert(spec_frame_byte(data, start, start + r, 2 * k + 1) == padded[2 * k + 1]);
                }
            }
            assert(crate::decoder::spec_flatten(frames) =~= f0);
            assert(frames.len() == n);
            assert(forall|i: int| 0 <= i < n ==> #[trigger] frames[i].len() == frame_samples);
        } else {
            assert(r == m);
            lemma_encode_framing(data, start + m, stop, frame_samples);
            let n1 = (len - m + m - 1) / m;
            assert(n == n1 + 1) by {
                let q = (len - 1) / m;
                let rr = (len - 1) % m;
                vstd::arithmetic::div_mod::lemma_fundamental_div_mod(len - 1, m);
                vstd::arithmetic::div_mod::lemma_mod_bound(len - 1, m);
                assert(len + m - 1 == m * (q + 1) + rr) by (nonlinear_arith)
                    requires
                        len - 1 == m * q + rr,
                ;
                assert(len + m - 1 == (q + 1) * m + rr) by (nonlinear_arith)
                    requires
                        len + m - 1 == m * (q + 1) + rr,
                ;
                vstd::arithmetic::div_mod::lemma_fundamental_div_mod_converse(len + m - 1, m, q + 1, rr);
                assert(len - m + m - 1 == len - 1);
            }
            assert(n * m == n1 * m + m) by (nonlinear_arith)
                requires
                    n == n1 + 1,
            ;
            let head = data.subrange(start, start + m);
            let tail = data.subrange(start + m, stop) + Seq::new((n1 * m - (len - m)) as nat, |i: int| 0u8);
            let padded = data.subrange(start, stop) + Seq::new((n * m - len) as nat, |i: int| 0u8);
            assert(padded =~= head + tail);
            lemma_samples_from_le_concat(head, tail);
            assert(f0 =~= crate::pcm::spec_samples_from_le(head)) by {
                assert forall|k: int| 0 <= k < frame_samples implies f0[k]
                    == crate::pcm::spec_samples_from_le(head)[k] by {
                    assert(spec_frame_byte(data, start, start + r, 2 * k) == head[2 * k]);
                    assert(spec_frame_byte(data, start, start + r, 2 * k + 1) == head[2 * k + 1]);
                }
            }
            assert forall|i: int| 0 <= i < n implies #[trigger] frames[i].len() == frame_samples by {
                if i > 0 {
                    assert(frames[i] == rest[i - 1]);
                }
            }
            assert(frames.len() == n);
            assert(n * m >= len);
            assert(crate::decoder::spec_flatten(frames) == crate::pcm::spec_samples_from_le(padded));
        }
    }
}

} // verus!
