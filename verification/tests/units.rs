//! Concrete cases for each part of the library.

use rust_silk::args::{
    parse_decode_args, parse_encode_args, parse_i32, ArgError, NumericOption, Parsed,
    TolerantMode,
};
use rust_silk::container::{
    check_silk_header, end_marker, next_packet, packet_bytes, silk_header, ContainerError,
    PacketRead,
};
use rust_silk::decoder::{
    DecodePhase, DecodeSession,
    check_decode_rate, check_silk_input, coded_frame_action, frame_samples_at, lost_frame_action,
    lost_frame_count, DecodeError, FrameAction, FrameNext, OutputSink, WavState,
};
use rust_silk::encoder::{encode_settings, pcm_frame, EncodeError, EncodeSession, PacketPacer};
use rust_silk::messages::{
    arg_error_message, decode_error_message, encode_error_message, input_error_message,
    reference_error_message, wav_error_message,
};
use rust_silk::path::{has_wav_extension, is_wav_extension};
use rust_silk::pcm::{i16_le_bytes, le_i16, read_all_i16, samples_to_le_bytes};
use rust_silk::rates::{
    default_max_internal_rate, is_supported_internal_sample_rate, is_supported_sample_rate,
};
use rust_silk::text::{eq_ignore_ascii_case, parse_decimal_i32, push_decimal, str_eq};
use rust_silk::wav::{
    load_reference_samples, open_input, parse_wav_header, skip_bytes, write_wav_header,
    InputError, InputLayout, ReferenceError, WavError, WavInfo,
};

fn strings(items: &[&str]) -> Vec<String> {
    items.iter().map(|s| s.to_string()).collect()
}

#[test]
fn default_internal_rate_caps_at_24k() {
    assert_eq!(default_max_internal_rate(48_000), 24_000);
    assert_eq!(default_max_internal_rate(16_000), 16_000);
    assert_eq!(default_max_internal_rate(24_000), 24_000);
}

#[test]
fn supported_rates() {
    for r in [8_000, 12_000, 16_000, 24_000, 48_000] {
        assert!(is_supported_sample_rate(r));
    }
    assert!(!is_supported_sample_rate(44_100));
    assert!(is_supported_internal_sample_rate(24_000));
    assert!(!is_supported_internal_sample_rate(48_000));
}

#[test]
fn pcm_sample_bytes() {
    assert_eq!(le_i16(0xff, 0xff), -1);
    assert_eq!(le_i16(0x00, 0x80), i16::MIN);
    assert_eq!(le_i16(0x34, 0x12), 0x1234);
    assert_eq!(i16_le_bytes(-2), (0xfe, 0xff));
    assert_eq!(i16_le_bytes(0x1234), (0x34, 0x12));
    assert_eq!(read_all_i16(&[1, 0, 0xff, 0xff, 7]), vec![1, -1]);
    assert_eq!(samples_to_le_bytes(&[1, -1, 256]), vec![1, 0, 0xff, 0xff, 0, 1]);
}

#[test]
fn pcm_roundtrip_on_values() {
    let samples = vec![0i16, 1, -1, i16::MAX, i16::MIN, 12345, -12345];
    assert_eq!(read_all_i16(&samples_to_le_bytes(&samples)), samples);
}

#[test]
fn decimal_parsing_follows_str_parse() {
    for s in ["0", "123", "-5", "+7", "2147483647", "-2147483648", "007", "-0"] {
        assert_eq!(parse_decimal_i32(s), s.parse::<i32>().ok(), "{s}");
    }
    for s in ["", "-", "+", "12a", "2147483648", "-2147483649", " 1", "1 ", "99999999999", "٣"] {
        assert_eq!(parse_decimal_i32(s), None, "{s}");
        assert!(s.parse::<i32>().is_err());
    }
}

#[test]
fn decimal_rendering() {
    for n in [0i64, 7, 10, 24000, -1, -48000, i64::MIN, i64::MAX] {
        let mut s = String::from("x=");
        push_decimal(&mut s, n);
        assert_eq!(s, format!("x={n}"));
    }
}

#[test]
fn text_comparisons() {
    assert!(str_eq("--input", "--input"));
    assert!(!str_eq("--input", "--inpu"));
    assert!(eq_ignore_ascii_case("WaV", "wav"));
    assert!(!eq_ignore_ascii_case("wave", "wav"));
    assert!(is_wav_extension("WAV"));
    assert!(!is_wav_extension("mp3"));
}

#[test]
fn wav_extension_of_paths() {
    assert!(has_wav_extension("out.wav"));
    assert!(has_wav_extension("dir/OUT.Wav"));
    assert!(!has_wav_extension("out.pcm"));
    assert!(!has_wav_extension("out.wav.pcm"));
    assert!(!has_wav_extension(".wav"));
    assert!(!has_wav_extension("-"));
}

#[test]
fn parse_i32_errors() {
    let args = strings(&["--bitrate", "abc"]);
    assert_eq!(
        parse_i32(&args, 1, NumericOption::Bitrate),
        Err(ArgError::InvalidValue { option: NumericOption::Bitrate, index: 1 })
    );
    assert_eq!(
        parse_i32(&args, 2, NumericOption::Bitrate),
        Err(ArgError::MissingValue { option: NumericOption::Bitrate })
    );
    let args = strings(&["--loss", "-3"]);
    assert_eq!(parse_i32(&args, 1, NumericOption::Loss), Ok(-3));
}

fn run_encode(items: &[&str]) -> Result<Parsed<rust_silk::args::EncodeArgs>, ArgError> {
    parse_encode_args(&strings(items))
}

#[test]
fn encode_args_defaults() {
    let a = match run_encode(&["-i", "in.pcm", "-o", "out.silk"]).unwrap() {
        Parsed::Run(a) => a,
        Parsed::Help => panic!(),
    };
    assert_eq!(a.input, "in.pcm");
    assert_eq!(a.output, "out.silk");
    assert_eq!(a.sample_rate, 24_000);
    assert!(!a.sample_rate_set);
    assert_eq!(a.max_internal_rate, 24_000);
    assert!(!a.max_internal_set);
    assert_eq!(a.packet_ms, 20);
    assert_eq!(a.bitrate, 25_000);
    assert_eq!((a.loss, a.fec, a.dtx, a.complexity), (0, 0, 0, 2));
    assert!(!a.tencent && !a.stats && !a.quiet);
}

#[test]
fn encode_args_internal_rate_order() {
    let a = match run_encode(&["--max-internal", "8000", "--fs", "48000", "-i", "a", "-o", "b"])
        .unwrap()
    {
        Parsed::Run(a) => a,
        Parsed::Help => panic!(),
    };
    assert_eq!((a.sample_rate, a.max_internal_rate), (48_000, 8_000));
    let a = match run_encode(&["--sample-rate", "16000", "-i", "a", "-o", "b", "--tencent", "--stats"])
        .unwrap()
    {
        Parsed::Run(a) => a,
        Parsed::Help => panic!(),
    };
    assert_eq!((a.sample_rate, a.max_internal_rate), (16_000, 16_000));
    assert!(a.tencent && a.stats);
}

#[test]
fn encode_args_errors() {
    assert_eq!(run_encode(&["-o", "b"]), Err(ArgError::MissingInput));
    assert_eq!(run_encode(&["-i", "a"]), Err(ArgError::MissingOutput));
    assert_eq!(run_encode(&["-o", "b", "-i"]), Err(ArgError::MissingInput));
    assert_eq!(run_encode(&["-i", "a", "--bogus"]), Err(ArgError::UnknownArg { index: 2 }));
    assert_eq!(
        run_encode(&["--packet-ms", "x", "-i", "a"]),
        Err(ArgError::InvalidValue { option: NumericOption::PacketMs, index: 1 })
    );
    assert_eq!(
        run_encode(&["--dtx"]),
        Err(ArgError::MissingValue { option: NumericOption::Dtx })
    );
    assert_eq!(run_encode(&["--bogus", "-h"]), Err(ArgError::UnknownArg { index: 0 }));
    assert_eq!(run_encode(&["-h", "--bogus"]), Ok(Parsed::Help));
}

#[test]
fn decode_args_cases() {
    let a = match parse_decode_args(&strings(&[
        "-i", "a.silk", "-o", "b.wav", "--tolerant", "silence", "--ref", "r.wav", "--wav",
    ]))
    .unwrap()
    {
        Parsed::Run(a) => a,
        Parsed::Help => panic!(),
    };
    assert_eq!(a.tolerant, TolerantMode::Silence);
    assert_eq!(a.reference.as_deref(), Some("r.wav"));
    assert!(a.stats && a.wav);
    assert_eq!(a.sample_rate, 24_000);
    let a = match parse_decode_args(&strings(&["-i", "a", "-o", "b", "--tolerant", "skip", "--metrics"]))
        .unwrap()
    {
        Parsed::Run(a) => a,
        Parsed::Help => panic!(),
    };
    assert_eq!(a.tolerant, TolerantMode::Skip);
    assert!(a.stats && a.reference.is_none());
    assert_eq!(
        parse_decode_args(&strings(&["--tolerant", "drop"])),
        Err(ArgError::InvalidTolerantMode { index: 1 })
    );
    assert_eq!(parse_decode_args(&strings(&["--tolerant"])), Err(ArgError::MissingTolerantValue));
    assert_eq!(parse_decode_args(&strings(&["--reference"])), Err(ArgError::MissingReferenceValue));
    assert_eq!(parse_decode_args(&strings(&["--help"])), Ok(Parsed::Help));
}

#[test]
fn arg_messages() {
    let args = strings(&["--fs", "fast", "--nope"]);
    assert_eq!(
        arg_error_message(&ArgError::InvalidValue { option: NumericOption::SampleRate, index: 1 }, &args),
        "invalid sample-rate: fast"
    );
    assert_eq!(arg_error_message(&ArgError::UnknownArg { index: 2 }, &args), "unknown arg: --nope");
    assert_eq!(
        arg_error_message(&ArgError::MissingValue { option: NumericOption::MaxInternal }, &args),
        "missing value for max-internal"
    );
    assert_eq!(arg_error_message(&ArgError::MissingInput, &args), "missing --input");
    assert_eq!(arg_error_message(&ArgError::MissingOutput, &args), "missing --output");
    assert_eq!(
        arg_error_message(&ArgError::MissingTolerantValue, &args),
        "missing value for tolerant"
    );
    assert_eq!(
        arg_error_message(&ArgError::InvalidTolerantMode { index: 1 }, &args),
        "invalid tolerant mode: fast"
    );
    assert_eq!(
        arg_error_message(&ArgError::MissingReferenceValue, &args),
        "missing value for reference"
    );
}

fn wav_bytes(chunks: &[(&[u8; 4], Vec<u8>)]) -> Vec<u8> {
    let mut b = b"RIFF\0\0\0\0WAVE".to_vec();
    for (id, body) in chunks {
        b.extend_from_slice(*id);
        b.extend_from_slice(&(body.len() as u32).to_le_bytes());
        b.extend_from_slice(body);
        if body.len() % 2 == 1 {
            b.push(0);
        }
    }
    b
}

fn fmt_body(format: u16, channels: u16, rate: u32, bits: u16) -> Vec<u8> {
    let mut f = Vec::new();
    f.extend_from_slice(&format.to_le_bytes());
    f.extend_from_slice(&channels.to_le_bytes());
    f.extend_from_slice(&rate.to_le_bytes());
    f.extend_from_slice(&(rate * 2).to_le_bytes());
    f.extend_from_slice(&2u16.to_le_bytes());
    f.extend_from_slice(&bits.to_le_bytes());
    f
}

#[test]
fn wav_header_written_bytes() {
    let h = write_wav_header(16_000, 100);
    assert_eq!(h.len(), 44);
    assert_eq!(&h[0..4], b"RIFF");
    assert_eq!(&h[4..8], &136u32.to_le_bytes());
    assert_eq!(&h[8..16], b"WAVEfmt ");
    assert_eq!(&h[24..28], &16_000u32.to_le_bytes());
    assert_eq!(&h[28..32], &32_000u32.to_le_bytes());
    assert_eq!(&h[36..40], b"data");
    assert_eq!(&h[40..44], &100u32.to_le_bytes());
    let h = write_wav_header(8_000, u32::MAX);
    assert_eq!(&h[4..8], &u32::MAX.to_le_bytes());
}

#[test]
fn wav_chunk_walk() {
    let data = vec![1u8, 0, 2, 0];
    let b = wav_bytes(&[
        (b"LIST", vec![9, 9, 9]),
        (b"fmt ", fmt_body(1, 1, 12_000, 16)),
        (b"data", data.clone()),
    ]);
    let h = parse_wav_header(&b, 12).unwrap();
    assert_eq!(h.info, WavInfo { sample_rate: 12_000, channels: 1, bits_per_sample: 16 });
    assert_eq!(h.data_len, 4);
    assert_eq!(&b[h.data_start..h.data_start + 4], &data[..]);
    assert_eq!(
        open_input(&b),
        Ok(InputLayout {
            wav: Some(h.info),
            data_start: h.data_start,
            data_end: h.data_start + 4
        })
    );
}

#[test]
fn wav_chunk_errors() {
    let e = |chunks: &[(&[u8; 4], Vec<u8>)]| parse_wav_header(&wav_bytes(chunks), 12);
    assert_eq!(e(&[]), Err(WavError::MissingChunkHeader));
    assert_eq!(e(&[(b"data", vec![])]), Err(WavError::MissingFmt));
    assert_eq!(e(&[(b"fmt ", vec![0; 14])]), Err(WavError::FmtTooSmall));
    assert_eq!(e(&[(b"fmt ", fmt_body(3, 1, 8000, 16))]), Err(WavError::NotPcm));
    assert_eq!(e(&[(b"fmt ", fmt_body(1, 2, 8000, 16))]), Err(WavError::NotMono));
    assert_eq!(e(&[(b"fmt ", fmt_body(1, 1, 8000, 8))]), Err(WavError::Not16Bit));
    let mut b = wav_bytes(&[]);
    b.extend_from_slice(b"fmt ");
    b.extend_from_slice(&[16, 0]);
    assert_eq!(parse_wav_header(&b, 12), Err(WavError::TruncatedChunkSize));
    let mut b = wav_bytes(&[]);
    b.extend_from_slice(b"fmt ");
    b.extend_from_slice(&16u32.to_le_bytes());
    b.extend_from_slice(&[1, 0, 1, 0]);
    assert_eq!(parse_wav_header(&b, 12), Err(WavError::TruncatedFmt));
    let mut b = wav_bytes(&[]);
    b.extend_from_slice(b"JUNK");
    b.extend_from_slice(&10u32.to_le_bytes());
    b.extend_from_slice(&[0; 3]);
    assert_eq!(parse_wav_header(&b, 12), Err(WavError::TruncatedChunk));
    let mut b = wav_bytes(&[]);
    b.extend_from_slice(b"JUNK");
    b.extend_from_slice(&3u32.to_le_bytes());
    b.extend_from_slice(&[0; 3]);
    assert_eq!(parse_wav_header(&b, 12), Err(WavError::TruncatedChunk));
    assert_eq!(skip_bytes(10, 4, 6), Ok(10));
    assert_eq!(skip_bytes(10, 4, 7), Err(WavError::TruncatedChunk));
}

#[test]
fn input_layouts() {
    assert_eq!(open_input(&[]), Err(InputError::Empty));
    assert_eq!(
        open_input(&[1, 2, 3]),
        Ok(InputLayout { wav: None, data_start: 0, data_end: 3 })
    );
    let b = wav_bytes(&[(b"fmt ", fmt_body(1, 1, 8000, 16)), (b"data", vec![5, 0])]);
    let mut longer = b.clone();
    let declared_len_at = longer.len() - 6;
    longer[declared_len_at..declared_len_at + 4].copy_from_slice(&100u32.to_le_bytes());
    let l = open_input(&longer).unwrap();
    assert_eq!(l.data_end, longer.len());
    assert_eq!(
        open_input(b"RIFF\0\0\0\0WAVEjunk"),
        Err(InputError::Wav(WavError::TruncatedChunkSize))
    );
}

#[test]
fn reference_samples() {
    let b = wav_bytes(&[(b"fmt ", fmt_body(1, 1, 8000, 16)), (b"data", vec![5, 0, 0xff, 0xff])]);
    assert_eq!(load_reference_samples(&b, 8000), Ok(vec![5, -1]));
    assert_eq!(
        load_reference_samples(&b, 16000),
        Err(ReferenceError::RateMismatch { reference: 8000, expected: 16000 })
    );
    assert_eq!(load_reference_samples(&[3, 0, 4], 16000), Ok(vec![3]));
    assert_eq!(
        load_reference_samples(&[], 16000),
        Err(ReferenceError::Input(InputError::Empty))
    );
}

#[test]
fn silk_headers() {
    assert_eq!(silk_header(false), b"#!SILK_V3".to_vec());
    assert_eq!(silk_header(true), b"\x02#!SILK_V3".to_vec());
    assert_eq!(check_silk_header(b"#!SILK_V3\xff\xff"), Ok(9));
    assert_eq!(check_silk_header(b"\x02#!SILK_V3"), Ok(10));
    assert_eq!(check_silk_header(b"X!SILK_V3\xff\xff"), Err(ContainerError::InvalidHeader));
    assert_eq!(check_silk_header(b"\x02X!SILK_V3"), Err(ContainerError::InvalidHeader));
    assert_eq!(check_silk_header(b"#!SILK_V2"), Err(ContainerError::InvalidHeader));
    assert_eq!(check_silk_header(b"\x02#!SILK"), Err(ContainerError::InvalidHeader));
    assert_eq!(check_silk_header(b""), Err(ContainerError::InvalidHeader));
}

#[test]
fn silk_packets() {
    assert_eq!(packet_bytes(3, &[7, 8, 9, 10]), vec![3, 0, 7, 8, 9]);
    assert_eq!(packet_bytes(0, &[7]), vec![0, 0]);
    assert_eq!(end_marker(false), vec![0xff, 0xff]);
    assert_eq!(end_marker(true), Vec::<u8>::new());
    let s = [2u8, 0, 1, 2, 0, 0, 0xff, 0xff, 9];
    assert_eq!(next_packet(&s, 0), Ok(PacketRead::Packet { payload_start: 2, size: 2 }));
    assert_eq!(next_packet(&s, 4), Ok(PacketRead::Packet { payload_start: 6, size: 0 }));
    assert_eq!(next_packet(&s, 6), Ok(PacketRead::End));
    assert_eq!(next_packet(&s, 9), Ok(PacketRead::End));
    assert_eq!(next_packet(&s, 8), Err(ContainerError::TruncatedPacketSize));
    assert_eq!(next_packet(&[5, 0, 1], 0), Err(ContainerError::TruncatedPayload));
}

fn base_args() -> rust_silk::args::EncodeArgs {
    rust_silk::args::EncodeArgs {
        input: "in".to_string(),
        output: "out".to_string(),
        sample_rate: 24_000,
        sample_rate_set: false,
        max_internal_rate: 24_000,
        max_internal_set: false,
        packet_ms: 20,
        bitrate: 25_000,
        loss: 0,
        fec: 0,
        dtx: 0,
        complexity: 2,
        tencent: false,
        stats: false,
        quiet: true,
    }
}

#[test]
fn encoder_settings_rules() {
    let s = encode_settings(&base_args(), None).unwrap();
    assert_eq!((s.packet_size, s.frame_samples), (480, 480));
    let s = encode_settings(&base_args(), Some(48_000)).unwrap();
    assert_eq!((s.sample_rate, s.max_internal_rate), (48_000, 24_000));
    let mut a = base_args();
    a.sample_rate_set = true;
    assert_eq!(
        encode_settings(&a, Some(16_000)),
        Err(EncodeError::WavRateMismatch { given: 24_000, wav: 16_000 })
    );
    let mut a = base_args();
    a.sample_rate = 0;
    assert_eq!(encode_settings(&a, None), Err(EncodeError::SampleRateOutOfRange { rate: 0 }));
    a.sample_rate = 44_100;
    assert_eq!(encode_settings(&a, None), Err(EncodeError::UnsupportedSampleRate { rate: 44_100 }));
    let mut a = base_args();
    a.max_internal_rate = 48_000;
    assert_eq!(encode_settings(&a, None), Err(EncodeError::MaxInternalOutOfRange { rate: 48_000 }));
    a.max_internal_rate = 11_025;
    assert_eq!(encode_settings(&a, None), Err(EncodeError::UnsupportedMaxInternal { rate: 11_025 }));
    let mut a = base_args();
    a.packet_ms = 30;
    assert_eq!(encode_settings(&a, None), Err(EncodeError::PacketMsNotMultiple { packet_ms: 30 }));
    a.packet_ms = -30;
    assert_eq!(encode_settings(&a, None), Err(EncodeError::PacketMsNotMultiple { packet_ms: -30 }));
    a.packet_ms = 120;
    assert_eq!(encode_settings(&a, None), Err(EncodeError::PacketMsOutOfRange { packet_ms: 120 }));
    a.packet_ms = 0;
    assert_eq!(encode_settings(&a, None), Err(EncodeError::PacketMsOutOfRange { packet_ms: 0 }));
    a.packet_ms = 100;
    assert_eq!(encode_settings(&a, None).unwrap().packet_size, 2400);
}

#[test]
fn pacer_writes_every_third_frame_at_60ms() {
    let mut a = base_args();
    a.packet_ms = 60;
    a.sample_rate = 16_000;
    let s = encode_settings(&a, None).unwrap();
    let mut p = PacketPacer::new(&s);
    let pattern: Vec<bool> = (0..9).map(|_| p.on_frame()).collect();
    assert_eq!(pattern, vec![false, false, true, false, false, true, false, false, true]);
}

#[test]
fn frames_are_zero_padded() {
    let data = [1u8, 0, 2, 0, 3];
    let (samples, read) = pcm_frame(&data, 0, 5, 4);
    assert_eq!(read, 5);
    assert_eq!(samples, vec![1, 2, 3, 0]);
    let (samples, read) = pcm_frame(&data, 0, 5, 2);
    assert_eq!(read, 4);
    assert_eq!(samples, vec![1, 2]);
}

#[test]
fn encode_session_counts_bytes() {
    let s = encode_settings(&base_args(), None).unwrap();
    let (mut session, header) = EncodeSession::start(&s);
    assert_eq!(header, b"#!SILK_V3".to_vec());
    let input = vec![0u8; 960 + 10];
    let (frame, next) = session.next_frame(&input, 0, input.len()).unwrap();
    assert_eq!((frame.len(), next), (480, 960));
    let bytes = session.frame_encoded(3, &[4, 5, 6, 7]).unwrap();
    assert_eq!(bytes, vec![3, 0, 4, 5, 6]);
    let (_, next) = session.next_frame(&input, next, input.len()).unwrap();
    assert_eq!(next, 970);
    assert!(session.next_frame(&input, next, input.len()).is_none());
    assert_eq!(session.stats.input_samples, 485);
    let end = session.finish();
    assert_eq!(end, vec![0xff, 0xff]);
    assert_eq!(session.stats.encoded_bytes, 9 + 5 + 2);
    assert_eq!(session.stats.packets, 1);
}

#[test]
fn decode_checks() {
    assert_eq!(check_decode_rate(24_000), Ok(()));
    assert_eq!(check_decode_rate(-1), Err(DecodeError::SampleRateOutOfRange { rate: -1 }));
    assert_eq!(check_decode_rate(96_000), Err(DecodeError::SampleRateOutOfRange { rate: 96_000 }));
    assert_eq!(check_decode_rate(22_050), Err(DecodeError::UnsupportedSampleRate { rate: 22_050 }));
    assert_eq!(check_silk_input(&[]), Err(DecodeError::Input(InputError::Empty)));
    let wav = wav_bytes(&[(b"fmt ", fmt_body(1, 1, 8000, 16)), (b"data", vec![])]);
    assert_eq!(check_silk_input(&wav), Err(DecodeError::WavInput));
    assert_eq!(check_silk_input(b"#!SILK_V3"), Ok(()));
    assert_eq!(frame_samples_at(48_000), 960);
    assert_eq!(lost_frame_count(0), 1);
    assert_eq!(lost_frame_count(3), 3);
}

#[test]
fn coded_frame_actions() {
    let ok = coded_frame_action(TolerantMode::Off, 0, 480, 2880, 0, 0, 480);
    assert_eq!(
        ok,
        FrameAction { write_output: true, samples: 480, silence_samples: 0, frames: 1, next: FrameNext::EndPacket }
    );
    let more = coded_frame_action(TolerantMode::Off, 0, 480, 2880, 0, 1, 480);
    assert_eq!(more.next, FrameNext::Continue);
    let fail = coded_frame_action(TolerantMode::Off, -3, 0, 2880, 0, 0, 480);
    assert_eq!(fail.next, FrameNext::Fail(DecodeError::DecodeFailed { code: -3 }));
    assert!(!fail.write_output);
    let skip = coded_frame_action(TolerantMode::Skip, -3, 0, 2880, 0, 0, 480);
    assert_eq!(
        skip,
        FrameAction { write_output: false, samples: 0, silence_samples: 0, frames: 0, next: FrameNext::EndPacket }
    );
    let silence = coded_frame_action(TolerantMode::Silence, 0, -1, 2880, 0, 0, 480);
    assert_eq!(
        silence,
        FrameAction { write_output: false, samples: 0, silence_samples: 480, frames: 1, next: FrameNext::EndPacket }
    );
    let big = coded_frame_action(TolerantMode::Off, 0, 3000, 2880, 0, 0, 480);
    assert_eq!(big.next, FrameNext::Fail(DecodeError::FrameTooLarge));
    let many = coded_frame_action(TolerantMode::Off, 0, 480, 2880, 5, 1, 480);
    assert!(many.write_output);
    assert_eq!(many.next, FrameNext::Fail(DecodeError::TooManyFrames));
    let many = coded_frame_action(TolerantMode::Silence, 0, 480, 2880, 5, 1, 480);
    assert_eq!((many.silence_samples, many.frames, many.next), (480, 2, FrameNext::EndPacket));
}

#[test]
fn lost_frame_actions() {
    let a = lost_frame_action(TolerantMode::Silence, 1, 0, 2880, 1, 4, 320);
    assert_eq!(
        a,
        FrameAction { write_output: false, samples: 0, silence_samples: 960, frames: 3, next: FrameNext::EndPacket }
    );
    let a = lost_frame_action(TolerantMode::Skip, 1, 0, 2880, 1, 4, 320);
    assert_eq!(a.next, FrameNext::Continue);
    let a = lost_frame_action(TolerantMode::Skip, 1, 0, 2880, 3, 4, 320);
    assert_eq!(a.next, FrameNext::EndPacket);
    let a = lost_frame_action(TolerantMode::Off, 0, 320, 2880, 0, 2, 320);
    assert_eq!(
        a,
        FrameAction { write_output: true, samples: 320, silence_samples: 0, frames: 1, next: FrameNext::Continue }
    );
    let a = lost_frame_action(TolerantMode::Off, 0, -5, 2880, 0, 2, 320);
    assert_eq!(a.next, FrameNext::Fail(DecodeError::FrameTooLarge));
}

#[test]
fn output_sink_counts() {
    assert_eq!(
        OutputSink::new("-", 24_000, true, false, None).err(),
        Some(DecodeError::WavToStdout)
    );
    assert_eq!(
        OutputSink::new("-", 24_000, false, false, None).map(|r| (r.1, r.2.len())).ok(),
        Some((true, 0))
    );
    let (mut sink, stdout, header) =
        OutputSink::new("out.WAV", 16_000, false, true, Some(vec![3, 4, 5])).unwrap();
    assert!(!stdout);
    assert_eq!(header, write_wav_header(16_000, 0));
    let bytes = sink.write_samples(&[1, -2, 9], 2);
    assert_eq!(bytes, vec![1, 0, 0xfe, 0xff]);
    let silence = sink.write_silence(2);
    assert_eq!(silence, vec![0, 0, 0, 0]);
    sink.record_frames(2);
    sink.record_packet(10);
    let st = sink.stats.as_ref().unwrap();
    assert_eq!(st.samples, 4);
    assert_eq!(st.energy, 1 + 4);
    assert_eq!(st.ref_energy, 9 + 16 + 25);
    assert_eq!(st.noise_energy, 4 + 36 + 25);
    assert_eq!(st.ref_pos, 3);
    assert_eq!((st.frames, st.packets, st.bytes), (2, 1, 12));
    assert_eq!(sink.wav, Some(WavState { data_len: 8, sample_rate: 16_000 }));
    assert_eq!(sink.finalize(), Some(write_wav_header(16_000, 8)));
}

#[test]
fn output_sink_applies_actions() {
    let (mut sink, _, _) = OutputSink::new("out.pcm", 8_000, false, true, None).unwrap();
    let out = vec![7i16; 10];
    let action = FrameAction {
        write_output: true,
        samples: 2,
        silence_samples: 1,
        frames: 2,
        next: FrameNext::EndPacket,
    };
    assert_eq!(sink.apply(&action, &out), vec![7, 0, 7, 0, 0, 0]);
    let st = sink.stats.as_ref().unwrap();
    assert_eq!((st.samples, st.frames, st.energy), (3, 2, 98));
    assert!(sink.wav.is_none());
    assert_eq!(sink.finalize(), None);
}

#[test]
fn error_messages() {
    assert_eq!(
        encode_error_message(EncodeError::WavRateMismatch { given: 24_000, wav: 16_000 }),
        "sample-rate (24000) does not match WAV (16000)"
    );
    assert_eq!(
        encode_error_message(EncodeError::PacketMsOutOfRange { packet_ms: 120 }),
        "packet-ms out of range (20-100): 120"
    );
    assert_eq!(
        encode_error_message(EncodeError::UnsupportedSampleRate { rate: 44_100 }),
        "sample-rate must be one of 8000, 12000, 16000, 24000, 48000: 44100"
    );
    assert_eq!(wav_error_message(WavError::NotMono), "wav: only mono is supported");
    assert_eq!(input_error_message(InputError::Empty), "empty input");
    assert_eq!(
        reference_error_message(ReferenceError::RateMismatch { reference: 8000, expected: 16000 }),
        "reference sample-rate mismatch: 8000 vs 16000"
    );
    assert_eq!(
        decode_error_message(DecodeError::DecodeFailed { code: -7 }),
        "decode failed: -7"
    );
    assert_eq!(
        decode_error_message(DecodeError::Container(ContainerError::TruncatedPayload)),
        "truncated payload"
    );
    assert_eq!(
        decode_error_message(DecodeError::SampleRateOutOfRange { rate: 0 }),
        "sample-rate out of range (8000-48000): 0"
    );
    assert_eq!(decode_error_message(DecodeError::WavInput), "input appears to be WAV; expected silk");
}

#[test]
fn decode_session_tolerant_lost_packet() {
    let (sink, _, _) = OutputSink::new("out.pcm", 8_000, false, true, None).unwrap();
    // A 20 ms packet of two samples, an empty (lost) packet, the end marker.
    let silk = b"#!SILK_V3\x04\x00\x01\x00\x02\x00\x00\x00\xff\xff".to_vec();
    let mut session = DecodeSession::new(sink, TolerantMode::Silence, 160, 9);
    let out = vec![5i16; 2880];
    assert_eq!(
        session.start_packet(&silk, 1),
        Ok(rust_silk::decoder::DecodeRequest::Packet { payload_start: 11, size: 4 })
    );
    assert_eq!(session.phase, DecodePhase::Coded { frames_done: 0 });
    let (bytes, next) = session.frame_done(0, 2, &out, 1);
    assert_eq!(bytes, vec![5, 0, 5, 0]);
    assert_eq!(next, Ok(true));
    let (bytes, next) = session.frame_done(-1, 0, &out, 0);
    assert_eq!(bytes.len(), 320);
    assert_eq!(next, Ok(false));
    assert_eq!(session.packets, 1);
    assert_eq!(
        session.start_packet(&silk, 3),
        Ok(rust_silk::decoder::DecodeRequest::Packet { payload_start: 17, size: 0 })
    );
    assert_eq!(session.phase, DecodePhase::Lost { frame_idx: 0, frames: 3 });
    let (bytes, next) = session.frame_done(0, 160, &out, 0);
    assert_eq!((bytes.len(), next), (320, Ok(true)));
    let (bytes, next) = session.frame_done(7, 0, &out, 0);
    assert_eq!((bytes.len(), next), (640, Ok(false)));
    assert_eq!(session.start_packet(&silk, 3), Ok(rust_silk::decoder::DecodeRequest::Finished));
    let st = session.sink.stats.as_ref().unwrap();
    assert_eq!((st.packets, st.frames, st.samples, st.bytes), (2, 5, 2 + 160 + 160 + 320, 8));
}

#[test]
fn decode_session_off_mode_fails() {
    let (sink, _, _) = OutputSink::new("out.pcm", 8_000, false, false, None).unwrap();
    let silk = b"#!SILK_V3\x02\x00\x01\x00".to_vec();
    let mut session = DecodeSession::new(sink, TolerantMode::Off, 160, 9);
    assert!(session.start_packet(&silk, 1).is_ok());
    let out = vec![0i16; 2880];
    let (bytes, next) = session.frame_done(-2, 0, &out, 0);
    assert!(bytes.is_empty());
    assert_eq!(next, Err(DecodeError::DecodeFailed { code: -2 }));
    let truncated = b"#!SILK_V3\x05\x00\x01".to_vec();
    let (sink, _, _) = OutputSink::new("out.pcm", 8_000, false, false, None).unwrap();
    let mut session = DecodeSession::new(sink, TolerantMode::Off, 160, 9);
    assert_eq!(
        session.start_packet(&truncated, 1),
        Err(DecodeError::Container(ContainerError::TruncatedPayload))
    );
}

#[test]
fn raw_output_accepts_any_rate() {
    let (sink, stdout, header) = OutputSink::new("out.pcm", -5, false, false, None).unwrap();
    assert!(!stdout && header.is_empty() && sink.wav.is_none());
}

#[test]
fn wav_sink_reads_back_after_several_writes() {
    let (mut sink, _, header) = OutputSink::new("out.wav", 12_000, false, false, None).unwrap();
    let mut file = header;
    file.extend_from_slice(&sink.write_samples(&[1, -2, 3, 99], 3));
    file.extend_from_slice(&sink.write_silence(2));
    file.extend_from_slice(&sink.write_samples(&[-7], 1));
    let h = sink.finalize().unwrap();
    file[..44].copy_from_slice(&h);
    let layout = open_input(&file).unwrap();
    assert_eq!(layout.wav, Some(WavInfo { sample_rate: 12_000, channels: 1, bits_per_sample: 16 }));
    assert_eq!(
        read_all_i16(&file[layout.data_start..layout.data_end]),
        vec![1, -2, 3, 0, 0, -7]
    );
}

#[test]
fn wav_and_pcm_inputs_encode_alike() {
    let pcm: Vec<u8> = (0..1000u32).map(|i| (i * 7 % 251) as u8).collect();
    let mut wav = write_wav_header(48_000, pcm.len() as u32);
    wav.extend_from_slice(&pcm);
    let layout = open_input(&wav).unwrap();
    let from_wav = encode_settings(&base_args(), Some(48_000)).unwrap();
    let mut a2 = base_args();
    a2.sample_rate = 48_000;
    a2.sample_rate_set = true;
    a2.max_internal_rate = 24_000;
    a2.max_internal_set = true;
    let from_pcm = encode_settings(&a2, None).unwrap();
    assert_eq!(from_wav, from_pcm);
    assert_eq!(from_wav.max_internal_rate, 24_000);
    let fs = from_wav.frame_samples as usize;
    let (w, wr) = pcm_frame(&wav, layout.data_start, layout.data_end, fs);
    let (p, pr) = pcm_frame(&pcm, 0, pcm.len(), fs);
    assert_eq!((w, wr), (p, pr));
}

#[test]
fn encode_framing_pads_last_frame() {
    let s = encode_settings(&base_args(), None).unwrap();
    let (mut session, _) = EncodeSession::start(&s);
    // 2.5 frames of 480 samples, plus an odd trailing byte.
    let input: Vec<u8> = (0..(960 * 2 + 481) as u32).map(|i| (i % 200) as u8 + 1).collect();
    let mut pos = 0;
    let mut frames = Vec::new();
    let mut packets = 0;
    while let Some((samples, next)) = session.next_frame(&input, pos, input.len()) {
        pos = next;
        frames.push(samples);
        if session.frame_encoded(0, &[]).is_some() {
            packets += 1;
        }
    }
    assert_eq!(frames.len(), 3);
    assert_eq!(packets, 3);
    assert!(frames.iter().all(|f| f.len() == 480));
    let mut padded = input.clone();
    padded.resize(3 * 960, 0);
    let flat: Vec<i16> = frames.concat();
    assert_eq!(flat, read_all_i16(&padded));
    assert_eq!(session.stats.input_samples, 480 + 480 + 240);
}

#[test]
fn path_without_dot_is_not_wav() {
    assert!(!has_wav_extension("wav"));
    assert!(!has_wav_extension("dir/wav"));
}
