//! End-to-end runs of the encode and decode flows, with a pass-through
//! stand-in for the codec: each frame's samples travel as the packet
//! payload and come back as the decoded frame.

use rust_silk::args::{parse_encode_args, DecodeArgs, EncodeArgs, Parsed, TolerantMode};
use rust_silk::container::check_silk_header;
use rust_silk::decoder::{
    check_decode_rate, check_silk_input, frame_samples_at, DecodeRequest, DecodeSession,
    OutputSink, MAX_FRAME_SAMPLES,
};
use rust_silk::encoder::{encode_settings, EncodeSession};
use rust_silk::pcm::{read_all_i16, samples_to_le_bytes};
use rust_silk::wav::{open_input, write_wav_header};

fn sine(sample_rate: i32, seconds: f64) -> Vec<i16> {
    let samples = (sample_rate as f64 * seconds) as usize;
    let mut data = Vec::with_capacity(samples);
    for i in 0..samples {
        let t = i as f64 / sample_rate as f64;
        data.push((10_000.0f64 * (2.0 * std::f64::consts::PI * 440.0 * t).sin()) as i16);
    }
    data
}

fn pcm_bytes(samples: &[i16]) -> Vec<u8> {
    samples_to_le_bytes(samples)
}

/// Runs the encode flow on `input` and returns the SILK stream.
fn encode(args: &EncodeArgs, input: &[u8]) -> Vec<u8> {
    let layout = open_input(input).expect("open input");
    let wav_rate = layout.wav.map(|w| w.sample_rate);
    let settings = encode_settings(args, wav_rate).expect("settings");
    let (mut session, header) = EncodeSession::start(&settings);
    let mut out = header;
    let mut pos = layout.data_start;
    while let Some((samples, next)) = session.next_frame(input, pos, layout.data_end) {
        pos = next;
        let payload = pcm_bytes(&samples);
        let n_bytes = payload.len() as i16;
        if let Some(bytes) = session.frame_encoded(n_bytes, &payload) {
            out.extend_from_slice(&bytes);
        }
    }
    let end = session.finish();
    out.extend_from_slice(&end);
    assert_eq!(session.stats.encoded_bytes, out.len() as u64);
    out
}

/// Runs the decode flow on a SILK stream and returns the PCM output.
fn decode(args: &DecodeArgs, silk: &[u8]) -> Vec<u8> {
    check_decode_rate(args.sample_rate).expect("rate");
    check_silk_input(silk).expect("silk input");
    let (sink, _stdout, header) =
        OutputSink::new(&args.output, args.sample_rate, args.wav, args.stats, None)
            .expect("sink");
    let mut out = header;
    let start = check_silk_header(silk).expect("header");
    let frame_samples = frame_samples_at(args.sample_rate);
    let mut session = DecodeSession::new(sink, args.tolerant, frame_samples, start);
    loop {
        match session.start_packet(silk, 1).expect("packet") {
            DecodeRequest::Finished => break,
            DecodeRequest::Packet { payload_start, size } => {
                let decoded = read_all_i16(&silk[payload_start..payload_start + size]);
                let mut frame_out = vec![0i16; MAX_FRAME_SAMPLES];
                frame_out[..decoded.len()].copy_from_slice(&decoded);
                let out_len = decoded.len() as i16;
                let action = session.frame_action(0, out_len, frame_out.len(), 0);
                assert!(session.sink.has_room(&action, frame_out.len()));
                let (bytes, next) = session.frame_done(0, out_len, &frame_out, 0);
                assert_eq!(next, Ok(false));
                out.extend_from_slice(&bytes);
            }
        }
    }
    if let Some(h) = session.sink.finalize() {
        out[..44].copy_from_slice(&h);
    }
    out
}

fn encode_args(input: &str, output: &str, sample_rate: i32, tencent: bool) -> EncodeArgs {
    EncodeArgs {
        input: input.to_string(),
        output: output.to_string(),
        sample_rate,
        sample_rate_set: true,
        max_internal_rate: sample_rate,
        max_internal_set: true,
        packet_ms: 20,
        bitrate: 25_000,
        loss: 0,
        fec: 0,
        dtx: 0,
        complexity: 2,
        tencent,
        stats: false,
        quiet: true,
    }
}

fn decode_args(input: &str, output: &str, sample_rate: i32) -> DecodeArgs {
    DecodeArgs {
        input: input.to_string(),
        output: output.to_string(),
        sample_rate,
        wav: false,
        tolerant: TolerantMode::Off,
        stats: false,
        reference: None,
        quiet: true,
    }
}

fn assert_roundtrip(tencent: bool) {
    let sample_rate = 24_000;
    let input_samples = sine(sample_rate, 1.0);
    let enc = encode_args("input.pcm", "audio.silk", sample_rate, tencent);
    let silk = encode(&enc, &pcm_bytes(&input_samples));
    if tencent {
        assert_eq!(silk[0], 0x02);
        assert_eq!(&silk[1..10], b"#!SILK_V3");
    } else {
        assert_eq!(&silk[0..9], b"#!SILK_V3");
        assert_eq!(&silk[silk.len() - 2..], &[0xff, 0xff]);
    }
    let dec = decode_args("audio.silk", "output.pcm", sample_rate);
    let output_samples = read_all_i16(&decode(&dec, &silk));
    assert_eq!(output_samples.len(), input_samples.len(), "decoded length mismatch");
    let in_energy: f64 = input_samples.iter().map(|s| (*s as f64) * (*s as f64)).sum();
    let out_energy: f64 = output_samples.iter().map(|s| (*s as f64) * (*s as f64)).sum();
    assert!(out_energy > 0.0, "decoded audio is silent");
    let ratio = out_energy / in_energy.max(1.0);
    assert!(ratio > 0.01, "decoded energy too low: {ratio}");
}

#[test]
fn roundtrip_default_header() {
    assert_roundtrip(false);
}

#[test]
fn roundtrip_tencent_header() {
    assert_roundtrip(true);
}

#[test]
fn roundtrip_wav_input() {
    let sample_rate = 16_000;
    let input_samples = sine(sample_rate, 1.0);
    let mut wav = write_wav_header(sample_rate as u32, (input_samples.len() * 2) as u32);
    wav.extend_from_slice(&pcm_bytes(&input_samples));

    let mut enc = encode_args("input.wav", "audio.silk", 24_000, false);
    enc.sample_rate_set = false;
    enc.max_internal_rate = 24_000;
    enc.max_internal_set = false;
    let silk = encode(&enc, &wav);

    let dec = decode_args("audio.silk", "output.pcm", sample_rate);
    let output_samples = read_all_i16(&decode(&dec, &silk));
    assert_eq!(
        output_samples.len(),
        input_samples.len(),
        "decoded length mismatch for wav input"
    );
}

#[test]
fn roundtrip_48k_input_uses_24k_internal_rate() {
    let sample_rate = 48_000;
    let input_samples = sine(sample_rate, 0.2);
    let args = vec![
        "--input".to_string(),
        "input.pcm".to_string(),
        "--output".to_string(),
        "audio.silk".to_string(),
        "--sample-rate".to_string(),
        sample_rate.to_string(),
        "--quiet".to_string(),
    ];
    let enc = match parse_encode_args(&args).expect("parse 48k encode args") {
        Parsed::Run(a) => a,
        Parsed::Help => panic!("parse 48k encode args"),
    };
    assert_eq!(enc.max_internal_rate, 24_000);

    let silk = encode(&enc, &pcm_bytes(&input_samples));
    let dec = decode_args("audio.silk", "output.pcm", sample_rate);
    let output_samples = read_all_i16(&decode(&dec, &silk));
    assert_eq!(
        output_samples.len(),
        input_samples.len(),
        "decoded length mismatch for 48k input"
    );
}

#[test]
fn wav_reader_stops_at_data_chunk_boundary() {
    let sample_rate = 24_000;
    let expected_samples = sine(sample_rate, 0.1);
    let chunk_id = *b"JUNK";
    let payload = b"ABCD";
    let data_len = (expected_samples.len() * 2) as u32;
    let padded_payload_len = payload.len() + (payload.len() % 2);
    let riff_size = 36u32 + data_len + 8u32 + padded_payload_len as u32;
    let mut bytes = Vec::with_capacity(riff_size as usize + 8);
    bytes.extend_from_slice(b"RIFF");
    bytes.extend_from_slice(&riff_size.to_le_bytes());
    bytes.extend_from_slice(b"WAVE");
    bytes.extend_from_slice(b"fmt ");
    bytes.extend_from_slice(&16u32.to_le_bytes());
    bytes.extend_from_slice(&1u16.to_le_bytes());
    bytes.extend_from_slice(&1u16.to_le_bytes());
    bytes.extend_from_slice(&(sample_rate as u32).to_le_bytes());
    bytes.extend_from_slice(&((sample_rate as u32) * 2).to_le_bytes());
    bytes.extend_from_slice(&2u16.to_le_bytes());
    bytes.extend_from_slice(&16u16.to_le_bytes());
    bytes.extend_from_slice(b"data");
    bytes.extend_from_slice(&data_len.to_le_bytes());
    for sample in &expected_samples {
        bytes.extend_from_slice(&sample.to_le_bytes());
    }
    bytes.extend_from_slice(&chunk_id);
    bytes.extend_from_slice(&(payload.len() as u32).to_le_bytes());
    bytes.extend_from_slice(payload);
    if payload.len() % 2 == 1 {
        bytes.push(0);
    }

    let input = open_input(&bytes).expect("open wav");
    assert!(input.wav.is_some(), "expected WAV metadata");
    let actual_samples = read_all_i16(&bytes[input.data_start..input.data_end]);
    assert_eq!(
        actual_samples, expected_samples,
        "reader must stop at declared data chunk length"
    );
}
