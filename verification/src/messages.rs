//! The text of every error the tool reports.

use vstd::prelude::*;
use crate::args::{ArgError, NumericOption};
use crate::container::ContainerError;
use crate::decoder::DecodeError;
use crate::encoder::EncodeError;
use crate::text::{push_decimal, spec_decimal};
use crate::wav::{InputError, ReferenceError, WavError};

verus! {

/// How an option is named in messages.
pub open spec fn spec_option_name(o: NumericOption) -> Seq<char> {
    match o {
        NumericOption::SampleRate => "sample-rate"@,
        NumericOption::MaxInternal => "max-internal"@,
        NumericOption::PacketMs => "packet-ms"@,
        NumericOption::Bitrate => "bitrate"@,
        NumericOption::Loss => "loss"@,
        NumericOption::Fec => "fec"@,
        NumericOption::Dtx => "dtx"@,
        NumericOption::Complexity => "complexity"@,
    }
}

fn option_name(o: NumericOption) -> (r: &'static str)
    ensures
        r@ == spec_option_name(o),
{
    match o {
        NumericOption::SampleRate => "sample-rate",
        NumericOption::MaxInternal => "max-internal",
        NumericOption::PacketMs => "packet-ms",
        NumericOption::Bitrate => "bitrate",
        NumericOption::Loss => "loss",
        NumericOption::Fec => "fec",
        NumericOption::Dtx => "dtx",
        NumericOption::Complexity => "complexity",
    }
}

/// Whether the argument positions an error names lie within `n` arguments.
pub open spec fn spec_arg_error_in_range(e: ArgError, n: int) -> bool {
    match e {
        ArgError::UnknownArg { index } => index < n,
        ArgError::InvalidValue { index, .. } => index < n,
        ArgError::InvalidTolerantMode { index } => index < n,
        _ => true,
    }
}

/// The message for a refused command line.
pub open spec fn spec_arg_error_message(e: ArgError, args: Seq<String>) -> Seq<char> {
    match e {
        ArgError::UnknownArg { index } => "unknown arg: "@ + args[index as int]@,
        ArgError::MissingValue { option } => "missing value for "@ + spec_option_name(option),
        ArgError::InvalidValue { option, index } => "invalid "@ + spec_option_name(option)
            + ": "@ + args[index as int]@,
        ArgError::MissingTolerantValue => "missing value for tolerant"@,
        ArgError::InvalidTolerantMode { index } => "invalid tolerant mode: "@ + args[index as int]@,
        ArgError::MissingReferenceValue => "missing value for reference"@,
        ArgError::MissingInput => "missing --input"@,
        ArgError::MissingOutput => "missing --output"@,
    }
}

/// The message for a refused command line.
pub fn arg_error_message(e: &ArgError, args: &Vec<String>) -> (m: String)
    requires
        spec_arg_error_in_range(*e, args@.len() as int),
    ensures
        m@ == spec_arg_error_message(*e, args@),
{
    match *e {
        ArgError::UnknownArg { index } => {
            let mut m = String::from_str("unknown arg: ");
            m.append(args[index].as_str());
            m
        },
        ArgError::MissingValue { option } => {
            let mut m = String::from_str("missing value for ");
            m.append(option_name(option));
            m
        },
        ArgError::InvalidValue { option, index } => {
            let mut m = String::from_str("invalid ");
            m.append(option_name(option));
            m.append(": ");
            m.append(args[index].as_str());
            m
        },
        ArgError::MissingTolerantValue => String::from_str("missing value for tolerant"),
        ArgError::InvalidTolerantMode { index } => {
            let mut m = String::from_str("invalid tolerant mode: ");
            m.append(args[index].as_str());
            m
        },
        ArgError::MissingReferenceValue => String::from_str("missing value for reference"),
        ArgError::MissingInput => String::from_str("missing --input"),
        ArgError::MissingOutput => String::from_str("missing --output"),
    }
}

/// The message for a refused WAV chunk list.
pub open spec fn spec_wav_error_message(e: WavError) -> Seq<char> {
    match e {
        WavError::MissingChunkHeader => "wav: missing chunk header"@,
        WavError::TruncatedChunkSize => "wav: truncated chunk size"@,
        WavError::FmtTooSmall => "wav: fmt chunk too small"@,
        WavError::TruncatedFmt => "wav: truncated fmt chunk"@,
        WavError::NotPcm => "wav: only PCM format is supported"@,
        WavError::NotMono => "wav: only mono is supported"@,
        WavError::Not16Bit => "wav: only 16-bit PCM supported"@,
        WavError::TruncatedChunk => "wav: truncated chunk"@,
        WavError::MissingFmt => "wav: missing fmt chunk"@,
    }
}

/// The message for a refused WAV chunk list.
pub fn wav_error_message(e: WavError) -> (m: String)
    ensures
        m@ == spec_wav_error_message(e),
{
    match e {
        WavError::MissingChunkHeader => String::from_str("wav: missing chunk header"),
        WavError::TruncatedChunkSize => String::from_str("wav: truncated chunk size"),
        WavError::FmtTooSmall => String::from_str("wav: fmt chunk too small"),
        WavError::TruncatedFmt => String::from_str("wav: truncated fmt chunk"),
        WavError::NotPcm => String::from_str("wav: only PCM format is supported"),
        WavError::NotMono => String::from_str("wav: only mono is supported"),
        WavError::Not16Bit => String::from_str("wav: only 16-bit PCM supported"),
        WavError::TruncatedChunk => String::from_str("wav: truncated chunk"),
        WavError::MissingFmt => String::from_str("wav: missing fmt chunk"),
    }
}

/// The message for a refused input stream.
pub open spec fn spec_input_error_message(e: InputError) -> Seq<char> {
    match e {
        InputError::Empty => "empty input"@,
        InputError::Wav(w) => spec_wav_error_message(w),
    }
}

/// The message for a refused input stream.
pub fn input_error_message(e: InputError) -> (m: String)
    ensures
        m@ == spec_input_error_message(e),
{
    match e {
        InputError::Empty => String::from_str("empty input"),
        InputError::Wav(w) => wav_error_message(w),
    }
}

/// The message for a refused reference stream.
pub open spec fn spec_reference_error_message(e: ReferenceError) -> Seq<char> {
    match e {
        ReferenceError::Input(i) => spec_input_error_message(i),
        ReferenceError::NotMono16 => "reference wav must be mono 16-bit"@,
        ReferenceError::RateMismatch { reference, expected } => "reference sample-rate mismatch: "@
            + spec_decimal(reference as int) + " vs "@ + spec_decimal(expected as int),
    }
}

/// The message for a refused reference stream.
pub fn reference_error_message(e: ReferenceError) -> (m: String)
    ensures
        m@ == spec_reference_error_message(e),
{
    match e {
        ReferenceError::Input(i) => input_error_message(i),
        ReferenceError::NotMono16 => String::from_str("reference wav must be mono 16-bit"),
        ReferenceError::RateMismatch { reference, expected } => {
            let mut m = String::from_str("reference sample-rate mismatch: ");
            push_decimal(&mut m, reference as i64);
            m.append(" vs ");
            push_decimal(&mut m, expected as i64);
            m
        },
    }
}

/// The message for refused encoder settings.
pub open spec fn spec_encode_error_message(e: EncodeError) -> Seq<char> {
    match e {
        EncodeError::WavRateMismatch { given, wav } => "sample-rate ("@ + spec_decimal(given as int)
            + ") does not match WAV ("@ + spec_decimal(wav as int) + ")"@,
        EncodeError::SampleRateOutOfRange { rate } => "sample-rate out of range (8000-48000): "@
            + spec_decimal(rate as int),
        EncodeError::UnsupportedSampleRate { rate } =>
            "sample-rate must be one of 8000, 12000, 16000, 24000, 48000: "@ + spec_decimal(
            rate as int,
        ),
        EncodeError::MaxInternalOutOfRange { rate } => "max-internal out of range (8000-24000): "@
            + spec_decimal(rate as int),
        EncodeError::UnsupportedMaxInternal { rate } =>
            "max-internal must be one of 8000, 12000, 16000, 24000: "@ + spec_decimal(rate as int),
        EncodeError::PacketMsNotMultiple { packet_ms } => "packet-ms must be multiple of 20: "@
            + spec_decimal(packet_ms as int),
        EncodeError::PacketMsOutOfRange { packet_ms } => "packet-ms out of range (20-100): "@
            + spec_decimal(packet_ms as int),
    }
}

fn with_number(prefix: &str, n: i32) -> (m: String)
    ensures
        m@ == prefix@ + spec_decimal(n as int),
{
    let mut m = String::from_str(prefix);
    push_decimal(&mut m, n as i64);
    m
}

/// The message for refused encoder settings.
pub fn encode_error_message(e: EncodeError) -> (m: String)
    ensures
        m@ == spec_encode_error_message(e),
{
    match e {
        EncodeError::WavRateMismatch { given, wav } => {
            let mut m = with_number("sample-rate (", given);
            m.append(") does not match WAV (");
            push_decimal(&mut m, wav as i64);
            m.append(")");
            m
        },
        EncodeError::SampleRateOutOfRange { rate } => with_number(
            "sample-rate out of range (8000-48000): ",
            rate,
        ),
        EncodeError::UnsupportedSampleRate { rate } => with_number(
            "sample-rate must be one of 8000, 12000, 16000, 24000, 48000: ",
            rate,
        ),
        EncodeError::MaxInternalOutOfRange { rate } => with_number(
            "max-internal out of range (8000-24000): ",
            rate,
        ),
        EncodeError::UnsupportedMaxInternal { rate } => with_number(
            "max-internal must be one of 8000, 12000, 16000, 24000: ",
            rate,
        ),
        EncodeError::PacketMsNotMultiple { packet_ms } => with_number(
            "packet-ms must be multiple of 20: ",
            packet_ms,
        ),
        EncodeError::PacketMsOutOfRange { packet_ms } => with_number(
            "packet-ms out of range (20-100): ",
            packet_ms,
        ),
    }
}

/// The message for a malformed SILK stream.
pub open spec fn spec_container_error_message(e: ContainerError) -> Seq<char> {
    match e {
        ContainerError::InvalidHeader => "invalid silk header"@,
        ContainerError::TruncatedPacketSize => "truncated packet size"@,
        ContainerError::TruncatedPayload => "truncated payload"@,
    }
}

/// The message for a decoding run that stops with an error.
pub open spec fn spec_decode_error_message(e: DecodeError) -> Seq<char> {
    match e {
        DecodeError::SampleRateOutOfRange { rate } => "sample-rate out of range (8000-48000): "@
            + spec_decimal(rate as int),
        DecodeError::UnsupportedSampleRate { rate } =>
            "sample-rate must be one of 8000, 12000, 16000, 24000, 48000: "@ + spec_decimal(
            rate as int,
        ),
        DecodeError::Input(i) => spec_input_error_message(i),
        DecodeError::WavInput => "input appears to be WAV; expected silk"@,
        DecodeError::Reference(r) => spec_reference_error_message(r),
        DecodeError::WavToStdout => "cannot write WAV to stdout"@,
        DecodeError::Container(c) => spec_container_error_message(c),
        DecodeError::DecodeFailed { code } => "decode failed: "@ + spec_decimal(code as int),
        DecodeError::FrameTooLarge => "decode frame too large"@,
        DecodeError::TooManyFrames => "too many frames in packet"@,
    }
}

/// The message for a decoding run that stops with an error.
pub fn decode_error_message(e: DecodeError) -> (m: String)
    ensures
        m@ == spec_decode_error_message(e),
{
    match e {
        DecodeError::SampleRateOutOfRange { rate } => with_number(
            "sample-rate out of range (8000-48000): ",
            rate,
        ),
        DecodeError::UnsupportedSampleRate { rate } => with_number(
            "sample-rate must be one of 8000, 12000, 16000, 24000, 48000: ",
            rate,
        ),
        DecodeError::Input(i) => input_error_message(i),
        DecodeError::WavInput => String::from_str("input appears to be WAV; expected silk"),
        DecodeError::Reference(r) => reference_error_message(r),
        DecodeError::WavToStdout => String::from_str("cannot write WAV to stdout"),
        DecodeError::Container(c) => match c {
            ContainerError::InvalidHeader => String::from_str("invalid silk header"),
            ContainerError::TruncatedPacketSize => String::from_str("truncated packet size"),
            ContainerError::TruncatedPayload => String::from_str("truncated payload"),
        },
        DecodeError::DecodeFailed { code } => with_number("decode failed: ", code),
        DecodeError::FrameTooLarge => String::from_str("decode frame too large"),
        DecodeError::TooManyFrames => String::from_str("too many frames in packet"),
    }
}

} // verus!
