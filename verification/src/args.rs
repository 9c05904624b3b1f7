//! Command-line options of the `encode` and `decode` commands.

use vstd::prelude::*;
use crate::rates::{default_max_internal_rate, spec_default_max_internal_rate};
use crate::text::{parse_decimal_i32, spec_is_digit, spec_parse_i32, str_eq};

verus! {

/// How the decoder treats a packet the codec cannot decode.
#[derive(Clone, Copy, Debug, PartialEq, Eq)]
pub enum TolerantMode {
    /// Fail the whole run.
    Off,
    /// Drop the broken frames.
    Skip,
    /// Write silence in place of the broken frames.
    Silence,
}

/// The options that take an integer value.
#[derive(Clone, Copy, Debug, PartialEq, Eq)]
pub enum NumericOption {
    SampleRate,
    MaxInternal,
    PacketMs,
    Bitrate,
    Loss,
    Fec,
    Dtx,
    Complexity,
}

/// Reasons a command line is refused; `index` is the position, in the
/// argument list given to the parser, of the offending argument.
#[derive(Clone, Copy, Debug, PartialEq, Eq)]
pub enum ArgError {
    UnknownArg { index: usize },
    MissingValue { option: NumericOption },
    InvalidValue { option: NumericOption, index: usize },
    MissingTolerantValue,
    InvalidTolerantMode { index: usize },
    MissingReferenceValue,
    MissingInput,
    MissingOutput,
}

/// What a command line asks for: the help text, or a run.
#[derive(Clone, Debug, PartialEq, Eq)]
pub enum Parsed<T> {
    Help,
    Run(T),
}

/// Options of the `encode` command.
#[derive(Clone, Debug, PartialEq, Eq)]
pub struct EncodeArgs {
    pub input: String,
    pub output: String,
    pub sample_rate: i32,
    pub sample_rate_set: bool,
    pub max_internal_rate: i32,
    pub max_internal_set: bool,
    pub packet_ms: i32,
    pub bitrate: i32,
    pub loss: i32,
    pub fec: i32,
    pub dtx: i32,
    pub complexity: i32,
    pub tencent: bool,
    pub stats: bool,
    pub quiet: bool,
}

/// Options of the `decode` command.
#[derive(Clone, Debug, PartialEq, Eq)]
pub struct DecodeArgs {
    pub input: String,
    pub output: String,
    pub sample_rate: i32,
    pub wav: bool,
    pub tolerant: TolerantMode,
    pub stats: bool,
    pub reference: Option<String>,
    pub quiet: bool,
}

/// `encode` options gathered so far.
#[derive(Debug, PartialEq, Eq)]
pub struct EncodeDraft {
    pub input: Option<String>,
    pub output: Option<String>,
    pub sample_rate: i32,
    pub sample_rate_set: bool,
    pub max_internal_rate: i32,
    pub max_internal_set: bool,
    pub packet_ms: i32,
    pub bitrate: i32,
    pub loss: i32,
    pub fec: i32,
    pub dtx: i32,
    pub complexity: i32,
    pub tencent: bool,
    pub stats: bool,
    pub quiet: bool,
}

/// `decode` options gathered so far.
#[derive(Debug, PartialEq, Eq)]
pub struct DecodeDraft {
    pub input: Option<String>,
    pub output: Option<String>,
    pub sample_rate: i32,
    pub wav: bool,
    pub tolerant: TolerantMode,
    pub stats: bool,
    pub reference: Option<String>,
    pub quiet: bool,
}

/// The `encode` defaults.
pub open spec fn spec_encode_defaults() -> EncodeDraft {
    EncodeDraft {
        input: None,
        output: None,
        sample_rate: 24_000,
        sample_rate_set: false,
        max_internal_rate: 24_000,
        max_internal_set: false,
        packet_ms: 20,
        bitrate: 25_000,
        loss: 0,
        fec: 0,
        dtx: 0,
        complexity: 2,
        tencent: false,
        stats: false,
        quiet: false,
    }
}

/// The `decode` defaults.
pub open spec fn spec_decode_defaults() -> DecodeDraft {
    DecodeDraft {
        input: None,
        output: None,
        sample_rate: 24_000,
        wav: false,
        tolerant: TolerantMode::Off,
        stats: false,
        reference: None,
        quiet: false,
    }
}

/// The argument after `i`, if there is one.
pub open spec fn spec_value_after(args: Seq<String>, i: int) -> Option<String> {
    if i + 1 < args.len() {
        Some(args[i + 1])
    } else {
        None
    }
}

/// Where parsing goes on after an option at `i` that takes a value.
pub open spec fn spec_skip_value(args: Seq<String>, i: int) -> int {
    if i + 1 < args.len() {
        i + 2
    } else {
        i + 1
    }
}

/// The integer value at `index` for `option`.
pub open spec fn spec_parse_i32_arg(args: Seq<String>, index: int, option: NumericOption) -> Result<
    i32,
    ArgError,
> {
    if index < 0 || index >= args.len() {
        Err(ArgError::MissingValue { option })
    } else {
        match spec_parse_i32(args[index]@) {
            Some(v) => Ok(v),
            None => Err(ArgError::InvalidValue { option, index: index as usize }),
        }
    }
}

/// Whether `a` is one of two option spellings.
pub open spec fn spec_is_either(a: Seq<char>, s1: Seq<char>, s2: Seq<char>) -> bool {
    a == s1 || a == s2
}

/// The draft once a numeric option at `i` with value `v` is taken.
pub open spec fn spec_encode_set(d: EncodeDraft, option: NumericOption, v: i32) -> EncodeDraft {
    match option {
        NumericOption::SampleRate => EncodeDraft {
            sample_rate: v,
            sample_rate_set: true,
            max_internal_rate: if !d.max_internal_set {
                spec_default_max_internal_rate(v as int) as i32
            } else {
                d.max_internal_rate
            },
            ..d
        },
        NumericOption::MaxInternal => EncodeDraft {
            max_internal_rate: v,
            max_internal_set: true,
            ..d
        },
        NumericOption::PacketMs => EncodeDraft { packet_ms: v, ..d },
        NumericOption::Bitrate => EncodeDraft { bitrate: v, ..d },
        NumericOption::Loss => EncodeDraft { loss: v, ..d },
        NumericOption::Fec => EncodeDraft { fec: v, ..d },
        NumericOption::Dtx => EncodeDraft { dtx: v, ..d },
        NumericOption::Complexity => EncodeDraft { complexity: v, ..d },
    }
}

/// The numeric option an `encode` argument names, if any.
pub open spec fn spec_encode_numeric(a: Seq<char>) -> Option<NumericOption> {
    if spec_is_either(a, "--sample-rate"@, "--fs"@) {
        Some(NumericOption::SampleRate)
    } else if a == "--max-internal"@ {
        Some(NumericOption::MaxInternal)
    } else if a == "--packet-ms"@ {
        Some(NumericOption::PacketMs)
    } else if a == "--bitrate"@ {
        Some(NumericOption::Bitrate)
    } else if a == "--loss"@ {
        Some(NumericOption::Loss)
    } else if a == "--fec"@ {
        Some(NumericOption::Fec)
    } else if a == "--dtx"@ {
        Some(NumericOption::Dtx)
    } else if a == "--complexity"@ {
        Some(NumericOption::Complexity)
    } else {
        None
    }
}

/// The end of an `encode` command line: input and output are required.
pub open spec fn spec_encode_finish(d: EncodeDraft) -> Result<Parsed<EncodeArgs>, ArgError> {
    match d.input {
        None => Err(ArgError::MissingInput),
        Some(input) => match d.output {
            None => Err(ArgError::MissingOutput),
            Some(output) => Ok(
                Parsed::Run(
                    EncodeArgs {
                        input,
                        output,
                        sample_rate: d.sample_rate,
                        sample_rate_set: d.sample_rate_set,
                        max_internal_rate: d.max_internal_rate,
                        max_internal_set: d.max_internal_set,
                        packet_ms: d.packet_ms,
                        bitrate: d.bitrate,
                        loss: d.loss,
                        fec: d.fec,
                        dtx: d.dtx,
                        complexity: d.complexity,
                        tencent: d.tencent,
                        stats: d.stats,
                        quiet: d.quiet,
                    },
                ),
            ),
        },
    }
}

/// The outcome of reading `encode` arguments from position `i` on, with
/// `d` gathered so far. Arguments are taken left to right; a later option
/// overrides an earlier one; `--sample-rate` also moves the internal rate
/// to its default unless `--max-internal` came before; `-h` ends parsing.
pub open spec fn spec_encode_from(args: Seq<String>, i: int, d: EncodeDraft) -> Result<
    Parsed<EncodeArgs>,
    ArgError,
>
    decreases args.len() - i,
{
    if i < 0 || i >= args.len() {
        spec_encode_finish(d)
    } else {
        let a = args[i]@;
        let j = spec_skip_value(args, i);
        if spec_is_either(a, "-i"@, "--input"@) {
            spec_encode_from(args, j, EncodeDraft { input: spec_value_after(args, i), ..d })
        } else if spec_is_either(a, "-o"@, "--output"@) {
            spec_encode_from(args, j, EncodeDraft { output: spec_value_after(args, i), ..d })
        } else if spec_encode_numeric(a) is Some {
            let option = spec_encode_numeric(a)->0;
            match spec_parse_i32_arg(args, i + 1, option) {
                Err(e) => Err(e),
                Ok(v) => spec_encode_from(args, i + 2, spec_encode_set(d, option, v)),
            }
        } else if a == "--tencent"@ {
            spec_encode_from(args, i + 1, EncodeDraft { tencent: true, ..d })
        } else if a == "--stats"@ {
            spec_encode_from(args, i + 1, EncodeDraft { stats: true, ..d })
        } else if a == "--quiet"@ {
            spec_encode_from(args, i + 1, EncodeDraft { quiet: true, ..d })
        } else if spec_is_either(a, "-h"@, "--help"@) {
            Ok(Parsed::Help)
        } else {
            Err(ArgError::UnknownArg { index: i as usize })
        }
    }
}

/// The outcome of an `encode` command line.
pub open spec fn spec_parse_encode_args(args: Seq<String>) -> Result<Parsed<EncodeArgs>, ArgError> {
    spec_encode_from(args, 0, spec_encode_defaults())
}

/// Reads the integer value of `option` at `index` of `args`.
pub fn parse_i32(args: &Vec<String>, index: usize, option: NumericOption) -> (r: Result<
    i32,
    ArgError,
>)
    ensures
        r == spec_parse_i32_arg(args@, index as int, option),
        r matches Err(e) ==> crate::messages::spec_arg_error_in_range(e, args@.len() as int),
{
    if index >= args.len() {
        return Err(ArgError::MissingValue { option });
    }
    match parse_decimal_i32(args[index].as_str()) {
        Some(v) => Ok(v),
        None => Err(ArgError::InvalidValue { option, index }),
    }
}

fn is_either(a: &String, s1: &str, s2: &str) -> (r: bool)
    ensures
        r == spec_is_either(a@, s1@, s2@),
{
    str_eq(a.as_str(), s1) || str_eq(a.as_str(), s2)
}

fn is_option(a: &String, s: &str) -> (r: bool)
    ensures
        r == (a@ == s@),
{
    str_eq(a.as_str(), s)
}

fn value_after(args: &Vec<String>, i: usize) -> (r: (Option<String>, usize))
    requires
        i < args@.len(),
    ensures
        r.0 == spec_value_after(args@, i as int),
        r.1 == spec_skip_value(args@, i as int),
{
    let len = args.len();
    if i + 1 < len {
        (Some(args[i + 1].clone()), i + 2)
    } else {
        (None, i + 1)
    }
}

fn encode_numeric(a: &String) -> (r: Option<NumericOption>)
    ensures
        r == spec_encode_numeric(a@),
{
    if is_either(a, "--sample-rate", "--fs") {
        Some(NumericOption::SampleRate)
    } else if is_option(a, "--max-internal") {
        Some(NumericOption::MaxInternal)
    } else if is_option(a, "--packet-ms") {
        Some(NumericOption::PacketMs)
    } else if is_option(a, "--bitrate") {
        Some(NumericOption::Bitrate)
    } else if is_option(a, "--loss") {
        Some(NumericOption::Loss)
    } else if is_option(a, "--fec") {
        Some(NumericOption::Fec)
    } else if is_option(a, "--dtx") {
        Some(NumericOption::Dtx)
    } else if is_option(a, "--complexity") {
        Some(NumericOption::Complexity)
    } else {
        None
    }
}

fn encode_set(d: &mut EncodeDraft, option: NumericOption, v: i32)
    ensures
        *final(d) == spec_encode_set(*old(d), option, v),
        final(d).fec == if option == NumericOption::Fec {
            v
        } else {
            old(d).fec
        },
        final(d).dtx == if option == NumericOption::Dtx {
            v
        } else {
            old(d).dtx
        },
        final(d).bitrate == if option == NumericOption::Bitrate {
            v
        } else {
            old(d).bitrate
        },
        final(d).loss == if option == NumericOption::Loss {
            v
        } else {
            old(d).loss
        },
        final(d).complexity == if option == NumericOption::Complexity {
            v
        } else {
            old(d).complexity
        },
        final(d).packet_ms == if option == NumericOption::PacketMs {
            v
        } else {
            old(d).packet_ms
        },
        final(d).sample_rate == if option == NumericOption::SampleRate {
            v
        } else {
            old(d).sample_rate
        },
        final(d).max_internal_set == (old(d).max_internal_set || option
            == NumericOption::MaxInternal),
        final(d).input == old(d).input && final(d).output == old(d).output,
{
    match option {
        NumericOption::SampleRate => {
            d.sample_rate = v;
            d.sample_rate_set = true;
            if !d.max_internal_set {
                d.max_internal_rate = default_max_internal_rate(v);
            }
        },
        NumericOption::MaxInternal => {
            d.max_internal_rate = v;
            d.max_internal_set = true;
        },
        NumericOption::PacketMs => {
            d.packet_ms = v;
        },
        NumericOption::Bitrate => {
            d.bitrate = v;
        },
        NumericOption::Loss => {
            d.loss = v;
        },
        NumericOption::Fec => {
            d.fec = v;
        },
        NumericOption::Dtx => {
            d.dtx = v;
        },
        NumericOption::Complexity => {
            d.complexity = v;
        },
    }
}

/// Reads the arguments of the `encode` command (those after the command
/// word).
pub fn parse_encode_args(args: &Vec<String>) -> (r: Result<Parsed<EncodeArgs>, ArgError>)
    ensures
        r == spec_parse_encode_args(args@),
        r matches Err(e) ==> crate::messages::spec_arg_error_in_range(e, args@.len() as int),
{
    let mut d = EncodeDraft {
        input: None,
        output: None,
        sample_rate: 24_000,
        sample_rate_set: false,
        max_internal_rate: 24_000,
        max_internal_set: false,
        packet_ms: 20,
        bitrate: 25_000,
        loss: 0,
        fec: 0,
        dtx: 0,
        complexity: 2,
        tencent: false,
        stats: false,
        quiet: false,
    };
    let n = args.len();
    let mut i: usize = 0;
    while i < n
        invariant
            n == args@.len(),
            i <= n,
            spec_parse_encode_args(args@) == spec_encode_from(args@, i as int, d),
        decreases n - i,
    {
        let a = &args[i];
        if is_either(a, "-i", "--input") {
            let (v, j) = value_after(args, i);
            d.input = v;
            i = j;
        } else if is_either(a, "-o", "--output") {
            let (v, j) = value_after(args, i);
            d.output = v;
            i = j;
        } else if let Some(option) = encode_numeric(a) {
            match parse_i32(args, i + 1, option) {
                Err(e) => {
                    return Err(e);
                },
                Ok(v) => {
                    encode_set(&mut d, option, v);
                    i = i + 2;
                },
            }
        } else if is_option(a, "--tencent") {
            d.tencent = true;
            i = i + 1;
        } else if is_option(a, "--stats") {
            d.stats = true;
            i = i + 1;
        } else if is_option(a, "--quiet") {
            d.quiet = true;
            i = i + 1;
        } else if is_either(a, "-h", "--help") {
            return Ok(Parsed::Help);
        } else {
            return Err(ArgError::UnknownArg { index: i });
        }
    }
    match d.input {
        None => Err(ArgError::MissingInput),
        Some(input) => match d.output {
            None => Err(ArgError::MissingOutput),
            Some(output) => Ok(
                Parsed::Run(
                    EncodeArgs {
                        input,
                        output,
                        sample_rate: d.sample_rate,
                        sample_rate_set: d.sample_rate_set,
                        max_internal_rate: d.max_internal_rate,
                        max_internal_set: d.max_internal_set,
                        packet_ms: d.packet_ms,
                        bitrate: d.bitrate,
                        loss: d.loss,
                        fec: d.fec,
                        dtx: d.dtx,
                        complexity: d.complexity,
                        tencent: d.tencent,
                        stats: d.stats,
                        quiet: d.quiet,
                    },
                ),
            ),
        },
    }
}


/// The end of a `decode` command line: input and output are required.
pub open spec fn spec_decode_finish(d: DecodeDraft) -> Result<Parsed<DecodeArgs>, ArgError> {
    match d.input {
        None => Err(ArgError::MissingInput),
        Some(input) => match d.output {
            None => Err(ArgError::MissingOutput),
            Some(output) => Ok(
                Parsed::Run(
                    DecodeArgs {
                        input,
                        output,
                        sample_rate: d.sample_rate,
                        wav: d.wav,
                        tolerant: d.tolerant,
                        stats: d.stats,
                        reference: d.reference,
                        quiet: d.quiet,
                    },
                ),
            ),
        },
    }
}

/// The outcome of reading `decode` arguments from position `i` on, with
/// `d` gathered so far. A `--reference` also turns the metrics on.
pub open spec fn spec_decode_from(args: Seq<String>, i: int, d: DecodeDraft) -> Result<
    Parsed<DecodeArgs>,
    ArgError,
>
    decreases args.len() - i,
{
    if i < 0 || i >= args.len() {
        spec_decode_finish(d)
    } else {
        let a = args[i]@;
        let j = spec_skip_value(args, i);
        if spec_is_either(a, "-i"@, "--input"@) {
            spec_decode_from(args, j, DecodeDraft { input: spec_value_after(args, i), ..d })
        } else if spec_is_either(a, "-o"@, "--output"@) {
            spec_decode_from(args, j, DecodeDraft { output: spec_value_after(args, i), ..d })
        } else if spec_is_either(a, "--sample-rate"@, "--fs"@) {
            match spec_parse_i32_arg(args, i + 1, NumericOption::SampleRate) {
                Err(e) => Err(e),
                Ok(v) => spec_decode_from(args, i + 2, DecodeDraft { sample_rate: v, ..d }),
            }
        } else if a == "--wav"@ {
            spec_decode_from(args, i + 1, DecodeDraft { wav: true, ..d })
        } else if a == "--tolerant"@ {
            if i + 1 >= args.len() {
                Err(ArgError::MissingTolerantValue)
            } else if args[i + 1]@ == "skip"@ {
                spec_decode_from(args, i + 2, DecodeDraft { tolerant: TolerantMode::Skip, ..d })
            } else if args[i + 1]@ == "silence"@ {
                spec_decode_from(args, i + 2, DecodeDraft { tolerant: TolerantMode::Silence, ..d })
            } else {
                Err(ArgError::InvalidTolerantMode { index: (i + 1) as usize })
            }
        } else if a == "--metrics"@ {
            spec_decode_from(args, i + 1, DecodeDraft { stats: true, ..d })
        } else if spec_is_either(a, "--reference"@, "--ref"@) {
            if i + 1 >= args.len() {
                Err(ArgError::MissingReferenceValue)
            } else {
                spec_decode_from(
                    args,
                    i + 2,
                    DecodeDraft { reference: Some(args[i + 1]), stats: true, ..d },
                )
            }
        } else if a == "--quiet"@ {
            spec_decode_from(args, i + 1, DecodeDraft { quiet: true, ..d })
        } else if spec_is_either(a, "-h"@, "--help"@) {
            Ok(Parsed::Help)
        } else {
            Err(ArgError::UnknownArg { index: i as usize })
        }
    }
}

/// The outcome of a `decode` command line.
pub open spec fn spec_parse_decode_args(args: Seq<String>) -> Result<Parsed<DecodeArgs>, ArgError> {
    spec_decode_from(args, 0, spec_decode_defaults())
}

/// Reads the arguments of the `decode` command (those after the command
/// word).
pub fn parse_decode_args(args: &Vec<String>) -> (r: Result<Parsed<DecodeArgs>, ArgError>)
    ensures
        r == spec_parse_decode_args(args@),
        r matches Err(e) ==> crate::messages::spec_arg_error_in_range(e, args@.len() as int),
{
    let mut d = DecodeDraft {
        input: None,
        output: None,
        sample_rate: 24_000,
        wav: false,
        tolerant: TolerantMode::Off,
        stats: false,
        reference: None,
        quiet: false,
    };
    let n = args.len();
    let mut i: usize = 0;
    while i < n
        invariant
            n == args@.len(),
            i <= n,
            spec_parse_decode_args(args@) == spec_decode_from(args@, i as int, d),
        decreases n - i,
    {
        let a = &args[i];
        if is_either(a, "-i", "--input") {
            let (v, j) = value_after(args, i);
            d.input = v;
            i = j;
        } else if is_either(a, "-o", "--output") {
            let (v, j) = value_after(args, i);
            d.output = v;
            i = j;
        } else if is_either(a, "--sample-rate", "--fs") {
            match parse_i32(args, i + 1, NumericOption::SampleRate) {
                Err(e) => {
                    return Err(e);
                },
                Ok(v) => {
                    d.sample_rate = v;
                    i = i + 2;
                },
            }
        } else if is_option(a, "--wav") {
            d.wav = true;
            i = i + 1;
        } else if is_option(a, "--tolerant") {
            if i + 1 >= n {
                return Err(ArgError::MissingTolerantValue);
            }
            let mode = &args[i + 1];
            if is_option(mode, "skip") {
                d.tolerant = TolerantMode::Skip;
            } else if is_option(mode, "silence") {
                d.tolerant = TolerantMode::Silence;
            } else {
                return Err(ArgError::InvalidTolerantMode { index: i + 1 });
            }
            i = i + 2;
        } else if is_option(a, "--metrics") {
            d.stats = true;
            i = i + 1;
        } else if is_either(a, "--reference", "--ref") {
            if i + 1 >= n {
                return Err(ArgError::MissingReferenceValue);
            }
            d.reference = Some(args[i + 1].clone());
            d.stats = true;
            i = i + 2;
        } else if is_option(a, "--quiet") {
            d.quiet = true;
            i = i + 1;
        } else if is_either(a, "-h", "--help") {
            return Ok(Parsed::Help);
        } else {
            return Err(ArgError::UnknownArg { index: i });
        }
    }
    match d.input {
        None => Err(ArgError::MissingInput),
        Some(input) => match d.output {
            None => Err(ArgError::MissingOutput),
            Some(output) => Ok(
                Parsed::Run(
                    DecodeArgs {
                        input,
                        output,
                        sample_rate: d.sample_rate,
                        wav: d.wav,
                        tolerant: d.tolerant,
                        stats: d.stats,
                        reference: d.reference,
                        quiet: d.quiet,
                    },
                ),
            ),
        },
    }
}


/// The internal-rate rule holds of a draft: unless `--max-internal` was
/// given, the internal rate is the default for the sample rate, and unless
/// `--sample-rate` was given, the sample rate is 24000.
pub open spec fn spec_encode_rates_consistent(d: EncodeDraft) -> bool {
    &&& !d.max_internal_set ==> d.max_internal_rate == spec_default_max_internal_rate(
        d.sample_rate as int,
    )
    &&& !d.sample_rate_set ==> d.sample_rate == 24_000
}

proof fn lemma_encode_from_rates(args: Seq<String>, i: int, d: EncodeDraft)
    requires
        spec_encode_rates_consistent(d),
    ensures
        spec_encode_from(args, i, d) matches Ok(Parsed::Run(a)) ==> {
            &&& !a.max_internal_set ==> a.max_internal_rate == spec_default_max_internal_rate(
                a.sample_rate as int,
            )
            &&& !a.sample_rate_set ==> a.sample_rate == 24_000
        },
    decreases args.len() - i,
{
    if 0 <= i < args.len() {
        let a = args[i]@;
        let j = spec_skip_value(args, i);
        if spec_is_either(a, "-i"@, "--input"@) {
            lemma_encode_from_rates(args, j, EncodeDraft { input: spec_value_after(args, i), ..d });
        } else if spec_is_either(a, "-o"@, "--output"@) {
            lemma_encode_from_rates(args, j, EncodeDraft { output: spec_value_after(args, i), ..d });
        } else if spec_encode_numeric(a) is Some {
            let option = spec_encode_numeric(a)->0;
            match spec_parse_i32_arg(args, i + 1, option) {
                Err(e) => {},
                Ok(v) => {
                    lemma_encode_from_rates(args, i + 2, spec_encode_set(d, option, v));
                },
            }
        } else if a == "--tencent"@ {
            lemma_encode_from_rates(args, i + 1, EncodeDraft { tencent: true, ..d });
        } else if a == "--stats"@ {
            lemma_encode_from_rates(args, i + 1, EncodeDraft { stats: true, ..d });
        } else if a == "--quiet"@ {
            lemma_encode_from_rates(args, i + 1, EncodeDraft { quiet: true, ..d });
        }
    }
}

/// Whatever `encode` command line is accepted, unless `--max-internal` is
/// given the internal rate is the sample rate capped at 24000 (so 24000
/// for 48000 Hz input), and unless `--sample-rate` is given the sample
/// rate is 24000.
pub proof fn lemma_encode_default_rates(args: Seq<String>)
    ensures
        spec_parse_encode_args(args) matches Ok(Parsed::Run(a)) ==> {
            &&& !a.max_internal_set ==> a.max_internal_rate == spec_default_max_internal_rate(
                a.sample_rate as int,
            )
            &&& !a.sample_rate_set ==> a.sample_rate == 24_000
        },
{
    lemma_encode_from_rates(args, 0, spec_encode_defaults());
}

/// The `encode` draft whose end gives the arguments `a`.
pub open spec fn spec_encode_draft_of(a: EncodeArgs) -> EncodeDraft {
    EncodeDraft {
        input: Some(a.input),
        output: Some(a.output),
        sample_rate: a.sample_rate,
        sample_rate_set: a.sample_rate_set,
        max_internal_rate: a.max_internal_rate,
        max_internal_set: a.max_internal_set,
        packet_ms: a.packet_ms,
        bitrate: a.bitrate,
        loss: a.loss,
        fec: a.fec,
        dtx: a.dtx,
        complexity: a.complexity,
        tencent: a.tencent,
        stats: a.stats,
        quiet: a.quiet,
    }
}

proof fn lemma_encode_option_names()
    ensures
        spec_encode_numeric("--sample-rate"@) == Some(NumericOption::SampleRate),
        spec_encode_numeric("--fs"@) == Some(NumericOption::SampleRate),
        spec_encode_numeric("--max-internal"@) == Some(NumericOption::MaxInternal),
        spec_encode_numeric("--packet-ms"@) == Some(NumericOption::PacketMs),
        spec_encode_numeric("--bitrate"@) == Some(NumericOption::Bitrate),
        spec_encode_numeric("--loss"@) == Some(NumericOption::Loss),
        spec_encode_numeric("--fec"@) == Some(NumericOption::Fec),
        spec_encode_numeric("--dtx"@) == Some(NumericOption::Dtx),
        spec_encode_numeric("--complexity"@) == Some(NumericOption::Complexity),
        forall|o: Seq<char>|
            spec_encode_numeric(o) is Some ==> !spec_is_either(o, "-i"@, "--input"@)
                && !spec_is_either(o, "-o"@, "--output"@),
{
    reveal_strlit("-i");
    reveal_strlit("--input");
    reveal_strlit("-o");
    reveal_strlit("--output");
    reveal_strlit("--sample-rate");
    reveal_strlit("--fs");
    reveal_strlit("--max-internal");
    reveal_strlit("--packet-ms");
    reveal_strlit("--bitrate");
    reveal_strlit("--loss");
    reveal_strlit("--fec");
    reveal_strlit("--dtx");
    reveal_strlit("--complexity");
    assert("--fec"@[2] != "--dtx"@[2]);
    assert("--sample-rate"@.len() == 13 && "--fs"@.len() == 4 && "--max-internal"@.len() == 14
        && "--packet-ms"@.len() == 11 && "--bitrate"@.len() == 9 && "--loss"@.len() == 6
        && "--fec"@.len() == 5 && "--dtx"@.len() == 5 && "--complexity"@.len() == 12);
}

proof fn lemma_encode_append(args: Seq<String>, ext: Seq<String>, i: int, d: EncodeDraft, a: EncodeArgs)
    requires
        0 <= i <= args.len(),
        spec_encode_from(args, i, d) == Ok::<Parsed<EncodeArgs>, ArgError>(Parsed::Run(a)),
    ensures
        spec_encode_from(args + ext, i, d) == spec_encode_from(
            args + ext,
            args.len() as int,
            spec_encode_draft_of(a),
        ),
    decreases args.len() - i,
{
    let args2 = args + ext;
    if i == args.len() {
        assert(d == spec_encode_draft_of(a));
    } else {
        let x = args[i]@;
        assert(args2[i] == args[i]);
        assert(i + 1 < args.len() ==> args2[i + 1] == args[i + 1]);
        let j = spec_skip_value(args, i);
        if spec_is_either(x, "-i"@, "--input"@) {
            if i + 1 < args.len() {
                lemma_encode_append(args, ext, j, EncodeDraft { input: spec_value_after(args, i), ..d }, a);
            } else {
                assert(spec_encode_from(args, j, EncodeDraft { input: None, ..d })
                    == spec_encode_finish(EncodeDraft { input: None, ..d }));
            }
        } else if spec_is_either(x, "-o"@, "--output"@) {
            if i + 1 < args.len() {
                lemma_encode_append(args, ext, j, EncodeDraft { output: spec_value_after(args, i), ..d }, a);
            } else {
                assert(spec_encode_from(args, j, EncodeDraft { output: None, ..d })
                    == spec_encode_finish(EncodeDraft { output: None, ..d }));
            }
        } else if spec_encode_numeric(x) is Some {
            let option = spec_encode_numeric(x)->0;
            if let Ok(w) = spec_parse_i32_arg(args, i + 1, option) {
                lemma_encode_append(args, ext, i + 2, spec_encode_set(d, option, w), a);
            }
        } else if x == "--tencent"@ {
            lemma_encode_append(args, ext, i + 1, EncodeDraft { tencent: true, ..d }, a);
        } else if x == "--stats"@ {
            lemma_encode_append(args, ext, i + 1, EncodeDraft { stats: true, ..d }, a);
        } else if x == "--quiet"@ {
            lemma_encode_append(args, ext, i + 1, EncodeDraft { quiet: true, ..d }, a);
        }
    }
}

/// Appending `--fec v` to an accepted `encode` command line gives the same
/// arguments with in-band FEC set to `v` and nothing else changed; likewise
/// each numeric option sets the field of its own name only. `--sample-rate`
/// (or `--fs`) also marks the rate as given and, unless `--max-internal`
/// was given, moves the internal rate to its default for `v`;
/// `--max-internal` marks the internal rate as given.
pub proof fn lemma_encode_later_option_sets_its_field(
    args: Seq<String>,
    a: EncodeArgs,
    o: String,
    s: String,
    v: i32,
)
    requires
        spec_parse_encode_args(args) == Ok::<Parsed<EncodeArgs>, ArgError>(Parsed::Run(a)),
        spec_parse_i32(s@) == Some(v),
    ensures
        ({
            let r = spec_parse_encode_args(args + seq![o, s]);
            &&& o@ == "--fec"@ ==> r == Ok::<Parsed<EncodeArgs>, ArgError>(
                Parsed::Run(EncodeArgs { fec: v, ..a }),
            )
            &&& o@ == "--dtx"@ ==> r == Ok::<Parsed<EncodeArgs>, ArgError>(
                Parsed::Run(EncodeArgs { dtx: v, ..a }),
            )
            &&& o@ == "--bitrate"@ ==> r == Ok::<Parsed<EncodeArgs>, ArgError>(
                Parsed::Run(EncodeArgs { bitrate: v, ..a }),
            )
            &&& o@ == "--loss"@ ==> r == Ok::<Parsed<EncodeArgs>, ArgError>(
                Parsed::Run(EncodeArgs { loss: v, ..a }),
            )
            &&& o@ == "--complexity"@ ==> r == Ok::<Parsed<EncodeArgs>, ArgError>(
                Parsed::Run(EncodeArgs { complexity: v, ..a }),
            )
            &&& o@ == "--packet-ms"@ ==> r == Ok::<Parsed<EncodeArgs>, ArgError>(
                Parsed::Run(EncodeArgs { packet_ms: v, ..a }),
            )
            &&& o@ == "--max-internal"@ ==> r == Ok::<Parsed<EncodeArgs>, ArgError>(
                Parsed::Run(EncodeArgs { max_internal_rate: v, max_internal_set: true, ..a }),
            )
            &&& spec_is_either(o@, "--sample-rate"@, "--fs"@) ==> r == Ok::<
                Parsed<EncodeArgs>,
                ArgError,
            >(
                Parsed::Run(
                    EncodeArgs {
                        sample_rate: v,
                        sample_rate_set: true,
                        max_internal_rate: if a.max_internal_set {
                            a.max_internal_rate
                        } else {
                            spec_default_max_internal_rate(v as int) as i32
                        },
                        ..a
                    },
                ),
            )
        }),
{
    lemma_encode_option_names();
    let args2 = args + seq![o, s];
    let n = args.len() as int;
    if spec_encode_numeric(o@) is Some {
        lemma_encode_append(args, seq![o, s], 0, spec_encode_defaults(), a);
        let opt = spec_encode_numeric(o@)->0;
        let d2 = spec_encode_set(spec_encode_draft_of(a), opt, v);
        assert(args2[n] == o);
        assert(args2[n + 1] == s);
        assert(spec_parse_i32_arg(args2, n + 1, opt) == Ok::<i32, ArgError>(v));
        assert(spec_encode_from(args2, n + 2, d2) == spec_encode_finish(d2));
    }
}

/// The `decode` draft whose end gives the arguments `a`.
pub open spec fn spec_decode_draft_of(a: DecodeArgs) -> DecodeDraft {
    DecodeDraft {
        input: Some(a.input),
        output: Some(a.output),
        sample_rate: a.sample_rate,
        wav: a.wav,
        tolerant: a.tolerant,
        stats: a.stats,
        reference: a.reference,
        quiet: a.quiet,
    }
}

proof fn lemma_decode_append(args: Seq<String>, ext: Seq<String>, i: int, d: DecodeDraft, a: DecodeArgs)
    requires
        0 <= i <= args.len(),
        spec_decode_from(args, i, d) == Ok::<Parsed<DecodeArgs>, ArgError>(Parsed::Run(a)),
    ensures
        spec_decode_from(args + ext, i, d) == spec_decode_from(
            args + ext,
            args.len() as int,
            spec_decode_draft_of(a),
        ),
    decreases args.len() - i,
{
    let args2 = args + ext;
    if i == args.len() {
        assert(d == spec_decode_draft_of(a));
    } else {
        let x = args[i]@;
        assert(args2[i] == args[i]);
        assert(i + 1 < args.len() ==> args2[i + 1] == args[i + 1]);
        let j = spec_skip_value(args, i);
        if spec_is_either(x, "-i"@, "--input"@) {
            if i + 1 < args.len() {
                lemma_decode_append(args, ext, j, DecodeDraft { input: spec_value_after(args, i), ..d }, a);
            } else {
                assert(spec_decode_from(args, j, DecodeDraft { input: None, ..d })
                    == spec_decode_finish(DecodeDraft { input: None, ..d }));
            }
        } else if spec_is_either(x, "-o"@, "--output"@) {
            if i + 1 < args.len() {
                lemma_decode_append(args, ext, j, DecodeDraft { output: spec_value_after(args, i), ..d }, a);
            } else {
                assert(spec_decode_from(args, j, DecodeDraft { output: None, ..d })
                    == spec_decode_finish(DecodeDraft { output: None, ..d }));
            }
        } else if spec_is_either(x, "--sample-rate"@, "--fs"@) {
            if let Ok(w) = spec_parse_i32_arg(args, i + 1, NumericOption::SampleRate) {
                lemma_decode_append(args, ext, i + 2, DecodeDraft { sample_rate: w, ..d }, a);
            }
        } else if x == "--wav"@ {
            lemma_decode_append(args, ext, i + 1, DecodeDraft { wav: true, ..d }, a);
        } else if x == "--tolerant"@ {
            if i + 1 < args.len() {
                if args[i + 1]@ == "skip"@ {
                    lemma_decode_append(args, ext, i + 2, DecodeDraft { tolerant: TolerantMode::Skip, ..d }, a);
                } else if args[i + 1]@ == "silence"@ {
                    lemma_decode_append(
                        args,
                        ext,
                        i + 2,
                        DecodeDraft { tolerant: TolerantMode::Silence, ..d },
                        a,
                    );
                }
            }
        } else if x == "--metrics"@ {
            lemma_decode_append(args, ext, i + 1, DecodeDraft { stats: true, ..d }, a);
        } else if spec_is_either(x, "--reference"@, "--ref"@) {
            if i + 1 < args.len() {
                lemma_decode_append(
                    args,
                    ext,
                    i + 2,
                    DecodeDraft { reference: Some(args[i + 1]), stats: true, ..d },
                    a,
                );
            }
        } else if x == "--quiet"@ {
            lemma_decode_append(args, ext, i + 1, DecodeDraft { quiet: true, ..d }, a);
        }
    }
}

/// Appending `--sample-rate v` (or `--fs v`) to an accepted `decode`
/// command line gives the same arguments with the output rate set to `v`
/// and nothing else changed: the last rate given is the one decoded at.
pub proof fn lemma_decode_later_rate_wins(args: Seq<String>, a: DecodeArgs, o: String, s: String, v: i32)
    requires
        spec_parse_decode_args(args) == Ok::<Parsed<DecodeArgs>, ArgError>(Parsed::Run(a)),
        spec_is_either(o@, "--sample-rate"@, "--fs"@),
        spec_parse_i32(s@) == Some(v),
    ensures
        spec_parse_decode_args(args + seq![o, s]) == Ok::<Parsed<DecodeArgs>, ArgError>(
            Parsed::Run(DecodeArgs { sample_rate: v, ..a }),
        ),
{
    lemma_encode_option_names();
    lemma_decode_append(args, seq![o, s], 0, spec_decode_defaults(), a);
    let args2 = args + seq![o, s];
    let n = args.len() as int;
    let d2 = DecodeDraft { sample_rate: v, ..spec_decode_draft_of(a) };
    assert(args2[n] == o);
    assert(args2[n + 1] == s);
    assert(spec_parse_i32_arg(args2, n + 1, NumericOption::SampleRate) == Ok::<i32, ArgError>(v));
    assert(spec_decode_from(args2, n + 2, d2) == spec_decode_finish(d2));
}

proof fn lemma_decode_ending_rate(args: Seq<String>, n: int, i: int, d: DecodeDraft, v: i32)
    requires
        args.len() == n + 2,
        0 <= i <= n + 1,
        spec_is_either(args[n]@, "--sample-rate"@, "--fs"@),
        spec_parse_i32(args[n + 1]@) == Some(v),
    ensures
        spec_decode_from(args, i, d) matches Ok(Parsed::Run(a)) ==> a.sample_rate == v,
    decreases args.len() - i,
{
    let x = args[i]@;
    lemma_encode_option_names();
    if i == n + 1 {
        lemma_number_is_no_option(x);
    } else if spec_is_either(x, "-i"@, "--input"@) {
        lemma_decode_ending_rate(args, n, i + 2, DecodeDraft { input: Some(args[i + 1]), ..d }, v);
    } else if spec_is_either(x, "-o"@, "--output"@) {
        lemma_decode_ending_rate(args, n, i + 2, DecodeDraft { output: Some(args[i + 1]), ..d }, v);
    } else if spec_is_either(x, "--sample-rate"@, "--fs"@) {
        if let Ok(w) = spec_parse_i32_arg(args, i + 1, NumericOption::SampleRate) {
            if i == n {
                assert(w == v);
                assert(spec_decode_from(args, i + 2, DecodeDraft { sample_rate: w, ..d })
                    == spec_decode_finish(DecodeDraft { sample_rate: w, ..d }));
            } else {
                lemma_decode_ending_rate(args, n, i + 2, DecodeDraft { sample_rate: w, ..d }, v);
            }
        }
    } else if x == "--wav"@ {
        lemma_decode_ending_rate(args, n, i + 1, DecodeDraft { wav: true, ..d }, v);
    } else if x == "--tolerant"@ {
        if args[i + 1]@ == "skip"@ {
            lemma_decode_ending_rate(args, n, i + 2, DecodeDraft { tolerant: TolerantMode::Skip, ..d }, v);
        } else if args[i + 1]@ == "silence"@ {
            lemma_decode_ending_rate(
                args,
                n,
                i + 2,
                DecodeDraft { tolerant: TolerantMode::Silence, ..d },
                v,
            );
        }
    } else if x == "--metrics"@ {
        lemma_decode_ending_rate(args, n, i + 1, DecodeDraft { stats: true, ..d }, v);
    } else if spec_is_either(x, "--reference"@, "--ref"@) {
        lemma_decode_ending_rate(
            args,
            n,
            i + 2,
            DecodeDraft { reference: Some(args[i + 1]), stats: true, ..d },
            v,
        );
    } else if x == "--quiet"@ {
        lemma_decode_ending_rate(args, n, i + 1, DecodeDraft { quiet: true, ..d }, v);
    }
}

/// Whatever comes before it, an accepted `decode` command line that ends
/// in `--sample-rate v` (or `--fs v`) decodes at `v`.
pub proof fn lemma_decode_last_rate_given(args: Seq<String>, o: String, s: String, v: i32)
    requires
        spec_is_either(o@, "--sample-rate"@, "--fs"@),
        spec_parse_i32(s@) == Some(v),
    ensures
        spec_parse_decode_args(args + seq![o, s]) matches Ok(Parsed::Run(a)) ==> a.sample_rate == v,
{
    let args2 = args + seq![o, s];
    assert(args2[args.len() as int] == o);
    assert(args2[args.len() as int + 1] == s);
    lemma_decode_ending_rate(args2, args.len() as int, 0, spec_decode_defaults(), v);
}

/// What a numeric `encode` option `o` with value `v`, read last, leaves in
/// the arguments: the field of its own name is `v`.
pub open spec fn spec_encode_option_holds(a: EncodeArgs, o: Seq<char>, v: i32) -> bool {
    &&& o == "--fec"@ ==> a.fec == v
    &&& o == "--dtx"@ ==> a.dtx == v
    &&& o == "--bitrate"@ ==> a.bitrate == v
    &&& o == "--loss"@ ==> a.loss == v
    &&& o == "--complexity"@ ==> a.complexity == v
    &&& o == "--packet-ms"@ ==> a.packet_ms == v
    &&& o == "--max-internal"@ ==> a.max_internal_rate == v && a.max_internal_set
    &&& spec_is_either(o, "--sample-rate"@, "--fs"@) ==> a.sample_rate == v && a.sample_rate_set
}

proof fn lemma_encode_ending_option(args: Seq<String>, n: int, i: int, d: EncodeDraft, v: i32)
    requires
        args.len() == n + 2,
        0 <= i <= n + 1,
        spec_encode_numeric(args[n]@) is Some,
        spec_parse_i32(args[n + 1]@) == Some(v),
    ensures
        spec_encode_from(args, i, d) matches Ok(Parsed::Run(a)) ==> spec_encode_option_holds(
            a,
            args[n]@,
            v,
        ),
    decreases args.len() - i,
{
    let x = args[i]@;
    lemma_encode_option_names();
    if i == n + 1 {
        lemma_number_is_no_option(x);
    } else if spec_is_either(x, "-i"@, "--input"@) {
        lemma_encode_ending_option(args, n, i + 2, EncodeDraft { input: Some(args[i + 1]), ..d }, v);
    } else if spec_is_either(x, "-o"@, "--output"@) {
        lemma_encode_ending_option(args, n, i + 2, EncodeDraft { output: Some(args[i + 1]), ..d }, v);
    } else if spec_encode_numeric(x) is Some {
        let option = spec_encode_numeric(x)->0;
        if let Ok(w) = spec_parse_i32_arg(args, i + 1, option) {
            if i == n {
                assert(w == v);
                let d2 = spec_encode_set(d, option, w);
                assert(spec_encode_from(args, i + 2, d2) == spec_encode_finish(d2));
            } else {
                lemma_encode_ending_option(args, n, i + 2, spec_encode_set(d, option, w), v);
            }
        }
    } else if x == "--tencent"@ {
        lemma_encode_ending_option(args, n, i + 1, EncodeDraft { tencent: true, ..d }, v);
    } else if x == "--stats"@ {
        lemma_encode_ending_option(args, n, i + 1, EncodeDraft { stats: true, ..d }, v);
    } else if x == "--quiet"@ {
        lemma_encode_ending_option(args, n, i + 1, EncodeDraft { quiet: true, ..d }, v);
    }
}

/// Whatever comes before it, an accepted `encode` command line that ends
/// in a numeric option with an integer value holds that value in the field
/// of the option's own name: `--fec 1` gives in-band FEC 1, `--dtx 1` DTX
/// 1, and so on.
pub proof fn lemma_encode_last_option_given(args: Seq<String>, o: String, s: String, v: i32)
    requires
        spec_parse_i32(s@) == Some(v),
    ensures
        spec_parse_encode_args(args + seq![o, s]) matches Ok(Parsed::Run(a)) ==> {
            &&& o@ == "--fec"@ ==> a.fec == v
            &&& o@ == "--dtx"@ ==> a.dtx == v
            &&& o@ == "--bitrate"@ ==> a.bitrate == v
            &&& o@ == "--loss"@ ==> a.loss == v
            &&& o@ == "--complexity"@ ==> a.complexity == v
            &&& o@ == "--packet-ms"@ ==> a.packet_ms == v
            &&& o@ == "--max-internal"@ ==> a.max_internal_rate == v && a.max_internal_set
            &&& spec_is_either(o@, "--sample-rate"@, "--fs"@) ==> a.sample_rate == v
                && a.sample_rate_set
        },
{
    let args2 = args + seq![o, s];
    assert(args2[args.len() as int] == o);
    assert(args2[args.len() as int + 1] == s);
    lemma_encode_option_names();
    if spec_encode_numeric(o@) is Some {
        lemma_encode_ending_option(args2, args.len() as int, 0, spec_encode_defaults(), v);
    }
}

/// Appending a flag to an accepted `encode` command line turns on the
/// setting of its own name and changes nothing else: `--tencent` the
/// Tencent flavour of the container, `--stats` the statistics, `--quiet`
/// the quiet mode. Appending `-i p` (or `--input p`) replaces the input
/// path by `p`, and `-o p` (or `--output p`) the output path.
pub proof fn lemma_encode_later_flag_or_path(args: Seq<String>, a: EncodeArgs, o: String, p: String)
    requires
        spec_parse_encode_args(args) == Ok::<Parsed<EncodeArgs>, ArgError>(Parsed::Run(a)),
    ensures
        o@ == "--tencent"@ ==> spec_parse_encode_args(args + seq![o]) == Ok::<
            Parsed<EncodeArgs>,
            ArgError,
        >(Parsed::Run(EncodeArgs { tencent: true, ..a })),
        o@ == "--stats"@ ==> spec_parse_encode_args(args + seq![o]) == Ok::<
            Parsed<EncodeArgs>,
            ArgError,
        >(Parsed::Run(EncodeArgs { stats: true, ..a })),
        o@ == "--quiet"@ ==> spec_parse_encode_args(args + seq![o]) == Ok::<
            Parsed<EncodeArgs>,
            ArgError,
        >(Parsed::Run(EncodeArgs { quiet: true, ..a })),
        spec_is_either(o@, "-i"@, "--input"@) ==> spec_parse_encode_args(args + seq![o, p])
            == Ok::<Parsed<EncodeArgs>, ArgError>(Parsed::Run(EncodeArgs { input: p, ..a })),
        spec_is_either(o@, "-o"@, "--output"@) ==> spec_parse_encode_args(args + seq![o, p])
            == Ok::<Parsed<EncodeArgs>, ArgError>(Parsed::Run(EncodeArgs { output: p, ..a })),
{
    lemma_option_spellings();
    let n = args.len() as int;
    let d = spec_encode_draft_of(a);
    lemma_encode_append(args, seq![o], 0, spec_encode_defaults(), a);
    lemma_encode_append(args, seq![o, p], 0, spec_encode_defaults(), a);
    let one = args + seq![o];
    let two = args + seq![o, p];
    assert(one[n] == o);
    assert(two[n] == o);
    assert(two[n + 1] == p);
    if o@ == "--tencent"@ {
        assert(spec_encode_numeric(o@) is None);
        let d2 = EncodeDraft { tencent: true, ..d };
        assert(spec_encode_from(one, n + 1, d2) == spec_encode_finish(d2));
    } else if o@ == "--stats"@ {
        assert(spec_encode_numeric(o@) is None);
        let d2 = EncodeDraft { stats: true, ..d };
        assert(spec_encode_from(one, n + 1, d2) == spec_encode_finish(d2));
    } else if o@ == "--quiet"@ {
        assert(spec_encode_numeric(o@) is None);
        let d2 = EncodeDraft { quiet: true, ..d };
        assert(spec_encode_from(one, n + 1, d2) == spec_encode_finish(d2));
    } else if spec_is_either(o@, "-i"@, "--input"@) {
        let d2 = EncodeDraft { input: Some(p), ..d };
        assert(spec_value_after(two, n) == Some(p));
        assert(spec_encode_from(two, n + 2, d2) == spec_encode_finish(d2));
    } else if spec_is_either(o@, "-o"@, "--output"@) {
        let d2 = EncodeDraft { output: Some(p), ..d };
        assert(spec_value_after(two, n) == Some(p));
        assert(spec_encode_from(two, n + 2, d2) == spec_encode_finish(d2));
    }
}

/// Appending an option to an accepted `decode` command line sets what the
/// option names and changes nothing else: `--wav` asks for WAV output,
/// `--metrics` for the metrics, `--quiet` for quiet mode; `--tolerant skip`
/// and `--tolerant silence` choose how broken packets are handled, and any
/// other mode is refused at its own position; `--reference p` (or `--ref
/// p`) takes `p` as the reference and turns the metrics on; `-i p` (or
/// `--input p`) and `-o p` (or `--output p`) replace the input or output
/// path.
pub proof fn lemma_decode_later_option_sets_its_field(
    args: Seq<String>,
    a: DecodeArgs,
    o: String,
    p: String,
)
    requires
        spec_parse_decode_args(args) == Ok::<Parsed<DecodeArgs>, ArgError>(Parsed::Run(a)),
    ensures
        o@ == "--wav"@ ==> spec_parse_decode_args(args + seq![o]) == Ok::<
            Parsed<DecodeArgs>,
            ArgError,
        >(Parsed::Run(DecodeArgs { wav: true, ..a })),
        o@ == "--metrics"@ ==> spec_parse_decode_args(args + seq![o]) == Ok::<
            Parsed<DecodeArgs>,
            ArgError,
        >(Parsed::Run(DecodeArgs { stats: true, ..a })),
        o@ == "--quiet"@ ==> spec_parse_decode_args(args + seq![o]) == Ok::<
            Parsed<DecodeArgs>,
            ArgError,
        >(Parsed::Run(DecodeArgs { quiet: true, ..a })),
        o@ == "--tolerant"@ && p@ == "skip"@ ==> spec_parse_decode_args(args + seq![o, p])
            == Ok::<Parsed<DecodeArgs>, ArgError>(
            Parsed::Run(DecodeArgs { tolerant: TolerantMode::Skip, ..a }),
        ),
        o@ == "--tolerant"@ && p@ == "silence"@ ==> spec_parse_decode_args(args + seq![o, p])
            == Ok::<Parsed<DecodeArgs>, ArgError>(
            Parsed::Run(DecodeArgs { tolerant: TolerantMode::Silence, ..a }),
        ),
        o@ == "--tolerant"@ && p@ != "skip"@ && p@ != "silence"@ ==> spec_parse_decode_args(
            args + seq![o, p],
        ) == Err::<Parsed<DecodeArgs>, ArgError>(
            ArgError::InvalidTolerantMode { index: (args.len() + 1) as usize },
        ),
        spec_is_either(o@, "--reference"@, "--ref"@) ==> spec_parse_decode_args(args + seq![o, p])
            == Ok::<Parsed<DecodeArgs>, ArgError>(
            Parsed::Run(DecodeArgs { reference: Some(p), stats: true, ..a }),
        ),
        spec_is_either(o@, "-i"@, "--input"@) ==> spec_parse_decode_args(args + seq![o, p])
            == Ok::<Parsed<DecodeArgs>, ArgError>(Parsed::Run(DecodeArgs { input: p, ..a })),
        spec_is_either(o@, "-o"@, "--output"@) ==> spec_parse_decode_args(args + seq![o, p])
            == Ok::<Parsed<DecodeArgs>, ArgError>(Parsed::Run(DecodeArgs { output: p, ..a })),
{
    lemma_option_spellings();
    let n = args.len() as int;
    let d = spec_decode_draft_of(a);
    lemma_decode_append(args, seq![o], 0, spec_decode_defaults(), a);
    lemma_decode_append(args, seq![o, p], 0, spec_decode_defaults(), a);
    let one = args + seq![o];
    let two = args + seq![o, p];
    assert(one[n] == o);
    assert(two[n] == o);
    assert(two[n + 1] == p);
    if o@ == "--wav"@ {
        let d2 = DecodeDraft { wav: true, ..d };
        assert(spec_decode_from(one, n + 1, d2) == spec_decode_finish(d2));
    } else if o@ == "--metrics"@ {
        let d2 = DecodeDraft { stats: true, ..d };
        assert(spec_decode_from(one, n + 1, d2) == spec_decode_finish(d2));
    } else if o@ == "--quiet"@ {
        let d2 = DecodeDraft { quiet: true, ..d };
        assert(spec_decode_from(one, n + 1, d2) == spec_decode_finish(d2));
    } else if o@ == "--tolerant"@ {
        let d2 = DecodeDraft { tolerant: TolerantMode::Skip, ..d };
        let d3 = DecodeDraft { tolerant: TolerantMode::Silence, ..d };
        assert(spec_decode_from(two, n + 2, d2) == spec_decode_finish(d2));
        assert(spec_decode_from(two, n + 2, d3) == spec_decode_finish(d3));
    } else if spec_is_either(o@, "--reference"@, "--ref"@) {
        let d2 = DecodeDraft { reference: Some(p), stats: true, ..d };
        assert(spec_decode_from(two, n + 2, d2) == spec_decode_finish(d2));
    } else if spec_is_either(o@, "-i"@, "--input"@) {
        let d2 = DecodeDraft { input: Some(p), ..d };
        assert(spec_value_after(two, n) == Some(p));
        assert(spec_decode_from(two, n + 2, d2) == spec_decode_finish(d2));
    } else if spec_is_either(o@, "-o"@, "--output"@) {
        let d2 = DecodeDraft { output: Some(p), ..d };
        assert(spec_value_after(two, n) == Some(p));
        assert(spec_decode_from(two, n + 2, d2) == spec_decode_finish(d2));
    }
}

/// An `encode` command line that names only the input and the output runs
/// with the documented defaults: 24000 Hz, internal rate 24000, 20 ms
/// packets, 25000 bit/s, no expected loss, no in-band FEC, no DTX,
/// complexity 2, no Tencent prefix, no statistics, not quiet.
pub proof fn lemma_encode_documented_defaults(i_opt: String, input: String, o_opt: String, output: String)
    requires
        spec_is_either(i_opt@, "-i"@, "--input"@),
        spec_is_either(o_opt@, "-o"@, "--output"@),
    ensures
        spec_parse_encode_args(seq![i_opt, input, o_opt, output]) == Ok::<
            Parsed<EncodeArgs>,
            ArgError,
        >(
            Parsed::Run(
                EncodeArgs {
                    input,
                    output,
                    sample_rate: 24000,
                    sample_rate_set: false,
                    max_internal_rate: 24000,
                    max_internal_set: false,
                    packet_ms: 20,
                    bitrate: 25000,
                    loss: 0,
                    fec: 0,
                    dtx: 0,
                    complexity: 2,
                    tencent: false,
                    stats: false,
                    quiet: false,
                },
            ),
        ),
{
    lemma_option_spellings();
    let args = seq![i_opt, input, o_opt, output];
    let d1 = EncodeDraft { input: Some(input), ..spec_encode_defaults() };
    let d2 = EncodeDraft { output: Some(output), ..d1 };
    assert(spec_value_after(args, 0) == Some(input));
    assert(spec_value_after(args, 2) == Some(output));
    assert(spec_encode_from(args, 4, d2) == spec_encode_finish(d2));
    assert(spec_encode_from(args, 2, d1) == spec_encode_from(args, 4, d2));
}

/// A `decode` command line that names only the input and the output
/// decodes at the default 24000 Hz to raw PCM (unless the output path asks
/// for WAV), failing on a broken packet, without metrics or reference,
/// not quiet.
pub proof fn lemma_decode_documented_defaults(i_opt: String, input: String, o_opt: String, output: String)
    requires
        spec_is_either(i_opt@, "-i"@, "--input"@),
        spec_is_either(o_opt@, "-o"@, "--output"@),
    ensures
        spec_parse_decode_args(seq![i_opt, input, o_opt, output]) == Ok::<
            Parsed<DecodeArgs>,
            ArgError,
        >(
            Parsed::Run(
                DecodeArgs {
                    input,
                    output,
                    sample_rate: 24000,
                    wav: false,
                    tolerant: TolerantMode::Off,
                    stats: false,
                    reference: None,
                    quiet: false,
                },
            ),
        ),
{
    lemma_option_spellings();
    let args = seq![i_opt, input, o_opt, output];
    let d1 = DecodeDraft { input: Some(input), ..spec_decode_defaults() };
    let d2 = DecodeDraft { output: Some(output), ..d1 };
    assert(spec_value_after(args, 0) == Some(input));
    assert(spec_value_after(args, 2) == Some(output));
    assert(spec_decode_from(args, 4, d2) == spec_decode_finish(d2));
    assert(spec_decode_from(args, 2, d1) == spec_decode_from(args, 4, d2));
}

/// After an accepted `encode` command line: a numeric option with nothing
/// after it is refused as missing its value; one followed by a string that
/// is not an integer is refused as an invalid value at that string's
/// position; and a stray number is refused as an unknown argument at its
/// position.
pub proof fn lemma_encode_refusals(args: Seq<String>, a: EncodeArgs, o: String, s: String)
    requires
        spec_parse_encode_args(args) == Ok::<Parsed<EncodeArgs>, ArgError>(Parsed::Run(a)),
    ensures
        spec_encode_numeric(o@) matches Some(option) ==> spec_parse_encode_args(args + seq![o])
            == Err::<Parsed<EncodeArgs>, ArgError>(ArgError::MissingValue { option }),
        spec_encode_numeric(o@) matches Some(option) ==> (spec_parse_i32(s@) is None
            ==> spec_parse_encode_args(args + seq![o, s]) == Err::<Parsed<EncodeArgs>, ArgError>(
            ArgError::InvalidValue { option, index: (args.len() + 1) as usize },
        )),
        spec_parse_i32(s@) is Some ==> spec_parse_encode_args(args + seq![s]) == Err::<
            Parsed<EncodeArgs>,
            ArgError,
        >(ArgError::UnknownArg { index: args.len() as usize }),
{
    lemma_encode_option_names();
    let n = args.len() as int;
    lemma_encode_append(args, seq![o], 0, spec_encode_defaults(), a);
    lemma_encode_append(args, seq![o, s], 0, spec_encode_defaults(), a);
    lemma_encode_append(args, seq![s], 0, spec_encode_defaults(), a);
    assert((args + seq![o])[n] == o);
    assert((args + seq![o, s])[n] == o);
    assert((args + seq![o, s])[n + 1] == s);
    assert((args + seq![s])[n] == s);
    if spec_parse_i32(s@) is Some {
        lemma_number_is_no_option(s@);
    }
}

/// After an accepted `decode` command line: `--sample-rate` with nothing
/// after it is refused as missing its value, and followed by a string that
/// is not an integer as an invalid value at that string's position;
/// `--tolerant` and `--reference` with nothing after them are refused as
/// missing their value; a stray number is refused as an unknown argument
/// at its position.
pub proof fn lemma_decode_refusals(args: Seq<String>, a: DecodeArgs, o: String, s: String)
    requires
        spec_parse_decode_args(args) == Ok::<Parsed<DecodeArgs>, ArgError>(Parsed::Run(a)),
    ensures
        spec_is_either(o@, "--sample-rate"@, "--fs"@) ==> spec_parse_decode_args(args + seq![o])
            == Err::<Parsed<DecodeArgs>, ArgError>(
            ArgError::MissingValue { option: NumericOption::SampleRate },
        ),
        spec_is_either(o@, "--sample-rate"@, "--fs"@) && spec_parse_i32(s@) is None
            ==> spec_parse_decode_args(args + seq![o, s]) == Err::<Parsed<DecodeArgs>, ArgError>(
            ArgError::InvalidValue { option: NumericOption::SampleRate, index: (args.len() + 1) as usize },
        ),
        o@ == "--tolerant"@ ==> spec_parse_decode_args(args + seq![o]) == Err::<
            Parsed<DecodeArgs>,
            ArgError,
        >(ArgError::MissingTolerantValue),
        spec_is_either(o@, "--reference"@, "--ref"@) ==> spec_parse_decode_args(args + seq![o])
            == Err::<Parsed<DecodeArgs>, ArgError>(ArgError::MissingReferenceValue),
        spec_parse_i32(s@) is Some ==> spec_parse_decode_args(args + seq![s]) == Err::<
            Parsed<DecodeArgs>,
            ArgError,
        >(ArgError::UnknownArg { index: args.len() as usize }),
{
    lemma_option_spellings();
    let n = args.len() as int;
    lemma_decode_append(args, seq![o], 0, spec_decode_defaults(), a);
    lemma_decode_append(args, seq![o, s], 0, spec_decode_defaults(), a);
    lemma_decode_append(args, seq![s], 0, spec_decode_defaults(), a);
    assert((args + seq![o])[n] == o);
    assert((args + seq![o, s])[n] == o);
    assert((args + seq![o, s])[n + 1] == s);
    assert((args + seq![s])[n] == s);
    if spec_parse_i32(s@) is Some {
        lemma_number_is_no_option(s@);
    }
}

/// The spellings of the option names, far enough to tell them apart.
proof fn lemma_option_spellings()
    ensures
        "-i"@.len() == 2 && "-i"@[0] == '-' && "-i"@[1] == 'i',
        "--input"@.len() == 7 && "--input"@[0] == '-' && "--input"@[1] == '-' && "--input"@[2] == 'i',
        "-o"@.len() == 2 && "-o"@[0] == '-' && "-o"@[1] == 'o',
        "--output"@.len() == 8 && "--output"@[0] == '-' && "--output"@[1] == '-' && "--output"@[2] == 'o',
        "--sample-rate"@.len() == 13 && "--sample-rate"@[0] == '-' && "--sample-rate"@[1] == '-' && "--sample-rate"@[2] == 's',
        "--fs"@.len() == 4 && "--fs"@[0] == '-' && "--fs"@[1] == '-' && "--fs"@[2] == 'f',
        "--max-internal"@.len() == 14 && "--max-internal"@[0] == '-' && "--max-internal"@[1] == '-' && "--max-internal"@[2] == 'm',
        "--packet-ms"@.len() == 11 && "--packet-ms"@[0] == '-' && "--packet-ms"@[1] == '-' && "--packet-ms"@[2] == 'p',
        "--bitrate"@.len() == 9 && "--bitrate"@[0] == '-' && "--bitrate"@[1] == '-' && "--bitrate"@[2] == 'b',
        "--loss"@.len() == 6 && "--loss"@[0] == '-' && "--loss"@[1] == '-' && "--loss"@[2] == 'l',
        "--fec"@.len() == 5 && "--fec"@[0] == '-' && "--fec"@[1] == '-' && "--fec"@[2] == 'f',
        "--dtx"@.len() == 5 && "--dtx"@[0] == '-' && "--dtx"@[1] == '-' && "--dtx"@[2] == 'd',
        "--complexity"@.len() == 12 && "--complexity"@[0] == '-' && "--complexity"@[1] == '-' && "--complexity"@[2] == 'c',
        "--tencent"@.len() == 9 && "--tencent"@[0] == '-' && "--tencent"@[1] == '-' && "--tencent"@[2] == 't',
        "--stats"@.len() == 7 && "--stats"@[0] == '-' && "--stats"@[1] == '-' && "--stats"@[2] == 's',
        "--quiet"@.len() == 7 && "--quiet"@[0] == '-' && "--quiet"@[1] == '-' && "--quiet"@[2] == 'q',
        "-h"@.len() == 2 && "-h"@[0] == '-' && "-h"@[1] == 'h',
        "--help"@.len() == 6 && "--help"@[0] == '-' && "--help"@[1] == '-' && "--help"@[2] == 'h',
        "--wav"@.len() == 5 && "--wav"@[0] == '-' && "--wav"@[1] == '-' && "--wav"@[2] == 'w',
        "--tolerant"@.len() == 10 && "--tolerant"@[0] == '-' && "--tolerant"@[1] == '-' && "--tolerant"@[2] == 't',
        "--metrics"@.len() == 9 && "--metrics"@[0] == '-' && "--metrics"@[1] == '-' && "--metrics"@[2] == 'm',
        "--reference"@.len() == 11 && "--reference"@[0] == '-' && "--reference"@[1] == '-' && "--reference"@[2] == 'r',
        "--ref"@.len() == 5 && "--ref"@[0] == '-' && "--ref"@[1] == '-' && "--ref"@[2] == 'r',
        "skip"@.len() == 4 && "skip"@[0] == 's' && "skip"@[1] == 'k' && "skip"@[2] == 'i',
        "silence"@.len() == 7 && "silence"@[0] == 's' && "silence"@[1] == 'i' && "silence"@[2] == 'l',
{
    reveal_strlit("-i");
    reveal_strlit("--input");
    reveal_strlit("-o");
    reveal_strlit("--output");
    reveal_strlit("--sample-rate");
    reveal_strlit("--fs");
    reveal_strlit("--max-internal");
    reveal_strlit("--packet-ms");
    reveal_strlit("--bitrate");
    reveal_strlit("--loss");
    reveal_strlit("--fec");
    reveal_strlit("--dtx");
    reveal_strlit("--complexity");
    reveal_strlit("--tencent");
    reveal_strlit("--stats");
    reveal_strlit("--quiet");
    reveal_strlit("-h");
    reveal_strlit("--help");
    reveal_strlit("--wav");
    reveal_strlit("--tolerant");
    reveal_strlit("--metrics");
    reveal_strlit("--reference");
    reveal_strlit("--ref");
    reveal_strlit("skip");
    reveal_strlit("silence");
}

/// A string that reads as an integer is none of the option names: it
/// starts with a digit or a sign, and after a `-` comes a digit.
proof fn lemma_number_is_no_option(t: Seq<char>)
    requires
        spec_parse_i32(t) is Some,
    ensures
        t != "-i"@,
        t != "--input"@,
        t != "-o"@,
        t != "--output"@,
        t != "--sample-rate"@,
        t != "--fs"@,
        t != "--max-internal"@,
        t != "--packet-ms"@,
        t != "--bitrate"@,
        t != "--loss"@,
        t != "--fec"@,
        t != "--dtx"@,
        t != "--complexity"@,
        t != "--tencent"@,
        t != "--stats"@,
        t != "--quiet"@,
        t != "-h"@,
        t != "--help"@,
        t != "--wav"@,
        t != "--tolerant"@,
        t != "--metrics"@,
        t != "--reference"@,
        t != "--ref"@,
{
    reveal_strlit("-i");
    reveal_strlit("--input");
    reveal_strlit("-o");
    reveal_strlit("--output");
    reveal_strlit("--sample-rate");
    reveal_strlit("--fs");
    reveal_strlit("--max-internal");
    reveal_strlit("--packet-ms");
    reveal_strlit("--bitrate");
    reveal_strlit("--loss");
    reveal_strlit("--fec");
    reveal_strlit("--dtx");
    reveal_strlit("--complexity");
    reveal_strlit("--tencent");
    reveal_strlit("--stats");
    reveal_strlit("--quiet");
    reveal_strlit("-h");
    reveal_strlit("--help");
    reveal_strlit("--wav");
    reveal_strlit("--tolerant");
    reveal_strlit("--metrics");
    reveal_strlit("--reference");
    reveal_strlit("--ref");
    assert("-i"@.len() >= 2 && "-i"@[0] == '-' && !spec_is_digit("-i"@[1]));
    assert("--input"@.len() >= 2 && "--input"@[0] == '-' && !spec_is_digit("--input"@[1]));
    assert("-o"@.len() >= 2 && "-o"@[0] == '-' && !spec_is_digit("-o"@[1]));
    assert("--output"@.len() >= 2 && "--output"@[0] == '-' && !spec_is_digit("--output"@[1]));
    assert("--sample-rate"@.len() >= 2 && "--sample-rate"@[0] == '-' && !spec_is_digit("--sample-rate"@[1]));
    assert("--fs"@.len() >= 2 && "--fs"@[0] == '-' && !spec_is_digit("--fs"@[1]));
    assert("--max-internal"@.len() >= 2 && "--max-internal"@[0] == '-' && !spec_is_digit("--max-internal"@[1]));
    assert("--packet-ms"@.len() >= 2 && "--packet-ms"@[0] == '-' && !spec_is_digit("--packet-ms"@[1]));
    assert("--bitrate"@.len() >= 2 && "--bitrate"@[0] == '-' && !spec_is_digit("--bitrate"@[1]));
    assert("--loss"@.len() >= 2 && "--loss"@[0] == '-' && !spec_is_digit("--loss"@[1]));
    assert("--fec"@.len() >= 2 && "--fec"@[0] == '-' && !spec_is_digit("--fec"@[1]));
    assert("--dtx"@.len() >= 2 && "--dtx"@[0] == '-' && !spec_is_digit("--dtx"@[1]));
    assert("--complexity"@.len() >= 2 && "--complexity"@[0] == '-' && !spec_is_digit("--complexity"@[1]));
    assert("--tencent"@.len() >= 2 && "--tencent"@[0] == '-' && !spec_is_digit("--tencent"@[1]));
    assert("--stats"@.len() >= 2 && "--stats"@[0] == '-' && !spec_is_digit("--stats"@[1]));
    assert("--quiet"@.len() >= 2 && "--quiet"@[0] == '-' && !spec_is_digit("--quiet"@[1]));
    assert("-h"@.len() >= 2 && "-h"@[0] == '-' && !spec_is_digit("-h"@[1]));
    assert("--help"@.len() >= 2 && "--help"@[0] == '-' && !spec_is_digit("--help"@[1]));
    assert("--wav"@.len() >= 2 && "--wav"@[0] == '-' && !spec_is_digit("--wav"@[1]));
    assert("--tolerant"@.len() >= 2 && "--tolerant"@[0] == '-' && !spec_is_digit("--tolerant"@[1]));
    assert("--metrics"@.len() >= 2 && "--metrics"@[0] == '-' && !spec_is_digit("--metrics"@[1]));
    assert("--reference"@.len() >= 2 && "--reference"@[0] == '-' && !spec_is_digit("--reference"@[1]));
    assert("--ref"@.len() >= 2 && "--ref"@[0] == '-' && !spec_is_digit("--ref"@[1]));
    if t.len() > 0 && t[0] == '-' {
        let body = t.drop_first();
        assert(body[0] == t[1]);
        assert(spec_is_digit(body[0]));
    }
}

} // verus!
