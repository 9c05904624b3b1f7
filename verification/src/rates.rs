//! Sample-rate rules shared by the encoder and the decoder.

use vstd::prelude::*;

verus! {

/// Highest API sample rate the codec accepts, in Hz.
pub const MAX_API_FS_HZ: i32 = 48_000;

/// Highest internal sample rate the codec accepts, in Hz.
pub const MAX_INTERNAL_FS_HZ: i32 = 24_000;

/// The API sample rates the codec supports.
pub open spec fn spec_supported_sample_rate(rate: int) -> bool {
    rate == 8_000 || rate == 12_000 || rate == 16_000 || rate == 24_000 || rate == 48_000
}

/// The internal sample rates the codec supports.
pub open spec fn spec_supported_internal_sample_rate(rate: int) -> bool {
    rate == 8_000 || rate == 12_000 || rate == 16_000 || rate == 24_000
}

/// The internal rate used when none is given: the API rate, capped at 24 kHz.
pub open spec fn spec_default_max_internal_rate(sample_rate: int) -> int {
    if sample_rate < MAX_INTERNAL_FS_HZ {
        sample_rate
    } else {
        MAX_INTERNAL_FS_HZ as int
    }
}

/// The internal rate used when none is given explicitly.
pub fn default_max_internal_rate(sample_rate: i32) -> (r: i32)
    ensures
        r == spec_default_max_internal_rate(sample_rate as int),
{
    if sample_rate < MAX_INTERNAL_FS_HZ {
        sample_rate
    } else {
        MAX_INTERNAL_FS_HZ
    }
}

/// Whether `rate` is one of 8000, 12000, 16000, 24000, 48000.
pub fn is_supported_sample_rate(rate: i32) -> (r: bool)
    ensures
        r == spec_supported_sample_rate(rate as int),
{
    rate == 8_000 || rate == 12_000 || rate == 16_000 || rate == 24_000 || rate == 48_000
}

/// Whether `rate` is one of 8000, 12000, 16000, 24000.
pub fn is_supported_internal_sample_rate(rate: i32) -> (r: bool)
    ensures
        r == spec_supported_internal_sample_rate(rate as int),
{
    rate == 8_000 || rate == 12_000 || rate == 16_000 || rate == 24_000
}

/// Every supported API rate, capped by the default rule, is a supported
/// internal rate.
pub proof fn lemma_default_internal_rate_supported(sample_rate: int)
    requires
        spec_supported_sample_rate(sample_rate),
    ensures
        spec_supported_internal_sample_rate(spec_default_max_internal_rate(sample_rate)),
{
}

} // verus!
