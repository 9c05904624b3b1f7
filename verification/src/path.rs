//! File-name rules: whether an output path asks for a WAV file.

use vstd::prelude::*;
use crate::text::{eq_ignore_ascii_case, spec_eq_ignore_ascii_case};

verus! {

/// The extension `std::path::Path::extension` finds in a path, as the
/// standard library defines it for the target: by its documentation, the
/// part of the file name after its last `.`, with none for a path without
/// a file name (such as one ending in `..`) and none for a file name whose
/// only `.` is its first character (such as `.wav`).
pub uninterp spec fn spec_path_extension(path: Seq<char>) -> Option<Seq<char>>;

/// Calls `std::path::Path::extension` on `path`. The contract claims that
/// the result is the extension the standard library finds, a function of
/// the path alone, and, as its documentation says, that a path without any
/// `.` has none; which part of the path it is otherwise (file name, dots,
/// separators) is left to the library.
#[verifier::external_body]
fn path_extension(path: &str) -> (r: Option<String>)
    ensures
        r is Some <==> spec_path_extension(path@) is Some,
        (forall|i: int| 0 <= i < path@.len() ==> path@[i] != '.') ==> r is None,
        r matches Some(e) ==> spec_path_extension(path@) == Some(e@),
{
    std::path::Path::new(path).extension().and_then(|e| e.to_str()).map(|e| e.to_string())
}

/// Whether an extension is `wav` in any ASCII case.
pub fn is_wav_extension(ext: &str) -> (r: bool)
    ensures
        r == spec_eq_ignore_ascii_case(ext@, "wav"@),
{
    eq_ignore_ascii_case(ext, "wav")
}

/// Whether `path` names a `.wav` file, in any ASCII case of the extension.
pub fn has_wav_extension(path: &str) -> (r: bool)
    ensures
        r == (spec_path_extension(path@) matches Some(e) && spec_eq_ignore_ascii_case(e, "wav"@)),
        (forall|i: int| 0 <= i < path@.len() ==> path@[i] != '.') ==> !r,
{
    match path_extension(path) {
        Some(e) => is_wav_extension(e.as_str()),
        None => false,
    }
}

} // verus!
