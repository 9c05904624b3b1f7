//! Verified core of a SILK v3 command-line codec front end: argument
//! handling, sample-rate rules, PCM and WAV byte formats, the SILK
//! container framing, and the decisions taken around the codec calls.

pub mod rates;
pub mod pcm;
pub mod wav;
pub mod container;
pub mod text;
pub mod args;
pub mod encoder;
pub mod path;
pub mod decoder;
pub mod messages;
