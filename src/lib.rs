//! Packs a directory level into a JSON bundle object and reads it back.
//!
//! The library holds the logic of both directions on plain values: the
//! caller walks the filesystem, runs build steps and writes files, and
//! hands each directory level to [`pack::encode_level`] or takes it from
//! [`unpack::decode_level`].
pub mod classify;
pub mod codec;
pub mod descriptor;
pub mod error;
pub mod json;
pub mod laws;
pub mod meta;
pub mod pack;
pub mod unpack;
