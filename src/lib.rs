//! Reading, editing and writing the chunk structure of PNG files.
//!
//! A PNG file is an eight byte signature followed by chunks; each chunk is
//! a big-endian length, a four byte type code, the payload and a CRC-32 of
//! type code and payload. The modules go from the leaves up:
//! [`chunk_type`], [`chunk`], [`png`], and [`commands`], which runs the
//! encode / decode / remove operations on whole file contents, and
//! [`text`], which counts the characters of UTF-8 text.

pub mod bytes;
pub mod chunk;
pub mod chunk_type;
pub mod commands;
pub mod png;
pub mod text;
