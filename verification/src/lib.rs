//! Codec for the ISO base media file format box structure: length-prefixed,
//! four-character-tagged records ("boxes") that nest to form a tree.
//!
//! The crate parses a byte buffer into typed box values and serializes typed
//! box values back to the exact wire layout: big-endian sizes, optional 64-bit
//! extended sizes, optional 16-byte extended types, and the "full box"
//! version/flags header extension.

pub mod boxes;
pub mod bytes;
pub mod error;
pub mod fullbox;
pub mod header;
pub mod hex;
pub mod pssh;
