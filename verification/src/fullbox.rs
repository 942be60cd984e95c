//! The "full box" header extension codec: one 32-bit big-endian word whose
//! most significant byte is the version and whose low 24 bits are the flags.

use vstd::prelude::*;

use crate::bytes::{
    read_u32_be, spec_u32_from_be, spec_u32_to_be, write_u32_be, lemma_u32_be_round_trip,
};
use crate::error::Error;

verus! {

/// Encoded length of the full-box header extension.
pub const HEADER_EXT_SIZE: u64 = 4;

/// Flags are carried in 24 bits on the wire; larger values cannot be encoded.
pub const FLAGS_LIMIT: u32 = 0x1000000;

/// The 32-bit word packing a version byte above 24 bits of flags.
pub open spec fn spec_pack_ext(version: u8, flags: u32) -> u32
    recommends
        flags < FLAGS_LIMIT,
{
    ((version as u32) << 24) | flags
}

/// The wire encoding of the full-box header extension.
pub open spec fn spec_write_ext(version: u8, flags: u32) -> Seq<u8> {
    spec_u32_to_be(spec_pack_ext(version, flags))
}

/// Parses the full-box header extension from the window `s`: yields the
/// version, the flags and the number of bytes consumed, or `Truncated` when
/// fewer than 4 bytes are available.
pub open spec fn spec_read_ext(s: Seq<u8>) -> Result<((u8, u32), int), Error> {
    if s.len() < 4 {
        Err(Error::Truncated)
    } else {
        let word = spec_u32_from_be(s.subrange(0, 4));
        Ok((((word >> 24) as u8, word & 0xffffff), 4))
    }
}

/// Parsing inverts writing for every version and every 24-bit flags value, in
/// any window that extends the encoding.
pub proof fn lemma_ext_round_trip(version: u8, flags: u32, rest: Seq<u8>)
    requires
        flags < FLAGS_LIMIT,
    ensures
        spec_read_ext(spec_write_ext(version, flags) + rest) == Ok::<((u8, u32), int), Error>(
            ((version, flags), 4),
        ),
{
    lemma_u32_be_round_trip();
    let w = spec_write_ext(version, flags) + rest;
    assert(w.subrange(0, 4) =~= spec_u32_to_be(spec_pack_ext(version, flags)));
    let word = spec_pack_ext(version, flags);
    assert((word >> 24) as u8 == version && word & 0xffffff == flags) by (bit_vector)
        requires
            word == ((version as u32) << 24) | flags,
            flags < 0x1000000,
    ;
}

/// Reads the version byte and 24-bit flags field at `pos`; returns them with
/// the position just past the extension.
pub fn read_box_header_ext(data: &[u8], pos: usize, limit: usize) -> (r: Result<
    ((u8, u32), usize),
    Error,
>)
    requires
        pos <= limit <= data@.len(),
    ensures
        (match r {
            Ok((vf, end)) => end == pos + 4 && spec_read_ext(
                data@.subrange(pos as int, limit as int),
            ) == Ok::<((u8, u32), int), Error>((vf, 4)),
            Err(e) => spec_read_ext(data@.subrange(pos as int, limit as int)) == Err::<
                ((u8, u32), int),
                Error,
            >(e),
        }),
{
    let ghost w = data@.subrange(pos as int, limit as int);
    if limit - pos < 4 {
        return Err(Error::Truncated);
    }
    let word = read_u32_be(data, pos);
    proof {
        assert(w.subrange(0, 4) =~= data@.subrange(pos as int, pos + 4));
    }
    Ok((((word >> 24) as u8, word & 0xffffff), pos + 4))
}

/// Appends the full-box header extension for `version` and `flags` to `out`;
/// flags above the 24-bit range cannot be represented and are refused by
/// contract. Returns the number of bytes written.
pub fn write_box_header_ext(out: &mut Vec<u8>, version: u8, flags: u32) -> (r: Result<u64, Error>)
    requires
        flags < FLAGS_LIMIT,
    ensures
        r == Ok::<u64, Error>(HEADER_EXT_SIZE),
        final(out)@ == old(out)@ + spec_write_ext(version, flags),
{
    write_u32_be(out, ((version as u32) << 24) | flags);
    Ok(4)
}

} // verus!
