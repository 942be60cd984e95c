//! The generic box header codec: 32-bit big-endian size, four-byte type tag,
//! optional 64-bit extended size (signalled by a size field of 1), optional
//! 16-byte extended type (signalled by the `uuid` escape tag).

use vstd::prelude::*;

use crate::bytes::{
    copy_range, append_bytes, read_u32_be, read_u64_be, spec_u32_from_be, spec_u32_to_be,
    spec_u64_from_be, spec_u64_to_be, write_u32_be, write_u64_be, lemma_u32_be_round_trip,
    lemma_u64_be_round_trip,
};
use crate::error::Error;

verus! {

/// Encoded length of the plain box header: 32-bit size plus four-byte tag.
pub const HEADER_SIZE: u64 = 8;

/// The four-byte tag of the DRM system header box, `pssh` in ASCII.
pub const PSSH_TAG: u32 = 0x70737368;

/// The four-byte escape tag announcing a 16-byte extended type, `uuid` in
/// ASCII.
pub const UUID_TAG: u32 = 0x75756964;

/// The type identity of a box: the one registered kind, the 16-byte extended
/// form, or an arbitrary unregistered four-byte tag.
#[derive(Clone, Debug, PartialEq, Eq)]
pub enum BoxType {
    PsshBox,
    UuidBox(Vec<u8>),
    UnknownBox(u32),
}

/// Mathematical model of a box type.
pub enum BoxTypeV {
    Pssh,
    Uuid(Seq<u8>),
    Unknown(u32),
}

impl View for BoxType {
    type V = BoxTypeV;

    open spec fn view(&self) -> BoxTypeV {
        match self {
            BoxType::PsshBox => BoxTypeV::Pssh,
            BoxType::UuidBox(u) => BoxTypeV::Uuid(u@),
            BoxType::UnknownBox(t) => BoxTypeV::Unknown(*t),
        }
    }
}

/// The outer frame of a box: its type and its total encoded byte length,
/// header included.
#[derive(Clone, Debug, PartialEq, Eq)]
pub struct BoxHeader {
    pub name: BoxType,
    pub size: u64,
}

/// Mathematical model of a box header.
pub struct BoxHeaderV {
    pub name: BoxTypeV,
    pub size: u64,
}

impl View for BoxHeader {
    type V = BoxHeaderV;

    open spec fn view(&self) -> BoxHeaderV {
        BoxHeaderV { name: self.name@, size: self.size }
    }
}

/// The four-byte tag written to the wire for a box type; extended types hide
/// behind the escape tag.
pub open spec fn spec_tag_of(name: BoxTypeV) -> u32 {
    match name {
        BoxTypeV::Pssh => PSSH_TAG,
        BoxTypeV::Uuid(_) => UUID_TAG,
        BoxTypeV::Unknown(t) => t,
    }
}

/// The box type a plain (non-escape) tag denotes: the registered kind when
/// the tag is registered, the opaque passthrough kind otherwise.
pub open spec fn spec_type_from_tag(tag: u32) -> BoxTypeV {
    if tag == PSSH_TAG {
        BoxTypeV::Pssh
    } else {
        BoxTypeV::Unknown(tag)
    }
}

/// A type is well formed when its extended form carries exactly 16 bytes and
/// an unregistered tag is not one of the reserved tags.
pub open spec fn spec_type_wf(name: BoxTypeV) -> bool {
    match name {
        BoxTypeV::Pssh => true,
        BoxTypeV::Uuid(u) => u.len() == 16,
        BoxTypeV::Unknown(t) => t != PSSH_TAG && t != UUID_TAG,
    }
}

/// The encoded length of a header: 8 bytes, plus 8 when the size needs the
/// 64-bit extension, plus 16 when the type is extended.
pub open spec fn spec_header_len(h: BoxHeaderV) -> int {
    (if h.size > u32::MAX as u64 {
        16int
    } else {
        8int
    }) + (if h.name is Uuid {
        16int
    } else {
        0int
    })
}

/// The wire encoding of a header: size (compact, or 1 plus the 64-bit
/// extension), tag, then the 16 extended-type bytes when present.
pub open spec fn spec_write_header(h: BoxHeaderV) -> Seq<u8> {
    let tagb = spec_u32_to_be(spec_tag_of(h.name));
    let framed = if h.size > u32::MAX as u64 {
        spec_u32_to_be(1) + tagb + spec_u64_to_be(h.size)
    } else {
        spec_u32_to_be(h.size as u32) + tagb
    };
    match h.name {
        BoxTypeV::Uuid(u) => framed + u,
        _ => framed + Seq::<u8>::empty(),
    }
}

/// Second stage of header parsing, after the size regime is settled: reads
/// the extended type when the escape tag announces one. `size` is the
/// declared total size (0 meaning to-end-of-container), `off` the bytes the
/// size and tag fields occupied.
pub open spec fn spec_read_type(s: Seq<u8>, tag: u32, size: u64, off: int) -> Result<
    (BoxHeaderV, int),
    Error,
> {
    if tag == UUID_TAG {
        if size != 0 && (size as int) < off + 16 {
            Err(Error::UnsupportedExtended)
        } else if s.len() < off + 16 {
            Err(Error::Truncated)
        } else {
            Ok((BoxHeaderV { name: BoxTypeV::Uuid(s.subrange(off, off + 16)), size }, off + 16))
        }
    } else {
        Ok((BoxHeaderV { name: spec_type_from_tag(tag), size }, off))
    }
}

/// Parses one box header from the window `s` (the bytes from the current
/// position to the outer limit). On success yields the header, with its
/// declared size unresolved (0 still means to-end-of-container), and the
/// number of bytes the header occupies.
pub open spec fn spec_read_header(s: Seq<u8>) -> Result<(BoxHeaderV, int), Error> {
    if s.len() < 8 {
        Err(Error::Truncated)
    } else {
        let size32 = spec_u32_from_be(s.subrange(0, 4));
        let tag = spec_u32_from_be(s.subrange(4, 8));
        if size32 == 1 {
            if s.len() < 16 {
                Err(Error::Truncated)
            } else {
                let size = spec_u64_from_be(s.subrange(8, 16));
                if size < 16 {
                    Err(Error::UnsupportedExtended)
                } else {
                    spec_read_type(s, tag, size, 16)
                }
            }
        } else if size32 == 0 {
            spec_read_type(s, tag, 0, 8)
        } else if size32 < 8 {
            Err(Error::InvalidSize)
        } else {
            spec_read_type(s, tag, size32 as u64, 8)
        }
    }
}

/// A header is well formed when its type is and its declared size either is
/// the to-end-of-container escape or covers at least the header itself.
pub open spec fn spec_header_wf(h: BoxHeaderV) -> bool {
    &&& spec_type_wf(h.name)
    &&& (h.size == 0 || h.size >= spec_header_len(h))
}

/// The encoding of a well-typed header is exactly as long as
/// `spec_header_len` says.
pub proof fn lemma_write_header_len(h: BoxHeaderV)
    requires
        spec_type_wf(h.name),
    ensures
        spec_write_header(h).len() == spec_header_len(h),
{
}

/// Parsing inverts writing for every well-formed header, in any window that
/// extends the encoding.
pub proof fn lemma_header_round_trip(h: BoxHeaderV, rest: Seq<u8>)
    requires
        spec_header_wf(h),
    ensures
        spec_read_header(spec_write_header(h) + rest) == Ok::<(BoxHeaderV, int), Error>(
            (h, spec_header_len(h)),
        ),
{
    lemma_u32_be_round_trip();
    lemma_u64_be_round_trip();
    let enc = spec_write_header(h);
    let w = enc + rest;
    let tag = spec_tag_of(h.name);
    if h.size > u32::MAX as u64 {
        assert(w.subrange(0, 4) =~= spec_u32_to_be(1));
        assert(w.subrange(4, 8) =~= spec_u32_to_be(tag));
        assert(w.subrange(8, 16) =~= spec_u64_to_be(h.size));
        match h.name {
            BoxTypeV::Uuid(u) => {
                assert(w.subrange(16, 32) =~= u);
            },
            _ => {},
        }
    } else {
        assert(w.subrange(0, 4) =~= spec_u32_to_be(h.size as u32));
        assert(w.subrange(4, 8) =~= spec_u32_to_be(tag));
        match h.name {
            BoxTypeV::Uuid(u) => {
                assert(w.subrange(8, 24) =~= u);
            },
            _ => {},
        }
    }
}

/// The box type a plain tag denotes.
pub fn type_from_tag(tag: u32) -> (r: BoxType)
    ensures
        r@ == spec_type_from_tag(tag),
{
    if tag == PSSH_TAG {
        BoxType::PsshBox
    } else {
        BoxType::UnknownBox(tag)
    }
}

/// The four-byte tag written to the wire for a box type.
pub fn tag_of(name: &BoxType) -> (r: u32)
    ensures
        r == spec_tag_of(name@),
{
    match name {
        BoxType::PsshBox => PSSH_TAG,
        BoxType::UuidBox(_) => UUID_TAG,
        BoxType::UnknownBox(t) => *t,
    }
}

impl BoxHeader {
    /// A header for a box of the given type and total encoded size.
    pub fn new(name: BoxType, size: u64) -> (r: BoxHeader)
        ensures
            r@ == (BoxHeaderV { name: name@, size }),
    {
        BoxHeader { name, size }
    }

    /// Reads one box header from `data[pos..limit]`.
    ///
    /// On success returns the header and the position just past it. Fails
    /// with `Truncated` when fewer bytes than the header needs are available,
    /// `InvalidSize` when the declared size is below the 8-byte minimum, and
    /// `UnsupportedExtended` when an extended-size or extended-type escape
    /// declares a size below its own header length. The declared size is
    /// returned unresolved: 0 still means to-end-of-container.
    pub fn read(data: &[u8], pos: usize, limit: usize) -> (r: Result<(BoxHeader, usize), Error>)
        requires
            pos <= limit <= data@.len(),
        ensures
            (match r {
                Ok((h, end)) => pos <= end <= limit && spec_read_header(
                    data@.subrange(pos as int, limit as int),
                ) == Ok::<(BoxHeaderV, int), Error>((h@, end - pos)),
                Err(e) => spec_read_header(data@.subrange(pos as int, limit as int)) == Err::<
                    (BoxHeaderV, int),
                    Error,
                >(e),
            }),
    {
        let ghost w = data@.subrange(pos as int, limit as int);
        let avail = limit - pos;
        if avail < 8 {
            return Err(Error::Truncated);
        }
        let size32 = read_u32_be(data, pos);
        let tag = read_u32_be(data, pos + 4);
        proof {
            assert(w.subrange(0, 4) =~= data@.subrange(pos as int, pos + 4));
            assert(w.subrange(4, 8) =~= data@.subrange(pos + 4, pos + 8));
        }
        let size: u64;
        let off: usize;
        if size32 == 1 {
            if avail < 16 {
                return Err(Error::Truncated);
            }
            let big = read_u64_be(data, pos + 8);
            proof {
                assert(w.subrange(8, 16) =~= data@.subrange(pos + 8, pos + 16));
            }
            if big < 16 {
                return Err(Error::UnsupportedExtended);
            }
            size = big;
            off = 16;
        } else if size32 == 0 {
            size = 0;
            off = 8;
        } else if size32 < 8 {
            return Err(Error::InvalidSize);
        } else {
            size = size32 as u64;
            off = 8;
        }
        if tag == UUID_TAG {
            if size != 0 && size < (off as u64) + 16 {
                return Err(Error::UnsupportedExtended);
            }
            if avail < off + 16 {
                return Err(Error::Truncated);
            }
            let u = copy_range(data, pos + off, pos + off + 16);
            proof {
                assert(w.subrange(off as int, off + 16) =~= data@.subrange(
                    pos + off,
                    pos + off + 16,
                ));
            }
            Ok((BoxHeader { name: BoxType::UuidBox(u), size }, pos + off + 16))
        } else {
            Ok((BoxHeader { name: type_from_tag(tag), size }, pos + off))
        }
    }

    /// Appends the wire encoding of this header to `out`: the compact size
    /// when it fits 32 bits, otherwise 1 and the 64-bit extension; the tag,
    /// or the escape tag and the 16 extended-type bytes. Returns the number
    /// of bytes written.
    pub fn write(&self, out: &mut Vec<u8>) -> (r: Result<u64, Error>)
        requires
            spec_type_wf(self@.name),
        ensures
            r == Ok::<u64, Error>(spec_header_len(self@) as u64),
            final(out)@ == old(out)@ + spec_write_header(self@),
    {
        let tag = tag_of(&self.name);
        let mut hlen: u64 = 8;
        if self.size > u32::MAX as u64 {
            write_u32_be(out, 1);
            write_u32_be(out, tag);
            write_u64_be(out, self.size);
            hlen = 16;
        } else {
            write_u32_be(out, self.size as u32);
            write_u32_be(out, tag);
        }
        if let BoxType::UuidBox(u) = &self.name {
            append_bytes(out, u.as_slice());
            hlen = hlen + 16;
        }
        proof {
            assert(out@ =~= old(out)@ + spec_write_header(self@));
        }
        Ok(hlen)
    }
}

} // verus!
