//! The DRM system header box: a full box carrying a fixed 16-byte system
//! identifier, a 32-bit declared payload length, and the payload bytes.

use vstd::prelude::*;

use crate::bytes::{
    append_bytes, copy_range, read_u32_be, spec_u32_from_be, spec_u32_to_be, write_u32_be,
    lemma_u32_be_round_trip,
};
use crate::error::Error;
use crate::fullbox::{
    read_box_header_ext, spec_read_ext, spec_write_ext, write_box_header_ext, lemma_ext_round_trip,
    FLAGS_LIMIT, HEADER_EXT_SIZE,
};
use crate::header::{
    spec_write_header, BoxHeader, BoxHeaderV, BoxType, BoxTypeV, HEADER_SIZE,
};
use crate::hex::{hex_str, spec_hex_of};

verus! {

/// Fixed overhead of an encoded DRM system header box with a compact header:
/// generic header, full-box extension, 16-byte identifier, 4-byte length
/// field.
pub const PSSH_MIN_SIZE: u64 = HEADER_SIZE + HEADER_EXT_SIZE + 20;

/// The DRM system header box. `data_size` is the declared payload length as
/// it stood on the wire; on write the length field is recomputed from
/// `data`, never copied from this field.
#[derive(Clone, Debug, PartialEq, Eq)]
pub struct PsshBox {
    pub version: u8,
    pub flags: u32,
    pub system_id: [u8; 16],
    pub data_size: u32,
    pub data: Vec<u8>,
}

/// Mathematical model of a DRM system header box.
#[verifier::ext_equal]
pub struct PsshV {
    pub version: u8,
    pub flags: u32,
    pub system_id: Seq<u8>,
    pub data_size: u32,
    pub data: Seq<u8>,
}

impl View for PsshBox {
    type V = PsshV;

    open spec fn view(&self) -> PsshV {
        PsshV {
            version: self.version,
            flags: self.flags,
            system_id: self.system_id@,
            data_size: self.data_size,
            data: self.data@,
        }
    }
}

/// Total encoded size of the box: the fixed overhead plus the payload, with
/// 8 more bytes when the total needs the 64-bit extended size.
pub open spec fn spec_pssh_size(p: PsshV) -> int {
    if 32 + p.data.len() as int <= u32::MAX as int {
        32 + p.data.len() as int
    } else {
        40 + p.data.len() as int
    }
}

/// A box value the wire format can carry: 24-bit flags, a payload the 32-bit
/// length field can count, a 16-byte identifier.
pub open spec fn spec_pssh_encodable(p: PsshV) -> bool {
    &&& p.flags < FLAGS_LIMIT
    &&& p.data.len() <= u32::MAX as int
    &&& p.system_id.len() == 16
}

/// A well-formed in-memory box value: encodable, with the declared payload
/// length agreeing with the payload actually held.
pub open spec fn spec_pssh_wf(p: PsshV) -> bool {
    &&& spec_pssh_encodable(p)
    &&& p.data_size == p.data.len()
}

/// The payload this box writes after its generic header: version/flags
/// extension, identifier, recomputed length field, payload bytes.
pub open spec fn spec_write_pssh_payload(p: PsshV) -> Seq<u8> {
    spec_write_ext(p.version, p.flags) + p.system_id + spec_u32_to_be(p.data.len() as u32) + p.data
}

/// The complete wire encoding of the box, generic header included.
pub open spec fn spec_write_pssh(p: PsshV) -> Seq<u8> {
    spec_write_header(BoxHeaderV { name: BoxTypeV::Pssh, size: spec_pssh_size(p) as u64 })
        + spec_write_pssh_payload(p)
}

/// Parses the box payload from the window `s` (the bytes between the generic
/// header and the declared box end). `size` is the declared total box size:
/// below the fixed minimum it is rejected as inconsistent before anything is
/// read. The payload length is taken from the length field; bytes the field
/// does not count are left for the tree walker to skip.
pub open spec fn spec_read_pssh(s: Seq<u8>, size: u64) -> Result<PsshV, Error> {
    if size < PSSH_MIN_SIZE {
        Err(Error::InvalidSize)
    } else {
        match spec_read_ext(s) {
            Err(e) => Err(e),
            Ok(((version, flags), _)) => {
                if s.len() < 24 {
                    Err(Error::Truncated)
                } else {
                    let data_size = spec_u32_from_be(s.subrange(20, 24));
                    if s.len() < 24 + data_size {
                        Err(Error::Truncated)
                    } else {
                        Ok(
                            PsshV {
                                version,
                                flags,
                                system_id: s.subrange(4, 20),
                                data_size,
                                data: s.subrange(24, 24 + data_size),
                            },
                        )
                    }
                }
            },
        }
    }
}

/// Parsing the payload inverts writing it, for every well-formed box value
/// and in any window that extends the encoding.
pub proof fn lemma_pssh_payload_round_trip(p: PsshV, rest: Seq<u8>)
    requires
        spec_pssh_wf(p),
    ensures
        spec_read_pssh(spec_write_pssh_payload(p) + rest, spec_pssh_size(p) as u64) == Ok::<
            PsshV,
            Error,
        >(p),
{
    lemma_u32_be_round_trip();
    let w = spec_write_pssh_payload(p) + rest;
    let tail = p.system_id + spec_u32_to_be(p.data.len() as u32) + p.data + rest;
    assert(w =~= spec_write_ext(p.version, p.flags) + tail);
    lemma_ext_round_trip(p.version, p.flags, tail);
    assert(w.subrange(4, 20) =~= p.system_id);
    assert(w.subrange(20, 24) =~= spec_u32_to_be(p.data.len() as u32));
    assert(w.subrange(24, 24 + p.data.len() as int) =~= p.data);
    assert(spec_read_pssh(w, spec_pssh_size(p) as u64) matches Ok(q) && q =~= p);
}

impl PsshBox {
    /// The registered type tag of this box kind.
    pub fn get_type(&self) -> (r: BoxType)
        ensures
            r@ == BoxTypeV::Pssh,
    {
        BoxType::PsshBox
    }

    /// Total encoded size of this box, extended-size regime included.
    pub fn get_size(&self) -> (r: u64)
        requires
            self@.data.len() <= u32::MAX as int,
        ensures
            r == spec_pssh_size(self@),
    {
        let len = self.data.len() as u64;
        if 32 + len <= u32::MAX as u64 {
            32 + len
        } else {
            40 + len
        }
    }

    /// The type this box reports to the dispatcher.
    pub fn box_type(&self) -> (r: BoxType)
        ensures
            r@ == BoxTypeV::Pssh,
    {
        self.get_type()
    }

    /// The size this box reports to the dispatcher.
    pub fn box_size(&self) -> (r: u64)
        requires
            self@.data.len() <= u32::MAX as int,
        ensures
            r == spec_pssh_size(self@),
    {
        self.get_size()
    }

    /// Reads the box payload from `data[pos..limit]`, where `pos` stands just
    /// past the generic header, `limit` is the declared box end, and `size`
    /// is the declared total box size.
    pub fn read_box(data: &[u8], pos: usize, limit: usize, size: u64) -> (r: Result<PsshBox, Error>)
        requires
            pos <= limit <= data@.len(),
        ensures
            (match r {
                Ok(p) => spec_read_pssh(data@.subrange(pos as int, limit as int), size) == Ok::<
                    PsshV,
                    Error,
                >(p@),
                Err(e) => spec_read_pssh(data@.subrange(pos as int, limit as int), size) == Err::<
                    PsshV,
                    Error,
                >(e),
            }),
    {
        let ghost w = data@.subrange(pos as int, limit as int);
        if size < PSSH_MIN_SIZE {
            return Err(Error::InvalidSize);
        }
        let (version, flags) = match read_box_header_ext(data, pos, limit) {
            Ok((vf, _)) => vf,
            Err(e) => {
                return Err(e);
            },
        };
        if limit - pos < 24 {
            return Err(Error::Truncated);
        }
        let mut system_id = [0u8; 16];
        let mut i: usize = 0;
        while i < 16
            invariant
                pos + 24 <= limit <= data@.len(),
                i <= 16,
                forall|j: int| 0 <= j < i ==> system_id@[j] == data@[pos + 4 + j],
            decreases 16 - i,
        {
            system_id[i] = data[pos + 4 + i];
            i = i + 1;
        }
        let data_size = read_u32_be(data, pos + 20);
        proof {
            assert(system_id@ =~= w.subrange(4, 20));
            assert(w.subrange(20, 24) =~= data@.subrange(pos + 20, pos + 24));
        }
        if limit - (pos + 24) < data_size as usize {
            return Err(Error::Truncated);
        }
        let payload = copy_range(data, pos + 24, pos + 24 + data_size as usize);
        proof {
            assert(payload@ =~= w.subrange(24, 24 + data_size));
        }
        Ok(PsshBox { version, flags, system_id, data_size, data: payload })
    }

    /// Appends the complete wire encoding of this box to `out`: generic
    /// header with the recomputed total size, version/flags extension,
    /// identifier, payload length recomputed from the payload actually held,
    /// payload bytes. Returns the total size written.
    pub fn write_box(&self, out: &mut Vec<u8>) -> (r: Result<u64, Error>)
        requires
            spec_pssh_encodable(self@),
        ensures
            r == Ok::<u64, Error>(spec_pssh_size(self@) as u64),
            final(out)@ == old(out)@ + spec_write_pssh(self@),
    {
        let size = self.get_size();
        let header = BoxHeader::new(BoxType::PsshBox, size);
        header.write(out)?;
        write_box_header_ext(out, self.version, self.flags)?;
        append_bytes(out, self.system_id.as_slice());
        write_u32_be(out, self.data.len() as u32);
        append_bytes(out, self.data.as_slice());
        proof {
            assert(out@ =~= old(out)@ + spec_write_pssh(self@));
        }
        Ok(size)
    }
}

/// The human-readable summary a DRM system header box exports: its system
/// identifier, spelled in hex.
pub open spec fn spec_pssh_summary(p: PsshV) -> Seq<char> {
    "system_id="@ + spec_hex_of(p.system_id)
}

impl PsshBox {
    /// A human-readable one-line summary of the box: the system identifier
    /// in lower-case hex.
    pub fn summary(&self) -> (r: Result<String, Error>)
        ensures
            r matches Ok(s) && s@ == spec_pssh_summary(self@),
    {
        let mut s = String::from_str("system_id=");
        proof {
            assert(s@ =~= "system_id="@ + spec_hex_of(self.system_id@.subrange(0, 0)));
        }
        let mut i: usize = 0;
        while i < 16
            invariant
                i <= 16,
                s@ == "system_id="@ + spec_hex_of(self.system_id@.subrange(0, i as int)),
            decreases 16 - i,
        {
            let b = self.system_id[i];
            proof {
                assert((b >> 4) & 0xf < 16 && b & 0xf < 16) by (bit_vector);
            }
            s.append(hex_str((b >> 4) & 0xf));
            s.append(hex_str(b & 0xf));
            proof {
                assert(s@ =~= "system_id="@ + spec_hex_of(self.system_id@.subrange(0, i + 1)));
            }
            i = i + 1;
        }
        proof {
            assert(self.system_id@.subrange(0, 16) =~= self.system_id@);
        }
        Ok(s)
    }
}

impl Default for PsshBox {
    /// The all-zero box: version 0, flags 0, zero identifier, empty payload.
    fn default() -> (r: PsshBox)
        ensures
            r@ == (PsshV {
                version: 0,
                flags: 0,
                system_id: Seq::new(16, |i: int| 0u8),
                data_size: 0,
                data: Seq::<u8>::empty(),
            }),
    {
        let r = PsshBox {
            version: 0,
            flags: 0,
            system_id: [0u8; 16],
            data_size: 0,
            data: Vec::new(),
        };
        proof {
            assert(r@.system_id =~= Seq::new(16, |i: int| 0u8));
            assert(r@ =~= (PsshV {
                version: 0,
                flags: 0,
                system_id: Seq::new(16, |i: int| 0u8),
                data_size: 0,
                data: Seq::<u8>::empty(),
            }));
        }
        r
    }
}

} // verus!
