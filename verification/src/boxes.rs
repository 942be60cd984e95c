//! The box dispatcher and tree walker: reads one header, resolves the
//! declared span against the outer limit, dispatches to the variant codec
//! bounded to that span, and repositions the cursor to the exact declared end
//! whatever the variant reader consumed. Unregistered tags pass through as
//! opaque byte-for-byte copies.

use vstd::prelude::*;

use crate::bytes::{append_bytes, copy_range, spec_u32_from_be, spec_u32_to_be, write_u32_be};
use crate::error::Error;
use crate::header::{
    spec_header_len, spec_header_wf, spec_read_header, spec_tag_of, spec_write_header, tag_of,
    lemma_header_round_trip, lemma_write_header_len, BoxHeader, BoxHeaderV, BoxType, BoxTypeV,
};
use crate::hex::{hex_str, spec_hex_of};
use crate::pssh::{
    spec_pssh_encodable, spec_pssh_size, spec_pssh_summary, spec_pssh_wf, spec_read_pssh,
    spec_write_pssh, spec_write_pssh_payload, lemma_pssh_payload_round_trip, PsshBox, PsshV,
    PSSH_MIN_SIZE,
};

verus! {

/// A box with an unregistered tag, held verbatim: `data` is the complete
/// encoded box, header included, and `size` the span the tree walker
/// resolved for it.
#[derive(Clone, Debug, PartialEq, Eq)]
pub struct UnknownBox {
    pub name: BoxType,
    pub size: u64,
    pub data: Vec<u8>,
}

/// Mathematical model of an opaque passthrough box.
#[verifier::ext_equal]
pub struct UnknownV {
    pub name: BoxTypeV,
    pub size: u64,
    pub data: Seq<u8>,
}

impl View for UnknownBox {
    type V = UnknownV;

    open spec fn view(&self) -> UnknownV {
        UnknownV { name: self.name@, size: self.size, data: self.data@ }
    }
}

/// The human-readable summary an opaque box exports: its four-byte tag,
/// spelled in hex.
pub open spec fn spec_unknown_summary(u: UnknownV) -> Seq<char> {
    "tag="@ + spec_hex_of(spec_u32_to_be(spec_tag_of(u.name)))
}

impl UnknownBox {
    /// A human-readable one-line summary of the box: its tag in lower-case
    /// hex.
    pub fn summary(&self) -> (r: Result<String, Error>)
        ensures
            r matches Ok(s) && s@ == spec_unknown_summary(self@),
    {
        let tag = tag_of(&self.name);
        let mut tb: Vec<u8> = Vec::new();
        write_u32_be(&mut tb, tag);
        let mut s = String::from_str("tag=");
        proof {
            assert(s@ =~= "tag="@ + spec_hex_of(tb@.subrange(0, 0)));
        }
        let mut i: usize = 0;
        while i < 4
            invariant
                i <= 4,
                tb@ == spec_u32_to_be(spec_tag_of(self.name@)),
                s@ == "tag="@ + spec_hex_of(tb@.subrange(0, i as int)),
            decreases 4 - i,
        {
            let b = tb[i];
            proof {
                assert((b >> 4) & 0xf < 16 && b & 0xf < 16) by (bit_vector);
            }
            s.append(hex_str((b >> 4) & 0xf));
            s.append(hex_str(b & 0xf));
            proof {
                assert(s@ =~= "tag="@ + spec_hex_of(tb@.subrange(0, i + 1)));
            }
            i = i + 1;
        }
        proof {
            assert(tb@.subrange(0, 4) =~= tb@);
        }
        Ok(s)
    }
}

/// A parsed box: one variant per registered kind, plus the opaque
/// passthrough variant for every unregistered tag.
#[derive(Clone, Debug, PartialEq, Eq)]
pub enum Mp4Box {
    Pssh(PsshBox),
    Unknown(UnknownBox),
}

/// Mathematical model of a parsed box.
#[verifier::ext_equal]
pub enum Mp4BoxV {
    Pssh(PsshV),
    Unknown(UnknownV),
}

impl View for Mp4Box {
    type V = Mp4BoxV;

    open spec fn view(&self) -> Mp4BoxV {
        match self {
            Mp4Box::Pssh(p) => Mp4BoxV::Pssh(p@),
            Mp4Box::Unknown(u) => Mp4BoxV::Unknown(u@),
        }
    }
}

/// The type a parsed box reports.
pub open spec fn spec_box_type(b: Mp4BoxV) -> BoxTypeV {
    match b {
        Mp4BoxV::Pssh(_) => BoxTypeV::Pssh,
        Mp4BoxV::Unknown(u) => u.name,
    }
}

/// The total encoded size a parsed box reports: for the passthrough variant
/// the verbatim bytes are the truth.
pub open spec fn spec_box_size(b: Mp4BoxV) -> int {
    match b {
        Mp4BoxV::Pssh(p) => spec_pssh_size(p),
        Mp4BoxV::Unknown(u) => u.data.len() as int,
    }
}

/// The summary a parsed box exports.
pub open spec fn spec_box_summary(b: Mp4BoxV) -> Seq<char> {
    match b {
        Mp4BoxV::Pssh(p) => spec_pssh_summary(p),
        Mp4BoxV::Unknown(u) => spec_unknown_summary(u),
    }
}

/// A box value the wire format can carry.
pub open spec fn spec_box_encodable(b: Mp4BoxV) -> bool {
    match b {
        Mp4BoxV::Pssh(p) => spec_pssh_encodable(p),
        Mp4BoxV::Unknown(_) => true,
    }
}

/// An opaque box is well formed when its verbatim bytes carry a header that
/// declares exactly the span the walker resolved, under a tag that is not
/// registered.
pub open spec fn spec_unknown_wf(u: UnknownV) -> bool {
    &&& u.size as int == u.data.len()
    &&& spec_read_header(u.data) matches Ok((h, hlen)) && h.name == u.name && h.size == u.size
        && !(h.name is Pssh)
}

/// A well-formed in-memory box value: one a read of its own encoding
/// reproduces.
pub open spec fn spec_box_wf(b: Mp4BoxV) -> bool {
    match b {
        Mp4BoxV::Pssh(p) => spec_pssh_wf(p),
        Mp4BoxV::Unknown(u) => spec_unknown_wf(u),
    }
}

/// The declared span of a box, resolved against the window: a declared size
/// of 0 extends the box to the end of the window.
pub open spec fn spec_resolved_size(s: Seq<u8>, h: BoxHeaderV) -> int {
    if h.size == 0 {
        s.len() as int
    } else {
        h.size as int
    }
}

/// The wire encoding a box writes: the registered variant's own serializer,
/// or the verbatim bytes of the passthrough variant.
pub open spec fn spec_write_box(b: Mp4BoxV) -> Seq<u8> {
    match b {
        Mp4BoxV::Pssh(p) => spec_write_pssh(p),
        Mp4BoxV::Unknown(u) => u.data,
    }
}

/// Parses one box from the window `s` (current position to outer limit):
/// header, span resolution, containment check, dispatch. On success yields
/// the box and the resolved span — the walker's cursor advance, fixed by the
/// header alone.
pub open spec fn spec_read_box(s: Seq<u8>) -> Result<(Mp4BoxV, int), Error> {
    match spec_read_header(s) {
        Err(e) => Err(e),
        Ok((h, hlen)) => {
            let size = spec_resolved_size(s, h);
            if size > s.len() as int {
                Err(Error::SizeExceedsContainer)
            } else {
                match h.name {
                    BoxTypeV::Pssh => match spec_read_pssh(s.subrange(hlen, size), size as u64) {
                        Ok(p) => Ok((Mp4BoxV::Pssh(p), size)),
                        Err(e) => Err(e),
                    },
                    _ => Ok(
                        (
                            Mp4BoxV::Unknown(
                                UnknownV { name: h.name, size: size as u64, data: s.subrange(0, size) },
                            ),
                            size,
                        ),
                    ),
                }
            }
        },
    }
}

/// A successfully parsed header stands at least 8 bytes, fits the window,
/// and declares either the to-end escape or at least its own length.
pub proof fn lemma_read_header_ok_bounds(s: Seq<u8>)
    ensures
        spec_read_header(s) matches Ok((h, hlen)) ==> 8 <= hlen <= s.len() && (h.size == 0
            || h.size as int >= hlen),
{
}

/// A successfully parsed box spans at least 8 bytes and at most the window.
pub proof fn lemma_read_box_ok_bounds(s: Seq<u8>)
    ensures
        spec_read_box(s) matches Ok((b, n)) ==> 8 <= n <= s.len(),
{
    lemma_read_header_ok_bounds(s);
}

/// Forward progress: the walker's advance on success is the declared span,
/// settled by the header alone, whatever the variant reader consumed.
pub proof fn lemma_forward_progress(s: Seq<u8>)
    ensures
        spec_read_box(s) matches Ok((b, n)) ==> (spec_read_header(s) matches Ok((h, hlen))
            && n == spec_resolved_size(s, h)),
{
}

/// Minimum-size rejection: a declared size between 2 and 7 cannot cover the
/// header and fails as inconsistent; a registered box whose declared size is
/// below its kind's fixed minimum fails as inconsistent before its payload
/// is interpreted.
pub proof fn lemma_min_size_rejected(s: Seq<u8>)
    ensures
        (s.len() >= 8 && 2 <= spec_u32_from_be(s.subrange(0, 4)) < 8) ==> spec_read_header(s)
            == Err::<(BoxHeaderV, int), Error>(Error::InvalidSize),
        (spec_read_header(s) matches Ok((h, hlen)) && h.name is Pssh && h.size != 0
            && h.size as int <= s.len() && h.size < PSSH_MIN_SIZE) ==> spec_read_box(s) == Err::<
            (Mp4BoxV, int),
            Error,
        >(Error::InvalidSize),
{
}

/// Containment: a box whose declared end exceeds the window's end — a child
/// reaching past its parent — fails with the containment error.
pub proof fn lemma_containment_rejected(s: Seq<u8>)
    ensures
        (spec_read_header(s) matches Ok((h, hlen)) && h.size as int > s.len()) ==> spec_read_box(s)
            == Err::<(Mp4BoxV, int), Error>(Error::SizeExceedsContainer),
{
}

/// A parsed header is stable under extending the window to the right.
pub proof fn lemma_read_header_extend(s: Seq<u8>, rest: Seq<u8>)
    requires
        spec_read_header(s) is Ok,
    ensures
        spec_read_header(s + rest) == spec_read_header(s),
{
    let w = s + rest;
    assert(w.subrange(0, 4) =~= s.subrange(0, 4));
    assert(w.subrange(4, 8) =~= s.subrange(4, 8));
    if s.len() >= 16 {
        assert(w.subrange(8, 16) =~= s.subrange(8, 16));
    }
    if s.len() >= 24 {
        assert(w.subrange(8, 24) =~= s.subrange(8, 24));
    }
    if s.len() >= 32 {
        assert(w.subrange(16, 32) =~= s.subrange(16, 32));
    }
}

/// Round trip: reading back the encoding of any well-formed box value yields
/// exactly that value and consumes exactly the encoding, in any window that
/// extends it. Covers every registered variant and the byte-for-byte
/// passthrough of unregistered tags.
pub proof fn lemma_box_round_trip(b: Mp4BoxV, rest: Seq<u8>)
    requires
        spec_box_wf(b),
    ensures
        spec_read_box(spec_write_box(b) + rest) == Ok::<(Mp4BoxV, int), Error>(
            (b, spec_write_box(b).len() as int),
        ),
{
    let enc = spec_write_box(b);
    let w = enc + rest;
    match b {
        Mp4BoxV::Pssh(p) => {
            let size = spec_pssh_size(p);
            let hv = BoxHeaderV { name: BoxTypeV::Pssh, size: size as u64 };
            let payload = spec_write_pssh_payload(p);
            assert(w =~= spec_write_header(hv) + (payload + rest));
            lemma_header_round_trip(hv, payload + rest);
            lemma_write_header_len(hv);
            let hlen = spec_header_len(hv);
            assert(enc.len() == size);
            assert(w.subrange(hlen, size) =~= payload + Seq::<u8>::empty());
            lemma_pssh_payload_round_trip(p, Seq::<u8>::empty());
        },
        Mp4BoxV::Unknown(u) => {
            lemma_read_header_extend(u.data, rest);
            lemma_read_header_ok_bounds(u.data);
            assert(w.subrange(0, u.size as int) =~= u.data);
            assert(spec_read_box(w) matches Ok((bb, n)) && bb =~= b && n == enc.len());
        },
    }
}

/// An opaque box captured from a to-end-of-container size escape (a wire
/// size field of 0) writes back byte-for-byte, and reads back to itself when
/// the window is exactly its own span — such a box can only stand last, so
/// no wider window is claimed.
pub proof fn lemma_unknown_eos_round_trip(u: UnknownV)
    requires
        u.size as int == u.data.len(),
        spec_read_header(u.data) matches Ok((h, hlen)) && h.name == u.name && h.size == 0 && !(
        h.name is Pssh),
    ensures
        spec_read_box(spec_write_box(Mp4BoxV::Unknown(u))) == Ok::<(Mp4BoxV, int), Error>(
            (Mp4BoxV::Unknown(u), u.data.len() as int),
        ),
{
    lemma_read_header_ok_bounds(u.data);
    assert(u.data.subrange(0, u.data.len() as int) =~= u.data);
    assert(spec_read_box(u.data) matches Ok((bb, n)) && bb =~= Mp4BoxV::Unknown(u) && n
        == u.data.len());
}

/// Joins the boxes already parsed with the outcome on the remaining window.
pub open spec fn spec_join(prefix: Seq<Mp4BoxV>, rest: Result<Seq<Mp4BoxV>, Error>) -> Result<
    Seq<Mp4BoxV>,
    Error,
> {
    match rest {
        Ok(r) => Ok(prefix + r),
        Err(e) => Err(e),
    }
}

/// Parses a sequence of sibling boxes exactly filling the window `s`:
/// repeats `spec_read_box`, advancing by each declared span, until the
/// window is exhausted. Reaching the end short of a whole box is an error.
pub open spec fn spec_read_boxes(s: Seq<u8>) -> Result<Seq<Mp4BoxV>, Error>
    decreases s.len(),
{
    if s.len() == 0 {
        Ok(Seq::<Mp4BoxV>::empty())
    } else {
        match spec_read_box(s) {
            Err(e) => Err(e),
            Ok((b, n)) => {
                if 0 < n <= s.len() {
                    spec_join(seq![b], spec_read_boxes(s.skip(n)))
                } else {
                    Err(Error::Truncated)
                }
            },
        }
    }
}

/// The concatenated encodings of a sequence of boxes.
pub open spec fn spec_write_boxes(bs: Seq<Mp4BoxV>) -> Seq<u8>
    decreases bs.len(),
{
    if bs.len() == 0 {
        Seq::<u8>::empty()
    } else {
        spec_write_box(bs[0]) + spec_write_boxes(bs.skip(1))
    }
}

/// Appending one more box appends its encoding.
pub proof fn lemma_write_boxes_push(bs: Seq<Mp4BoxV>, b: Mp4BoxV)
    ensures
        spec_write_boxes(bs.push(b)) == spec_write_boxes(bs) + spec_write_box(b),
    decreases bs.len(),
{
    if bs.len() == 0 {
        reveal_with_fuel(spec_write_boxes, 2);
        assert(bs.push(b)[0] == b);
        assert(bs.push(b).skip(1) =~= Seq::<Mp4BoxV>::empty());
        assert(spec_write_boxes(bs.push(b)) =~= spec_write_boxes(bs) + spec_write_box(b));
    } else {
        assert(bs.push(b)[0] == bs[0]);
        assert(bs.push(b).skip(1) =~= bs.skip(1).push(b));
        lemma_write_boxes_push(bs.skip(1), b);
        assert(spec_write_boxes(bs.push(b)) =~= spec_write_boxes(bs) + spec_write_box(b));
    }
}

/// Containment, the well-formed direction: a sequence of well-formed sibling
/// boxes exactly filling a parent's declared span parses back to exactly
/// those boxes, with the cursor landing exactly at the parent's end.
#[verifier::spinoff_prover]
#[verifier::rlimit(50)]
pub proof fn lemma_boxes_round_trip(bs: Seq<Mp4BoxV>)
    requires
        forall|i: int| 0 <= i < bs.len() ==> spec_box_wf(#[trigger] bs[i]),
    ensures
        spec_read_boxes(spec_write_boxes(bs)) == Ok::<Seq<Mp4BoxV>, Error>(bs),
    decreases bs.len(),
{
    if bs.len() == 0 {
        assert(bs =~= Seq::<Mp4BoxV>::empty());
    } else {
        let b = bs[0];
        let enc = spec_write_box(b);
        let rest = spec_write_boxes(bs.skip(1));
        let w = enc + rest;
        lemma_box_round_trip(b, rest);
        lemma_read_box_ok_bounds(w);
        assert(w.skip(enc.len() as int) =~= rest);
        lemma_boxes_round_trip(bs.skip(1));
        assert(seq![b] + bs.skip(1) =~= bs);
    }
}

/// Reads one box from `data[pos..limit]`: the walker step. On success the
/// returned position is the box's declared end — the walker, not the variant
/// reader, owns the cursor. Errors are exactly those of the window parse:
/// `Truncated` when fewer bytes than a header or field needs remain,
/// `InvalidSize` when a declared size is below its kind's minimum,
/// `SizeExceedsContainer` when the declared end passes `limit`, and
/// `UnsupportedExtended` for a malformed escape.
pub fn read_box(data: &[u8], pos: usize, limit: usize) -> (r: Result<(Mp4Box, usize), Error>)
    requires
        pos <= limit <= data@.len(),
    ensures
        (match r {
            Ok((b, end)) => pos < end <= limit && spec_read_box(
                data@.subrange(pos as int, limit as int),
            ) == Ok::<(Mp4BoxV, int), Error>((b@, end - pos)),
            Err(e) => spec_read_box(data@.subrange(pos as int, limit as int)) == Err::<
                (Mp4BoxV, int),
                Error,
            >(e),
        }),
{
    let ghost w = data@.subrange(pos as int, limit as int);
    proof {
        lemma_read_header_ok_bounds(w);
    }
    let (header, hend) = match BoxHeader::read(data, pos, limit) {
        Ok(x) => x,
        Err(e) => {
            return Err(e);
        },
    };
    let avail = (limit - pos) as u64;
    let size: u64 = if header.size == 0 {
        avail
    } else {
        header.size
    };
    if size > avail {
        return Err(Error::SizeExceedsContainer);
    }
    let box_end = pos + size as usize;
    match header.name {
        BoxType::PsshBox => {
            match PsshBox::read_box(data, hend, box_end, size) {
                Ok(p) => {
                    proof {
                        assert(w.subrange(hend - pos, box_end - pos) =~= data@.subrange(
                            hend as int,
                            box_end as int,
                        ));
                    }
                    Ok((Mp4Box::Pssh(p), box_end))
                },
                Err(e) => {
                    proof {
                        assert(w.subrange(hend - pos, box_end - pos) =~= data@.subrange(
                            hend as int,
                            box_end as int,
                        ));
                    }
                    Err(e)
                },
            }
        },
        name => {
            let raw = copy_range(data, pos, box_end);
            proof {
                assert(raw@ =~= w.subrange(0, size as int));
            }
            Ok((Mp4Box::Unknown(UnknownBox { name, size, data: raw }), box_end))
        },
    }
}

/// The views of a sequence of parsed boxes.
pub open spec fn spec_views(bs: Seq<Mp4Box>) -> Seq<Mp4BoxV> {
    bs.map_values(|b: Mp4Box| b@)
}

/// Reads the sequence of sibling boxes exactly filling `data[pos..limit]`.
/// The window must be exhausted exactly: trailing bytes that cannot hold a
/// whole box are an error, and the first error aborts the traversal.
pub fn read_boxes(data: &[u8], pos: usize, limit: usize) -> (r: Result<Vec<Mp4Box>, Error>)
    requires
        pos <= limit <= data@.len(),
    ensures
        (match r {
            Ok(bs) => spec_read_boxes(data@.subrange(pos as int, limit as int)) == Ok::<
                Seq<Mp4BoxV>,
                Error,
            >(spec_views(bs@)),
            Err(e) => spec_read_boxes(data@.subrange(pos as int, limit as int)) == Err::<
                Seq<Mp4BoxV>,
                Error,
            >(e),
        }),
{
    let ghost w0 = data@.subrange(pos as int, limit as int);
    let mut acc: Vec<Mp4Box> = Vec::new();
    let mut cur: usize = pos;
    proof {
        assert(spec_views(acc@) =~= Seq::<Mp4BoxV>::empty());
        assert(spec_join(spec_views(acc@), spec_read_boxes(w0)) == spec_read_boxes(w0)) by {
            match spec_read_boxes(w0) {
                Ok(r) => {
                    assert(spec_views(acc@) + r =~= r);
                },
                Err(_) => {},
            }
        }
    }
    while cur < limit
        invariant
            pos <= cur <= limit <= data@.len(),
            w0 == data@.subrange(pos as int, limit as int),
            spec_read_boxes(w0) == spec_join(
                spec_views(acc@),
                spec_read_boxes(data@.subrange(cur as int, limit as int)),
            ),
        decreases limit - cur,
    {
        let ghost wcur = data@.subrange(cur as int, limit as int);
        match read_box(data, cur, limit) {
            Err(e) => {
                proof {
                    assert(wcur.len() > 0);
                }
                return Err(e);
            },
            Ok((b, end)) => {
                proof {
                    lemma_read_box_ok_bounds(wcur);
                    let n = end - cur;
                    assert(wcur.skip(n) =~= data@.subrange(end as int, limit as int));
                    let ghost old_acc = acc@;
                    assert(spec_views(old_acc.push(b)) =~= spec_views(old_acc) + seq![b@]);
                    match spec_read_boxes(data@.subrange(end as int, limit as int)) {
                        Ok(r) => {
                            assert((spec_views(old_acc) + seq![b@]) + r =~= spec_views(old_acc) + (
                            seq![b@] + r));
                        },
                        Err(_) => {},
                    }
                }
                acc.push(b);
                cur = end;
            },
        }
    }
    proof {
        assert(data@.subrange(cur as int, limit as int).len() == 0);
        match spec_read_boxes(w0) {
            Ok(r) => {
                assert(spec_views(acc@) + Seq::<Mp4BoxV>::empty() =~= spec_views(acc@));
            },
            Err(_) => {},
        }
    }
    Ok(acc)
}

/// The encoding of a well-typed box is exactly as long as its reported size.
pub proof fn lemma_write_box_len(b: Mp4BoxV)
    requires
        spec_box_encodable(b),
    ensures
        spec_write_box(b).len() == spec_box_size(b),
{
    match b {
        Mp4BoxV::Pssh(p) => {
            let hv = BoxHeaderV { name: BoxTypeV::Pssh, size: spec_pssh_size(p) as u64 };
            lemma_write_header_len(hv);
        },
        Mp4BoxV::Unknown(_) => {},
    }
}

impl Mp4Box {
    /// The type tag this box reports to the host.
    pub fn box_type(&self) -> (r: BoxType)
        ensures
            r@ == spec_box_type(self@),
    {
        match self {
            Mp4Box::Pssh(p) => p.get_type(),
            Mp4Box::Unknown(u) => {
                let r = match &u.name {
                    BoxType::PsshBox => BoxType::PsshBox,
                    BoxType::UuidBox(b) => BoxType::UuidBox(copy_range(b.as_slice(), 0, b.len())),
                    BoxType::UnknownBox(t) => BoxType::UnknownBox(*t),
                };
                proof {
                    match u.name@ {
                        BoxTypeV::Uuid(bv) => {
                            assert(r@ matches BoxTypeV::Uuid(rv) && rv =~= bv);
                        },
                        _ => {},
                    }
                }
                r
            },
        }
    }

    /// The total encoded size this box reports to the host.
    pub fn box_size(&self) -> (r: u64)
        requires
            self@ matches Mp4BoxV::Pssh(p) ==> p.data.len() <= u32::MAX as int,
        ensures
            r == spec_box_size(self@),
    {
        match self {
            Mp4Box::Pssh(p) => p.get_size(),
            Mp4Box::Unknown(u) => u.data.len() as u64,
        }
    }

    /// A human-readable one-line summary of the box, dispatched to the
    /// variant's own projection.
    pub fn summary(&self) -> (r: Result<String, Error>)
        ensures
            r matches Ok(s) && s@ == spec_box_summary(self@),
    {
        match self {
            Mp4Box::Pssh(p) => p.summary(),
            Mp4Box::Unknown(u) => u.summary(),
        }
    }

    /// Appends the wire encoding of this box to `out`: the registered
    /// variant's serializer, or the passthrough bytes verbatim. Returns the
    /// number of bytes written.
    pub fn write_box(&self, out: &mut Vec<u8>) -> (r: Result<u64, Error>)
        requires
            spec_box_encodable(self@),
        ensures
            r == Ok::<u64, Error>(spec_write_box(self@).len() as u64),
            final(out)@ == old(out)@ + spec_write_box(self@),
    {
        match self {
            Mp4Box::Pssh(p) => {
                let n = p.write_box(out)?;
                proof {
                    lemma_write_box_len(self@);
                }
                Ok(n)
            },
            Mp4Box::Unknown(u) => {
                append_bytes(out, u.data.as_slice());
                Ok(u.data.len() as u64)
            },
        }
    }
}

/// Appends the encodings of all the boxes, in order, to `out`; returns the
/// total number of bytes written.
pub fn write_boxes(boxes: &Vec<Mp4Box>, out: &mut Vec<u8>) -> (r: Result<u64, Error>)
    requires
        forall|i: int| 0 <= i < boxes@.len() ==> spec_box_encodable(#[trigger] boxes@[i]@),
    ensures
        r == Ok::<u64, Error>(spec_write_boxes(spec_views(boxes@)).len() as u64),
        final(out)@ == old(out)@ + spec_write_boxes(spec_views(boxes@)),
{
    let start = out.len();
    let n = boxes.len();
    let mut i: usize = 0;
    proof {
        assert(spec_views(boxes@.subrange(0, 0)) =~= Seq::<Mp4BoxV>::empty());
        assert(out@ =~= old(out)@ + spec_write_boxes(spec_views(boxes@.subrange(0, 0))));
    }
    while i < n
        invariant
            i <= n == boxes@.len(),
            start == old(out)@.len(),
            forall|k: int| 0 <= k < boxes@.len() ==> spec_box_encodable(#[trigger] boxes@[k]@),
            out@ == old(out)@ + spec_write_boxes(spec_views(boxes@.subrange(0, i as int))),
        decreases n - i,
    {
        let b = &boxes[i];
        let _ = b.write_box(out)?;
        proof {
            let pre = boxes@.subrange(0, i as int);
            assert(spec_views(pre.push(boxes@[i as int])) =~= spec_views(pre).push(
                boxes@[i as int]@,
            ));
            lemma_write_boxes_push(spec_views(pre), boxes@[i as int]@);
            assert(boxes@.subrange(0, i + 1) =~= pre.push(boxes@[i as int]));
            assert(out@ =~= old(out)@ + spec_write_boxes(spec_views(boxes@.subrange(0, i + 1))));
        }
        i = i + 1;
    }
    proof {
        assert(boxes@.subrange(0, n as int) =~= boxes@);
    }
    Ok((out.len() - start) as u64)
}

} // verus!
