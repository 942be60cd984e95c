use mp4box::boxes::{read_box, read_boxes, write_boxes, Mp4Box, UnknownBox};
use mp4box::error::Error;
use mp4box::fullbox::{read_box_header_ext, write_box_header_ext};
use mp4box::header::{BoxHeader, BoxType};
use mp4box::pssh::PsshBox;

fn sample_pssh() -> PsshBox {
    PsshBox {
        version: 0,
        flags: 0,
        system_id: [0u8; 16],
        data_size: 4,
        data: vec![0x01, 0x02, 0x03, 0x04],
    }
}

#[test]
fn pssh_encodes_to_expected_bytes() {
    let b = sample_pssh();
    let mut buf: Vec<u8> = Vec::new();
    let written = b.write_box(&mut buf).unwrap();
    assert_eq!(written, 36);
    assert_eq!(buf.len(), 36);
    let mut expected: Vec<u8> = vec![0, 0, 0, 36, 0x70, 0x73, 0x73, 0x68, 0, 0, 0, 0];
    expected.extend_from_slice(&[0u8; 16]);
    expected.extend_from_slice(&[0, 0, 0, 4, 1, 2, 3, 4]);
    assert_eq!(buf, expected);
}

#[test]
fn pssh_round_trip() {
    let b = sample_pssh();
    let mut buf: Vec<u8> = Vec::new();
    b.write_box(&mut buf).unwrap();
    let (parsed, end) = read_box(&buf, 0, buf.len()).unwrap();
    assert_eq!(end, 36);
    match parsed {
        Mp4Box::Pssh(p) => assert_eq!(p, b),
        _ => panic!("wrong variant"),
    }
}

#[test]
fn pssh_round_trip_empty_payload() {
    let b = PsshBox {
        version: 1,
        flags: 0xabcdef,
        system_id: [0x11u8; 16],
        data_size: 0,
        data: vec![],
    };
    let mut buf: Vec<u8> = Vec::new();
    let written = b.write_box(&mut buf).unwrap();
    assert_eq!(written, 32);
    let (parsed, end) = read_box(&buf, 0, buf.len()).unwrap();
    assert_eq!(end, 32);
    match parsed {
        Mp4Box::Pssh(p) => assert_eq!(p, b),
        _ => panic!("wrong variant"),
    }
}

#[test]
fn stale_length_field_is_recomputed_on_write() {
    let b = PsshBox {
        version: 0,
        flags: 0,
        system_id: [0u8; 16],
        data_size: 99,
        data: vec![7, 8],
    };
    let mut buf: Vec<u8> = Vec::new();
    b.write_box(&mut buf).unwrap();
    let (parsed, _) = read_box(&buf, 0, buf.len()).unwrap();
    match parsed {
        Mp4Box::Pssh(p) => {
            assert_eq!(p.data_size, 2);
            assert_eq!(p.data, vec![7, 8]);
        },
        _ => panic!("wrong variant"),
    }
}

#[test]
fn pssh_declared_size_below_minimum_rejected() {
    // A pssh box declaring 20 bytes: below the 32-byte fixed overhead.
    let mut buf: Vec<u8> = vec![0, 0, 0, 20, 0x70, 0x73, 0x73, 0x68];
    buf.extend_from_slice(&[0u8; 12]);
    let r = read_box(&buf, 0, buf.len());
    assert_eq!(r.unwrap_err(), Error::InvalidSize);
}

#[test]
fn header_size_seven_rejected() {
    // Declared size 7: below the 8-byte minimum header.
    let buf: Vec<u8> = vec![0, 0, 0, 7, 0x66, 0x72, 0x65, 0x65, 0, 0];
    let r = BoxHeader::read(&buf, 0, buf.len());
    assert_eq!(r.unwrap_err(), Error::InvalidSize);
    let rb = read_box(&buf, 0, buf.len());
    assert_eq!(rb.unwrap_err(), Error::InvalidSize);
}

#[test]
fn child_past_parent_end_rejected() {
    // A child declaring 100 bytes inside a parent span of 16.
    let mut buf: Vec<u8> = vec![0, 0, 0, 100, 0x66, 0x72, 0x65, 0x65];
    buf.extend_from_slice(&[0u8; 8]);
    let r = read_box(&buf, 0, buf.len());
    assert_eq!(r.unwrap_err(), Error::SizeExceedsContainer);
}

#[test]
fn siblings_exactly_fill_parent() {
    let pssh = sample_pssh();
    let unknown_bytes: Vec<u8> = vec![0, 0, 0, 12, 0x66, 0x72, 0x65, 0x65, 9, 9, 9, 9];
    let (u, _) = read_box(&unknown_bytes, 0, unknown_bytes.len()).unwrap();
    let boxes = vec![Mp4Box::Pssh(pssh), u];
    let mut buf: Vec<u8> = Vec::new();
    let total = write_boxes(&boxes, &mut buf).unwrap();
    assert_eq!(total, 48);
    let parsed = read_boxes(&buf, 0, buf.len()).unwrap();
    assert_eq!(parsed.len(), 2);
    assert_eq!(parsed, boxes);
}

#[test]
fn trailing_garbage_rejected() {
    let mut buf: Vec<u8> = Vec::new();
    sample_pssh().write_box(&mut buf).unwrap();
    buf.extend_from_slice(&[0, 0, 0]);
    let r = read_boxes(&buf, 0, buf.len());
    assert_eq!(r.unwrap_err(), Error::Truncated);
}

#[test]
fn unknown_tag_passthrough_byte_for_byte() {
    let bytes: Vec<u8> = vec![0, 0, 0, 12, 0x61, 0x62, 0x63, 0x64, 0xde, 0xad, 0xbe, 0xef];
    let (parsed, end) = read_box(&bytes, 0, bytes.len()).unwrap();
    assert_eq!(end, 12);
    match &parsed {
        Mp4Box::Unknown(u) => {
            assert_eq!(u.name, BoxType::UnknownBox(0x61626364));
            assert_eq!(u.size, 12);
            assert_eq!(u.data, bytes);
        },
        _ => panic!("wrong variant"),
    }
    let mut out: Vec<u8> = Vec::new();
    parsed.write_box(&mut out).unwrap();
    assert_eq!(out, bytes);
}

#[test]
fn unknown_extended_size_passthrough() {
    // A box using the 64-bit size escape: size field 1, then the tag, then
    // the real size.
    let mut bytes: Vec<u8> = vec![0, 0, 0, 1, 0x77, 0x78, 0x79, 0x7a];
    bytes.extend_from_slice(&[0, 0, 0, 0, 0, 0, 0, 20]);
    bytes.extend_from_slice(&[1, 2, 3, 4]);
    let (parsed, end) = read_box(&bytes, 0, bytes.len()).unwrap();
    assert_eq!(end, 20);
    match &parsed {
        Mp4Box::Unknown(u) => {
            assert_eq!(u.size, 20);
            assert_eq!(u.data, bytes);
        },
        _ => panic!("wrong variant"),
    }
    let mut out: Vec<u8> = Vec::new();
    parsed.write_box(&mut out).unwrap();
    assert_eq!(out, bytes);
}

#[test]
fn uuid_extended_type_box() {
    let mut bytes: Vec<u8> = vec![0, 0, 0, 28, 0x75, 0x75, 0x69, 0x64];
    let usertype: Vec<u8> = (0u8..16).collect();
    bytes.extend_from_slice(&usertype);
    bytes.extend_from_slice(&[5, 6, 7, 8]);
    let (parsed, end) = read_box(&bytes, 0, bytes.len()).unwrap();
    assert_eq!(end, 28);
    assert_eq!(parsed.box_type(), BoxType::UuidBox(usertype));
    assert_eq!(parsed.box_size(), 28);
    let mut out: Vec<u8> = Vec::new();
    parsed.write_box(&mut out).unwrap();
    assert_eq!(out, bytes);
}

#[test]
fn size_zero_extends_to_container_end() {
    let mut bytes: Vec<u8> = vec![0, 0, 0, 0, 0x66, 0x72, 0x65, 0x65];
    bytes.extend_from_slice(&[1, 2, 3, 4, 5, 6, 7, 8]);
    let (parsed, end) = read_box(&bytes, 0, bytes.len()).unwrap();
    assert_eq!(end, 16);
    match &parsed {
        Mp4Box::Unknown(u) => {
            assert_eq!(u.size, 16);
            assert_eq!(u.data, bytes);
        },
        _ => panic!("wrong variant"),
    }
}

#[test]
fn truncated_window_rejected() {
    let bytes: Vec<u8> = vec![0, 0, 0, 12, 0x66];
    let r = read_box(&bytes, 0, bytes.len());
    assert_eq!(r.unwrap_err(), Error::Truncated);
}

#[test]
fn extended_size_below_own_header_rejected() {
    let mut bytes: Vec<u8> = vec![0, 0, 0, 1, 0x66, 0x72, 0x65, 0x65];
    bytes.extend_from_slice(&[0, 0, 0, 0, 0, 0, 0, 8]);
    let r = read_box(&bytes, 0, bytes.len());
    assert_eq!(r.unwrap_err(), Error::UnsupportedExtended);
}

#[test]
fn uuid_size_below_own_header_rejected() {
    let mut bytes: Vec<u8> = vec![0, 0, 0, 20, 0x75, 0x75, 0x69, 0x64];
    bytes.extend_from_slice(&[0u8; 12]);
    let r = read_box(&bytes, 0, bytes.len());
    assert_eq!(r.unwrap_err(), Error::UnsupportedExtended);
}

#[test]
fn forward_progress_over_trailing_payload_bytes() {
    // A pssh box declaring 40 bytes whose length field counts only 4 payload
    // bytes: the walker must still advance to the declared end, so the
    // sibling after it parses.
    let mut buf: Vec<u8> = vec![0, 0, 0, 40, 0x70, 0x73, 0x73, 0x68, 0, 0, 0, 0];
    buf.extend_from_slice(&[0u8; 16]);
    buf.extend_from_slice(&[0, 0, 0, 4, 1, 2, 3, 4]);
    buf.extend_from_slice(&[0xaa, 0xbb, 0xcc, 0xdd]); // trailing, uncounted
    buf.extend_from_slice(&[0, 0, 0, 8, 0x66, 0x72, 0x65, 0x65]); // sibling
    let (first, end) = read_box(&buf, 0, buf.len()).unwrap();
    assert_eq!(end, 40);
    match &first {
        Mp4Box::Pssh(p) => {
            assert_eq!(p.data_size, 4);
            assert_eq!(p.data, vec![1, 2, 3, 4]);
        },
        _ => panic!("wrong variant"),
    }
    let all = read_boxes(&buf, 0, buf.len()).unwrap();
    assert_eq!(all.len(), 2);
}

#[test]
fn fullbox_ext_round_trip() {
    let mut buf: Vec<u8> = Vec::new();
    let written = write_box_header_ext(&mut buf, 3, 0x123456).unwrap();
    assert_eq!(written, 4);
    assert_eq!(buf, vec![0x03, 0x12, 0x34, 0x56]);
    let ((version, flags), end) = read_box_header_ext(&buf, 0, buf.len()).unwrap();
    assert_eq!(version, 3);
    assert_eq!(flags, 0x123456);
    assert_eq!(end, 4);
}

#[test]
fn header_extended_size_written_when_needed() {
    let h = BoxHeader::new(BoxType::UnknownBox(0x6d646174), 0x1_0000_0010);
    let mut buf: Vec<u8> = Vec::new();
    let written = h.write(&mut buf).unwrap();
    assert_eq!(written, 16);
    assert_eq!(&buf[0..4], &[0, 0, 0, 1]);
    assert_eq!(&buf[4..8], &[0x6d, 0x64, 0x61, 0x74]);
    assert_eq!(&buf[8..16], &[0, 0, 0, 1, 0, 0, 0, 0x10]);
    let (parsed, end) = BoxHeader::read(&buf, 0, buf.len()).unwrap();
    assert_eq!(end, 16);
    assert_eq!(parsed.size, 0x1_0000_0010);
    assert_eq!(parsed.name, BoxType::UnknownBox(0x6d646174));
}

#[test]
fn get_type_and_get_size() {
    let b = sample_pssh();
    assert_eq!(b.get_type(), BoxType::PsshBox);
    assert_eq!(b.get_size(), 36);
    assert_eq!(b.box_type(), BoxType::PsshBox);
    assert_eq!(b.box_size(), 36);
}

#[test]
fn default_is_all_zero() {
    let b = PsshBox::default();
    assert_eq!(b.version, 0);
    assert_eq!(b.flags, 0);
    assert_eq!(b.system_id, [0u8; 16]);
    assert_eq!(b.data_size, 0);
    assert!(b.data.is_empty());
}

#[test]
fn summary_spells_identifier_in_hex() {
    let mut b = sample_pssh();
    let mut id = [0u8; 16];
    for (i, slot) in id.iter_mut().enumerate() {
        *slot = i as u8;
    }
    b.system_id = id;
    let s = b.summary().unwrap();
    assert_eq!(s, "system_id=000102030405060708090a0b0c0d0e0f");
}

#[test]
fn unknown_box_reports_type_and_size() {
    let bytes: Vec<u8> = vec![0, 0, 0, 9, 0x61, 0x62, 0x63, 0x64, 0xff];
    let (parsed, _) = read_box(&bytes, 0, bytes.len()).unwrap();
    assert_eq!(parsed.box_type(), BoxType::UnknownBox(0x61626364));
    assert_eq!(parsed.box_size(), 9);
}

#[test]
fn unknown_summary_spells_tag_in_hex() {
    let bytes: Vec<u8> = vec![0, 0, 0, 9, 0x61, 0x62, 0x63, 0x64, 0xff];
    let (parsed, _) = read_box(&bytes, 0, bytes.len()).unwrap();
    assert_eq!(parsed.summary().unwrap(), "tag=61626364");
    let pssh = sample_pssh();
    assert_eq!(
        Mp4Box::Pssh(pssh).summary().unwrap(),
        "system_id=00000000000000000000000000000000"
    );
}

#[test]
fn unknown_box_value_round_trips() {
    let bytes: Vec<u8> = vec![0, 0, 0, 10, 0x73, 0x6b, 0x69, 0x70, 1, 2];
    let u = UnknownBox {
        name: BoxType::UnknownBox(0x736b6970),
        size: 10,
        data: bytes.clone(),
    };
    let mut out: Vec<u8> = Vec::new();
    Mp4Box::Unknown(u.clone()).write_box(&mut out).unwrap();
    assert_eq!(out, bytes);
    let (parsed, _) = read_box(&out, 0, out.len()).unwrap();
    assert_eq!(parsed, Mp4Box::Unknown(u));
}
