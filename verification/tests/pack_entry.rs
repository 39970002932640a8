use gix_plumbing::hash::HashKind;
use gix_plumbing::pack_entry::{encoded_header_size, parse_header_info, parse_leb64, Entry, Error, Header};

#[test]
fn accepts_non_canonical_pack_entry_header_encoding() {
    let pack_offset = 42;
    let entry = Entry::from_bytes(&[0xb3, 0x00], pack_offset, HashKind::Sha1)
        .expect("non-canonical size encodings are accepted by git");

    assert_eq!(entry.header, Header::Blob);
    assert_eq!(
        entry.decompressed_size, 3,
        "`0xb3` is `1011_0011`: the low nibble `0011` is size 3, and the continued `0x00` adds no size bits"
    );
    assert_eq!(
        entry.encoded_header_size, 2,
        "the decoded entry records the actual encoded header length, not the canonical length, and has an extra byte 0x00"
    );
    assert_eq!(
        entry.header.size(entry.decompressed_size),
        1,
        "canonical re-encoding of a blob with size 3 needs only the single byte `0x33`"
    );
    assert_eq!(
        entry.header_size(),
        2,
        "`header_size()` reports the two bytes actually consumed from `b3 00`, unlike `Header::size()` which canonicalizes to one byte"
    );
    assert_eq!(entry.pack_offset(), pack_offset);
    assert_eq!(entry.data_offset, pack_offset + 2);
}

#[test]
fn non_canonical_pack_entry_header_keeps_ofs_delta_base_offsets_correct() {
    let pack_offset = 100;
    let base_distance = 5;
    let entry = Entry::from_bytes(&[0xe4, 0x00, base_distance], pack_offset, HashKind::Sha1)
        .expect("non-canonical ofs-delta size encodings are accepted by git");

    assert_eq!(
        entry.header,
        Header::OfsDelta {
            base_distance: base_distance.into()
        },
        "the base_distance is correct, which wouldn't be the case without using the consumed size"
    );
    assert_eq!(
        entry.header_size(),
        3,
        "`e4 00` consumes two size-header bytes before the one-byte ofs-delta base distance. entry.size() would be 2"
    );
    assert_eq!(
        entry.pack_offset(),
        pack_offset,
        "`pack_offset()` subtracts the actual three-byte header from `data_offset`, preserving the entry start"
    );
    assert_eq!(
        entry.checked_base_pack_offset(base_distance.into()),
        Some(pack_offset - u64::from(base_distance)),
        "ofs-delta base distances are relative to the entry start, so preserving `pack_offset()` keeps the base lookup correct"
    );
}

#[test]
fn oversized_encoded_header_size_is_rejected() {
    assert!(
        matches!(
            encoded_header_size(usize::from(u16::MAX) + 1),
            Err(Error::Corrupt { message }) if message == "entry header size does not fit into u16"
        ),
        "entry header lengths that cannot be stored in the Entry metadata must be rejected"
    );
    assert_eq!(encoded_header_size(usize::from(u16::MAX)), Ok(u16::MAX));
}

#[test]
fn header_errors() {
    assert_eq!(
        parse_header_info(&[]),
        Err(Error::Corrupt { message: "need a pack entry header, got empty input" })
    );
    assert_eq!(
        parse_header_info(&[0x9f]),
        Err(Error::Corrupt { message: "pack entry header continuation byte" })
    );
    assert_eq!(parse_header_info(&[0x9f, 0x01]), Ok((1, 15 + 16, 2)));
    assert_eq!(parse_header_info(&[0xff; 11]), Err(Error::Overflow));
    assert_eq!(
        Entry::from_bytes(&[0x50], 0, HashKind::Sha1),
        Err(Error::UnsupportedType { type_id: 5 })
    );
    assert_eq!(
        Entry::from_bytes(&[0x70, 1, 2, 3], 0, HashKind::Sha1),
        Err(Error::Corrupt { message: "ref-delta base object id" })
    );
}

#[test]
fn ofs_delta_distances() {
    assert_eq!(parse_leb64(&[0x05]), Ok((5, 1)));
    assert_eq!(parse_leb64(&[0x80, 0x00]), Ok((128, 2)));
    assert_eq!(parse_leb64(&[0x81, 0x01]), Ok((((1 + 1) << 7) + 1, 2)));
    assert_eq!(
        parse_leb64(&[]),
        Err(Error::Corrupt { message: "an ofs-delta base distance" })
    );
    assert_eq!(
        parse_leb64(&[0x80]),
        Err(Error::Corrupt { message: "an ofs-delta base distance continuation byte" })
    );
}

#[test]
fn ref_delta_entries_carry_the_base_id() {
    let mut data = vec![0x75u8];
    data.extend((0u8..20).collect::<Vec<_>>());
    let entry = Entry::from_bytes(&data, 7, HashKind::Sha1).unwrap();
    match &entry.header {
        Header::RefDelta { base_id } => assert_eq!(base_id.bytes, (0u8..20).collect::<Vec<_>>()),
        other => panic!("unexpected header {other:?}"),
    }
    assert_eq!(entry.decompressed_size, 5);
    assert_eq!(entry.data_offset, 7 + 21);
    assert_eq!(entry.header.size(5), 21);
    assert_eq!(Header::OfsDelta { base_distance: 128 }.size(3), 3);
    assert_eq!(Header::Tree.size(16), 2);
}
