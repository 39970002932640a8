use gix_plumbing::hash::ObjectId;
use gix_plumbing::merge::blob::{
    driver_command_line, BinaryResolveWith, BlobMerge, BuiltinDriver, Data, Driver, DriverChoice, DriverPlaceholders,
    IdSource, Pick, PlatformRef, Resolution, Resource, ResourceKind,
};

fn null() -> ObjectId {
    ObjectId { bytes: vec![0; 20] }
}

fn id(byte: u8) -> ObjectId {
    ObjectId { bytes: vec![byte; 20] }
}

fn placeholders<'a>(rela_path: &'a [u8]) -> DriverPlaceholders<'a> {
    DriverPlaceholders {
        base_path: b"/tmp/base.tmp",
        ours_path: b"/tmp/ours.tmp",
        theirs_path: b"/tmp/theirs.tmp",
        marker_size: 7,
        rela_path,
        ancestor: Some(b"ancestor label"),
        current: Some(b"current label"),
        other: Some(b"other label"),
    }
}

#[test]
fn builtin_text_uses_binary_if_needed() {
    let drivers: Vec<Driver> = Vec::new();
    let platform_ref = PlatformRef {
        drivers: &drivers,
        driver: DriverChoice::BuiltIn(BuiltinDriver::Text),
        ancestor: Resource { id: null(), data: Data::Missing },
        current: Resource { id: id(1), data: Data::Buffer(b"ours") },
        other: Resource { id: id(2), data: Data::Buffer(b"theirs\0") },
    };
    assert_eq!(platform_ref.driver, DriverChoice::BuiltIn(BuiltinDriver::Text), "it starts out at the default text driver");
    assert_eq!(
        platform_ref.merge(None),
        BlobMerge::Picked(Pick::Ours, Resolution::Conflict),
        "it detected the binary buffer, ran the binary merge with default conflict resolution"
    );
    assert_eq!(
        platform_ref.merge(Some(BinaryResolveWith::Theirs)),
        BlobMerge::Picked(Pick::Theirs, Resolution::CompleteWithAutoResolvedConflict),
        "the auto-binary driver respects its own options"
    );
}

#[test]
fn same_binaries_do_not_count_as_conflicted() {
    let drivers: Vec<Driver> = Vec::new();
    let platform_ref = PlatformRef {
        drivers: &drivers,
        driver: DriverChoice::BuiltIn(BuiltinDriver::Text),
        ancestor: Resource { id: null(), data: Data::Missing },
        current: Resource { id: id(3), data: Data::Buffer(b"any\0") },
        other: Resource { id: id(3), data: Data::Buffer(b"any\0") },
    };
    assert_eq!(platform_ref.driver, DriverChoice::BuiltIn(BuiltinDriver::Text), "it starts out at the default text driver");
    let res = platform_ref.merge(None);
    assert_eq!(
        res,
        BlobMerge::Picked(Pick::Ours, Resolution::Complete),
        "as both are the same, it just picks ours, declaring it non-conflicting"
    );
    assert_eq!(
        platform_ref.builtin_merge(BuiltinDriver::Binary, None),
        res,
        "no way to work around it - calling the built-in binary merge is the same"
    );
}

#[test]
fn one_buffer_too_large() {
    let drivers: Vec<Driver> = Vec::new();
    let platform_ref = PlatformRef {
        drivers: &drivers,
        driver: DriverChoice::BuiltIn(BuiltinDriver::Text),
        ancestor: Resource { id: null(), data: Data::Buffer(b"just-set\n") },
        current: Resource { id: null(), data: Data::Buffer(b"b\n") },
        other: Resource { id: null(), data: Data::TooLarge { size: 12 } },
    };
    assert_eq!(platform_ref.other.data, Data::TooLarge { size: 12 });
    let res = platform_ref.merge(None);
    assert_eq!(
        res,
        BlobMerge::Picked(Pick::Ours, Resolution::Conflict),
        "this is the default for binary merges, which are used in this case"
    );
    assert_eq!(
        platform_ref.builtin_merge(BuiltinDriver::Text, None),
        res,
        "we can't enforce it, it will just default to using binary"
    );
    assert_eq!(
        platform_ref.driver_inputs(),
        Err(ResourceKind::OtherOrTheirs),
        "however, for external drivers, resources can still be too much to handle, until we learn how to stream them"
    );
}

#[test]
fn with_external() {
    let drivers = vec![Driver {
        name: b"b".to_vec(),
        command: b"for arg in  %O %A %B %L %P %S %X %Y %F; do echo $arg >> \"%A\"; done; cat \"%O\" \"%B\" >> \"%A\""
            .to_vec(),
        recursive: None,
    }];
    let platform_ref = PlatformRef {
        drivers: &drivers,
        driver: DriverChoice::Index(0),
        ancestor: Resource { id: null(), data: Data::Missing },
        current: Resource { id: id(4), data: Data::Buffer(b"ours") },
        other: Resource { id: id(5), data: Data::Buffer(b"theirs") },
    };
    assert_eq!(platform_ref.merge(None), BlobMerge::External(0), "merge drivers always merge ");
    assert_eq!(platform_ref.driver_inputs(), Ok((&b""[..], &b"ours"[..], &b"theirs"[..])));
    let line = driver_command_line(&drivers[0].command, &placeholders(b"b"));
    assert_eq!(
        String::from_utf8(line).unwrap(),
        "for arg in  /tmp/base.tmp /tmp/ours.tmp /tmp/theirs.tmp 7 'b' 'ancestor label' 'current label' 'other label' %F; \
         do echo $arg >> \"/tmp/ours.tmp\"; done; cat \"/tmp/base.tmp\" \"/tmp/theirs.tmp\" >> \"/tmp/ours.tmp\"",
        "we handle word-splitting and definitely pick-up what's written into the %A buffer"
    );

    let binary = PlatformRef {
        other: Resource { id: id(6), data: Data::Buffer(b"binary\0") },
        ..platform_ref
    };
    let res = binary.merge(None);
    assert_eq!(res, BlobMerge::External(0), "merge drivers deal with binary themselves");
    assert_eq!(binary.buffer_by_pick(Pick::Buffer), Ok(None), "This indicates the buffer must be read");
    let buf = b"merged by the driver";
    assert_eq!(
        binary.id_by_pick(Pick::Buffer, buf),
        IdSource::Write(buf),
        "the id is created by hashing the merge buffer"
    );
    assert_eq!(binary.driver_inputs(), Ok((&b""[..], &b"ours"[..], &b"binary\0"[..])));
}

#[test]
fn driver_command_line_quotes_labels_for_the_shell() {
    let mut p = placeholders(b"it's here!");
    p.current = None;
    let line = driver_command_line(b"%P %X %L%% %Q", &p);
    assert_eq!(line, b"'it'\\''s here'\\!'' '' 7%% %Q".to_vec());
}

#[test]
fn builtin_with_conflict() {
    let drivers: Vec<Driver> = Vec::new();
    let hex = |h: &str| ObjectId::from_hex(h.as_bytes()).unwrap();
    let non_existing_ancestor_id = hex("ffffffffffffffffffffffffffffffffffffffff");
    let ours_id = hex("424860eef4edb9f5a2dacbbd6dc8c2d2e7645035");
    let theirs_id = hex("228068dbe790983c15535164cd483eb77ade97e4");
    let mut platform_ref = PlatformRef {
        drivers: &drivers,
        driver: DriverChoice::BuiltIn(BuiltinDriver::Text),
        ancestor: Resource { id: non_existing_ancestor_id.clone(), data: Data::Buffer(b"b\n") },
        current: Resource { id: ours_id.clone(), data: Data::Buffer(b"ours") },
        other: Resource { id: theirs_id.clone(), data: Data::Buffer(b"theirs") },
    };
    assert_eq!(platform_ref.merge(None), BlobMerge::Text(BuiltinDriver::Text), "text is merged by the text driver");
    platform_ref.driver = DriverChoice::BuiltIn(BuiltinDriver::Union);
    assert_eq!(platform_ref.merge(None), BlobMerge::Text(BuiltinDriver::Union));

    platform_ref.driver = DriverChoice::BuiltIn(BuiltinDriver::Binary);
    let buf: Vec<u8> = Vec::new();
    let res = platform_ref.merge(None);
    assert_eq!(res, BlobMerge::Picked(Pick::Ours, Resolution::Conflict), "binary merges choose ours but conflict by default");
    assert!(buf.is_empty(), "it tells us where to get the content from");
    assert_eq!(platform_ref.buffer_by_pick(Pick::Ours).unwrap().unwrap(), b"ours", "getting access to the content is simplified");
    assert_eq!(
        platform_ref.id_by_pick(Pick::Ours, &buf),
        IdSource::Existing(ours_id.clone()),
        "there is no need to write a buffer here, it just returns one of our inputs"
    );

    for (expected, expected_pick, resolve, expected_id) in [
        (&b"ours"[..], Pick::Ours, BinaryResolveWith::Ours, ours_id),
        (&b"theirs"[..], Pick::Theirs, BinaryResolveWith::Theirs, theirs_id),
        (&b"b\n"[..], Pick::Ancestor, BinaryResolveWith::Ancestor, non_existing_ancestor_id.clone()),
    ] {
        let res = platform_ref.merge(Some(resolve));
        assert_eq!(res, BlobMerge::Picked(expected_pick, Resolution::CompleteWithAutoResolvedConflict));
        assert_eq!(platform_ref.buffer_by_pick(expected_pick).unwrap().unwrap(), expected);
        assert_eq!(platform_ref.id_by_pick(expected_pick, &buf), IdSource::Existing(expected_id));
    }
}
