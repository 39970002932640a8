use gix_plumbing::protocol::Ref;
use gix_plumbing::hash::HashKind;
use gix_plumbing::protocol::{
    extract_object_hash, parse_v1_ack_or_shallow_or_assume_pack, shallow_update_from_line, Acknowledgement, Error,
    Protocol, RefMapError, RefPrefixes, Response, ShallowUpdate, WantedRef,
};

fn id(hex: &str) -> gix_plumbing::hash::ObjectId {
    gix_plumbing::hash::ObjectId::from_hex(hex.as_bytes()).unwrap()
}

#[test]
fn extend_preserves_first_seen_order_and_deduplicates_prefixes() {
    let mut prefixes = RefPrefixes::new();
    prefixes.extend(
        [
            "refs/tags",
            "HEAD",
            "main",
            "refs/heads/main",
            "refs/tags",
            "HEAD",
            "refs/heads/feature",
            "refs/heads/main",
        ]
        .into_iter()
        .map(|prefix| prefix.as_bytes().to_vec())
        .collect(),
    );

    assert_eq!(
        prefixes.into_args(),
        [
            "ref-prefix refs/tags",
            "ref-prefix HEAD",
            "ref-prefix main",
            "ref-prefix refs/heads/main",
            "ref-prefix refs/heads/feature"
        ]
        .into_iter()
        .map(|s| s.as_bytes().to_vec())
        .collect::<Vec<_>>()
    );
}

#[test]
fn acknowledgements_are_parsed() {
    let hex = "0123456789abcdef0123456789abcdef01234567";
    assert_eq!(Acknowledgement::from_line("ready\n"), Ok(Acknowledgement::Ready));
    assert_eq!(Acknowledgement::from_line("NAK"), Ok(Acknowledgement::Nak));
    assert_eq!(
        Acknowledgement::from_line(&format!("ACK {hex}")),
        Ok(Acknowledgement::Common(id(hex)))
    );
    assert_eq!(
        Acknowledgement::from_line(&format!("ACK {hex} common\n")),
        Ok(Acknowledgement::Common(id(hex)))
    );
    assert_eq!(
        Acknowledgement::from_line(&format!("ACK {hex} ready")),
        Ok(Acknowledgement::Ready)
    );
    assert_eq!(
        Acknowledgement::from_line(&format!("ACK {hex} continue")),
        Err(Error::UnknownLineType { line: format!("ACK {hex} continue") })
    );
    assert_eq!(
        Acknowledgement::from_line("ACK"),
        Err(Error::UnknownLineType { line: "ACK".into() })
    );
    assert_eq!(
        Acknowledgement::from_line("ACK nothex"),
        Err(Error::UnknownLineType { line: "ACK nothex".into() })
    );
}

#[test]
fn shallow_updates_and_wanted_refs_are_parsed() {
    let hex = "0123456789abcdef0123456789abcdef01234567";
    assert_eq!(
        shallow_update_from_line(&format!("shallow {hex}\n")),
        Ok(ShallowUpdate::Shallow(id(hex)))
    );
    assert_eq!(
        shallow_update_from_line(&format!("unshallow {hex}")),
        Ok(ShallowUpdate::Unshallow(id(hex)))
    );
    assert!(shallow_update_from_line(&format!("deepen {hex}")).is_err());
    let wanted = WantedRef::from_line(&format!("{hex} refs/heads/main\n")).unwrap();
    assert_eq!(wanted.id, id(hex));
    assert_eq!(wanted.path, b"refs/heads/main".to_vec());
    assert!(WantedRef::from_line("refs/heads/main").is_err());
}

#[test]
fn v1_lines_are_sorted_into_acks_shallows_or_the_pack() {
    let hex = "0123456789abcdef0123456789abcdef01234567";
    let mut acks = Vec::new();
    let mut shallows = Vec::new();
    assert!(!parse_v1_ack_or_shallow_or_assume_pack(&mut acks, &mut shallows, &format!("ACK {hex} common")));
    assert!(!parse_v1_ack_or_shallow_or_assume_pack(&mut acks, &mut shallows, &format!("ACK {hex}")));
    assert_eq!(acks, vec![Acknowledgement::Common(id(hex))], "a common id is acknowledged once");
    assert!(!parse_v1_ack_or_shallow_or_assume_pack(&mut acks, &mut shallows, "NAK"));
    assert!(!parse_v1_ack_or_shallow_or_assume_pack(&mut acks, &mut shallows, &format!("shallow {hex}")));
    assert_eq!(shallows, vec![ShallowUpdate::Shallow(id(hex))]);
    assert!(parse_v1_ack_or_shallow_or_assume_pack(&mut acks, &mut shallows, "PACK..."));
    assert_eq!(acks.len(), 2);
}

#[test]
fn required_features_depend_on_the_version() {
    assert_eq!(Response::check_required_features(Protocol::V2, &[]), Ok(()));
    assert_eq!(
        Response::check_required_features(Protocol::V1, &[]),
        Err(Error::MissingServerCapability { feature: "multi_ack_detailed" })
    );
    assert_eq!(
        Response::check_required_features(Protocol::V0, &[("multi_ack_detailed", None)]),
        Err(Error::MissingServerCapability { feature: "side-band OR side-band-64k" })
    );
    assert_eq!(
        Response::check_required_features(Protocol::V1, &[("multi_ack_detailed", None), ("side-band-64k", None)]),
        Ok(())
    );
    let mut response = Response::new(Vec::new(), Vec::new(), Vec::new(), true);
    assert!(response.has_pack());
    response.append_v1_shallow_updates(Some(vec![ShallowUpdate::Unshallow(id("0123456789abcdef0123456789abcdef01234567"))]));
    assert_eq!(response.shallow_updates().len(), 1);
}

#[test]
fn refs_unpack_into_name_target_and_peeled_object() {
    let id = |b: u8| gix_plumbing::hash::ObjectId { bytes: vec![b; 20] };
    let peeled = Ref::Peeled { full_ref_name: b"refs/tags/v1".to_vec(), tag: id(1), object: id(2) };
    assert_eq!(peeled.unpack(), (b"refs/tags/v1".as_slice(), Some(id(1)), Some(id(2))));
    let direct = Ref::Direct { full_ref_name: b"refs/heads/main".to_vec(), object: id(3) };
    assert_eq!(direct.unpack(), (b"refs/heads/main".as_slice(), Some(id(3)), None));
    let symbolic = Ref::Symbolic { full_ref_name: b"HEAD".to_vec(), target: b"refs/heads/main".to_vec(), tag: None, object: id(4) };
    assert_eq!(symbolic.unpack(), (b"HEAD".as_slice(), Some(id(4)), None));
    let through_tag =
        Ref::Symbolic { full_ref_name: b"HEAD".to_vec(), target: b"refs/tags/v1".to_vec(), tag: Some(id(5)), object: id(6) };
    assert_eq!(through_tag.unpack(), (b"HEAD".as_slice(), Some(id(5)), Some(id(6))));
    let unborn = Ref::Unborn { full_ref_name: b"HEAD".to_vec(), target: b"refs/heads/main".to_vec() };
    assert_eq!(unborn.unpack(), (b"HEAD".as_slice(), Some(id(0)), None));
}

#[test]
fn the_object_format_defaults_to_sha1() {
    assert_eq!(extract_object_hash(None).unwrap(), HashKind::Sha1);
    assert_eq!(extract_object_hash(Some(b"sha256")).unwrap(), HashKind::Sha256);
    assert_eq!(extract_object_hash(Some(b"SHA-1")).unwrap(), HashKind::Sha1);
    match extract_object_hash(Some(b"md5")) {
        Err(RefMapError::UnknownObjectFormat { format }) => assert_eq!(format, b"md5".to_vec()),
        other => panic!("expected an unknown object format, got {other:?}"),
    }
}
