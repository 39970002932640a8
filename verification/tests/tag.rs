use gix_plumbing::tag::{validated_name, Error, Kind, TagRef};

#[test]
fn only_dash() {
    assert!(validated_name(b"-").is_err());
}

#[test]
fn leading_dash() {
    assert!(validated_name(b"-hello").is_err());
}

#[test]
fn version() {
    for version in &["v1.0.0", "0.2.1", "0-alpha1"] {
        assert!(validated_name(version.as_bytes()).is_ok());
    }
}

#[test]
fn dash_and_invalid_names_give_distinct_errors() {
    assert!(matches!(validated_name(b"-hello"), Err(Error::StartsWithDash)));
    assert!(matches!(validated_name(b""), Err(Error::InvalidRefName(_))));
    assert!(matches!(validated_name(b"a..b"), Err(Error::InvalidRefName(_))));
    assert_eq!(validated_name(b"v1").unwrap(), b"v1");
}

fn sample<'a>(name: &'a [u8], message: &'a [u8], signature: Option<&'a [u8]>) -> TagRef<'a> {
    TagRef {
        target: b"ffffffffffffffffffffffffffffffffffffffff",
        target_kind: Kind::Commit,
        name,
        tagger: Some(b"Name <name@example.com> 1 +0000"),
        message,
        signature,
    }
}

#[test]
fn writes_headers_message_and_signature() {
    let tag = sample(b"v1", b"message\n", Some(b"-----BEGIN PGP SIGNATURE-----\n"));
    let mut out = Vec::new();
    tag.write_to(&mut out).unwrap();
    let expected: &[u8] = b"object ffffffffffffffffffffffffffffffffffffffff\ntype commit\ntag v1\ntagger Name <name@example.com> 1 +0000\n\nmessage\n\n-----BEGIN PGP SIGNATURE-----\n";
    assert_eq!(out, expected);
    assert_eq!(tag.size(), expected.len() as u64);
}

#[test]
fn a_message_of_newlines_gets_no_separating_line() {
    let tag = sample(b"v1", b"\n", None);
    let mut out = Vec::new();
    tag.write_to(&mut out).unwrap();
    let expected: &[u8] = b"object ffffffffffffffffffffffffffffffffffffffff\ntype commit\ntag v1\ntagger Name <name@example.com> 1 +0000\n\n";
    assert_eq!(out, expected);
    assert_eq!(tag.size(), expected.len() as u64);
}

#[test]
fn invalid_names_write_nothing() {
    let tag = sample(b"-v1", b"m", None);
    let mut out = b"keep".to_vec();
    assert!(matches!(tag.write_to(&mut out), Err(Error::StartsWithDash)));
    assert_eq!(out, b"keep");
}

#[test]
fn kind_names() {
    assert_eq!(Kind::Tree.as_bytes(), b"tree");
    assert_eq!(Kind::Blob.as_bytes(), b"blob");
    assert_eq!(Kind::Commit.as_bytes(), b"commit");
    assert_eq!(Kind::Tag.as_bytes(), b"tag");
}
