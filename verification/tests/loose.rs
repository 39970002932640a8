use gix_plumbing::hash::{HashKind, ObjectId};
use gix_plumbing::loose::{hash_path, BodyRead, Error, Prefix, Store};

fn store(path: &str, limit: Option<usize>) -> Store {
    Store { path: path.as_bytes().to_vec(), object_hash: HashKind::Sha1, alloc_limit_bytes: limit }
}

#[test]
fn objects_lie_in_directories_named_by_their_first_two_digits() {
    let id = ObjectId { bytes: vec![0xab; 20] };
    let expected = format!("objects/ab/{}", "ab".repeat(19));
    assert_eq!(store("objects", None).object_path(&id), expected.as_bytes());
    assert_eq!(store("objects/", None).object_path(&id), expected.as_bytes(), "no doubled slash");
    assert_eq!(hash_path(&id, Vec::new()), expected["objects/".len()..].as_bytes());
}

#[test]
fn the_alloc_limit_is_inclusive() {
    assert!(store("o", Some(10)).ensure_in_alloc_limit(10).is_ok());
    assert!(matches!(store("o", Some(10)).ensure_in_alloc_limit(11), Err(Error::OutOfMemory { size: 11 })));
    assert!(store("o", None).ensure_in_alloc_limit(u64::MAX).is_ok());
}

fn id(first: u8, second: u8) -> ObjectId {
    let mut bytes = vec![0x11; 20];
    bytes[0] = first;
    bytes[1] = second;
    ObjectId { bytes }
}

fn prefix(first: u8, second: u8, hex_len: usize) -> Prefix {
    let mut bytes = vec![0; 20];
    bytes[0] = first;
    bytes[1] = second;
    Prefix { bytes: ObjectId { bytes }, hex_len }
}

#[test]
fn prefixes_match_by_hex_digits_including_a_half_byte() {
    let p = prefix(0xab, 0xc0, 3);
    assert!(p.matches(&id(0xab, 0xc7)));
    assert!(!p.matches(&id(0xab, 0xd0)));
    assert!(prefix(0xab, 0xc7, 4).matches(&id(0xab, 0xc7)));
    assert!(!prefix(0xab, 0xc7, 4).matches(&id(0xab, 0xc8)));
}

#[test]
fn a_prefix_names_one_object_none_or_too_many() {
    let s = store("objects", None);
    let listed = vec![id(0xab, 0xc1), id(0xab, 0xd0), id(0xab, 0xc2)];
    let mut no_set: Option<Vec<ObjectId>> = None;
    assert_eq!(s.lookup_prefix(&prefix(0xab, 0xd0, 4), &listed, &mut no_set), Some(Ok(id(0xab, 0xd0))));
    assert_eq!(s.lookup_prefix(&prefix(0xab, 0xc0, 3), &listed, &mut no_set), Some(Err(())));
    assert_eq!(s.lookup_prefix(&prefix(0xab, 0xe0, 3), &listed, &mut no_set), None);
    assert!(no_set.is_none());
}

#[test]
fn candidates_collect_every_match_once() {
    let s = store("objects", None);
    let listed = vec![id(0xab, 0xc1), id(0xab, 0xd0), id(0xab, 0xc2)];
    let mut set = Some(Vec::new());
    assert_eq!(s.lookup_prefix(&prefix(0xab, 0xc0, 3), &listed, &mut set), Some(Err(())));
    assert_eq!(set.as_ref().unwrap().len(), 2);
    let mut set = Some(vec![id(0xab, 0xd0)]);
    assert_eq!(s.lookup_prefix(&prefix(0xab, 0xd0, 4), &listed, &mut set), Some(Ok(id(0xab, 0xd0))), "an id already held counts once");
    assert_eq!(set.unwrap().len(), 1);
    let mut set = Some(Vec::new());
    assert_eq!(s.lookup_prefix(&prefix(0xff, 0, 4), &listed, &mut set), None);
}

#[test]
fn the_directory_of_a_prefix_is_named_by_its_first_two_digits() {
    assert_eq!(store("objects", None).prefix_directory(&prefix(0xab, 0xc0, 3)), b"objects/ab".to_vec());
}

#[test]
fn small_objects_inflate_at_once() {
    let s = store("o", None);
    assert_eq!(s.check_first_inflate(b"o/ab/cd", 5, 8, 13, true).unwrap(), BodyRead::Complete);
    assert!(matches!(
        s.check_first_inflate(b"o/ab/cd", 5, 8, 12, true),
        Err(Error::SizeMismatch { actual: 12, expected: 13, .. })
    ));
}

#[test]
fn large_objects_continue_after_the_header() {
    let s = store("o", None);
    assert_eq!(
        s.check_first_inflate(b"p", 100, 8, 32, false).unwrap(),
        BodyRead::Continue { prefix_len: 24, size: 100 }
    );
    assert!(Store::check_inflated_size(b"p", 100, 24, 76).is_ok());
    assert!(matches!(
        Store::check_inflated_size(b"p", 100, 24, 70),
        Err(Error::SizeMismatch { actual: 94, expected: 100, .. })
    ));
}

#[test]
fn first_inflations_that_do_not_fit_the_header_fail() {
    let s = store("o", Some(50));
    assert!(matches!(s.check_first_inflate(b"p", 51, 8, 32, false), Err(Error::OutOfMemory { size: 51 })));
    assert!(matches!(
        s.check_first_inflate(b"p", 10, 8, 4, false),
        Err(Error::SizeMismatch { actual: 4, expected: 8, .. })
    ));
    assert!(matches!(
        s.check_first_inflate(b"p", 10, 8, 30, false),
        Err(Error::SizeMismatch { actual: 22, expected: 10, path }) if path == b"p".to_vec()
    ));
}
