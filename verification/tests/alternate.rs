use gix_plumbing::alternate::{chain, parse, visit, Entry, Visit};

fn paths(entries: &[Entry]) -> Vec<Vec<u8>> {
    entries.iter().map(|e| e.path.clone()).collect()
}

#[test]
fn comments_and_empty_lines_are_skipped() {
    let entries = parse(b"# a comment\n/a/objects\n\n../b/objects\n");
    assert_eq!(paths(&entries), vec![b"/a/objects".to_vec(), b"../b/objects".to_vec()]);
    assert_eq!(entries[1].original, b"../b/objects");
}

#[test]
fn quoted_entries_are_unquoted_and_may_hold_newlines() {
    let entries = parse(b"\"/with\\nnewline\"\n/plain");
    assert_eq!(paths(&entries), vec![b"/with\nnewline".to_vec(), b"/plain".to_vec()]);
    assert_eq!(entries[0].original, b"\"/with\\nnewline\"");
}

#[test]
fn invalid_quoting_falls_back_to_the_raw_line() {
    let entries = parse(b"\"unterminated\n/next");
    assert_eq!(paths(&entries), vec![b"\"unterminated".to_vec(), b"/next".to_vec()]);
}

#[test]
fn empty_input_has_no_entries() {
    assert!(parse(b"").is_empty());
    assert!(parse(b"\n\n#only\n").is_empty());
}

#[test]
fn visiting_detects_repeats_and_cycles() {
    let mut seen = Vec::new();
    assert_eq!(visit(&mut seen, b"/repo".to_vec(), None), Visit::New(0));
    assert_eq!(visit(&mut seen, b"/a".to_vec(), Some(0)), Visit::New(1));
    assert_eq!(visit(&mut seen, b"/b".to_vec(), Some(0)), Visit::New(2));
    assert_eq!(visit(&mut seen, b"/a".to_vec(), Some(2)), Visit::Skip, "seen on another chain");
    match visit(&mut seen, b"/repo".to_vec(), Some(1)) {
        Visit::Cycle(dirs) => assert_eq!(dirs, vec![b"/repo".to_vec(), b"/a".to_vec()]),
        other => panic!("expected a cycle, got {other:?}"),
    }
    assert_eq!(seen.len(), 3);
    assert_eq!(chain(&seen, 2), vec![2, 0]);
}
