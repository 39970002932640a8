use gix_plumbing::pathspec::{
    Assignment, Defaults, Error, MagicSignature, Pattern, SearchMode, State, EXCLUDE, ICASE, MUST_BE_DIR, TOP,
};

fn defaults() -> Defaults {
    Defaults { signature: MagicSignature { bits: 0 }, search_mode: SearchMode::ShellGlob, literal: false }
}

#[test]
fn plain_paths_and_directories() {
    let p = Pattern::from_bytes(b"a/b", defaults()).unwrap();
    assert_eq!(p.path, b"a/b".to_vec());
    assert_eq!(p.signature.bits, 0);
    assert_eq!(p.search_mode, SearchMode::ShellGlob);
    let p = Pattern::from_bytes(b"dir/", defaults()).unwrap();
    assert_eq!(p.path, b"dir".to_vec());
    assert!(p.signature.contains(MUST_BE_DIR));
    assert_eq!(Pattern::from_bytes(b"", defaults()), Err(Error::EmptyString));
    let nil = Pattern::from_bytes(b":", defaults()).unwrap();
    assert!(nil.nil);
}

#[test]
fn short_and_long_magic() {
    let p = Pattern::from_bytes(b":/!path", defaults()).unwrap();
    assert_eq!(p.signature.bits, TOP | EXCLUDE);
    assert_eq!(p.path, b"path".to_vec());
    let p = Pattern::from_bytes(b":(top,icase,,literal)x", defaults()).unwrap();
    assert_eq!(p.signature.bits, TOP | ICASE);
    assert_eq!(p.search_mode, SearchMode::Literal);
    assert_eq!(p.path, b"x".to_vec());
    assert_eq!(
        Pattern::from_bytes(b":(literal,glob)x", defaults()),
        Err(Error::IncompatibleSearchModes)
    );
    assert_eq!(
        Pattern::from_bytes(b":(nope)x", defaults()),
        Err(Error::InvalidKeyword { keyword: b"nope".to_vec() })
    );
    assert_eq!(Pattern::from_bytes(b":(top", defaults()), Err(Error::MissingClosingParenthesis));
    assert_eq!(Pattern::from_bytes(b":#x", defaults()), Err(Error::Unimplemented { short_keyword: b'#' }));
}

#[test]
fn attributes() {
    let p = Pattern::from_bytes(b":(attr:a -b !c d=v\\,x)path", defaults()).unwrap();
    assert_eq!(
        p.attributes,
        vec![
            Assignment { name: b"a".to_vec(), state: State::Listed },
            Assignment { name: b"b".to_vec(), state: State::Unset },
            Assignment { name: b"c".to_vec(), state: State::Unspecified },
            Assignment { name: b"d".to_vec(), state: State::Value(b"v,x".to_vec()) },
        ]
    );
    assert_eq!(
        Pattern::from_bytes(b":(attr:a=b\\)x", defaults()).unwrap_err(),
        Error::TrailingEscapeCharacter
    );
    assert_eq!(
        Pattern::from_bytes(b":(attr:a=$)x", defaults()),
        Err(Error::InvalidAttributeValue { character: b'$' })
    );
    assert_eq!(
        Pattern::from_bytes(b":(attr:-)x", defaults()),
        Err(Error::InvalidAttribute { attribute: Vec::new() })
    );
    assert_eq!(Pattern::from_bytes(b":(attr:)x", defaults()), Err(Error::EmptyAttribute));
    assert_eq!(
        Pattern::from_bytes(b":(attr:a,attr:b)x", defaults()),
        Err(Error::MultipleAttributeSpecifications)
    );
}

#[test]
fn literal_defaults_take_the_input_verbatim() {
    let d = Defaults { signature: MagicSignature { bits: ICASE }, search_mode: SearchMode::ShellGlob, literal: true };
    let p = Pattern::from_bytes(b":(top)x/", d).unwrap();
    assert_eq!(p, Pattern::from_literal(b":(top)x/", MagicSignature { bits: ICASE }));
    assert_eq!(p.search_mode, SearchMode::Literal);
    assert_eq!(p.path, b":(top)x/".to_vec());
    let glob = Defaults { signature: MagicSignature { bits: 0 }, search_mode: SearchMode::PathAwareGlob, literal: false };
    assert_eq!(Pattern::from_bytes(b"x", glob).unwrap().search_mode, SearchMode::PathAwareGlob);
}
