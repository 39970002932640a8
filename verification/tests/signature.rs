use gix_plumbing::signature::sign::{gpg_signature, is_literal_ssh_key, strip_cr_before_lf, Error as SignError};
use gix_plumbing::signature::verify::{
    find_principals, human_output, parse_gpg_output, parse_ssh_output, verifier_format, Error, Status, TrustLevel,
};
use gix_plumbing::signature::Format;

#[test]
fn parses_gpg_status() {
    let outcome = parse_gpg_output(
        Format::OpenPgp,
        b"Good signature".to_vec(),
        b"[GNUPG:] GOODSIG 0123456789ABCDEF Fixture Signer\n\
          [GNUPG:] VALIDSIG FINGERPRINT 0 0 0 0 0 0 0 0 PRIMARY\n\
          [GNUPG:] TRUST_FULLY 0 pgp\n"
            .to_vec(),
    );
    assert_eq!(outcome.status, Status::Good, "the signature is good");
    assert_eq!(outcome.trust_level, TrustLevel::Fully, "the key is fully trusted");
    assert_eq!(
        outcome.signer.as_deref(),
        Some(b"Fixture Signer".as_slice()),
        "the signer identity is parsed"
    );
    assert_eq!(
        outcome.fingerprint.as_deref(),
        Some(b"FINGERPRINT".as_slice()),
        "the signing-key fingerprint is parsed"
    );
    assert_eq!(
        outcome.primary_key_fingerprint.as_deref(),
        Some(b"PRIMARY".as_slice()),
        "the primary-key fingerprint is parsed"
    );
}

#[test]
fn parses_ssh_output() {
    let outcome = parse_ssh_output(
        b"Good \"git\" signature for Fixture Signer with ED25519 key SHA256:fixture\n".to_vec(),
        Some(b"Fixture Signer".to_vec()),
        TrustLevel::Fully,
    );
    assert_eq!(outcome.format, Format::Ssh, "the signature format is SSH");
    assert_eq!(outcome.status, Status::Good, "Git's success output is recognized");
    assert_eq!(outcome.trust_level, TrustLevel::Fully, "the supplied trust level is retained");
    assert_eq!(outcome.signer, Some(b"Fixture Signer".to_vec()), "the supplied signer is retained");
    assert_eq!(outcome.key, Some(b"SHA256:fixture".to_vec()), "the key fingerprint is parsed");
    assert_eq!(outcome.fingerprint, outcome.key, "the key and fingerprint are identical for SSH");
    assert_eq!(outcome.primary_key_fingerprint, None, "SSH has no primary-key fingerprint");
    assert_eq!(outcome.output, outcome.raw_output, "SSH has no separate machine-readable output");
    assert!(!outcome.is_valid(), "parsing alone does not establish validity");

    assert_eq!(
        parse_ssh_output(b"invalid signature".to_vec(), None, TrustLevel::Undefined).status,
        Status::Bad,
        "all output not starting with Git's success marker is bad"
    );
}

#[test]
fn parses_signature_formats_and_trust_levels() {
    for (signature, expected) in [
        (b"-----BEGIN PGP SIGNATURE-----".as_slice(), Format::OpenPgp),
        (b"-----BEGIN PGP MESSAGE-----".as_slice(), Format::OpenPgp),
        (b"-----BEGIN SIGNED MESSAGE-----".as_slice(), Format::X509),
        (b"-----BEGIN SSH SIGNATURE-----".as_slice(), Format::Ssh),
    ] {
        assert_eq!(Format::from_signature(signature), Some(expected));
    }
    assert_eq!(Format::from_signature(b"not a signature"), None);

    for (name, expected) in [
        (b"undefined".as_slice(), TrustLevel::Undefined),
        (b"NEVER".as_slice(), TrustLevel::Never),
        (b"Marginal".as_slice(), TrustLevel::Marginal),
        (b"fully".as_slice(), TrustLevel::Fully),
        (b"ultimate".as_slice(), TrustLevel::Ultimate),
    ] {
        assert_eq!(TrustLevel::from_bytes(name), Some(expected));
    }
    assert_eq!(TrustLevel::from_bytes(b"unknown"), None);
}

#[test]
fn rejects_unsupported_and_mismatched_formats_before_running_a_program() {
    assert_eq!(
        verifier_format(b"not a signature", Format::X509),
        Err(Error::UnsupportedFormat)
    );
    assert_eq!(
        verifier_format(b"-----BEGIN SSH SIGNATURE-----\n", Format::X509),
        Err(Error::FormatMismatch {
            program_format: Format::X509,
            signature_format: Format::Ssh,
        }),
        "the mismatch identifies both the configured program and detected signature formats"
    );
}

#[test]
fn rejects_good_ssh_output_from_a_failed_verifier() {
    let outcome = parse_ssh_output(
        b"Good \"git\" signature for fixture with ED25519 key SHA256:fixture\n".to_vec(),
        Some(b"fixture".to_vec()),
        TrustLevel::Fully,
    )
    .with_validity(false, TrustLevel::Undefined);
    assert_eq!(outcome.status, Status::Good, "the verifier's text is retained");
    assert!(!outcome.is_valid(), "a failed verifier cannot produce a valid outcome");
}

#[test]
fn a_successful_good_and_trusted_verification_is_valid() {
    let outcome = parse_ssh_output(b"Good \"git\" signature for a with RSA key X\n".to_vec(), None, TrustLevel::Fully)
        .with_validity(true, TrustLevel::Marginal);
    assert!(outcome.is_valid());
    let outcome = parse_ssh_output(b"Good \"git\" signature for a with RSA key X\n".to_vec(), None, TrustLevel::Fully)
        .with_validity(true, TrustLevel::Ultimate);
    assert!(!outcome.is_valid(), "trust below the minimum is not enough");
}

#[test]
fn a_second_signature_status_makes_the_outcome_an_error() {
    let outcome = parse_gpg_output(
        Format::OpenPgp,
        Vec::new(),
        b"[GNUPG:] GOODSIG KEY Someone\r\n[GNUPG:] BADSIG KEY Other\n[GNUPG:] TRUST_MARGINAL\n".to_vec(),
    );
    assert_eq!(outcome.status, Status::Error);
    assert_eq!(outcome.key, None);
    assert_eq!(outcome.signer, None);
    assert_eq!(outcome.trust_level, TrustLevel::Marginal);
}

#[test]
fn ssh_human_output_and_principals() {
    assert_eq!(human_output(b"out".to_vec(), b"err".to_vec()), b"outerr".to_vec());
    assert_eq!(human_output(Vec::new(), b"err".to_vec()), b"err".to_vec());
    assert_eq!(human_output(b"out".to_vec(), Vec::new()), b"out".to_vec());
    assert_eq!(
        find_principals(b" alice \n\n  \nbob\r\n"),
        vec![b"alice".to_vec(), b"bob".to_vec()]
    );
}

#[test]
fn literal_ssh_keys() {
    assert_eq!(is_literal_ssh_key(b"key::ssh-ed25519 AAAA"), Some(b"ssh-ed25519 AAAA".as_slice()));
    assert_eq!(is_literal_ssh_key(b"ssh-rsa AAAA"), Some(b"ssh-rsa AAAA".as_slice()));
    assert_eq!(is_literal_ssh_key(b"/home/user/.ssh/id"), None);
}

#[test]
fn crlf_is_normalized() {
    assert_eq!(strip_cr_before_lf(b"a\r\nb\rc\r\r\n\r".to_vec()), b"a\nb\rc\r\n\r".to_vec());
}

#[test]
fn gpg_signing_needs_confirmation() {
    assert_eq!(
        gpg_signature(b"gpg".to_vec(), true, b"SIG\r\n".to_vec(), b"[GNUPG:] SIG_CREATED D 1\n".to_vec()),
        Ok(b"SIG\n".to_vec())
    );
    assert_eq!(
        gpg_signature(b"gpg".to_vec(), true, b"SIG".to_vec(), b"nothing\n".to_vec()),
        Err(SignError::MissingSignatureConfirmation)
    );
    assert_eq!(
        gpg_signature(b"gpg".to_vec(), false, b"SIG".to_vec(), b"boom".to_vec()),
        Err(SignError::Failed { program: b"gpg".to_vec(), output: b"boom".to_vec() })
    );
}
