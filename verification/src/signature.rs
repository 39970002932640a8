//! Object signatures: recognizing their format, and judging what the external signer and
//! verifier programs report. Running those programs is left to the caller.
use vstd::prelude::*;

use crate::bytes::{slice_starts_with, starts_with};

pub mod sign;
pub mod verify;

verus! {

// ---------------------------------------------------------------------------------------------
// The byte strings the formats are recognized by.

/// `-----BEGIN PGP SIGNATURE-----`
pub open spec fn pgp_signature_marker() -> Seq<u8> {
    seq![45u8, 45, 45, 45, 45, 66, 69, 71, 73, 78, 32, 80, 71, 80, 32, 83, 73, 71, 78, 65, 84, 85, 82, 69, 45, 45, 45, 45, 45]
}

/// `-----BEGIN PGP MESSAGE-----`
pub open spec fn pgp_message_marker() -> Seq<u8> {
    seq![45u8, 45, 45, 45, 45, 66, 69, 71, 73, 78, 32, 80, 71, 80, 32, 77, 69, 83, 83, 65, 71, 69, 45, 45, 45, 45, 45]
}

/// `-----BEGIN SIGNED MESSAGE-----`
pub open spec fn x509_marker() -> Seq<u8> {
    seq![45u8, 45, 45, 45, 45, 66, 69, 71, 73, 78, 32, 83, 73, 71, 78, 69, 68, 32, 77, 69, 83, 83, 65, 71, 69, 45, 45, 45, 45, 45]
}

/// `-----BEGIN SSH SIGNATURE-----`
pub open spec fn ssh_marker() -> Seq<u8> {
    seq![45u8, 45, 45, 45, 45, 66, 69, 71, 73, 78, 32, 83, 83, 72, 32, 83, 73, 71, 78, 65, 84, 85, 82, 69, 45, 45, 45, 45, 45]
}

// ---------------------------------------------------------------------------------------------
// Formats.

/// The format of a signature, and with it the kind of program that verifies it.
#[derive(Debug, Clone, Copy, PartialEq, Eq, Structural)]
pub enum Format {
    /// An OpenPGP signature, as made by GPG.
    OpenPgp,
    /// An X.509 signature, as made by GPGSM.
    X509,
    /// An SSH signature, as made by `ssh-keygen`.
    Ssh,
}

/// The format that `signature` is written in, by the marker it starts with.
pub open spec fn format_of(signature: Seq<u8>) -> Option<Format> {
    if starts_with(signature, pgp_signature_marker()) || starts_with(signature, pgp_message_marker()) {
        Some(Format::OpenPgp)
    } else if starts_with(signature, x509_marker()) {
        Some(Format::X509)
    } else if starts_with(signature, ssh_marker()) {
        Some(Format::Ssh)
    } else {
        None
    }
}

impl Format {
    /// Detect the format of `signature` by the marker it starts with, or `None` if it is none of them.
    pub fn from_signature(signature: &[u8]) -> (r: Option<Format>)
        ensures
            r == format_of(signature@),
    {
        let pgp_signature: [u8; 29] = [
            45, 45, 45, 45, 45, 66, 69, 71, 73, 78, 32, 80, 71, 80, 32, 83, 73, 71, 78, 65, 84, 85, 82, 69, 45, 45, 45, 45, 45,
        ];
        let pgp_message: [u8; 27] = [
            45, 45, 45, 45, 45, 66, 69, 71, 73, 78, 32, 80, 71, 80, 32, 77, 69, 83, 83, 65, 71, 69, 45, 45, 45, 45, 45,
        ];
        let x509: [u8; 30] = [
            45, 45, 45, 45, 45, 66, 69, 71, 73, 78, 32, 83, 73, 71, 78, 69, 68, 32, 77, 69, 83, 83, 65, 71, 69, 45, 45, 45, 45, 45,
        ];
        let ssh: [u8; 29] = [
            45, 45, 45, 45, 45, 66, 69, 71, 73, 78, 32, 83, 83, 72, 32, 83, 73, 71, 78, 65, 84, 85, 82, 69, 45, 45, 45, 45, 45,
        ];
        assert(pgp_signature@ == pgp_signature_marker());
        assert(pgp_message@ == pgp_message_marker());
        assert(x509@ == x509_marker());
        assert(ssh@ == ssh_marker());
        if slice_starts_with(signature, &pgp_signature) || slice_starts_with(signature, &pgp_message) {
            Some(Format::OpenPgp)
        } else if slice_starts_with(signature, &x509) {
            Some(Format::X509)
        } else if slice_starts_with(signature, &ssh) {
            Some(Format::Ssh)
        } else {
            None
        }
    }
}

} // verus!
