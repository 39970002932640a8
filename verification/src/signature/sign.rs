//! Judging what a signing program reports, and preparing what it is handed.
use vstd::prelude::*;

use crate::bytes::{lines, lines_spec, slice_starts_with, starts_with};

verus! {

/// The error returned when signing an object, as far as it follows from what the signer reported.
#[derive(Debug, Clone, PartialEq, Eq)]
pub enum Error {
    /// No key, identity or key path was configured.
    MissingSigningKey,
    /// The signing program `program` failed and printed `output` to its standard error.
    Failed { program: Vec<u8>, output: Vec<u8> },
    /// The OpenPGP/X.509 signer did not report `SIG_CREATED`.
    MissingSignatureConfirmation,
    /// The SSH signer produced no signature file.
    MissingSshSignature,
}

/// `key::`, the prefix of a literal SSH key.
pub open spec fn literal_key_prefix() -> Seq<u8> {
    seq![107u8, 101, 121, 58, 58]
}

/// `ssh-`, the start of an SSH public key.
pub open spec fn ssh_key_start() -> Seq<u8> {
    seq![115u8, 115, 104, 45]
}

/// `[GNUPG:] SIG_CREATED `, with which GPG and GPGSM confirm a signature.
pub open spec fn sig_created_marker() -> Seq<u8> {
    seq![91u8, 71, 78, 85, 80, 71, 58, 93, 32, 83, 73, 71, 95, 67, 82, 69, 65, 84, 69, 68, 32]
}

/// The SSH public key that `key` holds in Git's literal-key syntax, if it is one.
pub open spec fn literal_ssh_key(key: Seq<u8>) -> Option<Seq<u8>> {
    if starts_with(key, literal_key_prefix()) {
        Some(key.subrange(5, key.len() as int))
    } else if starts_with(key, ssh_key_start()) {
        Some(key)
    } else {
        None
    }
}

/// Return the SSH public key encoded by Git's literal-key syntax.
///
/// A literal key either starts with `key::`, in which case the prefix is removed, or directly with `ssh-`, in which
/// case it is returned unchanged. All other values are considered paths.
pub fn is_literal_ssh_key(key: &[u8]) -> (r: Option<&[u8]>)
    ensures
        match r {
            Some(k) => literal_ssh_key(key@) == Some(k@),
            None => literal_ssh_key(key@) is None,
        },
{
    let prefix: [u8; 5] = [107, 101, 121, 58, 58];
    let start: [u8; 4] = [115, 115, 104, 45];
    assert(prefix@ == literal_key_prefix());
    assert(start@ == ssh_key_start());
    if slice_starts_with(key, &prefix) {
        Some(&key[5..key.len()])
    } else if slice_starts_with(key, &start) {
        Some(key)
    } else {
        None
    }
}

/// `true` if byte `i` of `input` is a carriage return that directly precedes a line feed.
pub open spec fn is_cr_before_lf(input: Seq<u8>, i: int) -> bool {
    input[i] == 13 && i + 1 < input.len() && input[i + 1] == 10
}

/// The first `n` bytes of `input` without the carriage returns that directly precede a line feed.
pub open spec fn strip_cr_before_lf_upto(input: Seq<u8>, n: nat) -> Seq<u8>
    decreases n,
{
    if n == 0 {
        seq![]
    } else {
        let rest = strip_cr_before_lf_upto(input, (n - 1) as nat);
        if is_cr_before_lf(input, n - 1) {
            rest
        } else {
            rest.push(input[n - 1])
        }
    }
}

/// Normalize signer-produced CRLF line endings to LF before embedding the signature in an object.
///
/// This matches Git and keeps signed object bytes independent of the platform on which the signer ran.
pub fn strip_cr_before_lf(input: Vec<u8>) -> (r: Vec<u8>)
    ensures
        r@ == strip_cr_before_lf_upto(input@, input@.len()),
{
    let mut output: Vec<u8> = Vec::with_capacity(input.len());
    let mut i: usize = 0;
    while i < input.len()
        invariant
            i <= input.len(),
            output@ == strip_cr_before_lf_upto(input@, i as nat),
        decreases input.len() - i,
    {
        let byte = input[i];
        if !(byte == 13 && i + 1 < input.len() && input[i + 1] == 10) {
            output.push(byte);
        }
        i += 1;
    }
    output
}

/// Check that a signing key was configured.
pub fn check_signing_key(signing_key: &[u8]) -> (r: Result<(), Error>)
    ensures
        r is Ok <==> signing_key@.len() > 0,
        r matches Err(e) ==> e == Error::MissingSigningKey,
{
    if signing_key.len() == 0 {
        Err(Error::MissingSigningKey)
    } else {
        Ok(())
    }
}

/// `true` if some line of `stderr` confirms that GPG or GPGSM created the signature.
pub open spec fn confirms_signature(stderr: Seq<u8>) -> bool {
    exists|i: int| 0 <= i < lines_spec(stderr).len() && starts_with(#[trigger] lines_spec(stderr)[i], sig_created_marker())
}

/// Take the signature from what GPG or GPGSM (`program`) reported: the signature on its standard
/// output with CRLF normalized to LF, once the program succeeded and confirmed the signature.
pub fn gpg_signature(program: Vec<u8>, success: bool, stdout: Vec<u8>, stderr: Vec<u8>) -> (r: Result<Vec<u8>, Error>)
    ensures
        match r {
            Ok(sig) => success && confirms_signature(stderr@) && sig@ == strip_cr_before_lf_upto(
                stdout@,
                stdout@.len(),
            ),
            Err(Error::Failed { program: p, output }) => !success && p@ == program@ && output@ == stderr@,
            Err(Error::MissingSignatureConfirmation) => success && !confirms_signature(stderr@),
            Err(_) => false,
        },
{
    if !success {
        return Err(Error::Failed { program, output: stderr });
    }
    let marker: [u8; 21] = [91, 71, 78, 85, 80, 71, 58, 93, 32, 83, 73, 71, 95, 67, 82, 69, 65, 84, 69, 68, 32];
    assert(marker@ == sig_created_marker());
    let all = lines(&stderr);
    let ghost ls = lines_spec(stderr@);
    let mut i: usize = 0;
    let mut confirmed = false;
    while i < all.len()
        invariant
            i <= all@.len() == ls.len(),
            marker@ == sig_created_marker(),
            forall|j: int| 0 <= j < all@.len() ==> #[trigger] all@[j]@ == ls[j],
            confirmed == exists|j: int| 0 <= j < i && starts_with(#[trigger] ls[j], sig_created_marker()),
        decreases all.len() - i,
    {
        assert(all@[i as int]@ == ls[i as int]);
        let found = slice_starts_with(all[i].as_slice(), &marker);
        if found {
            confirmed = true;
        }
        proof {
            assert(found == starts_with(ls[i as int], sig_created_marker()));
            if found {
                assert(starts_with(ls[i as int], sig_created_marker()));
            } else {
                assert forall|j: int| 0 <= j < i + 1 && starts_with(#[trigger] ls[j], sig_created_marker()) implies j
                    < i by {}
            }
        }
        i += 1;
    }
    if !confirmed {
        return Err(Error::MissingSignatureConfirmation);
    }
    Ok(strip_cr_before_lf(stdout))
}

/// Take the signature from what `ssh-keygen` (`program`) left behind: the contents of the
/// signature file with CRLF normalized to LF, once the program succeeded and the file could be read.
pub fn ssh_signature(program: Vec<u8>, success: bool, stderr: Vec<u8>, signature: Option<Vec<u8>>) -> (r: Result<
    Vec<u8>,
    Error,
>)
    ensures
        match r {
            Ok(sig) => success && (signature matches Some(s) && sig@ == strip_cr_before_lf_upto(s@, s@.len())),
            Err(Error::Failed { program: p, output }) => !success && p@ == program@ && output@ == stderr@,
            Err(Error::MissingSshSignature) => success && signature is None,
            Err(_) => false,
        },
{
    if !success {
        return Err(Error::Failed { program, output: stderr });
    }
    match signature {
        Some(s) => Ok(strip_cr_before_lf(s)),
        None => Err(Error::MissingSshSignature),
    }
}

} // verus!
