//! Judging what a signature verifier reports: GPG and GPGSM status lines, `ssh-keygen` output,
//! and whether the signature is acceptable.
use vstd::prelude::*;

use crate::bytes::{
    after_first_field, copy_range, eq_ignore_ascii_case, field_bounds, find_byte, find_byte_from, first_field,
    last_occurrence, lemma_find_byte_from, lines, lines_spec, nonempty, nonempty_copy, nth_field, opt_bytes,
    rsplit_once_str, slice_eq_ignore_ascii_case, slice_find_byte_from, slice_starts_with, starts_with, trim,
    unicode_trim,
};
use crate::signature::{format_of, Format};

verus! {

/// `[GNUPG:] `, the start of each status line of GPG and GPGSM.
pub open spec fn gnupg_marker() -> Seq<u8> {
    seq![91u8, 71, 78, 85, 80, 71, 58, 93, 32]
}

/// `GOODSIG `
pub open spec fn goodsig() -> Seq<u8> {
    seq![71u8, 79, 79, 68, 83, 73, 71, 32]
}

/// `BADSIG `
pub open spec fn badsig() -> Seq<u8> {
    seq![66u8, 65, 68, 83, 73, 71, 32]
}

/// `ERRSIG `
pub open spec fn errsig() -> Seq<u8> {
    seq![69u8, 82, 82, 83, 73, 71, 32]
}

/// `EXPSIG `
pub open spec fn expsig() -> Seq<u8> {
    seq![69u8, 88, 80, 83, 73, 71, 32]
}

/// `EXPKEYSIG `
pub open spec fn expkeysig() -> Seq<u8> {
    seq![69u8, 88, 80, 75, 69, 89, 83, 73, 71, 32]
}

/// `REVKEYSIG `
pub open spec fn revkeysig() -> Seq<u8> {
    seq![82u8, 69, 86, 75, 69, 89, 83, 73, 71, 32]
}

/// `TRUST_`
pub open spec fn trust_marker() -> Seq<u8> {
    seq![84u8, 82, 85, 83, 84, 95]
}

/// `VALIDSIG `
pub open spec fn validsig() -> Seq<u8> {
    seq![86u8, 65, 76, 73, 68, 83, 73, 71, 32]
}

/// `Good "git" signature`, with which `ssh-keygen` reports a good signature.
pub open spec fn ssh_good_marker() -> Seq<u8> {
    seq![71u8, 111, 111, 100, 32, 34, 103, 105, 116, 34, 32, 115, 105, 103, 110, 97, 116, 117, 114, 101]
}

/// ` key `, after which `ssh-keygen` names the key fingerprint.
pub open spec fn ssh_key_marker() -> Seq<u8> {
    seq![32u8, 107, 101, 121, 32]
}

/// `undefined`
pub open spec fn undefined_name() -> Seq<u8> {
    seq![117u8, 110, 100, 101, 102, 105, 110, 101, 100]
}

/// `never`
pub open spec fn never_name() -> Seq<u8> {
    seq![110u8, 101, 118, 101, 114]
}

/// `marginal`
pub open spec fn marginal_name() -> Seq<u8> {
    seq![109u8, 97, 114, 103, 105, 110, 97, 108]
}

/// `fully`
pub open spec fn fully_name() -> Seq<u8> {
    seq![102u8, 117, 108, 108, 121]
}

/// `ultimate`
pub open spec fn ultimate_name() -> Seq<u8> {
    seq![117u8, 108, 116, 105, 109, 97, 116, 101]
}

/// The result reported by the signature verifier.
#[derive(Clone, Copy, Debug, PartialEq, Eq, Structural)]
pub enum Status {
    /// The signature is cryptographically valid.
    Good,
    /// The signature is invalid.
    Bad,
    /// The verifier could not check the signature.
    Error,
    /// The signature has expired.
    Expired,
    /// The signing key has expired.
    ExpiredKey,
    /// The signing key was revoked.
    RevokedKey,
    /// The verifier returned no recognized result.
    Unknown,
}

/// The trust level reported by the signature verifier, from least to most trusted.
#[derive(Clone, Copy, Debug, PartialEq, Eq, Structural, PartialOrd, Ord)]
pub enum TrustLevel {
    /// No trust information is available.
    Undefined,
    /// The key must never be trusted.
    Never,
    /// The verifier considers the signing key's claimed identity marginally valid under its configured trust model.
    Marginal,
    /// The verifier considers the signing key's claimed identity fully valid under its configured trust model.
    Fully,
    /// The verifier's highest trust level for the signing key's claimed identity.
    Ultimate,
}

impl Default for TrustLevel {
    fn default() -> (r: TrustLevel)
        ensures
            r == TrustLevel::Undefined,
    {
        TrustLevel::Undefined
    }
}

impl TrustLevel {
    /// The position of this level in the order from least to most trusted.
    pub open spec fn rank(self) -> int {
        match self {
            TrustLevel::Undefined => 0,
            TrustLevel::Never => 1,
            TrustLevel::Marginal => 2,
            TrustLevel::Fully => 3,
            TrustLevel::Ultimate => 4,
        }
    }

    /// The level named `value`, compared without regard to ASCII case.
    pub open spec fn spec_from_bytes(value: Seq<u8>) -> Option<TrustLevel> {
        if eq_ignore_ascii_case(value, undefined_name()) {
            Some(TrustLevel::Undefined)
        } else if eq_ignore_ascii_case(value, never_name()) {
            Some(TrustLevel::Never)
        } else if eq_ignore_ascii_case(value, marginal_name()) {
            Some(TrustLevel::Marginal)
        } else if eq_ignore_ascii_case(value, fully_name()) {
            Some(TrustLevel::Fully)
        } else if eq_ignore_ascii_case(value, ultimate_name()) {
            Some(TrustLevel::Ultimate)
        } else {
            None
        }
    }

    /// Parse a Git trust-level name case-insensitively, or return `None` if it is unknown.
    pub fn from_bytes(value: &[u8]) -> (r: Option<TrustLevel>)
        ensures
            r == TrustLevel::spec_from_bytes(value@),
    {
        let undefined: [u8; 9] = [117, 110, 100, 101, 102, 105, 110, 101, 100];
        let never: [u8; 5] = [110, 101, 118, 101, 114];
        let marginal: [u8; 8] = [109, 97, 114, 103, 105, 110, 97, 108];
        let fully: [u8; 5] = [102, 117, 108, 108, 121];
        let ultimate: [u8; 8] = [117, 108, 116, 105, 109, 97, 116, 101];
        assert(undefined@ == undefined_name());
        assert(never@ == never_name());
        assert(marginal@ == marginal_name());
        assert(fully@ == fully_name());
        assert(ultimate@ == ultimate_name());
        if slice_eq_ignore_ascii_case(value, &undefined) {
            Some(TrustLevel::Undefined)
        } else if slice_eq_ignore_ascii_case(value, &never) {
            Some(TrustLevel::Never)
        } else if slice_eq_ignore_ascii_case(value, &marginal) {
            Some(TrustLevel::Marginal)
        } else if slice_eq_ignore_ascii_case(value, &fully) {
            Some(TrustLevel::Fully)
        } else if slice_eq_ignore_ascii_case(value, &ultimate) {
            Some(TrustLevel::Ultimate)
        } else {
            None
        }
    }

    /// `true` if this level is at least as trusted as `minimum`.
    pub fn at_least(&self, minimum: &TrustLevel) -> (r: bool)
        ensures
            r == (self.rank() >= minimum.rank()),
    {
        let a: u8 = match self {
            TrustLevel::Undefined => 0,
            TrustLevel::Never => 1,
            TrustLevel::Marginal => 2,
            TrustLevel::Fully => 3,
            TrustLevel::Ultimate => 4,
        };
        let b: u8 = match minimum {
            TrustLevel::Undefined => 0,
            TrustLevel::Never => 1,
            TrustLevel::Marginal => 2,
            TrustLevel::Fully => 3,
            TrustLevel::Ultimate => 4,
        };
        a >= b
    }
}

// ---------------------------------------------------------------------------------------------
// The outcome of a verification.

/// The complete result of verifying a commit or annotated-tag signature.
#[derive(Clone, Debug, PartialEq, Eq)]
pub struct Outcome {
    /// The detected signature format and therefore the verifier whose output populated the remaining fields.
    pub format: Format,
    /// The cryptographic status parsed from GPG/GPGSM status records or from `ssh-keygen`'s success output.
    pub status: Status,
    /// The trust reported by GPG/GPGSM. For SSH this is [`TrustLevel::Fully`] for a principal in the allowed-signers
    /// file and [`TrustLevel::Undefined`] for an otherwise valid signature from an unknown key.
    pub trust_level: TrustLevel,
    /// The GPG/GPGSM user ID or the SSH principal found in the allowed-signers file, if available.
    pub signer: Option<Vec<u8>>,
    /// The GPG/GPGSM key ID. For SSH this is the same value as [`Outcome::fingerprint`].
    pub key: Option<Vec<u8>>,
    /// The GPG/GPGSM signing-key fingerprint or the fingerprint printed by `ssh-keygen`, if available.
    pub fingerprint: Option<Vec<u8>>,
    /// The GPG/GPGSM primary-key fingerprint, if reported; always `None` for SSH.
    pub primary_key_fingerprint: Option<Vec<u8>>,
    /// Human-readable GPG/GPGSM stderr, or the available `ssh-keygen` stdout and stderr concatenated in that order.
    pub output: Vec<u8>,
    /// GPG/GPGSM `--status-fd` output. SSH has no separate machine-readable channel, so this equals [`Outcome::output`].
    pub raw_output: Vec<u8>,
    valid: bool,
}

/// An [`Outcome`] with its byte strings taken by value.
pub struct OutcomeView {
    pub format: Format,
    pub status: Status,
    pub trust_level: TrustLevel,
    pub signer: Option<Seq<u8>>,
    pub key: Option<Seq<u8>>,
    pub fingerprint: Option<Seq<u8>>,
    pub primary_key_fingerprint: Option<Seq<u8>>,
    pub output: Seq<u8>,
    pub raw_output: Seq<u8>,
    /// Whether Git would accept the signature.
    pub valid: bool,
}

impl View for Outcome {
    type V = OutcomeView;

    closed spec fn view(&self) -> OutcomeView {
        OutcomeView {
            format: self.format,
            status: self.status,
            trust_level: self.trust_level,
            signer: opt_bytes(self.signer),
            key: opt_bytes(self.key),
            fingerprint: opt_bytes(self.fingerprint),
            primary_key_fingerprint: opt_bytes(self.primary_key_fingerprint),
            output: self.output@,
            raw_output: self.raw_output@,
            valid: self.valid,
        }
    }
}

/// `o`, judged: valid only if the verifier succeeded, reported a good signature, and trusts the
/// key at least at `minimum_trust`.
pub open spec fn judged(o: OutcomeView, command_success: bool, minimum_trust: TrustLevel) -> OutcomeView {
    OutcomeView {
        valid: command_success && o.status == Status::Good && o.trust_level.rank() >= minimum_trust.rank(),
        ..o
    }
}

impl Outcome {
    /// Return `true` if Git would accept the signature with the configured minimum trust level.
    pub fn is_valid(&self) -> (r: bool)
        ensures
            r == self@.valid,
    {
        self.valid
    }

    /// This outcome, judged: it is valid only if the verifier succeeded, reported a good signature,
    /// and trusts the key at least at `minimum_trust`.
    pub fn with_validity(self, command_success: bool, minimum_trust: TrustLevel) -> (r: Outcome)
        ensures
            r@ == judged(self@, command_success, minimum_trust),
    {
        let valid = command_success && self.status == Status::Good && self.trust_level.at_least(&minimum_trust);
        Outcome { valid, ..self }
    }
}

// ---------------------------------------------------------------------------------------------
// GPG and GPGSM status lines.

/// What the status lines read so far have established.
pub struct GpgFields {
    pub status: Status,
    pub trust_level: TrustLevel,
    pub signer: Option<Seq<u8>>,
    pub key: Option<Seq<u8>>,
    pub fingerprint: Option<Seq<u8>>,
    pub primary_key_fingerprint: Option<Seq<u8>>,
    /// Whether a signature status was seen: a second one makes the outcome an error.
    pub exclusive: bool,
}

/// Nothing established yet.
pub open spec fn gpg_initial() -> GpgFields {
    GpgFields {
        status: Status::Unknown,
        trust_level: TrustLevel::Undefined,
        signer: None,
        key: None,
        fingerprint: None,
        primary_key_fingerprint: None,
        exclusive: false,
    }
}

/// The signature status announced at the start of the status record `l`, and the length of its keyword.
pub open spec fn status_keyword(l: Seq<u8>) -> Option<(Status, nat)> {
    if starts_with(l, goodsig()) {
        Some((Status::Good, 8))
    } else if starts_with(l, badsig()) {
        Some((Status::Bad, 7))
    } else if starts_with(l, errsig()) {
        Some((Status::Error, 7))
    } else if starts_with(l, expsig()) {
        Some((Status::Expired, 7))
    } else if starts_with(l, expkeysig()) {
        Some((Status::ExpiredKey, 10))
    } else if starts_with(l, revkeysig()) {
        Some((Status::RevokedKey, 10))
    } else {
        None
    }
}

/// The effect of the signature status in the status record `l`, if it holds one: the first status
/// sets the status, the key id and the signer; any further one turns the outcome into an error.
pub open spec fn gpg_status_step(f: GpgFields, l: Seq<u8>) -> GpgFields {
    match status_keyword(l) {
        None => f,
        Some((status, n)) => if f.exclusive {
            GpgFields { status: Status::Error, signer: None, key: None, ..f }
        } else {
            let value = l.subrange(n as int, l.len() as int);
            GpgFields {
                status,
                key: nonempty(first_field(value)),
                signer: match after_first_field(value) {
                    Some(rest) => nonempty(rest),
                    None => None,
                },
                exclusive: true,
                ..f
            }
        },
    }
}

/// The effect of one line of `--status-fd` output.
pub open spec fn gpg_line(f: GpgFields, line: Seq<u8>) -> GpgFields {
    if !starts_with(line, gnupg_marker()) {
        f
    } else {
        let l = line.subrange(9, line.len() as int);
        let g = gpg_status_step(f, l);
        if starts_with(l, trust_marker()) {
            let level = match TrustLevel::spec_from_bytes(first_field(l.subrange(6, l.len() as int))) {
                Some(t) => t,
                None => TrustLevel::Undefined,
            };
            GpgFields { trust_level: level, ..g }
        } else if starts_with(l, validsig()) {
            let value = l.subrange(9, l.len() as int);
            GpgFields {
                fingerprint: nonempty(first_field(value)),
                primary_key_fingerprint: match nth_field(value, 9) {
                    Some(p) => nonempty(p),
                    None => None,
                },
                ..g
            }
        } else {
            g
        }
    }
}

/// What all of `lines` establish, read in order.
pub open spec fn gpg_fold(lines: Seq<Seq<u8>>) -> GpgFields
    decreases lines.len(),
{
    if lines.len() == 0 {
        gpg_initial()
    } else {
        gpg_line(gpg_fold(lines.drop_last()), lines.last())
    }
}

/// The outcome that the status lines `raw_output` describe, before it is judged.
pub open spec fn gpg_outcome(format: Format, output: Seq<u8>, raw_output: Seq<u8>) -> OutcomeView {
    let f = gpg_fold(lines_spec(raw_output));
    OutcomeView {
        format,
        status: f.status,
        trust_level: f.trust_level,
        signer: f.signer,
        key: f.key,
        fingerprint: f.fingerprint,
        primary_key_fingerprint: f.primary_key_fingerprint,
        output,
        raw_output,
        valid: false,
    }
}

/// The status lines read so far, as owned values.
struct GpgParse {
    status: Status,
    trust_level: TrustLevel,
    signer: Option<Vec<u8>>,
    key: Option<Vec<u8>>,
    fingerprint: Option<Vec<u8>>,
    primary_key_fingerprint: Option<Vec<u8>>,
    exclusive: bool,
}

impl View for GpgParse {
    type V = GpgFields;

    closed spec fn view(&self) -> GpgFields {
        GpgFields {
            status: self.status,
            trust_level: self.trust_level,
            signer: opt_bytes(self.signer),
            key: opt_bytes(self.key),
            fingerprint: opt_bytes(self.fingerprint),
            primary_key_fingerprint: opt_bytes(self.primary_key_fingerprint),
            exclusive: self.exclusive,
        }
    }
}

/// The signature status keyword at the start of `l` and its length.
fn find_status_keyword(l: &[u8]) -> (r: Option<(Status, usize)>)
    ensures
        match r {
            Some((s, n)) => status_keyword(l@) == Some((s, n as nat)),
            None => status_keyword(l@) is None,
        },
{
    let good: [u8; 8] = [71, 79, 79, 68, 83, 73, 71, 32];
    let bad: [u8; 7] = [66, 65, 68, 83, 73, 71, 32];
    let err: [u8; 7] = [69, 82, 82, 83, 73, 71, 32];
    let exp: [u8; 7] = [69, 88, 80, 83, 73, 71, 32];
    let expkey: [u8; 10] = [69, 88, 80, 75, 69, 89, 83, 73, 71, 32];
    let revkey: [u8; 10] = [82, 69, 86, 75, 69, 89, 83, 73, 71, 32];
    assert(good@ == goodsig());
    assert(bad@ == badsig());
    assert(err@ == errsig());
    assert(exp@ == expsig());
    assert(expkey@ == expkeysig());
    assert(revkey@ == revkeysig());
    if slice_starts_with(l, &good) {
        Some((Status::Good, 8))
    } else if slice_starts_with(l, &bad) {
        Some((Status::Bad, 7))
    } else if slice_starts_with(l, &err) {
        Some((Status::Error, 7))
    } else if slice_starts_with(l, &exp) {
        Some((Status::Expired, 7))
    } else if slice_starts_with(l, &expkey) {
        Some((Status::ExpiredKey, 10))
    } else if slice_starts_with(l, &revkey) {
        Some((Status::RevokedKey, 10))
    } else {
        None
    }
}

/// Apply the signature status in the status record `l`, if it holds one.
fn gpg_status_apply(p: GpgParse, l: &[u8]) -> (r: GpgParse)
    ensures
        r@ == gpg_status_step(p@, l@),
{
    let mut p = p;
    match find_status_keyword(l) {
        None => {},
        Some((status, n)) => {
            if p.exclusive {
                p.status = Status::Error;
                p.signer = None;
                p.key = None;
            } else {
                let value = &l[n..l.len()];
                proof {
                    lemma_find_byte_from(value@, 32, 0);
                }
                let key_end = match slice_find_byte_from(value, 32, 0) {
                    Some(e) => e,
                    None => value.len(),
                };
                p.key = nonempty_copy(value, 0, key_end);
                p.signer = match slice_find_byte_from(value, 32, 0) {
                    Some(i) => nonempty_copy(value, i + 1, value.len()),
                    None => None,
                };
                p.status = status;
                p.exclusive = true;
            }
        },
    }
    p
}

/// Apply one line of `--status-fd` output.
fn gpg_line_apply(p: GpgParse, line: &[u8]) -> (r: GpgParse)
    ensures
        r@ == gpg_line(p@, line@),
{
    let marker: [u8; 9] = [91, 71, 78, 85, 80, 71, 58, 93, 32];
    let trust: [u8; 6] = [84, 82, 85, 83, 84, 95];
    let valid: [u8; 9] = [86, 65, 76, 73, 68, 83, 73, 71, 32];
    assert(marker@ == gnupg_marker());
    assert(trust@ == trust_marker());
    assert(valid@ == validsig());
    if !slice_starts_with(line, &marker) {
        return p;
    }
    let l = &line[9..line.len()];
    let mut g = gpg_status_apply(p, l);
    if slice_starts_with(l, &trust) {
        let value = &l[6..l.len()];
        proof {
            lemma_find_byte_from(value@, 32, 0);
        }
        let end = match slice_find_byte_from(value, 32, 0) {
            Some(e) => e,
            None => value.len(),
        };
        g.trust_level = match TrustLevel::from_bytes(&value[0..end]) {
            Some(t) => t,
            None => TrustLevel::Undefined,
        };
    } else if slice_starts_with(l, &valid) {
        let value = &l[9..l.len()];
        proof {
            lemma_find_byte_from(value@, 32, 0);
        }
        let end = match slice_find_byte_from(value, 32, 0) {
            Some(e) => e,
            None => value.len(),
        };
        g.fingerprint = nonempty_copy(value, 0, end);
        g.primary_key_fingerprint = match field_bounds(value, 9) {
            Some((s, e)) => nonempty_copy(value, s, e),
            None => None,
        };
    }
    g
}

/// Read the status lines of GPG or GPGSM (`raw_output`) into an outcome of `format`, keeping the
/// human-readable `output`. The outcome is not valid until it is judged.
pub fn parse_gpg_output(format: Format, output: Vec<u8>, raw_output: Vec<u8>) -> (r: Outcome)
    ensures
        r@ == gpg_outcome(format, output@, raw_output@),
{
    let all = lines(&raw_output);
    let ghost ls = lines_spec(raw_output@);
    let mut p = GpgParse {
        status: Status::Unknown,
        trust_level: TrustLevel::Undefined,
        signer: None,
        key: None,
        fingerprint: None,
        primary_key_fingerprint: None,
        exclusive: false,
    };
    let mut i: usize = 0;
    while i < all.len()
        invariant
            i <= all@.len() == ls.len(),
            forall|j: int| 0 <= j < all@.len() ==> #[trigger] all@[j]@ == ls[j],
            p@ == gpg_fold(ls.take(i as int)),
        decreases all.len() - i,
    {
        assert(ls.take(i + 1).drop_last() =~= ls.take(i as int));
        assert(ls.take(i + 1).last() == ls[i as int]);
        p = gpg_line_apply(p, all[i].as_slice());
        i += 1;
    }
    assert(ls.take(i as int) =~= ls);
    Outcome {
        format,
        status: p.status,
        trust_level: p.trust_level,
        signer: p.signer,
        key: p.key,
        fingerprint: p.fingerprint,
        primary_key_fingerprint: p.primary_key_fingerprint,
        output,
        raw_output,
        valid: false,
    }
}

// ---------------------------------------------------------------------------------------------
// `ssh-keygen` output.

/// The key fingerprint that `ssh-keygen` names after the last ` key ` of its first line, if any.
pub open spec fn ssh_fingerprint(output: Seq<u8>) -> Option<Seq<u8>> {
    let ls = lines_spec(output);
    if ls.len() == 0 {
        None
    } else {
        match last_occurrence(ls[0], ssh_key_marker()) {
            None => None,
            Some(i) => Some(ls[0].subrange(i + 5, ls[0].len() as int)),
        }
    }
}

/// The outcome that the `ssh-keygen` `output` describes for `signer` at `trust_level`, before it is judged.
pub open spec fn ssh_outcome(output: Seq<u8>, signer: Option<Seq<u8>>, trust_level: TrustLevel) -> OutcomeView {
    OutcomeView {
        format: Format::Ssh,
        status: if starts_with(output, ssh_good_marker()) {
            Status::Good
        } else {
            Status::Bad
        },
        trust_level,
        signer,
        key: ssh_fingerprint(output),
        fingerprint: ssh_fingerprint(output),
        primary_key_fingerprint: None,
        output,
        raw_output: output,
        valid: false,
    }
}

/// Read what `ssh-keygen` printed into an outcome for `signer` at `trust_level`. The outcome is
/// not valid until it is judged.
pub fn parse_ssh_output(output: Vec<u8>, signer: Option<Vec<u8>>, trust_level: TrustLevel) -> (r: Outcome)
    ensures
        r@ == ssh_outcome(output@, opt_bytes(signer), trust_level),
{
    let good: [u8; 20] = [71, 111, 111, 100, 32, 34, 103, 105, 116, 34, 32, 115, 105, 103, 110, 97, 116, 117, 114, 101];
    let key_marker: [u8; 5] = [32, 107, 101, 121, 32];
    assert(good@ == ssh_good_marker());
    assert(key_marker@ == ssh_key_marker());
    let status = if slice_starts_with(&output, &good) {
        Status::Good
    } else {
        Status::Bad
    };
    let all = lines(&output);
    let fingerprint = if all.len() == 0 {
        None
    } else {
        match rsplit_once_str(all[0].as_slice(), &key_marker) {
            Some((_, after)) => Some(after),
            None => None,
        }
    };
    let key = match &fingerprint {
        Some(f) => Some(copy_range(f, 0, f.len())),
        None => None,
    };
    proof {
        if fingerprint is Some {
            assert(fingerprint->0@.subrange(0, fingerprint->0@.len() as int) =~= fingerprint->0@);
        }
        assert(output@.subrange(0, output@.len() as int) =~= output@);
    }
    let raw_output = copy_range(&output, 0, output.len());
    Outcome {
        format: Format::Ssh,
        status,
        trust_level,
        signer,
        key,
        fingerprint,
        primary_key_fingerprint: None,
        output,
        raw_output,
        valid: false,
    }
}

/// What `ssh-keygen` reported for humans: its standard output, its standard error, or both in that order.
pub open spec fn human_output_spec(stdout: Seq<u8>, stderr: Seq<u8>) -> Seq<u8> {
    if stdout.len() == 0 {
        stderr
    } else if stderr.len() == 0 {
        stdout
    } else {
        stdout + stderr
    }
}

/// Combine what `ssh-keygen` printed for humans: its standard output, its standard error, or both in that order.
pub fn human_output(stdout: Vec<u8>, stderr: Vec<u8>) -> (r: Vec<u8>)
    ensures
        r@ == human_output_spec(stdout@, stderr@),
{
    if stdout.len() == 0 {
        stderr
    } else if stderr.len() == 0 {
        stdout
    } else {
        let mut r = stdout;
        let mut i: usize = 0;
        while i < stderr.len()
            invariant
                i <= stderr.len(),
                r@ == stdout@ + stderr@.subrange(0, i as int),
            decreases stderr.len() - i,
        {
            r.push(stderr[i]);
            i += 1;
            assert(r@ =~= stdout@ + stderr@.subrange(0, i as int));
        }
        assert(stderr@.subrange(0, i as int) =~= stderr@);
        r
    }
}

/// The principals named by `find-principals`, one per non-blank line of `lines`, trimmed.
pub open spec fn principals_of(lines: Seq<Seq<u8>>) -> Seq<Seq<u8>>
    decreases lines.len(),
{
    if lines.len() == 0 {
        seq![]
    } else {
        let rest = principals_of(lines.drop_last());
        let t = unicode_trim(lines.last());
        if t.len() == 0 {
            rest
        } else {
            rest.push(t)
        }
    }
}

/// The principals that `ssh-keygen -Y find-principals` printed to `stdout`, in order.
pub fn find_principals(stdout: &[u8]) -> (r: Vec<Vec<u8>>)
    ensures
        r@.len() == principals_of(lines_spec(stdout@)).len(),
        forall|i: int| 0 <= i < r@.len() ==> #[trigger] r@[i]@ == principals_of(lines_spec(stdout@))[i],
{
    let all = lines(stdout);
    let ghost ls = lines_spec(stdout@);
    let mut r: Vec<Vec<u8>> = Vec::new();
    let mut i: usize = 0;
    while i < all.len()
        invariant
            i <= all@.len() == ls.len(),
            forall|j: int| 0 <= j < all@.len() ==> #[trigger] all@[j]@ == ls[j],
            r@.len() == principals_of(ls.take(i as int)).len(),
            forall|j: int| 0 <= j < r@.len() ==> #[trigger] r@[j]@ == principals_of(ls.take(i as int))[j],
        decreases all.len() - i,
    {
        assert(ls.take(i + 1).drop_last() =~= ls.take(i as int));
        assert(ls.take(i + 1).last() == ls[i as int]);
        let t = trim(all[i].as_slice());
        if t.len() != 0 {
            r.push(t);
        }
        i += 1;
    }
    assert(ls.take(i as int) =~= ls);
    r
}

/// `true` if a run of `ssh-keygen -Y verify` for a principal succeeded and reported a good signature.
pub fn verifier_accepts(success: bool, stdout: &[u8]) -> (r: bool)
    ensures
        r == (success && starts_with(stdout@, seq![71u8, 111, 111, 100])),
{
    let good: [u8; 4] = [71, 111, 111, 100];
    assert(good@ == seq![71u8, 111, 111, 100]);
    success && slice_starts_with(stdout, &good)
}

/// The outcome of a GPG or GPGSM run for a signature of `format` that reported `o`, read from its
/// standard error and its status lines on standard output, judged against `minimum_trust`.
pub fn gpg_verdict(format: Format, o: ProgramOutput, minimum_trust: TrustLevel) -> (r: Outcome)
    ensures
        r@ == judged(gpg_outcome(format, o.stderr@, o.stdout@), o.success, minimum_trust),
{
    let success = o.success;
    parse_gpg_output(format, o.stderr, o.stdout).with_validity(success, minimum_trust)
}

// ---------------------------------------------------------------------------------------------
// Verifying an SSH signature, step by step.

/// What a program that was run reported: whether it exited successfully, and what it printed.
pub struct ProgramOutput {
    pub success: bool,
    pub stdout: Vec<u8>,
    pub stderr: Vec<u8>,
}

/// A [`ProgramOutput`] with its bytes taken by value.
pub struct ProgramOutputView {
    pub success: bool,
    pub stdout: Seq<u8>,
    pub stderr: Seq<u8>,
}

impl View for ProgramOutput {
    type V = ProgramOutputView;

    open spec fn view(&self) -> ProgramOutputView {
        ProgramOutputView { success: self.success, stdout: self.stdout@, stderr: self.stderr@ }
    }
}

/// Where the verification of an SSH signature stands.
pub enum SshPhase {
    /// Nothing ran yet.
    Start,
    /// `ssh-keygen -Y find-principals` runs.
    FindingPrincipals,
    /// `ssh-keygen -Y verify` runs for the principal at `next` of `principals`, which are tried in
    /// order.
    Verifying { principals: Vec<Vec<u8>>, next: usize },
    /// `ssh-keygen -Y check-novalidate` runs, as no principal could be tried.
    CheckingNoValidate,
    /// The outcome was given.
    Done,
}

/// An [`SshPhase`] with its bytes taken by value.
pub enum SshPhaseView {
    Start,
    FindingPrincipals,
    Verifying { principals: Seq<Seq<u8>>, next: nat },
    CheckingNoValidate,
    Done,
}

impl View for SshPhase {
    type V = SshPhaseView;

    open spec fn view(&self) -> SshPhaseView {
        match self {
            SshPhase::Start => SshPhaseView::Start,
            SshPhase::FindingPrincipals => SshPhaseView::FindingPrincipals,
            SshPhase::Verifying { principals, next } => SshPhaseView::Verifying {
                principals: principals@.map_values(|p: Vec<u8>| p@),
                next: *next as nat,
            },
            SshPhase::CheckingNoValidate => SshPhaseView::CheckingNoValidate,
            SshPhase::Done => SshPhaseView::Done,
        }
    }
}

/// The verification of an SSH signature: the least trust that makes it valid, and its phase.
pub struct SshVerifyState {
    pub minimum_trust: TrustLevel,
    pub phase: SshPhase,
}

impl View for SshVerifyState {
    type V = (TrustLevel, SshPhaseView);

    open spec fn view(&self) -> (TrustLevel, SshPhaseView) {
        (self.minimum_trust, self.phase@)
    }
}

/// What happened since the last step: the verification begins, or the program that the last
/// action asked for ran.
pub enum SshVerifyEvent {
    Begin,
    Ran(ProgramOutput),
}

/// An [`SshVerifyEvent`] with its bytes taken by value.
pub enum SshVerifyEventView {
    Begin,
    Ran(ProgramOutputView),
}

impl View for SshVerifyEvent {
    type V = SshVerifyEventView;

    open spec fn view(&self) -> SshVerifyEventView {
        match self {
            SshVerifyEvent::Begin => SshVerifyEventView::Begin,
            SshVerifyEvent::Ran(o) => SshVerifyEventView::Ran(o@),
        }
    }
}

/// What to do next: run one of the three `ssh-keygen` commands on the signature, `verify` for the
/// principal `principal`, or take the outcome; an event that does not fit the phase asks nothing.
pub enum SshVerifyAction {
    FindPrincipals,
    Verify { principal: Vec<u8> },
    CheckNoValidate,
    Finish(Outcome),
    Nothing,
}

/// An [`SshVerifyAction`] with its bytes and outcome taken by value.
pub enum SshVerifyActionView {
    FindPrincipals,
    Verify { principal: Seq<u8> },
    CheckNoValidate,
    Finish(OutcomeView),
    Nothing,
}

impl View for SshVerifyAction {
    type V = SshVerifyActionView;

    open spec fn view(&self) -> SshVerifyActionView {
        match self {
            SshVerifyAction::FindPrincipals => SshVerifyActionView::FindPrincipals,
            SshVerifyAction::Verify { principal } => SshVerifyActionView::Verify { principal: principal@ },
            SshVerifyAction::CheckNoValidate => SshVerifyActionView::CheckNoValidate,
            SshVerifyAction::Finish(o) => SshVerifyActionView::Finish(o@),
            SshVerifyAction::Nothing => SshVerifyActionView::Nothing,
        }
    }
}

/// What `String::from_utf8_lossy` makes of `bytes`: invalid UTF-8 sequences become U+FFFD.
pub uninterp spec fn utf8_lossy(bytes: Seq<u8>) -> Seq<u8>;

/// Calls std's `String::from_utf8_lossy` on `bytes` and returns the bytes of the result; the
/// contract names that result.
#[verifier::external_body]
fn lossy_utf8(bytes: &[u8]) -> (r: Vec<u8>)
    ensures
        r@ == utf8_lossy(bytes@),
{
    String::from_utf8_lossy(bytes).into_owned().into_bytes()
}

/// The principals that a successful `find-principals` printed to `stdout`, as `ssh-keygen` is given
/// them: as UTF-8, with invalid sequences replaced.
pub open spec fn ssh_principals(stdout: Seq<u8>) -> Seq<Seq<u8>> {
    principals_of(lines_spec(stdout)).map_values(|p: Seq<u8>| utf8_lossy(p))
}

/// The outcome of the `ssh-keygen` run that reported `o`, for `signer` at `trust_level`, judged
/// with `command_success` against `minimum_trust`.
pub open spec fn ssh_verdict(
    o: ProgramOutputView,
    signer: Option<Seq<u8>>,
    trust_level: TrustLevel,
    command_success: bool,
    minimum_trust: TrustLevel,
) -> OutcomeView {
    judged(ssh_outcome(human_output_spec(o.stdout, o.stderr), signer, trust_level), command_success, minimum_trust)
}

/// The next state and action of an SSH verification in `state` on `event`. After
/// `find-principals` the principals it printed are tried in order with `verify`, until one is
/// accepted: that one is the signer, trusted fully. Where none is accepted, the last run decides,
/// trusted fully without a signer. Where `find-principals` failed or printed no principal,
/// `check-novalidate` decides, without trust and never successfully.
pub open spec fn ssh_verify_next(state: (TrustLevel, SshPhaseView), event: SshVerifyEventView) -> (
    (TrustLevel, SshPhaseView),
    SshVerifyActionView,
) {
    let min = state.0;
    match (state.1, event) {
        (SshPhaseView::Start, SshVerifyEventView::Begin) => (
            (min, SshPhaseView::FindingPrincipals),
            SshVerifyActionView::FindPrincipals,
        ),
        (SshPhaseView::FindingPrincipals, SshVerifyEventView::Ran(o)) => {
            let ps = ssh_principals(o.stdout);
            if o.success && ps.len() > 0 {
                ((min, SshPhaseView::Verifying { principals: ps, next: 0 }), SshVerifyActionView::Verify { principal: ps[0] })
            } else {
                ((min, SshPhaseView::CheckingNoValidate), SshVerifyActionView::CheckNoValidate)
            }
        },
        (SshPhaseView::Verifying { principals, next }, SshVerifyEventView::Ran(o)) => {
            if next >= principals.len() {
                (state, SshVerifyActionView::Nothing)
            } else if o.success && starts_with(o.stdout, seq![71u8, 111, 111, 100]) {
                (
                    (min, SshPhaseView::Done),
                    SshVerifyActionView::Finish(ssh_verdict(o, Some(principals[next as int]), TrustLevel::Fully, o.success, min)),
                )
            } else if next + 1 < principals.len() {
                (
                    (min, SshPhaseView::Verifying { principals, next: next + 1 }),
                    SshVerifyActionView::Verify { principal: principals[next + 1int] },
                )
            } else {
                (
                    (min, SshPhaseView::Done),
                    SshVerifyActionView::Finish(ssh_verdict(o, None, TrustLevel::Fully, o.success, min)),
                )
            }
        },
        (SshPhaseView::CheckingNoValidate, SshVerifyEventView::Ran(o)) => (
            (min, SshPhaseView::Done),
            SshVerifyActionView::Finish(ssh_verdict(o, None, TrustLevel::Undefined, false, min)),
        ),
        _ => (state, SshVerifyActionView::Nothing),
    }
}

/// The outcome of one `ssh-keygen` run, for `signer` at `trust_level`, judged.
fn ssh_finish(
    o: ProgramOutput,
    signer: Option<Vec<u8>>,
    trust_level: TrustLevel,
    command_success: bool,
    minimum_trust: TrustLevel,
) -> (r: Outcome)
    ensures
        r@ == ssh_verdict(o@, opt_bytes(signer), trust_level, command_success, minimum_trust),
{
    let human = human_output(o.stdout, o.stderr);
    parse_ssh_output(human, signer, trust_level).with_validity(command_success, minimum_trust)
}

/// Take one step of an SSH verification: from `state` on `event` to the next state and what to do.
pub fn ssh_verify_step(state: SshVerifyState, event: SshVerifyEvent) -> (r: (SshVerifyState, SshVerifyAction))
    ensures
        (r.0@, r.1@) == ssh_verify_next(state@, event@),
{
    let min = state.minimum_trust;
    match (state.phase, event) {
        (SshPhase::Start, SshVerifyEvent::Begin) => (
            SshVerifyState { minimum_trust: min, phase: SshPhase::FindingPrincipals },
            SshVerifyAction::FindPrincipals,
        ),
        (SshPhase::FindingPrincipals, SshVerifyEvent::Ran(o)) => {
            let found = find_principals(o.stdout.as_slice());
            let mut ps: Vec<Vec<u8>> = Vec::new();
            let mut i: usize = 0;
            while i < found.len()
                invariant
                    i <= found@.len(),
                    found@.len() == principals_of(lines_spec(o.stdout@)).len(),
                    forall|j: int| 0 <= j < found@.len() ==> #[trigger] found@[j]@ == principals_of(lines_spec(o.stdout@))[j],
                    ps@.len() == i,
                    forall|j: int| 0 <= j < i ==> #[trigger] ps@[j]@ == ssh_principals(o.stdout@)[j],
                decreases found.len() - i,
            {
                ps.push(lossy_utf8(found[i].as_slice()));
                i += 1;
            }
            assert(ps@.map_values(|p: Vec<u8>| p@) =~= ssh_principals(o.stdout@));
            if o.success && ps.len() > 0 {
                let first = copy_range(ps[0].as_slice(), 0, ps[0].len());
                assert(first@ =~= ps@[0]@);
                (
                    SshVerifyState { minimum_trust: min, phase: SshPhase::Verifying { principals: ps, next: 0 } },
                    SshVerifyAction::Verify { principal: first },
                )
            } else {
                (SshVerifyState { minimum_trust: min, phase: SshPhase::CheckingNoValidate }, SshVerifyAction::CheckNoValidate)
            }
        },
        (SshPhase::Verifying { principals, next }, SshVerifyEvent::Ran(o)) => {
            let ghost pv = principals@.map_values(|p: Vec<u8>| p@);
            if next >= principals.len() {
                return (
                    SshVerifyState { minimum_trust: min, phase: SshPhase::Verifying { principals, next } },
                    SshVerifyAction::Nothing,
                );
            }
            let success = o.success;
            if verifier_accepts(success, o.stdout.as_slice()) {
                let signer = copy_range(principals[next].as_slice(), 0, principals[next].len());
                assert(signer@ =~= pv[next as int]);
                let outcome = ssh_finish(o, Some(signer), TrustLevel::Fully, success, min);
                (SshVerifyState { minimum_trust: min, phase: SshPhase::Done }, SshVerifyAction::Finish(outcome))
            } else if next + 1 < principals.len() {
                let principal = copy_range(principals[next + 1].as_slice(), 0, principals[next + 1].len());
                assert(principal@ =~= pv[next + 1]);
                (
                    SshVerifyState { minimum_trust: min, phase: SshPhase::Verifying { principals, next: next + 1 } },
                    SshVerifyAction::Verify { principal },
                )
            } else {
                let outcome = ssh_finish(o, None, TrustLevel::Fully, success, min);
                (SshVerifyState { minimum_trust: min, phase: SshPhase::Done }, SshVerifyAction::Finish(outcome))
            }
        },
        (SshPhase::CheckingNoValidate, SshVerifyEvent::Ran(o)) => {
            let outcome = ssh_finish(o, None, TrustLevel::Undefined, false, min);
            (SshVerifyState { minimum_trust: min, phase: SshPhase::Done }, SshVerifyAction::Finish(outcome))
        },
        (phase, _) => (SshVerifyState { minimum_trust: min, phase }, SshVerifyAction::Nothing),
    }
}

/// The keyword with which GPG's status output announces a signature of status `s`, with the
/// space after it: `GOODSIG `, `BADSIG `, `ERRSIG `, `EXPSIG `, `EXPKEYSIG ` and `REVKEYSIG `.
pub open spec fn announced_by(s: Status) -> Seq<u8> {
    match s {
        Status::Good => seq![71u8, 79, 79, 68, 83, 73, 71, 32],
        Status::Bad => seq![66u8, 65, 68, 83, 73, 71, 32],
        Status::Error => seq![69u8, 82, 82, 83, 73, 71, 32],
        Status::Expired => seq![69u8, 88, 80, 83, 73, 71, 32],
        Status::ExpiredKey => seq![69u8, 88, 80, 75, 69, 89, 83, 73, 71, 32],
        Status::RevokedKey => seq![82u8, 69, 86, 75, 69, 89, 83, 73, 71, 32],
        Status::Unknown => seq![],
    }
}

/// A prefix fixes the bytes it covers.
proof fn lemma_prefix_byte(l: Seq<u8>, p: Seq<u8>, i: int)
    requires
        starts_with(l, p),
        0 <= i < p.len(),
    ensures
        l[i] == p[i],
{
    assert(l.subrange(0, p.len() as int)[i] == l[i]);
}

/// A status output whose only line is one signature record, `[GNUPG:] ` followed by the keyword
/// of a status and whatever follows it on the line, reports that status: `GOODSIG` a good
/// signature, `BADSIG` a bad one, `ERRSIG` one that could not be checked, `EXPSIG` an expired
/// signature, `EXPKEYSIG` an expired key and `REVKEYSIG` a revoked key.
pub proof fn lemma_status_record_sets_status(format: Format, output: Seq<u8>, s: Status, rest: Seq<u8>)
    requires
        s != Status::Unknown,
        forall|j: int| 0 <= j < rest.len() ==> rest[j] != 10,
    ensures
        gpg_outcome(format, output, seq![91u8, 71, 78, 85, 80, 71, 58, 93, 32] + announced_by(s) + rest).status == s,
{
    lemma_status_record_fields(format, output, s, rest);
}

/// A signature record `[GNUPG:] <keyword> <key> <user id>` names the key by the word after the
/// keyword and the signer by the rest of the line, and sets the status of its keyword.
pub proof fn lemma_status_record_names_key_and_signer(format: Format, output: Seq<u8>, s: Status, key: Seq<u8>, uid: Seq<u8>)
    requires
        s != Status::Unknown,
        key.len() > 0,
        uid.len() > 0,
        forall|j: int| 0 <= j < key.len() ==> key[j] != 10 && key[j] != 32,
        forall|j: int| 0 <= j < uid.len() ==> uid[j] != 10,
    ensures
        ({
            let o = gpg_outcome(format, output, seq![91u8, 71, 78, 85, 80, 71, 58, 93, 32] + announced_by(s) + key + seq![32u8] + uid);
            o.status == s && o.key == Some(key) && o.signer == Some(uid)
        }),
{
    let rest = key + seq![32u8] + uid;
    assert forall|j: int| 0 <= j < rest.len() implies rest[j] != 10 by {
        if j > key.len() {
            assert(rest[j] == uid[j - key.len() - 1]);
        }
    }
    lemma_status_record_fields(format, output, s, rest);
    lemma_find_byte_from(rest, 32, 0);
    assert(rest[key.len() as int] == 32);
    assert(find_byte(rest, 32) == Some(key.len() as int));
    assert(first_field(rest) =~= key);
    assert(rest.subrange(key.len() as int + 1, rest.len() as int) =~= uid);
    assert(seq![91u8, 71, 78, 85, 80, 71, 58, 93, 32] + announced_by(s) + key + seq![32u8] + uid == seq![91u8, 71, 78,
        85, 80, 71, 58, 93, 32] + announced_by(s) + rest);
}

/// What a status output of one signature record establishes.
proof fn lemma_status_record_fields(format: Format, output: Seq<u8>, s: Status, rest: Seq<u8>)
    requires
        s != Status::Unknown,
        forall|j: int| 0 <= j < rest.len() ==> rest[j] != 10,
    ensures
        ({
            let o = gpg_outcome(format, output, seq![91u8, 71, 78, 85, 80, 71, 58, 93, 32] + announced_by(s) + rest);
            &&& o.status == s
            &&& o.key == nonempty(first_field(rest))
            &&& o.signer == match after_first_field(rest) {
                Some(r) => nonempty(r),
                None => None,
            }
        }),
{
    let w = announced_by(s);
    let marker = seq![91u8, 71, 78, 85, 80, 71, 58, 93, 32];
    let raw = marker + w + rest;
    assert forall|j: int| 0 <= j < raw.len() implies raw[j] != 10 by {
        if j >= marker.len() + w.len() {
            assert(raw[j] == rest[j - marker.len() - w.len()]);
        }
    }
    lemma_find_byte_from(raw, 10, 0);
    assert(lines_spec(raw) == seq![raw]);
    assert(seq![raw].drop_last() =~= Seq::<Seq<u8>>::empty());
    assert(gpg_fold(Seq::<Seq<u8>>::empty()) == gpg_initial());
    assert(seq![raw].last() == raw);
    assert(gpg_fold(seq![raw]) == gpg_line(gpg_initial(), raw));
    assert(raw.subrange(0, 9) =~= gnupg_marker());
    let l = raw.subrange(9, raw.len() as int);
    assert(l =~= w + rest);
    assert(l.subrange(0, w.len() as int) =~= w);
    assert(l[0] == w[0]);
    assert(l[1] == w[1]);
    assert(l[3] == w[3]);
    if starts_with(l, goodsig()) {
        lemma_prefix_byte(l, goodsig(), 0);
    }
    if starts_with(l, badsig()) {
        lemma_prefix_byte(l, badsig(), 0);
    }
    if starts_with(l, errsig()) {
        lemma_prefix_byte(l, errsig(), 0);
        lemma_prefix_byte(l, errsig(), 1);
    }
    if starts_with(l, expsig()) {
        lemma_prefix_byte(l, expsig(), 0);
        lemma_prefix_byte(l, expsig(), 1);
        lemma_prefix_byte(l, expsig(), 3);
    }
    if starts_with(l, expkeysig()) {
        lemma_prefix_byte(l, expkeysig(), 0);
        lemma_prefix_byte(l, expkeysig(), 3);
    }
    if starts_with(l, revkeysig()) {
        lemma_prefix_byte(l, revkeysig(), 0);
    }
    assert(status_keyword(l) matches Some((t, n)) && t == s && n == w.len());
    assert(l.subrange(w.len() as int, l.len() as int) =~= rest);
}

/// An SSH verification gives a valid outcome only with a good signature, trusted at least as
/// much as asked, from a `verify` run that exited successfully for one of the principals.
pub proof fn lemma_ssh_valid_outcome(state: (TrustLevel, SshPhaseView), event: SshVerifyEventView)
    ensures
        ssh_verify_next(state, event).1 matches SshVerifyActionView::Finish(o) ==> (o.valid ==> {
            &&& o.status == Status::Good
            &&& o.trust_level.rank() >= state.0.rank()
            &&& o.format == Format::Ssh
            &&& state.1 is Verifying
            &&& event matches SshVerifyEventView::Ran(p) && p.success
        }),
{
}

// ---------------------------------------------------------------------------------------------
// Choosing the verifier.

/// The error returned when a signature cannot be verified with the configured program.
#[derive(Debug, Clone, Copy, PartialEq, Eq, Structural)]
pub enum Error {
    /// The signature is in none of the known formats.
    UnsupportedFormat,
    /// The configured program verifies another format than the signature's.
    FormatMismatch { program_format: Format, signature_format: Format },
}

/// The format to verify `signature` in with a program for `program_format`, or why it can't be.
pub open spec fn verifier_format_spec(signature: Seq<u8>, program_format: Format) -> Result<Format, Error> {
    match format_of(signature) {
        None => Err(Error::UnsupportedFormat),
        Some(f) => if f == program_format {
            Ok(f)
        } else {
            Err(Error::FormatMismatch { program_format, signature_format: f })
        },
    }
}

/// Detect the format of `signature` and check that the program configured for `program_format`
/// can verify it, before any program runs.
pub fn verifier_format(signature: &[u8], program_format: Format) -> (r: Result<Format, Error>)
    ensures
        r == verifier_format_spec(signature@, program_format),
{
    match Format::from_signature(signature) {
        None => Err(Error::UnsupportedFormat),
        Some(f) => if f == program_format {
            Ok(f)
        } else {
            Err(Error::FormatMismatch { program_format, signature_format: f })
        },
    }
}

/// The outcome of verifying `signature` with a program for `program_format`, where the signature
/// is of that format, has the signature's format; and it is valid only with a good status, a
/// trust level at least the minimum, and a verifier that exited successfully. For GPG and GPGSM
/// the outcome is the one [`gpg_verdict`] gives for the program's output `o`; for SSH it is the
/// one the steps of [`ssh_verify_next`] finish with, judged against `state.0`.
pub proof fn lemma_verification_outcome(
    signature: Seq<u8>,
    program_format: Format,
    minimum_trust: TrustLevel,
    o: ProgramOutputView,
    state: (TrustLevel, SshPhaseView),
    event: SshVerifyEventView,
)
    requires
        verifier_format_spec(signature, program_format) is Ok,
    ensures
        ({
            let f = verifier_format_spec(signature, program_format)->Ok_0;
            &&& format_of(signature) == Some(f)
            &&& f == program_format
            &&& f != Format::Ssh ==> {
                let out = judged(gpg_outcome(f, o.stderr, o.stdout), o.success, minimum_trust);
                &&& out.format == f
                &&& out.valid ==> out.status == Status::Good && out.trust_level.rank() >= minimum_trust.rank() && o.success
            }
            &&& f == Format::Ssh && state.0 == minimum_trust ==> (ssh_verify_next(state, event).1 matches SshVerifyActionView::Finish(out)
                ==> out.format == f && (out.valid ==> out.status == Status::Good && out.trust_level.rank() >= minimum_trust.rank()
                && (event matches SshVerifyEventView::Ran(p) && p.success)))
        }),
{
    lemma_ssh_valid_outcome(state, event);
}

} // verus!
