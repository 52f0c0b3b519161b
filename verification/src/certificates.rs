//! Consensus certificates: their validity, their summary, and what a node does with them.
use vstd::prelude::*;
use vstd::string::StringExecFns;

use crate::bytes;
use crate::bytes::is_zero;
use crate::clock::unix_seconds;
use crate::crypto;
use crate::crypto::ed25519_sign;
use crate::crypto::hex_decode;
use crate::crypto::hex_encode;
use crate::crypto::random_secret;
use crate::finality;
use crate::finality::FinalityTracker;
use crate::finality::FinalizeOutcome;
use crate::json;
use crate::json::detect_non_certificate_payload_kind;
use crate::json::PayloadKind;
use crate::proposal_validator::BlockCertificate;
use crate::search;
use crate::text;
use crate::text::push_decimal;

verus! {

/// A certificate with the signatures of its voters.
#[derive(Debug, Clone)]
pub struct ConsensusCertificate {
    pub block_hash: [u8; 64],
    pub height: u64,
    pub proposer_group_id: String,
    /// Zero where it is not known.
    pub validation_timestamp: u64,
    pub voter_signatures: Vec<String>,
    pub aggregated_signature: [u8; 64],
}

/// What holds of a valid certificate whatever the time is.
pub open spec fn certificate_sound(c: ConsensusCertificate) -> bool {
    &&& c.voter_signatures@.len() > 0
    &&& c.aggregated_signature@ != bytes::zeros(64)
    &&& c.proposer_group_id@.len() > 0
    &&& c.height != 0
    &&& c.block_hash@ != bytes::zeros(64)
}

/// Whether the time of a certificate is not known, or at most an hour back and at most five
/// minutes ahead.
pub open spec fn certificate_timely(c: ConsensusCertificate, now: u64) -> bool {
    c.validation_timestamp == 0 || (now - 3600 <= c.validation_timestamp <= now + 300)
}

/// Whether a certificate is valid at a time.
pub open spec fn valid_at(c: ConsensusCertificate, now: u64) -> bool {
    certificate_sound(c) && certificate_timely(c, now)
}

/// Whether a voter's signature is not 128 hexadecimal digits.
pub open spec fn malformed_signature() -> spec_fn(String) -> bool {
    |s: String| text::utf8(s@).len() != 128 || !crypto::is_hex_text(s@)
}

/// What is wrong with a certificate.
#[derive(Debug, Clone, Copy, PartialEq, Eq, Structural)]
pub enum CertificateError {
    Invalid,
    HeightTooHigh,
    GroupIdTooLong,
    VoterSignatureLength { index: usize, length: usize },
    VoterSignatureHex { index: usize },
}

/// What is wrong with a certificate at the time `now`, if anything is.
pub open spec fn certificate_fault(c: ConsensusCertificate, now: u64) -> Result<
    (),
    CertificateError,
> {
    if !valid_at(c, now) {
        Err(CertificateError::Invalid)
    } else if c.height > 1000000 {
        Err(CertificateError::HeightTooHigh)
    } else if text::utf8(c.proposer_group_id@).len() > 256 {
        Err(CertificateError::GroupIdTooLong)
    } else {
        match search::first_index(c.voter_signatures@, malformed_signature()) {
            Some(i) => {
                let length = text::utf8(c.voter_signatures@[i]@).len();
                if length != 128 {
                    Err(
                        CertificateError::VoterSignatureLength {
                            index: i as usize,
                            length: length as usize,
                        },
                    )
                } else {
                    Err(CertificateError::VoterSignatureHex { index: i as usize })
                }
            },
            None => Ok(()),
        }
    }
}

/// The words for what is wrong with a certificate.
pub open spec fn error_words(e: CertificateError) -> Seq<char> {
    match e {
        CertificateError::Invalid => "Certificate failed basic validation"@,
        CertificateError::HeightTooHigh => "Height is unreasonably high"@,
        CertificateError::GroupIdTooLong => "Proposer group ID is too long"@,
        CertificateError::VoterSignatureLength { index, length } =>
            "Invalid voter signature format at index "@ + text::decimal(index as nat)
            + ": length "@ + text::decimal(length as nat),
        CertificateError::VoterSignatureHex { index } =>
            "Invalid hex format for voter signature at index "@ + text::decimal(index as nat),
    }
}

impl CertificateError {
    /// The words for what is wrong.
    pub fn message(&self) -> (r: String)
        ensures
            r@ == error_words(*self),
    {
        match self {
            CertificateError::Invalid => "Certificate failed basic validation".to_owned(),
            CertificateError::HeightTooHigh => "Height is unreasonably high".to_owned(),
            CertificateError::GroupIdTooLong => "Proposer group ID is too long".to_owned(),
            CertificateError::VoterSignatureLength { index, length } => {
                let mut s = "Invalid voter signature format at index ".to_owned();
                push_decimal(&mut s, *index as u64);
                s.append(": length ");
                push_decimal(&mut s, *length as u64);
                s
            },
            CertificateError::VoterSignatureHex { index } => {
                let mut s = "Invalid hex format for voter signature at index ".to_owned();
                push_decimal(&mut s, *index as u64);
                s
            },
        }
    }
}

/// The age of a certificate at a time, in seconds; none before its own time.
pub open spec fn age_of(c: ConsensusCertificate, now: u64) -> int {
    if now >= c.validation_timestamp {
        now - c.validation_timestamp
    } else {
        0
    }
}

/// Whether a certificate is at most so many seconds old at a time.
pub open spec fn recent_at(c: ConsensusCertificate, within_seconds: u64, now: u64) -> bool {
    age_of(c, now) <= within_seconds
}

/// What is recent stays so for a longer span, and up to its own time a certificate is recent for
/// any span.
pub proof fn recent_for_longer(c: ConsensusCertificate, shorter: u64, longer: u64, now: u64)
    requires
        shorter <= longer,
    ensures
        recent_at(c, shorter, now) ==> recent_at(c, longer, now),
        now <= c.validation_timestamp ==> recent_at(c, shorter, now),
{
}

impl ConsensusCertificate {
    /// Whether the certificate is valid at the time `now`.
    pub fn is_valid_at(&self, now: u64) -> (r: bool)
        ensures
            r == valid_at(*self, now),
    {
        if self.voter_signatures.len() == 0 || is_zero(self.aggregated_signature.as_slice()) {
            return false;
        }
        if self.validation_timestamp != 0 {
            if self.validation_timestamp > now && self.validation_timestamp - now > 300 {
                return false;
            }
            if self.validation_timestamp < now.saturating_sub(3600) {
                return false;
            }
        }
        !self.proposer_group_id.as_str().is_empty() && self.height != 0 && !is_zero(
            self.block_hash.as_slice(),
        )
    }

    /// Whether the certificate is valid now. The clock decides only where the certificate bears
    /// a time.
    pub fn is_valid(&self) -> (r: bool)
        ensures
            exists|now: u64| r == #[trigger] valid_at(*self, now),
            r ==> certificate_sound(*self),
            self.validation_timestamp == 0 ==> r == certificate_sound(*self),
    {
        let now: u64 = unix_seconds();
        let r = self.is_valid_at(now);
        assert(r == valid_at(*self, now));
        r
    }

    /// What is wrong with the certificate at the time `now`, if anything is.
    pub fn verify_detailed_at(&self, now: u64) -> (r: Result<(), CertificateError>)
        ensures
            r == certificate_fault(*self, now),
    {
        if !self.is_valid_at(now) {
            return Err(CertificateError::Invalid);
        }
        if self.height > 1000000 {
            return Err(CertificateError::HeightTooHigh);
        }
        if self.proposer_group_id.as_str().as_bytes().len() > 256 {
            return Err(CertificateError::GroupIdTooLong);
        }
        let f = |s: &String| -> (b: bool)
            ensures
                b == malformed_signature()(*s),
            { s.as_str().as_bytes().len() != 128 || hex_decode(s.as_str()).is_none() };
        match search::find_first(
            self.voter_signatures.as_slice(),
            f,
            Ghost(malformed_signature()),
        ) {
            Some(i) => {
                let length: usize = self.voter_signatures[i].as_str().as_bytes().len();
                if length != 128 {
                    Err(CertificateError::VoterSignatureLength { index: i, length })
                } else {
                    Err(CertificateError::VoterSignatureHex { index: i })
                }
            },
            None => Ok(()),
        }
    }

    /// What is wrong with the certificate now, if anything is. The clock decides only where the
    /// certificate bears a time.
    pub fn verify_detailed(&self) -> (r: Result<(), CertificateError>)
        ensures
            exists|now: u64| r == #[trigger] certificate_fault(*self, now),
            self.validation_timestamp == 0 ==> r == certificate_fault(*self, 0),
    {
        let now: u64 = unix_seconds();
        self.verify_detailed_at(now)
    }

    /// The certificate in short, at the time `now`.
    pub fn get_summary_at(&self, now: u64) -> (r: CertificateSummary)
        ensures
            r.height == self.height,
            r.proposer_group_id@ == self.proposer_group_id@,
            r.voter_count == self.voter_signatures@.len(),
            r.validation_timestamp == self.validation_timestamp,
            r.block_hash@ == crypto::hex_text(self.block_hash@),
            r.is_valid == valid_at(*self, now),
    {
        CertificateSummary {
            height: self.height,
            proposer_group_id: self.proposer_group_id.clone(),
            voter_count: self.voter_signatures.len(),
            validation_timestamp: self.validation_timestamp,
            block_hash: hex_encode(self.block_hash.as_slice()),
            is_valid: self.is_valid_at(now),
        }
    }

    /// The certificate in short, now.
    pub fn get_summary(&self) -> (r: CertificateSummary)
        ensures
            r.height == self.height,
            r.proposer_group_id@ == self.proposer_group_id@,
            r.voter_count == self.voter_signatures@.len(),
            r.validation_timestamp == self.validation_timestamp,
            r.block_hash@ == crypto::hex_text(self.block_hash@),
            exists|now: u64| r.is_valid == #[trigger] valid_at(*self, now),
            r.is_valid ==> certificate_sound(*self),
            self.validation_timestamp == 0 ==> r.is_valid == certificate_sound(*self),
    {
        let now: u64 = unix_seconds();
        let r = self.get_summary_at(now);
        assert(r.is_valid == valid_at(*self, now));
        r
    }

    /// The age of the certificate at the time `now`, in seconds.
    pub fn age_at(&self, now: u64) -> (r: u64)
        ensures
            r == age_of(*self, now),
    {
        now.saturating_sub(self.validation_timestamp)
    }

    /// The age of the certificate in seconds; none is older than the clock reads.
    pub fn age_seconds(&self) -> (r: u64)
        ensures
            exists|now: u64| r == #[trigger] age_of(*self, now),
            r <= u64::MAX - self.validation_timestamp,
    {
        let now: u64 = unix_seconds();
        let r: u64 = self.age_at(now);
        assert(r == age_of(*self, now));
        r
    }

    /// Whether the certificate is at most so many seconds old at the time `now`.
    pub fn is_recent_at(&self, within_seconds: u64, now: u64) -> (r: bool)
        ensures
            r == recent_at(*self, within_seconds, now),
    {
        self.age_at(now) <= within_seconds
    }

    /// Whether the certificate is at most so many seconds old now.
    pub fn is_recent(&self, within_seconds: u64) -> (r: bool)
        ensures
            exists|now: u64| r == #[trigger] recent_at(*self, within_seconds, now),
            within_seconds >= u64::MAX - self.validation_timestamp ==> r,
    {
        let now: u64 = unix_seconds();
        let r: bool = self.is_recent_at(within_seconds, now);
        assert(r == recent_at(*self, within_seconds, now));
        r
    }

    /// A certificate for trials: its aggregated signature is that of the block hash under a
    /// secret drawn at random.
    pub fn create_mock(
        block_hash: [u8; 64],
        height: u64,
        proposer_group_id: String,
        voter_signatures: Vec<String>,
    ) -> (r: Self)
        ensures
            r.block_hash == block_hash,
            r.height == height,
            r.proposer_group_id@ == proposer_group_id@,
            r.voter_signatures@ == voter_signatures@,
            exists|secret: Seq<u8>|
                r.aggregated_signature@ == #[trigger] crypto::ed25519_signature_of(
                    secret,
                    block_hash@,
                ),
    {
        let secret = random_secret();
        let signature = ed25519_sign(&secret, block_hash.as_slice());
        assert(signature@ == crypto::ed25519_signature_of(secret@, block_hash@));
        ConsensusCertificate {
            block_hash,
            height,
            proposer_group_id,
            validation_timestamp: unix_seconds(),
            voter_signatures,
            aggregated_signature: signature,
        }
    }
}

/// A certificate in short.
#[derive(Debug, Clone)]
pub struct CertificateSummary {
    pub height: u64,
    pub proposer_group_id: String,
    pub voter_count: usize,
    pub validation_timestamp: u64,
    pub block_hash: String,
    pub is_valid: bool,
}

/// The format in which summaries write a time.
pub const TIMESTAMP_FORMAT: &'static str = "%Y-%m-%d %H:%M:%S UTC";

/// The text of a time in a format, if the calendar reaches so far.
pub uninterp spec fn utc_text_of(seconds: i64, format: Seq<char>) -> Option<Seq<char>>;

/// `chrono::DateTime::from_timestamp` with the result's `format`: the text of a time given in
/// seconds since the Unix epoch, a function of the seconds and the format alone; the epoch itself
/// has one. The format of the summaries is one that `chrono` knows.
#[verifier::external_body]
fn utc_text(seconds: i64, format: &str) -> (r: Option<String>)
    requires
        format@ == TIMESTAMP_FORMAT@,
    ensures
        r is Some == utc_text_of(seconds, format@) is Some,
        r matches Some(t) ==> utc_text_of(seconds, format@) == Some(t@),
        seconds == 0 ==> r is Some,
{
    chrono::DateTime::from_timestamp(seconds, 0).map(|time| time.format(format).to_string())
}

/// An age in its two largest units.
pub open spec fn age_text(age: u64) -> Seq<char> {
    let n = age as nat;
    if age < 60 {
        text::decimal(n) + "s"@
    } else if age < 3600 {
        text::decimal(n / 60) + "m "@ + text::decimal(n % 60) + "s"@
    } else if age < 86400 {
        text::decimal(n / 3600) + "h "@ + text::decimal((n % 3600) / 60) + "m"@
    } else {
        text::decimal(n / 86400) + "d "@ + text::decimal((n % 86400) / 3600) + "h"@
    }
}

fn write_age(age: u64) -> (r: String)
    ensures
        r@ == age_text(age),
{
    let mut s = String::new();
    assert(s@ + text::decimal(age as nat) =~= text::decimal(age as nat));
    assert(s@ + text::decimal(age as nat / 60) =~= text::decimal(age as nat / 60));
    assert(s@ + text::decimal(age as nat / 3600) =~= text::decimal(age as nat / 3600));
    assert(s@ + text::decimal(age as nat / 86400) =~= text::decimal(age as nat / 86400));
    if age < 60 {
        push_decimal(&mut s, age);
        s.append("s");
    } else if age < 3600 {
        push_decimal(&mut s, age / 60);
        s.append("m ");
        push_decimal(&mut s, age % 60);
        s.append("s");
    } else if age < 86400 {
        push_decimal(&mut s, age / 3600);
        s.append("h ");
        push_decimal(&mut s, (age % 3600) / 60);
        s.append("m");
    } else {
        push_decimal(&mut s, age / 86400);
        s.append("d ");
        push_decimal(&mut s, (age % 86400) / 3600);
        s.append("h");
    }
    s
}

impl CertificateSummary {
    /// The time of the certificate as a text; the epoch where the calendar does not reach so far.
    pub fn formatted_timestamp(&self) -> (r: String)
        ensures
            Some(r@) == match utc_text_of(
                self.validation_timestamp as i64,
                TIMESTAMP_FORMAT@,
            ) {
                Some(t) => Some(t),
                None => utc_text_of(0, TIMESTAMP_FORMAT@),
            },
    {
        match utc_text(self.validation_timestamp as i64, TIMESTAMP_FORMAT) {
            Some(t) => t,
            None => utc_text(0, TIMESTAMP_FORMAT).unwrap(),
        }
    }

    /// The age of the certificate at the time `now`, as a text.
    pub fn formatted_age_at(&self, now: u64) -> (r: String)
        ensures
            r@ == age_text(
                if now >= self.validation_timestamp {
                    (now - self.validation_timestamp) as u64
                } else {
                    0
                },
            ),
    {
        write_age(now.saturating_sub(self.validation_timestamp))
    }

    /// The age of the certificate now, as a text.
    pub fn formatted_age(&self) -> (r: String)
        ensures
            exists|age: u64|
                age <= u64::MAX - self.validation_timestamp && r@ == #[trigger] age_text(age),
    {
        let now: u64 = unix_seconds();
        self.formatted_age_at(now)
    }
}

/// Which transactions of a block were confirmed and which rejected.
#[derive(Debug, Clone)]
pub struct MempoolSyncMessage {
    pub block_hash: [u8; 64],
    pub confirmed_transactions: Vec<[u8; 32]>,
    pub rejected_transactions: Vec<[u8; 32]>,
    pub timestamp: u64,
}

impl MempoolSyncMessage {
    /// A message as of now.
    pub fn new(
        block_hash: [u8; 64],
        confirmed_transactions: Vec<[u8; 32]>,
        rejected_transactions: Vec<[u8; 32]>,
    ) -> (r: Self)
        ensures
            r.block_hash == block_hash,
            r.confirmed_transactions == confirmed_transactions,
            r.rejected_transactions == rejected_transactions,
    {
        MempoolSyncMessage {
            block_hash,
            confirmed_transactions,
            rejected_transactions,
            timestamp: unix_seconds(),
        }
    }

    /// How many transactions the message speaks of.
    pub fn total_transactions(&self) -> (r: usize)
        requires
            self.confirmed_transactions@.len() + self.rejected_transactions@.len() <= usize::MAX,
        ensures
            r == self.confirmed_transactions@.len() + self.rejected_transactions@.len(),
    {
        self.confirmed_transactions.len() + self.rejected_transactions.len()
    }
}

/// What a payload on the topic for certificates decodes as. The forms are tried in this order.
#[derive(Debug)]
pub enum DecodedCertificate {
    Wire(BlockCertificate),
    BlockValidationResult,
    MempoolSync,
    Legacy(ConsensusCertificate),
    Unreadable,
}

/// What comes of a payload on the topic for certificates.
#[derive(Debug, Clone, Copy, PartialEq, Eq, Structural)]
pub enum CertificateOutcome {
    /// It is a payload of another kind.
    NotACertificate(PayloadKind),
    /// It is a certificate that is not valid.
    Invalid,
    /// It is a valid certificate, and this came of its block.
    Accepted(FinalizeOutcome),
    /// It is of a form that is no longer used.
    Deprecated,
    /// It cannot be read.
    Unreadable,
}

/// Whether a certificate with votes is valid: it has a height, a hash and votes.
pub open spec fn wire_certificate_valid(c: BlockCertificate) -> bool {
    c.height > 0 && c.block_hash@ != bytes::zeros(64) && c.votes@.len() > 0
}

/// The hash, height and group of a payload if it is a certificate that is valid at `now`.
pub open spec fn certified_block(d: DecodedCertificate, now: u64) -> Option<
    (Seq<u8>, u64, Seq<char>),
> {
    match d {
        DecodedCertificate::Wire(c) => if wire_certificate_valid(c) {
            Some((c.block_hash@, c.height, c.group_id@))
        } else {
            None
        },
        DecodedCertificate::Legacy(c) => if valid_at(c, now) {
            Some((c.block_hash@, c.height, c.proposer_group_id@))
        } else {
            None
        },
        _ => None,
    }
}

/// What comes of a decoded payload.
pub open spec fn decoded_outcome(t: &FinalityTracker, d: DecodedCertificate, now: u64) -> CertificateOutcome {
    match certified_block(d, now) {
        Some((hash, height, _)) => CertificateOutcome::Accepted(t.finalize_outcome(hash, height)),
        None => match d {
            DecodedCertificate::Wire(_) => CertificateOutcome::Invalid,
            DecodedCertificate::Legacy(_) => CertificateOutcome::Invalid,
            DecodedCertificate::BlockValidationResult => CertificateOutcome::Deprecated,
            DecodedCertificate::MempoolSync => CertificateOutcome::Deprecated,
            DecodedCertificate::Unreadable => CertificateOutcome::Unreadable,
        },
    }
}

/// Whether `next` is `prev` after a decoded payload was taken.
pub open spec fn decoded_step(
    prev: &FinalityTracker,
    next: &FinalityTracker,
    d: DecodedCertificate,
    now: u64,
) -> bool {
    match certified_block(d, now) {
        Some((hash, height, group)) => finality::certificate_accepted(
            prev,
            next,
            hash,
            height,
            group,
            now,
        ),
        None => unchanged(prev, next),
    }
}

/// Whether `next` holds what `prev` holds.
pub open spec fn unchanged(prev: &FinalityTracker, next: &FinalityTracker) -> bool {
    &&& next.cached() == prev.cached()
    &&& next.finalized() == prev.finalized()
    &&& next.waiting() == prev.waiting()
}

/// Takes a decoded payload: a valid certificate makes its block final, or waits for it.
pub fn handle_decoded_certificate(
    tracker: &mut FinalityTracker,
    decoded: DecodedCertificate,
    now: u64,
) -> (r: CertificateOutcome)
    requires
        old(tracker).wf(),
    ensures
        final(tracker).wf(),
        r == decoded_outcome(old(tracker), decoded, now),
        decoded_step(old(tracker), final(tracker), decoded, now),
{
    match decoded {
        DecodedCertificate::Wire(c) => {
            if c.height > 0 && !is_zero(c.block_hash.as_slice()) && c.votes.len() > 0 {
                CertificateOutcome::Accepted(
                    tracker.accept_certificate(&c.block_hash, c.height, c.group_id, now),
                )
            } else {
                CertificateOutcome::Invalid
            }
        },
        DecodedCertificate::Legacy(c) => {
            if c.is_valid_at(now) {
                CertificateOutcome::Accepted(
                    tracker.accept_certificate(&c.block_hash, c.height, c.proposer_group_id, now),
                )
            } else {
                CertificateOutcome::Invalid
            }
        },
        DecodedCertificate::BlockValidationResult => CertificateOutcome::Deprecated,
        DecodedCertificate::MempoolSync => CertificateOutcome::Deprecated,
        DecodedCertificate::Unreadable => CertificateOutcome::Unreadable,
    }
}

/// Takes a payload on the topic for certificates, given what it decodes as. One of another kind
/// is left alone, whatever it decodes as.
pub fn handle_consensus_certificate(
    tracker: &mut FinalityTracker,
    data: &[u8],
    decoded: DecodedCertificate,
    now: u64,
) -> (r: CertificateOutcome)
    requires
        old(tracker).wf(),
    ensures
        final(tracker).wf(),
        match json::json_of(data@) {
            Some(tree) if json::payload_kind(tree) is Some => {
                &&& r == CertificateOutcome::NotACertificate(json::payload_kind(tree)->0)
                &&& unchanged(old(tracker), final(tracker))
            },
            _ => {
                &&& r == decoded_outcome(old(tracker), decoded, now)
                &&& decoded_step(old(tracker), final(tracker), decoded, now)
            },
        },
{
    match detect_non_certificate_payload_kind(data) {
        Some(kind) => CertificateOutcome::NotACertificate(kind),
        None => handle_decoded_certificate(tracker, decoded, now),
    }
}

/// A certificate in the legacy form is valid exactly if it has voters, an aggregated signature, a
/// group, a height and a hash, and its time, where it bears one, is at most an hour back and at
/// most five minutes ahead.
pub proof fn valid_certificates_are_complete(c: ConsensusCertificate, now: u64)
    ensures
        valid_at(c, now) <==> {
            &&& c.voter_signatures@.len() >= 1
            &&& exists|i: int| 0 <= i < 64 && #[trigger] c.aggregated_signature@[i] != 0
            &&& c.proposer_group_id@.len() >= 1
            &&& c.height >= 1
            &&& exists|i: int| 0 <= i < 64 && #[trigger] c.block_hash@[i] != 0
            &&& c.validation_timestamp == 0 || (c.validation_timestamp + 3600 >= now
                && c.validation_timestamp <= now + 300)
        },
{
    bytes::not_zeros(c.aggregated_signature@, 64);
    bytes::not_zeros(c.block_hash@, 64);
}

/// A certificate in the legacy form that is valid is accepted: its block becomes final if it can,
/// or the certificate waits for it. One that is not valid is refused, and changes nothing.
pub proof fn legacy_certificates_are_taken(
    prev: FinalityTracker,
    next: FinalityTracker,
    c: ConsensusCertificate,
    now: u64,
)
    requires
        decoded_step(&prev, &next, DecodedCertificate::Legacy(c), now),
    ensures
        valid_at(c, now) ==> {
            &&& decoded_outcome(&prev, DecodedCertificate::Legacy(c), now)
                == CertificateOutcome::Accepted(prev.finalize_outcome(c.block_hash@, c.height))
            &&& finality::certificate_accepted(
                &prev,
                &next,
                c.block_hash@,
                c.height,
                c.proposer_group_id@,
                now,
            )
        },
        !valid_at(c, now) ==> {
            &&& decoded_outcome(&prev, DecodedCertificate::Legacy(c), now)
                == CertificateOutcome::Invalid
            &&& next.cached() == prev.cached()
            &&& next.finalized() == prev.finalized()
            &&& next.waiting() == prev.waiting()
        },
{
}

/// A certificate in the wire form with a height, a hash and a vote is accepted: its block becomes
/// final if it can, or the certificate waits for it. Any other is refused, and changes nothing.
pub proof fn wire_certificates_are_taken(
    prev: FinalityTracker,
    next: FinalityTracker,
    c: BlockCertificate,
    now: u64,
)
    requires
        decoded_step(&prev, &next, DecodedCertificate::Wire(c), now),
    ensures
        ({
            let complete = c.height >= 1 && (exists|i: int|
                0 <= i < 64 && #[trigger] c.block_hash@[i] != 0) && c.votes@.len() >= 1;
            &&& complete ==> decoded_outcome(&prev, DecodedCertificate::Wire(c), now)
                == CertificateOutcome::Accepted(prev.finalize_outcome(c.block_hash@, c.height))
                && finality::certificate_accepted(
                &prev,
                &next,
                c.block_hash@,
                c.height,
                c.group_id@,
                now,
            )
            &&& !complete ==> decoded_outcome(&prev, DecodedCertificate::Wire(c), now)
                == CertificateOutcome::Invalid && next.cached() == prev.cached()
                && next.finalized() == prev.finalized() && next.waiting() == prev.waiting()
        }),
{
    bytes::not_zeros(c.block_hash@, 64);
}

/// What is no certificate changes nothing, and is told apart.
pub proof fn other_payloads_change_nothing(
    prev: FinalityTracker,
    next: FinalityTracker,
    d: DecodedCertificate,
    now: u64,
)
    requires
        !(d is Wire),
        !(d is Legacy),
        decoded_step(&prev, &next, d, now),
    ensures
        next.cached() == prev.cached(),
        next.finalized() == prev.finalized(),
        next.waiting() == prev.waiting(),
        decoded_outcome(&prev, d, now) == (if d is Unreadable {
            CertificateOutcome::Unreadable
        } else {
            CertificateOutcome::Deprecated
        }),
{
}

/// The two forms of a certificate have the same effect: where both are valid and speak of the same
/// block, height and group, the same comes of them.
pub proof fn both_forms_are_worth_the_same(
    t: FinalityTracker,
    w: BlockCertificate,
    l: ConsensusCertificate,
    now: u64,
)
    requires
        w.height == l.height,
        w.block_hash@ == l.block_hash@,
        w.votes@.len() > 0,
        valid_at(l, now),
    ensures
        decoded_outcome(&t, DecodedCertificate::Wire(w), now) == decoded_outcome(
            &t,
            DecodedCertificate::Legacy(l),
            now,
        ),
        decoded_outcome(&t, DecodedCertificate::Wire(w), now) is Accepted,
{
}

/// Nothing is wrong with a certificate exactly if it is valid, its height is at most a million, the
/// name of its group has at most 256 bytes, and each voter's signature is 128 hexadecimal digits.
pub proof fn faultless_certificates(c: ConsensusCertificate, now: u64)
    ensures
        certificate_fault(c, now) is Ok <==> {
            &&& valid_at(c, now)
            &&& c.height <= 1_000_000
            &&& text::utf8(c.proposer_group_id@).len() <= 256
            &&& forall|i: int|
                0 <= i < c.voter_signatures@.len() ==> text::utf8(
                    (#[trigger] c.voter_signatures@[i])@,
                ).len() == 128 && crypto::is_hex_text(c.voter_signatures@[i]@)
        },
{
    search::first_index_is_first(c.voter_signatures@, malformed_signature());
}

/// A fault of a voter's signature names the first one that has it, and says which it is.
pub proof fn the_first_faulty_signature_is_named(c: ConsensusCertificate, now: u64, i: int)
    requires
        valid_at(c, now),
        c.height <= 1_000_000,
        text::utf8(c.proposer_group_id@).len() <= 256,
        0 <= i < c.voter_signatures@.len() <= usize::MAX,
        forall|j: int|
            0 <= j < i ==> text::utf8((#[trigger] c.voter_signatures@[j])@).len() == 128
                && crypto::is_hex_text(c.voter_signatures@[j]@),
        text::utf8(c.voter_signatures@[i]@).len() <= usize::MAX,
    ensures
        text::utf8(c.voter_signatures@[i]@).len() != 128 ==> (certificate_fault(
            c,
            now,
        ) matches Err(CertificateError::VoterSignatureLength { index, length }) && index == i
            && length == text::utf8(c.voter_signatures@[i]@).len()),
        text::utf8(c.voter_signatures@[i]@).len() == 128 && !crypto::is_hex_text(
            c.voter_signatures@[i]@,
        ) ==> (certificate_fault(c, now) matches Err(CertificateError::VoterSignatureHex { index })
            && index == i),
{
    if text::utf8(c.voter_signatures@[i]@).len() != 128 || !crypto::is_hex_text(
        c.voter_signatures@[i]@,
    ) {
        search::first_index_is(c.voter_signatures@, malformed_signature(), i);
    }
}

/// The faults are looked for in order: validity, then the height, then the group.
pub proof fn faults_come_in_order(c: ConsensusCertificate, now: u64)
    ensures
        !valid_at(c, now) <==> certificate_fault(c, now) == Err::<(), CertificateError>(
            CertificateError::Invalid,
        ),
        valid_at(c, now) && c.height > 1_000_000 <==> certificate_fault(c, now) == Err::<
            (),
            CertificateError,
        >(CertificateError::HeightTooHigh),
        valid_at(c, now) && c.height <= 1_000_000 && text::utf8(c.proposer_group_id@).len() > 256
            <==> certificate_fault(c, now) == Err::<(), CertificateError>(
            CertificateError::GroupIdTooLong,
        ),
{
}

/// A certificate grows older by a second each second, from its own time on.
pub proof fn certificates_grow_older(c: ConsensusCertificate, now: u64, later: u64)
    requires
        c.validation_timestamp <= now <= later,
    ensures
        age_of(c, c.validation_timestamp) == 0,
        age_of(c, later) - age_of(c, now) == later - now,
        recent_at(c, (later - c.validation_timestamp) as u64, now),
        later > now ==> !recent_at(c, (now - c.validation_timestamp) as u64, later),
{
}

/// An age is told in its two largest units, both rounded down.
pub proof fn ages_are_told_in_two_units(days: u64, hours: u64, minutes: u64, seconds: u64)
    requires
        days <= 1_000_000,
        hours < 24,
        minutes < 60,
        seconds < 60,
    ensures
        ({
            let age = (86400 * days + 3600 * hours + 60 * minutes + seconds) as u64;
            let t = age_text(age);
            &&& days > 0 ==> t == text::decimal(days as nat) + "d "@ + text::decimal(hours as nat)
                + "h"@
            &&& days == 0 && hours > 0 ==> t == text::decimal(hours as nat) + "h "@ + text::decimal(
                minutes as nat,
            ) + "m"@
            &&& days == 0 && hours == 0 && minutes > 0 ==> t == text::decimal(minutes as nat)
                + "m "@ + text::decimal(seconds as nat) + "s"@
            &&& days == 0 && hours == 0 && minutes == 0 ==> t == text::decimal(seconds as nat)
                + "s"@
        }),
{
    let n = 86400 * days + 3600 * hours + 60 * minutes + seconds;
    assert(n / 86400 == days);
    assert((n % 86400) / 3600 == hours);
    if days == 0 {
        assert(n / 3600 == hours);
        assert((n % 3600) / 60 == minutes);
        if hours == 0 {
            assert(n / 60 == minutes);
            assert(n % 60 == seconds);
        }
    }
}

} // verus!
