//! Validation of block proposals from lightnodes, and what a masternode signs about them.
use vstd::prelude::*;

use crate::bytes;
use crate::bytes::is_zero;
use crate::bytes::push_bytes;
use crate::bytes::push_u32;
use crate::bytes::push_u64;
use crate::bytes::same_array;
use crate::bytes::to_array64;
use crate::clock::unix_seconds;
use crate::crypto;
use crate::crypto::ed25519_key_decodes;
use crate::crypto::ed25519_public;
use crate::crypto::ed25519_sign;
use crate::crypto::ed25519_verify;
use crate::crypto::ed25519_verify_strict;
use crate::crypto::hex_decode;
use crate::crypto::hex_encode;
use crate::crypto::sha256;
use crate::crypto::sha512;
use crate::json;
use crate::json::to_json_string;
use crate::text;
use crate::text::push_decimal;
use crate::text::same_text;
use crate::text_set;
use crate::text_set::TextSet;

verus! {

/// Sixty-four bytes, all zero by default.
#[derive(Debug, Clone, Copy, PartialEq, Eq)]
pub struct ByteArray64(pub [u8; 64]);

impl Default for ByteArray64 {
    fn default() -> (r: Self)
        ensures
            r.0@ == bytes::zeros(64),
    {
        let r = ByteArray64([0u8; 64]);
        assert(r.0@ =~= bytes::zeros(64));
        r
    }
}

/// A signature in hexadecimal; all zero where it has another length. None where the text is not
/// hexadecimal.
pub fn signature_from_hex(t: &str) -> (r: Option<[u8; 64]>)
    ensures
        r is Some == crypto::is_hex_text(t@),
        r matches Some(a) ==> a@ == if crypto::hex_bytes(t@).len() == 64 {
            crypto::hex_bytes(t@)
        } else {
            bytes::zeros(64)
        },
{
    match hex_decode(t) {
        Some(data) => if data.len() == 64 {
            Some(to_array64(data.as_slice()))
        } else {
            let zero = [0u8;64];
            assert(zero@ =~= bytes::zeros(64));
            Some(zero)
        },
        None => None,
    }
}

impl From<[u8; 64]> for ByteArray64 {
    fn from(arr: [u8; 64]) -> (r: Self) {
        ByteArray64(arr)
    }
}

impl vstd::std_specs::convert::FromSpecImpl<[u8; 64]> for ByteArray64 {
    open spec fn obeys_from_spec() -> bool {
        true
    }

    open spec fn from_spec(arr: [u8; 64]) -> ByteArray64 {
        ByteArray64(arr)
    }
}

/// One signature under an election certificate.
#[derive(Debug, Clone)]
pub struct ElectionAttestation {
    pub signer_peer_id: String,
    pub signer_pubkey: [u8; 32],
    pub signature: [u8; 64],
}

/// What the members of a group attest: who may propose, and from which height on.
#[derive(Debug, Clone)]
pub struct ElectionCertificate {
    pub group_id: String,
    pub election_round: u64,
    pub elected_proposer_peer_id: String,
    pub elected_proposer_pubkey: [u8; 32],
    pub proposer_pou_score: u32,
    pub timestamp: u64,
    /// Peer, score, and the bits of the combined floating-point score.
    pub candidates: Vec<(String, u32, u64)>,
    pub attestations: Vec<ElectionAttestation>,
    /// First height at which the certificate is valid.
    pub tenure_start_height: u64,
}

/// How many blocks a certificate is valid for.
pub const PROPOSER_TENURE_BLOCKS: u64 = 100;

/// How long the backup waits, in milliseconds, before it publishes in place of the leader.
pub const BACKUP_CERT_TIMEOUT_MS: u64 = 2000;

/// The fewest attestations that count when the members of a group are not known.
pub const MIN_FLOOR_ATTESTATIONS: usize = 3;

/// The part that this masternode plays for the proposals of a group.
#[derive(Debug, Clone, Copy, PartialEq, Eq, Structural)]
pub enum MnGroupRole {
    /// Publishes the acceptance certificate at once.
    Leader,
    /// Publishes after `BACKUP_CERT_TIMEOUT_MS` if no certificate has arrived.
    Backup,
    /// Publishes only if both others fail.
    Participant,
}

/// A proposal and this node's part in it.
#[derive(Debug, Clone)]
pub struct ProposalWithRole {
    pub proposal: LightnodeProposal,
    pub role: MnGroupRole,
}

/// A block proposal as a lightnode sends it.
#[derive(Debug, Clone)]
pub struct LightnodeProposal {
    pub round_id: u64,
    pub height: u64,
    pub timestamp: u64,
    pub proposer_pubkey: [u8; 32],
    pub block_hash: [u8; 64],
    pub tx_count: u32,
    pub signature: [u8; 64],
    pub parent_hash: ByteArray64,
    pub state_root: ByteArray64,
    pub tx_root: ByteArray64,
    pub proposer_group_id: String,
    pub election_certificate: Option<ElectionCertificate>,
    pub raw_txs: Option<Vec<Vec<u8>>>,
}

/// A masternode's vote on a proposal.
#[derive(Debug, Clone)]
pub struct MasternodeVote {
    pub round_id: u64,
    pub height: u64,
    pub block_hash: [u8; 64],
    pub voter_pubkey: [u8; 32],
    pub vote_type: VoteType,
    pub signature: [u8; 64],
    pub group_id: String,
    pub state_root: [u8; 64],
    pub tx_root: [u8; 64],
    pub parent_hash: [u8; 64],
}

#[derive(Debug, Clone, Copy, PartialEq, Eq, Structural)]
pub enum VoteType {
    Approve,
    Reject,
}

/// The certificate of a block that reached its quorum.
#[derive(Debug, Clone)]
pub struct BlockCertificate {
    pub round_id: u64,
    pub height: u64,
    pub block_hash: [u8; 64],
    pub votes: Vec<MasternodeVote>,
    pub timestamp: u64,
    pub group_id: String,
    pub state_root: [u8; 64],
    pub tx_root: [u8; 64],
    pub parent_hash: [u8; 64],
    pub reward_recipients: Vec<[u8; 32]>,
}

/// The group owner's certificate that it accepted a block.
#[derive(Debug, Clone)]
pub struct BlockAcceptanceCertificate {
    pub group_id: String,
    pub height: u64,
    pub round_id: u64,
    pub block_hash: [u8; 64],
    pub tx_root: [u8; 64],
    pub state_root: [u8; 64],
    pub parent_hash: [u8; 64],
    pub tx_count: u32,
    pub owner_masternode_id: String,
    pub owner_pubkey: [u8; 32],
    pub signature: [u8; 64],
    pub timestamp: u64,
    pub reward_recipients: Vec<[u8; 32]>,
}

/// The bytes that an acceptance certificate signs.
pub open spec fn acceptance_bytes(
    owner_id: Seq<char>,
    group_id: Seq<char>,
    height: u64,
    round_id: u64,
    block_hash: Seq<u8>,
    tx_root: Seq<u8>,
    state_root: Seq<u8>,
    parent_hash: Seq<u8>,
    tx_count: u32,
) -> Seq<u8> {
    text::utf8(group_id) + bytes::u64_le(height) + bytes::u64_le(round_id) + block_hash + tx_root
        + state_root + parent_hash + bytes::u32_le(tx_count) + text::utf8(owner_id)
}

/// The bytes that the signature of `cert` covers.
pub open spec fn certificate_bytes(cert: BlockAcceptanceCertificate) -> Seq<u8> {
    acceptance_bytes(
        cert.owner_masternode_id@,
        cert.group_id@,
        cert.height,
        cert.round_id,
        cert.block_hash@,
        cert.tx_root@,
        cert.state_root@,
        cert.parent_hash@,
        cert.tx_count,
    )
}

/// Whether the signature of `cert` is valid for the public key that it carries.
pub open spec fn acceptance_verifies(cert: BlockAcceptanceCertificate) -> bool {
    crypto::ed25519_accepts(cert.owner_pubkey@, certificate_bytes(cert), cert.signature@)
}

/// Whether a proposal is the block that `cert` speaks of.
pub open spec fn proposal_matches(
    proposal: LightnodeProposal,
    cert: BlockAcceptanceCertificate,
) -> bool {
    &&& proposal.block_hash == cert.block_hash
    &&& proposal.tx_root.0 == cert.tx_root
    &&& proposal.state_root.0 == cert.state_root
    &&& proposal.parent_hash.0 == cert.parent_hash
    &&& proposal.tx_count == cert.tx_count
    &&& proposal.height == cert.height
    &&& proposal.round_id == cert.round_id
}

/// The secret that belongs to a masternode in an epoch.
pub open spec fn derived_secret(masternode_id: Seq<char>, epoch: u64) -> Seq<u8> {
    crypto::sha512_of(text::utf8(masternode_id) + bytes::u64_le(epoch)).subrange(0, 32)
}

/// The bytes that a proposer signs.
pub open spec fn proposal_bytes(p: LightnodeProposal) -> Seq<u8> {
    bytes::u64_le(p.round_id) + bytes::u64_le(p.height) + bytes::u64_le(p.timestamp)
        + p.proposer_pubkey@ + p.block_hash@ + bytes::u32_le(p.tx_count)
}

/// The bytes that the older signature scheme hashes.
pub open spec fn legacy_bytes(p: LightnodeProposal) -> Seq<u8> {
    bytes::u64_le(p.round_id) + bytes::u64_le(p.height) + bytes::u64_le(p.timestamp)
        + p.proposer_pubkey@ + p.parent_hash.0@ + p.state_root.0@ + p.tx_root.0@
}

/// The signature of the older scheme: the digest of the message, then the digest of the
/// proposer's public key in hexadecimal.
pub open spec fn legacy_signature(p: LightnodeProposal) -> Seq<u8> {
    crypto::sha256_of(legacy_bytes(p)) + crypto::sha256_of(
        text::utf8(crypto::hex_text(p.proposer_pubkey@)),
    )
}

/// Whether all of the three roots that a block hash is made of are given.
pub open spec fn has_all_roots(p: LightnodeProposal) -> bool {
    &&& p.parent_hash.0@ != bytes::zeros(64)
    &&& p.state_root.0@ != bytes::zeros(64)
    &&& p.tx_root.0@ != bytes::zeros(64)
}

/// Whether any of those roots is given.
pub open spec fn has_any_root(p: LightnodeProposal) -> bool {
    ||| p.parent_hash.0@ != bytes::zeros(64)
    ||| p.state_root.0@ != bytes::zeros(64)
    ||| p.tx_root.0@ != bytes::zeros(64)
}

/// Whether the proposer signed the proposal, in either scheme.
pub open spec fn proposal_signed(p: LightnodeProposal) -> bool {
    &&& crypto::ed25519_decodes(p.proposer_pubkey@)
    &&& crypto::ed25519_accepts(p.proposer_pubkey@, proposal_bytes(p), p.signature@) || (
    has_any_root(p) && legacy_signature(p) == p.signature@)
}

/// What holds of a valid proposal whatever the time is, where `expected_hash` is the hash of a
/// block with the proposal's roots and height.
pub open spec fn proposal_sound(p: LightnodeProposal, expected_hash: Seq<u8>) -> bool {
    &&& p.height != 0
    &&& p.tx_count <= 10000
    &&& p.proposer_pubkey@ != bytes::zeros(32)
    &&& p.block_hash@ != bytes::zeros(64)
    &&& has_all_roots(p) ==> p.block_hash@ == expected_hash
    &&& proposal_signed(p)
}

/// Whether a proposal is at most an hour old and at most five minutes ahead.
pub open spec fn proposal_timely(p: LightnodeProposal, now: u64) -> bool {
    now - 3600 <= p.timestamp <= now + 300
}

/// Whether a vote on a proposal is in time: less than ten minutes late and less than one early.
pub open spec fn vote_timely(p: LightnodeProposal, now: u64) -> bool {
    now - 600 < p.timestamp < now + 60
}

/// Whether a proposal passes where the clock reads `now`. A clock within an hour of the Unix
/// epoch, or near the end of its range, lets none pass.
pub open spec fn valid_as_read(p: LightnodeProposal, expected_hash: Seq<u8>, now: u64) -> bool {
    &&& 3600 <= now <= u64::MAX - 300
    &&& proposal_sound(p, expected_hash)
    &&& proposal_timely(p, now)
}

/// Whether a proposal gets a vote where the clock reads `checked_at` when it is checked, and
/// `now` when the vote is cast.
pub open spec fn voted_as_read(
    p: LightnodeProposal,
    expected_hash: Seq<u8>,
    checked_at: u64,
    now: u64,
) -> bool {
    &&& valid_as_read(p, expected_hash, checked_at)
    &&& 600 <= now <= u64::MAX - 60
    &&& vote_timely(p, now)
}

/// The bytes that an approving vote signs.
pub open spec fn vote_bytes(p: LightnodeProposal, voter: Seq<u8>) -> Seq<u8> {
    bytes::u64_le(p.round_id) + bytes::u64_le(p.height) + p.block_hash@ + voter + seq![1u8]
        + text::utf8(p.proposer_group_id@)
}

/// The JSON object that an attester of an election signs.
pub open spec fn election_signable(cert: ElectionCertificate, sender: Seq<char>) -> Seq<u8> {
    text::utf8("{\"round\":"@) + text::utf8(text::decimal(cert.election_round as nat))
        + text::utf8(",\"elected_proposer\":"@) + json::json_string(cert.elected_proposer_peer_id@)
        + text::utf8(",\"sender\":"@) + json::json_string(sender) + text::utf8(",\"group_id\":"@)
        + json::json_string(cert.group_id@) + text::utf8(",\"tenure_start_height\":"@)
        + text::utf8(text::decimal(cert.tenure_start_height as nat)) + text::utf8("}"@)
}

/// What the signature of an attestation covers.
#[verifier::opaque]
pub open spec fn election_payload(cert: ElectionCertificate, sender: Seq<char>) -> Seq<u8> {
    text::utf8("savitri-intragroup-v1|election_result|"@) + text::utf8(cert.group_id@)
        + text::utf8("|"@) + election_signable(cert, sender)
}

/// Whether an attestation of `cert` carries a valid signature.
pub open spec fn attestation_valid(cert: ElectionCertificate, att: ElectionAttestation) -> bool {
    crypto::ed25519_accepts_strictly(
        att.signer_pubkey@,
        election_payload(cert, att.signer_peer_id@),
        att.signature@,
    )
}

/// The peers that attestations come from, however often each attests.
pub open spec fn signers(atts: Seq<ElectionAttestation>) -> Set<Seq<char>> {
    atts.map_values(|a: ElectionAttestation| a.signer_peer_id@).to_set()
}

/// How many peers on the roster attest.
pub open spec fn attesting_members(atts: Seq<ElectionAttestation>, roster: Seq<String>) -> nat {
    signers(atts).intersect(text_set::texts(roster).to_set()).len()
}

/// How many of `n` members must attest: two thirds, rounded up.
pub open spec fn two_thirds(n: nat) -> nat {
    (2 * n + 2) / 3
}

/// Whether `height` lies in the tenure that starts at `start`.
pub open spec fn in_tenure(start: u64, height: u64) -> bool {
    start <= height < (if start + PROPOSER_TENURE_BLOCKS <= u64::MAX {
        start + PROPOSER_TENURE_BLOCKS
    } else {
        u64::MAX as int
    })
}

/// Whether a proposal comes from the elected proposer of its group.
pub open spec fn election_proved(
    p: LightnodeProposal,
    roster: Seq<String>,
    tenure_unchecked: bool,
) -> bool {
    &&& p.proposer_group_id@.len() > 0
    &&& p.election_certificate matches Some(cert)
    &&& tenure_unchecked || in_tenure(cert.tenure_start_height, p.height)
    &&& cert.group_id@ == p.proposer_group_id@
    &&& cert.elected_proposer_pubkey == p.proposer_pubkey
    &&& forall|i: int|
        0 <= i < cert.attestations@.len() ==> attestation_valid(
            cert,
            #[trigger] cert.attestations@[i],
        )
    &&& cert.attestations@.len() > 0
    &&& if roster.len() == 0 {
        signers(cert.attestations@).len() >= MIN_FLOOR_ATTESTATIONS
    } else {
        attesting_members(cert.attestations@, roster) >= two_thirds(roster.len())
    }
}

/// Signs acceptance certificates and votes, and validates proposals.
#[derive(Debug)]
pub struct ProposalValidator {
    local_pubkey: [u8; 32],
    secret: [u8; 32],
    quorum_threshold: usize,
}

impl ProposalValidator {
    /// The public key that this masternode signs under.
    pub closed spec fn pubkey(&self) -> [u8; 32] {
        self.local_pubkey
    }

    /// The secret that it signs with.
    pub closed spec fn signing_secret(&self) -> [u8; 32] {
        self.secret
    }

    /// The number of votes that it was made with.
    pub closed spec fn quorum(&self) -> usize {
        self.quorum_threshold
    }

    /// The public key is the one that belongs to the secret.
    #[verifier::type_invariant]
    spec fn keys_match(&self) -> bool {
        self.local_pubkey@ == crypto::ed25519_public_of(self.secret@)
    }

    /// A validator whose key bytes serve as the secret, under the public key that belongs to them.
    pub fn new(local_pubkey: [u8; 32], quorum_threshold: usize) -> (r: Self)
        ensures
            r.pubkey()@ == crypto::ed25519_public_of(local_pubkey@),
            r.signing_secret() == local_pubkey,
            r.quorum() == quorum_threshold,
    {
        Self::from_signing_key(local_pubkey, quorum_threshold)
    }

    /// A validator that signs with `secret`, under the public key that belongs to it.
    pub fn from_signing_key(secret: [u8; 32], quorum_threshold: usize) -> (r: Self)
        ensures
            r.pubkey()@ == crypto::ed25519_public_of(secret@),
            r.signing_secret() == secret,
            r.quorum() == quorum_threshold,
    {
        let local_pubkey = ed25519_public(&secret);
        ProposalValidator { local_pubkey, secret, quorum_threshold }
    }

    /// Certifies, as of `timestamp`, that this masternode accepted a block. The certificate
    /// verifies.
    pub fn sign_block_acceptance_at(
        &self,
        owner_masternode_id: &str,
        group_id: &str,
        height: u64,
        round_id: u64,
        block_hash: &[u8; 64],
        tx_root: &[u8; 64],
        state_root: &[u8; 64],
        parent_hash: &[u8; 64],
        tx_count: u32,
        timestamp: u64,
    ) -> (r: BlockAcceptanceCertificate)
        ensures
            r.group_id@ == group_id@,
            r.height == height,
            r.round_id == round_id,
            r.block_hash == *block_hash,
            r.tx_root == *tx_root,
            r.state_root == *state_root,
            r.parent_hash == *parent_hash,
            r.tx_count == tx_count,
            r.owner_masternode_id@ == owner_masternode_id@,
            r.owner_pubkey == self.pubkey(),
            r.signature@ == crypto::ed25519_signature_of(
                self.signing_secret()@,
                certificate_bytes(r),
            ),
            r.timestamp == timestamp,
            r.reward_recipients@.len() == 0,
            acceptance_verifies(r),
    {
        proof {
            use_type_invariant(self);
        }
        let signable = acceptance_signable(
            owner_masternode_id,
            group_id,
            height,
            round_id,
            block_hash,
            tx_root,
            state_root,
            parent_hash,
            tx_count,
        );
        let signature = ed25519_sign(&self.secret, signable.as_slice());
        BlockAcceptanceCertificate {
            group_id: group_id.to_owned(),
            height,
            round_id,
            block_hash: *block_hash,
            tx_root: *tx_root,
            state_root: *state_root,
            parent_hash: *parent_hash,
            tx_count,
            owner_masternode_id: owner_masternode_id.to_owned(),
            owner_pubkey: self.local_pubkey,
            signature,
            timestamp,
            reward_recipients: Vec::new(),
        }
    }

    /// Certifies, as of now, that this masternode accepted a block.
    pub fn sign_block_acceptance(
        &self,
        owner_masternode_id: &str,
        group_id: &str,
        height: u64,
        round_id: u64,
        block_hash: &[u8; 64],
        tx_root: &[u8; 64],
        state_root: &[u8; 64],
        parent_hash: &[u8; 64],
        tx_count: u32,
    ) -> (r: BlockAcceptanceCertificate)
        ensures
            r.group_id@ == group_id@,
            r.height == height,
            r.round_id == round_id,
            r.block_hash == *block_hash,
            r.tx_root == *tx_root,
            r.state_root == *state_root,
            r.parent_hash == *parent_hash,
            r.tx_count == tx_count,
            r.owner_masternode_id@ == owner_masternode_id@,
            r.owner_pubkey == self.pubkey(),
            r.signature@ == crypto::ed25519_signature_of(
                self.signing_secret()@,
                certificate_bytes(r),
            ),
            r.reward_recipients@.len() == 0,
            acceptance_verifies(r),
    {
        self.sign_block_acceptance_at(
            owner_masternode_id,
            group_id,
            height,
            round_id,
            block_hash,
            tx_root,
            state_root,
            parent_hash,
            tx_count,
            unix_seconds(),
        )
    }

    /// Whether the signature of a certificate is valid for the public key that it carries.
    pub fn verify_block_acceptance(cert: &BlockAcceptanceCertificate) -> (r: bool)
        ensures
            r == acceptance_verifies(*cert),
            r == crypto::ed25519_accepts(
                cert.owner_pubkey@,
                certificate_bytes(*cert),
                cert.signature@,
            ),
    {
        let signable = acceptance_signable(
            cert.owner_masternode_id.as_str(),
            cert.group_id.as_str(),
            cert.height,
            cert.round_id,
            &cert.block_hash,
            &cert.tx_root,
            &cert.state_root,
            &cert.parent_hash,
            cert.tx_count,
        );
        ed25519_verify(&cert.owner_pubkey, signable.as_slice(), &cert.signature)
    }

    /// Whether a proposal is the block that a certificate speaks of.
    pub fn verify_proposal_matches_certificate(
        proposal: &LightnodeProposal,
        cert: &BlockAcceptanceCertificate,
    ) -> (r: bool)
        ensures
            r == proposal_matches(*proposal, *cert),
    {
        same_array(&proposal.block_hash, &cert.block_hash) && same_array(
            &proposal.tx_root.0,
            &cert.tx_root,
        ) && same_array(&proposal.state_root.0, &cert.state_root) && same_array(
            &proposal.parent_hash.0,
            &cert.parent_hash,
        ) && proposal.tx_count == cert.tx_count && proposal.height == cert.height
            && proposal.round_id == cert.round_id
    }

    /// The public key of a masternode in an epoch, derived from its identifier.
    pub fn derive_masternode_pubkey(masternode_id: &str, epoch: u64) -> (r: [u8; 32])
        ensures
            r@ == crypto::ed25519_public_of(derived_secret(masternode_id@, epoch)),
    {
        let mut data: Vec<u8> = Vec::new();
        push_bytes(&mut data, masternode_id.as_bytes());
        assert(data@ =~= text::utf8(masternode_id@));
        push_u64(&mut data, epoch);
        let digest = sha512(data.as_slice());
        let seed = bytes::to_array32(vstd::slice::slice_subrange(digest.as_slice(), 0, 32));
        ed25519_public(&seed)
    }

    /// The bytes that a proposer signs.
    pub fn proposal_signable_bytes(&self, proposal: &LightnodeProposal) -> (r: Vec<u8>)
        ensures
            r@ == proposal_bytes(*proposal),
    {
        let mut data: Vec<u8> = Vec::new();
        push_u64(&mut data, proposal.round_id);
        assert(data@ =~= bytes::u64_le(proposal.round_id));
        push_u64(&mut data, proposal.height);
        push_u64(&mut data, proposal.timestamp);
        push_bytes(&mut data, proposal.proposer_pubkey.as_slice());
        push_bytes(&mut data, proposal.block_hash.as_slice());
        push_u32(&mut data, proposal.tx_count);
        data
    }

    /// Whether the proposer signed the proposal, in either scheme.
    pub fn verify_proposal_signature(&self, proposal: &LightnodeProposal) -> (r: bool)
        ensures
            r == proposal_signed(*proposal),
    {
        if !ed25519_key_decodes(&proposal.proposer_pubkey) {
            return false;
        }
        let signable = self.proposal_signable_bytes(proposal);
        if ed25519_verify(&proposal.proposer_pubkey, signable.as_slice(), &proposal.signature) {
            return true;
        }
        if is_zero(proposal.parent_hash.0.as_slice()) && is_zero(proposal.state_root.0.as_slice())
            && is_zero(proposal.tx_root.0.as_slice()) {
            return false;
        }
        let mut data: Vec<u8> = Vec::new();
        push_u64(&mut data, proposal.round_id);
        assert(data@ =~= bytes::u64_le(proposal.round_id));
        push_u64(&mut data, proposal.height);
        push_u64(&mut data, proposal.timestamp);
        push_bytes(&mut data, proposal.proposer_pubkey.as_slice());
        push_bytes(&mut data, proposal.parent_hash.0.as_slice());
        push_bytes(&mut data, proposal.state_root.0.as_slice());
        push_bytes(&mut data, proposal.tx_root.0.as_slice());
        let proposer_hex = hex_encode(proposal.proposer_pubkey.as_slice());
        let mut expected: Vec<u8> = Vec::new();
        push_bytes(&mut expected, sha256(data.as_slice()).as_slice());
        assert(expected@ =~= crypto::sha256_of(legacy_bytes(*proposal)));
        push_bytes(&mut expected, sha256(proposer_hex.as_str().as_bytes()).as_slice());
        bytes::bytes_equal(expected.as_slice(), proposal.signature.as_slice())
    }

    /// Whether a proposal is valid at the time `now`, where `expected_hash` is the hash of a
    /// block with the proposal's roots and height.
    pub fn validate_proposal_at(
        &self,
        proposal: &LightnodeProposal,
        expected_hash: &[u8; 64],
        now: u64,
    ) -> (r: bool)
        requires
            3600 <= now <= u64::MAX - 300,
        ensures
            r == (proposal_sound(*proposal, expected_hash@) && proposal_timely(*proposal, now)),
    {
        if proposal.height == 0 || proposal.tx_count > 10000 {
            return false;
        }
        if proposal.timestamp > now + 300 || proposal.timestamp < now - 3600 {
            return false;
        }
        if is_zero(proposal.proposer_pubkey.as_slice()) || is_zero(
            proposal.block_hash.as_slice(),
        ) {
            return false;
        }
        if !is_zero(proposal.parent_hash.0.as_slice()) && !is_zero(
            proposal.state_root.0.as_slice(),
        ) && !is_zero(proposal.tx_root.0.as_slice()) {
            if !same_array(&proposal.block_hash, expected_hash) {
                return false;
            }
        }
        self.verify_proposal_signature(proposal)
    }

    /// Whether a proposal is valid now. A clock within an hour of the Unix epoch, or of the end
    /// of its range, validates nothing.
    pub fn validate_proposal(&self, proposal: &LightnodeProposal, expected_hash: &[u8; 64]) -> (r:
        bool)
        ensures
            r ==> proposal_sound(*proposal, expected_hash@),
            exists|now: u64| r == #[trigger] valid_as_read(*proposal, expected_hash@, now),
    {
        let now: u64 = unix_seconds();
        if now < 3600 || now > u64::MAX - 300 {
            assert(!valid_as_read(*proposal, expected_hash@, now));
            return false;
        }
        let r = self.validate_proposal_at(proposal, expected_hash, now);
        assert(r == valid_as_read(*proposal, expected_hash@, now));
        r
    }

    /// Whether the tenure of a certificate goes unchecked: it does unless the setting is `0` or
    /// `false`, in any case of letters.
    pub fn tenure_unchecked(setting: Option<&str>) -> (r: bool)
        ensures
            r == match setting {
                Some(v) => v@ != "0"@ && !text::same_ignoring_ascii_case(v@, "false"@),
                None => true,
            },
    {
        match setting {
            Some(v) => !same_text(v, "0") && !text::equal_ignoring_ascii_case(v, "false"),
            None => true,
        }
    }

    /// Whether a proposal comes from the elected proposer of its group: two thirds of the members
    /// must attest, each counted once. An empty roster stands for a group whose members are not
    /// known here. That the key of an attestation belongs to the peer that it names is
    /// not checked.
    pub fn verify_proposal_group_and_certificate(
        proposal: &LightnodeProposal,
        group_members: &[String],
        tenure_unchecked: bool,
    ) -> (r: bool)
        ensures
            r == election_proved(*proposal, group_members@, tenure_unchecked),
    {
        if proposal.proposer_group_id.as_str().is_empty() {
            return false;
        }
        let cert = match &proposal.election_certificate {
            Some(c) => c,
            None => {
                return false;
            },
        };
        if !tenure_unchecked {
            let tenure_end: u64 = cert.tenure_start_height.saturating_add(PROPOSER_TENURE_BLOCKS);
            if proposal.height < cert.tenure_start_height || proposal.height >= tenure_end {
                return false;
            }
        }
        if !same_text(cert.group_id.as_str(), proposal.proposer_group_id.as_str()) {
            return false;
        }
        if !same_array(&cert.elected_proposer_pubkey, &proposal.proposer_pubkey) {
            return false;
        }
        let mut i: usize = 0;
        while i < cert.attestations.len()
            invariant
                proposal.election_certificate == Some(*cert),
                i <= cert.attestations@.len(),
                forall|j: int|
                    0 <= j < i ==> attestation_valid(*cert, #[trigger] cert.attestations@[j]),
            decreases cert.attestations@.len() - i,
        {
            let att = &cert.attestations[i];
            let payload = election_payload_bytes(cert, att.signer_peer_id.as_str());
            if !ed25519_verify_strict(&att.signer_pubkey, payload.as_slice(), &att.signature) {
                assert(!attestation_valid(*cert, cert.attestations@[i as int]));
                return false;
            }
            i += 1;
        }
        if cert.attestations.len() == 0 {
            return false;
        }
        if group_members.len() == 0 {
            signer_set(cert.attestations.as_slice()).len() >= MIN_FLOOR_ATTESTATIONS
        } else {
            count_attesting(cert.attestations.as_slice(), group_members) >= group_members.len()
                - group_members.len() / 3
        }
    }

    /// The vote on a proposal that was valid at `checked_at`, cast at `now`: an approval, if the
    /// proposal is in time.
    pub fn vote_on_proposal_at(
        &self,
        proposal: &LightnodeProposal,
        expected_hash: &[u8; 64],
        checked_at: u64,
        now: u64,
    ) -> (r: Option<MasternodeVote>)
        requires
            3600 <= checked_at <= u64::MAX - 300,
            600 <= now <= u64::MAX - 60,
        ensures
            r is Some <==> proposal_sound(*proposal, expected_hash@) && proposal_timely(
                *proposal,
                checked_at,
            ) && vote_timely(*proposal, now),
            r matches Some(vote) ==> self.is_approval(vote, *proposal),
    {
        if !self.validate_proposal_at(proposal, expected_hash, checked_at) {
            return None;
        }
        if proposal.timestamp > now - 600 && proposal.timestamp < now + 60 {
            Some(self.approve(proposal))
        } else {
            None
        }
    }

    /// The vote on a proposal, as the clock reads now. A clock within an hour of the Unix epoch,
    /// or of the end of its range, casts none.
    pub fn vote_on_proposal(&self, proposal: &LightnodeProposal, expected_hash: &[u8; 64]) -> (r:
        Option<MasternodeVote>)
        ensures
            r is Some ==> proposal_sound(*proposal, expected_hash@),
            exists|checked_at: u64, now: u64|
                r is Some == #[trigger] voted_as_read(
                    *proposal,
                    expected_hash@,
                    checked_at,
                    now,
                ),
            r matches Some(vote) ==> self.is_approval(vote, *proposal),
    {
        let checked_at: u64 = unix_seconds();
        if checked_at < 3600 || checked_at > u64::MAX - 300 {
            assert(!voted_as_read(*proposal, expected_hash@, checked_at, 0));
            return None;
        }
        let now: u64 = unix_seconds();
        if now < 600 || now > u64::MAX - 60 {
            assert(!voted_as_read(*proposal, expected_hash@, checked_at, now));
            return None;
        }
        let r = self.vote_on_proposal_at(proposal, expected_hash, checked_at, now);
        assert(r is Some == voted_as_read(*proposal, expected_hash@, checked_at, now));
        r
    }

    /// Whether `vote` is this masternode's signed approval of `p`.
    pub open spec fn is_approval(&self, vote: MasternodeVote, p: LightnodeProposal) -> bool {
        &&& vote.round_id == p.round_id
        &&& vote.height == p.height
        &&& vote.block_hash == p.block_hash
        &&& vote.voter_pubkey == self.pubkey()
        &&& vote.vote_type == VoteType::Approve
        &&& vote.signature@ == crypto::ed25519_signature_of(
            self.signing_secret()@,
            vote_bytes(p, self.pubkey()@),
        )
        &&& vote.group_id@ == p.proposer_group_id@
        &&& vote.state_root == p.state_root.0
        &&& vote.tx_root == p.tx_root.0
        &&& vote.parent_hash == p.parent_hash.0
        &&& crypto::ed25519_accepts(
            vote.voter_pubkey@,
            vote_bytes(p, vote.voter_pubkey@),
            vote.signature@,
        )
    }

    fn approve(&self, proposal: &LightnodeProposal) -> (r: MasternodeVote)
        ensures
            self.is_approval(r, *proposal),
    {
        proof {
            use_type_invariant(self);
        }
        let mut data: Vec<u8> = Vec::new();
        push_u64(&mut data, proposal.round_id);
        assert(data@ =~= bytes::u64_le(proposal.round_id));
        push_u64(&mut data, proposal.height);
        push_bytes(&mut data, proposal.block_hash.as_slice());
        push_bytes(&mut data, self.local_pubkey.as_slice());
        data.push(1u8);
        push_bytes(&mut data, proposal.proposer_group_id.as_str().as_bytes());
        assert(data@ =~= vote_bytes(*proposal, self.local_pubkey@));
        let signature = ed25519_sign(&self.secret, data.as_slice());
        MasternodeVote {
            round_id: proposal.round_id,
            height: proposal.height,
            block_hash: proposal.block_hash,
            voter_pubkey: self.local_pubkey,
            vote_type: VoteType::Approve,
            signature,
            group_id: proposal.proposer_group_id.clone(),
            state_root: proposal.state_root.0,
            tx_root: proposal.tx_root.0,
            parent_hash: proposal.parent_hash.0,
        }
    }
}

/// The 32-byte roots that a block hash is made of: the first halves of the 64-byte ones.
pub fn block_hash_roots(state_root: &[u8; 64], tx_root: &[u8; 64]) -> (r: ([u8; 32], [u8; 32]))
    ensures
        r.0@ == state_root@.subrange(0, 32),
        r.1@ == tx_root@.subrange(0, 32),
{
    (
        bytes::to_array32(vstd::slice::slice_subrange(state_root.as_slice(), 0, 32)),
        bytes::to_array32(vstd::slice::slice_subrange(tx_root.as_slice(), 0, 32)),
    )
}

fn acceptance_signable(
    owner_masternode_id: &str,
    group_id: &str,
    height: u64,
    round_id: u64,
    block_hash: &[u8; 64],
    tx_root: &[u8; 64],
    state_root: &[u8; 64],
    parent_hash: &[u8; 64],
    tx_count: u32,
) -> (r: Vec<u8>)
    ensures
        r@ == acceptance_bytes(
            owner_masternode_id@,
            group_id@,
            height,
            round_id,
            block_hash@,
            tx_root@,
            state_root@,
            parent_hash@,
            tx_count,
        ),
{
    let mut data: Vec<u8> = Vec::new();
    push_bytes(&mut data, group_id.as_bytes());
    assert(data@ =~= text::utf8(group_id@));
    push_u64(&mut data, height);
    push_u64(&mut data, round_id);
    push_bytes(&mut data, block_hash.as_slice());
    push_bytes(&mut data, tx_root.as_slice());
    push_bytes(&mut data, state_root.as_slice());
    push_bytes(&mut data, parent_hash.as_slice());
    push_u32(&mut data, tx_count);
    push_bytes(&mut data, owner_masternode_id.as_bytes());
    data
}

fn push_number(out: &mut Vec<u8>, n: u64)
    ensures
        final(out)@ == old(out)@ + text::utf8(text::decimal(n as nat)),
{
    let mut digits = String::new();
    push_decimal(&mut digits, n);
    assert(digits@ =~= text::decimal(n as nat));
    push_bytes(out, digits.as_str().as_bytes());
}

fn election_payload_bytes(cert: &ElectionCertificate, sender: &str) -> (r: Vec<u8>)
    ensures
        r@ == election_payload(*cert, sender@),
{
    reveal(election_payload);
    let mut signable: Vec<u8> = Vec::new();
    push_bytes(&mut signable, "{\"round\":".as_bytes());
    assert(signable@ =~= text::utf8("{\"round\":"@));
    push_number(&mut signable, cert.election_round);
    push_bytes(&mut signable, ",\"elected_proposer\":".as_bytes());
    push_bytes(&mut signable, to_json_string(cert.elected_proposer_peer_id.as_str()).as_slice());
    push_bytes(&mut signable, ",\"sender\":".as_bytes());
    push_bytes(&mut signable, to_json_string(sender).as_slice());
    push_bytes(&mut signable, ",\"group_id\":".as_bytes());
    push_bytes(&mut signable, to_json_string(cert.group_id.as_str()).as_slice());
    push_bytes(&mut signable, ",\"tenure_start_height\":".as_bytes());
    push_number(&mut signable, cert.tenure_start_height);
    push_bytes(&mut signable, "}".as_bytes());
    let mut payload: Vec<u8> = Vec::new();
    push_bytes(&mut payload, "savitri-intragroup-v1|election_result|".as_bytes());
    assert(payload@ =~= text::utf8("savitri-intragroup-v1|election_result|"@));
    push_bytes(&mut payload, cert.group_id.as_str().as_bytes());
    push_bytes(&mut payload, "|".as_bytes());
    push_bytes(&mut payload, signable.as_slice());
    payload
}

/// The peers that attestations come from.
pub(crate) fn signer_set(atts: &[ElectionAttestation]) -> (r: TextSet)
    ensures
        r.wf(),
        r@ == signers(atts@),
{
    let mut set = TextSet::new();
    let ghost id = |a: ElectionAttestation| a.signer_peer_id@;
    let mut i: usize = 0;
    assert(atts@.take(0).map_values(id).to_set() =~= Set::<Seq<char>>::empty());
    while i < atts.len()
        invariant
            i <= atts@.len(),
            set.wf(),
            id == (|a: ElectionAttestation| a.signer_peer_id@),
            set@ == signers(atts@.take(i as int)),
        decreases atts@.len() - i,
    {
        proof {
            let front = atts@.take(i as int).map_values(id);
            let next = atts@.take(i + 1).map_values(id);
            assert(next =~= front.push(id(atts@[i as int])));
            text_set::push_inserts(front, id(atts@[i as int]));
        }
        let _ = set.insert(atts[i].signer_peer_id.clone());
        i += 1;
    }
    assert(atts@.take(i as int) =~= atts@);
    set
}

/// How many peers on the roster attest.
pub(crate) fn count_attesting(atts: &[ElectionAttestation], roster: &[String]) -> (r: usize)
    ensures
        r == attesting_members(atts@, roster@),
{
    let attesting = signer_set(atts);
    let members = TextSet::of(roster);
    attesting.count_common(&members)
}

/// Among `n` members, two thirds can be reached when as many are silent as may be faulty, and two
/// such majorities share more members than may be faulty.
pub proof fn quorum_tolerates_faults(n: nat)
    requires
        n > 0,
    ensures
        two_thirds(n) + (n - 1) / 3 <= n,
        2 * two_thirds(n) - n > (n - 1) / 3,
        3 * two_thirds(n) >= 2 * n,
{
}

/// The time and the recipients of rewards are not signed: a certificate verifies whatever they
/// are.
pub proof fn unsigned_fields_do_not_count(
    a: BlockAcceptanceCertificate,
    timestamp: u64,
    reward_recipients: Vec<[u8; 32]>,
)
    ensures
        acceptance_verifies(
            (BlockAcceptanceCertificate { timestamp, reward_recipients, ..a }),
        ) == acceptance_verifies(a),
{
}

/// No node elects itself in a group of more than one, nor in a group whose members are not known:
/// two different peers attest.
pub proof fn no_node_elects_itself(
    p: LightnodeProposal,
    roster: Seq<String>,
    tenure_unchecked: bool,
)
    requires
        election_proved(p, roster, tenure_unchecked),
        roster.len() != 1,
    ensures
        exists|i: int, j: int|
            0 <= i < p.election_certificate->0.attestations@.len() && 0 <= j
                < p.election_certificate->0.attestations@.len() && (
            #[trigger] p.election_certificate->0.attestations@[i]).signer_peer_id@ != (
            #[trigger] p.election_certificate->0.attestations@[j]).signer_peer_id@,
{
    let atts = p.election_certificate->0.attestations@;
    let ids = atts.map_values(|a: ElectionAttestation| a.signer_peer_id@);
    let all = signers(atts);
    vstd::seq_lib::seq_to_set_is_finite(ids);
    let on_roster = all.intersect(text_set::texts(roster).to_set());
    vstd::set_lib::lemma_len_subset(on_roster, all);
    assert(all.len() >= 2);
    let a = all.choose();
    assert(all.remove(a).len() > 0);
    let b = all.remove(a).choose();
    assert(all.contains(a) && all.contains(b));
    let i = choose|i: int| 0 <= i < ids.len() && ids[i] == a;
    let j = choose|j: int| 0 <= j < ids.len() && ids[j] == b;
    assert(atts[i].signer_peer_id@ != atts[j].signer_peer_id@);
}

/// A signed vote speaks of one block of one group: two proposals with the same signed bytes are
/// for the same round, height, block and group.
pub proof fn votes_bind_the_group(p: LightnodeProposal, q: LightnodeProposal, voter: [u8; 32])
    requires
        vote_bytes(p, voter@) == vote_bytes(q, voter@),
    ensures
        p.round_id == q.round_id,
        p.height == q.height,
        p.block_hash@ == q.block_hash@,
        p.proposer_group_id@ == q.proposer_group_id@,
{
    vstd::bytes::lemma_auto_spec_u64_to_from_le_bytes();
    let a = vote_bytes(p, voter@);
    let b = vote_bytes(q, voter@);
    assert(a.subrange(0, 8) =~= bytes::u64_le(p.round_id));
    assert(b.subrange(0, 8) =~= bytes::u64_le(q.round_id));
    assert(a.subrange(8, 16) =~= bytes::u64_le(p.height));
    assert(b.subrange(8, 16) =~= bytes::u64_le(q.height));
    assert(a.subrange(16, 80) =~= p.block_hash@);
    assert(b.subrange(16, 80) =~= q.block_hash@);
    assert(a.subrange(113, a.len() as int) =~= text::utf8(p.proposer_group_id@));
    assert(b.subrange(113, b.len() as int) =~= text::utf8(q.proposer_group_id@));
    text::utf8_injective(p.proposer_group_id@, q.proposer_group_id@);
}

/// A signed proposal speaks of one block: two proposals with the same signed bytes are for the
/// same round, height, time, proposer, block and number of transactions.
pub proof fn proposals_bind_the_block(p: LightnodeProposal, q: LightnodeProposal)
    requires
        proposal_bytes(p) == proposal_bytes(q),
    ensures
        p.round_id == q.round_id,
        p.height == q.height,
        p.timestamp == q.timestamp,
        p.proposer_pubkey@ == q.proposer_pubkey@,
        p.block_hash@ == q.block_hash@,
        p.tx_count == q.tx_count,
{
    vstd::bytes::lemma_auto_spec_u64_to_from_le_bytes();
    vstd::bytes::lemma_auto_spec_u32_to_from_le_bytes();
    let a = proposal_bytes(p);
    let b = proposal_bytes(q);
    assert(a.subrange(0, 8) =~= bytes::u64_le(p.round_id));
    assert(b.subrange(0, 8) =~= bytes::u64_le(q.round_id));
    assert(a.subrange(8, 16) =~= bytes::u64_le(p.height));
    assert(b.subrange(8, 16) =~= bytes::u64_le(q.height));
    assert(a.subrange(16, 24) =~= bytes::u64_le(p.timestamp));
    assert(b.subrange(16, 24) =~= bytes::u64_le(q.timestamp));
    assert(a.subrange(24, 56) =~= p.proposer_pubkey@);
    assert(b.subrange(24, 56) =~= q.proposer_pubkey@);
    assert(a.subrange(56, 120) =~= p.block_hash@);
    assert(b.subrange(56, 120) =~= q.block_hash@);
    assert(a.subrange(120, 124) =~= bytes::u32_le(p.tx_count));
    assert(b.subrange(120, 124) =~= bytes::u32_le(q.tx_count));
}

/// An attestation holds for one tenure: two certificates of an election that differ at most in
/// the start of the tenure, and for which an attester signs the same bytes, do not differ there.
pub proof fn attestations_bind_the_tenure(
    c: ElectionCertificate,
    d: ElectionCertificate,
    sender: Seq<char>,
)
    requires
        c.group_id@ == d.group_id@,
        c.election_round == d.election_round,
        c.elected_proposer_peer_id@ == d.elected_proposer_peer_id@,
        election_payload(c, sender) == election_payload(d, sender),
    ensures
        c.tenure_start_height == d.tenure_start_height,
{
    reveal(election_payload);
    let front = text::utf8("savitri-intragroup-v1|election_result|"@) + text::utf8(c.group_id@)
        + text::utf8("|"@) + (text::utf8("{\"round\":"@) + text::utf8(
        text::decimal(c.election_round as nat),
    ) + text::utf8(",\"elected_proposer\":"@) + json::json_string(c.elected_proposer_peer_id@)
        + text::utf8(",\"sender\":"@) + json::json_string(sender) + text::utf8(
        ",\"group_id\":"@,
    ) + json::json_string(c.group_id@) + text::utf8(",\"tenure_start_height\":"@));
    let end = text::utf8("}"@);
    let x = text::utf8(text::decimal(c.tenure_start_height as nat));
    let y = text::utf8(text::decimal(d.tenure_start_height as nat));
    let a = election_payload(c, sender);
    let b = election_payload(d, sender);
    assert(a =~= front + x + end);
    assert(b =~= front + y + end);
    assert(a.subrange(front.len() as int, a.len() - end.len()) =~= x);
    assert(b.subrange(front.len() as int, b.len() - end.len()) =~= y);
    text::utf8_injective(
        text::decimal(c.tenure_start_height as nat),
        text::decimal(d.tenure_start_height as nat),
    );
    text::decimal_is_read_back(c.tenure_start_height as nat);
    text::decimal_is_read_back(d.tenure_start_height as nat);
}

/// Where each part stands in the bytes that an acceptance certificate signs. Every masternode
/// builds the same bytes, so each can verify what another signed.
pub proof fn acceptance_layout(c: BlockAcceptanceCertificate)
    ensures
        ({
            let s = certificate_bytes(c);
            let g = text::utf8(c.group_id@).len() as int;
            &&& s.len() == g + 276 + text::utf8(c.owner_masternode_id@).len()
            &&& s.subrange(0, g) == text::utf8(c.group_id@)
            &&& s.subrange(g, g + 8) == bytes::u64_le(c.height)
            &&& s.subrange(g + 8, g + 16) == bytes::u64_le(c.round_id)
            &&& s.subrange(g + 16, g + 80) == c.block_hash@
            &&& s.subrange(g + 80, g + 144) == c.tx_root@
            &&& s.subrange(g + 144, g + 208) == c.state_root@
            &&& s.subrange(g + 208, g + 272) == c.parent_hash@
            &&& s.subrange(g + 272, g + 276) == bytes::u32_le(c.tx_count)
            &&& s.subrange(g + 276, s.len() as int) == text::utf8(c.owner_masternode_id@)
        }),
{
    vstd::bytes::lemma_auto_spec_u64_to_from_le_bytes();
    vstd::bytes::lemma_auto_spec_u32_to_from_le_bytes();
    let s = certificate_bytes(c);
    let g = text::utf8(c.group_id@).len() as int;
    assert(s.subrange(0, g) =~= text::utf8(c.group_id@));
    assert(s.subrange(g, g + 8) =~= bytes::u64_le(c.height));
    assert(s.subrange(g + 8, g + 16) =~= bytes::u64_le(c.round_id));
    assert(s.subrange(g + 16, g + 80) =~= c.block_hash@);
    assert(s.subrange(g + 80, g + 144) =~= c.tx_root@);
    assert(s.subrange(g + 144, g + 208) =~= c.state_root@);
    assert(s.subrange(g + 208, g + 272) =~= c.parent_hash@);
    assert(s.subrange(g + 272, g + 276) =~= bytes::u32_le(c.tx_count));
    assert(s.subrange(g + 276, s.len() as int) =~= text::utf8(c.owner_masternode_id@));
}

/// An acceptance signature binds the block: two certificates of one group and one owner with the
/// same signed bytes are for the same height, round, block, roots and number of transactions.
pub proof fn acceptance_binds_the_block(
    c: BlockAcceptanceCertificate,
    d: BlockAcceptanceCertificate,
)
    requires
        c.group_id@ == d.group_id@,
        c.owner_masternode_id@ == d.owner_masternode_id@,
        certificate_bytes(c) == certificate_bytes(d),
    ensures
        c.height == d.height,
        c.round_id == d.round_id,
        c.block_hash@ == d.block_hash@,
        c.tx_root@ == d.tx_root@,
        c.state_root@ == d.state_root@,
        c.parent_hash@ == d.parent_hash@,
        c.tx_count == d.tx_count,
{
    vstd::bytes::lemma_auto_spec_u64_to_from_le_bytes();
    vstd::bytes::lemma_auto_spec_u32_to_from_le_bytes();
    acceptance_layout(c);
    acceptance_layout(d);
}

/// An acceptance signature binds the group and the owner too: of two certificates with the same
/// signed bytes that agree on one of the two, both agree on the other.
pub proof fn acceptance_binds_group_and_owner(
    c: BlockAcceptanceCertificate,
    d: BlockAcceptanceCertificate,
)
    requires
        certificate_bytes(c) == certificate_bytes(d),
    ensures
        c.group_id@ == d.group_id@ <==> c.owner_masternode_id@ == d.owner_masternode_id@,
{
    acceptance_layout(c);
    acceptance_layout(d);
    if c.group_id@ == d.group_id@ {
        text::utf8_injective(c.owner_masternode_id@, d.owner_masternode_id@);
    }
    if c.owner_masternode_id@ == d.owner_masternode_id@ {
        text::utf8_injective(c.group_id@, d.group_id@);
    }
}

/// A certificate verifies by its public key, its signed bytes and its signature, and by nothing
/// else.
pub proof fn acceptance_rests_on_its_signature(c: BlockAcceptanceCertificate)
    ensures
        acceptance_verifies(c) <==> crypto::ed25519_accepts(
            c.owner_pubkey@,
            certificate_bytes(c),
            c.signature@,
        ),
{
}

/// Proposals that match one certificate are for one block: they agree on the hash, the roots, the
/// number of transactions, the height and the round, and these are the certificate's. Whatever
/// else a proposal holds plays no part.
pub proof fn matching_proposals_are_one_block(
    p: LightnodeProposal,
    q: LightnodeProposal,
    c: BlockAcceptanceCertificate,
)
    requires
        proposal_matches(p, c),
    ensures
        p.block_hash@ == c.block_hash@,
        p.tx_root.0@ == c.tx_root@,
        p.state_root.0@ == c.state_root@,
        p.parent_hash.0@ == c.parent_hash@,
        p.tx_count == c.tx_count,
        p.height == c.height,
        p.round_id == c.round_id,
        proposal_matches(q, c) <==> (q.block_hash == p.block_hash && q.tx_root.0 == p.tx_root.0
            && q.state_root.0 == p.state_root.0 && q.parent_hash.0 == p.parent_hash.0
            && q.tx_count == p.tx_count && q.height == p.height && q.round_id == p.round_id),
{
}

/// A certificate that takes its fields from a proposal matches it.
pub proof fn a_proposal_matches_its_own_certificate(
    p: LightnodeProposal,
    c: BlockAcceptanceCertificate,
)
    ensures
        proposal_matches(
            p,
            (BlockAcceptanceCertificate {
                height: p.height,
                round_id: p.round_id,
                block_hash: p.block_hash,
                tx_root: p.tx_root.0,
                state_root: p.state_root.0,
                parent_hash: p.parent_hash.0,
                tx_count: p.tx_count,
                ..c
            }),
        ),
{
}

/// Where each part stands in the bytes that a proposer signs, and in those of the older scheme.
pub proof fn proposal_layout(p: LightnodeProposal)
    ensures
        ({
            let s = proposal_bytes(p);
            &&& s.len() == 124
            &&& s.subrange(0, 8) == bytes::u64_le(p.round_id)
            &&& s.subrange(8, 16) == bytes::u64_le(p.height)
            &&& s.subrange(16, 24) == bytes::u64_le(p.timestamp)
            &&& s.subrange(24, 56) == p.proposer_pubkey@
            &&& s.subrange(56, 120) == p.block_hash@
            &&& s.subrange(120, 124) == bytes::u32_le(p.tx_count)
        }),
        ({
            let s = legacy_bytes(p);
            &&& s.len() == 248
            &&& s.subrange(0, 56) == proposal_bytes(p).subrange(0, 56)
            &&& s.subrange(56, 120) == p.parent_hash.0@
            &&& s.subrange(120, 184) == p.state_root.0@
            &&& s.subrange(184, 248) == p.tx_root.0@
        }),
{
    vstd::bytes::lemma_auto_spec_u64_to_from_le_bytes();
    vstd::bytes::lemma_auto_spec_u32_to_from_le_bytes();
    let s = proposal_bytes(p);
    assert(s.subrange(0, 8) =~= bytes::u64_le(p.round_id));
    assert(s.subrange(8, 16) =~= bytes::u64_le(p.height));
    assert(s.subrange(16, 24) =~= bytes::u64_le(p.timestamp));
    assert(s.subrange(24, 56) =~= p.proposer_pubkey@);
    assert(s.subrange(56, 120) =~= p.block_hash@);
    assert(s.subrange(120, 124) =~= bytes::u32_le(p.tx_count));
    let t = legacy_bytes(p);
    assert(t.subrange(0, 56) =~= s.subrange(0, 56));
    assert(t.subrange(56, 120) =~= p.parent_hash.0@);
    assert(t.subrange(120, 184) =~= p.state_root.0@);
    assert(t.subrange(184, 248) =~= p.tx_root.0@);
}

/// Where each part stands in the bytes that a vote signs: after the block and the voter comes the
/// mark of an approval, then the group.
pub proof fn vote_layout(p: LightnodeProposal, voter: [u8; 32])
    ensures
        ({
            let s = vote_bytes(p, voter@);
            &&& s.len() == 113 + text::utf8(p.proposer_group_id@).len()
            &&& s.subrange(0, 8) == bytes::u64_le(p.round_id)
            &&& s.subrange(8, 16) == bytes::u64_le(p.height)
            &&& s.subrange(16, 80) == p.block_hash@
            &&& s.subrange(80, 112) == voter@
            &&& s[112] == 1
            &&& s.subrange(113, s.len() as int) == text::utf8(p.proposer_group_id@)
        }),
{
    vstd::bytes::lemma_auto_spec_u64_to_from_le_bytes();
    let s = vote_bytes(p, voter@);
    assert(s.subrange(0, 8) =~= bytes::u64_le(p.round_id));
    assert(s.subrange(8, 16) =~= bytes::u64_le(p.height));
    assert(s.subrange(16, 80) =~= p.block_hash@);
    assert(s.subrange(80, 112) =~= voter@);
    assert(s.subrange(113, s.len() as int) =~= text::utf8(p.proposer_group_id@));
}

/// A vote speaks of the proposal that it was cast on: of its block, its roots and its group, and
/// anybody can verify it under the voter's key.
pub proof fn approvals_speak_of_their_proposal(
    v: ProposalValidator,
    vote: MasternodeVote,
    p: LightnodeProposal,
)
    requires
        v.is_approval(vote, p),
    ensures
        vote.vote_type == VoteType::Approve,
        vote.voter_pubkey == v.pubkey(),
        vote.round_id == p.round_id,
        vote.height == p.height,
        vote.block_hash == p.block_hash,
        vote.group_id@ == p.proposer_group_id@,
        vote.state_root == p.state_root.0,
        vote.tx_root == p.tx_root.0,
        vote.parent_hash == p.parent_hash.0,
        crypto::ed25519_accepts(
            vote.voter_pubkey@,
            vote_bytes(p, vote.voter_pubkey@),
            vote.signature@,
        ),
        vote.signature@ == crypto::ed25519_signature_of(
            v.signing_secret()@,
            vote_bytes(p, v.pubkey()@),
        ),
{
}

/// A valid proposal has a height, a proposer and a block, at most ten thousand transactions, and
/// its proposer's signature; where all roots are given, its block is the one that they give.
pub proof fn sound_proposals_have_a_block(p: LightnodeProposal, expected_hash: Seq<u8>)
    requires
        proposal_sound(p, expected_hash),
    ensures
        p.height > 0,
        p.tx_count <= 10000,
        exists|i: int| 0 <= i < 32 && #[trigger] p.proposer_pubkey@[i] != 0,
        exists|i: int| 0 <= i < 64 && #[trigger] p.block_hash@[i] != 0,
        (exists|i: int| 0 <= i < 64 && #[trigger] p.parent_hash.0@[i] != 0) && (exists|i: int|
            0 <= i < 64 && #[trigger] p.state_root.0@[i] != 0) && (exists|i: int|
            0 <= i < 64 && #[trigger] p.tx_root.0@[i] != 0) ==> p.block_hash@ == expected_hash,
        crypto::ed25519_decodes(p.proposer_pubkey@),
        crypto::ed25519_accepts(p.proposer_pubkey@, proposal_bytes(p), p.signature@) || p.signature@
            == crypto::sha256_of(legacy_bytes(p)) + crypto::sha256_of(
            text::utf8(crypto::hex_text(p.proposer_pubkey@)),
        ),
{
    bytes::not_zeros(p.proposer_pubkey@, 32);
    bytes::not_zeros(p.block_hash@, 64);
    bytes::not_zeros(p.parent_hash.0@, 64);
    bytes::not_zeros(p.state_root.0@, 64);
    bytes::not_zeros(p.tx_root.0@, 64);
}

/// Nothing else is asked of a proposal. It may hold any number of transactions up to ten thousand,
/// none at all among them: lightnodes propose empty blocks when there is nothing to put into one.
pub proof fn empty_blocks_are_allowed(p: LightnodeProposal, expected_hash: Seq<u8>)
    requires
        p.height > 0,
        0 <= p.tx_count <= 10000,
        exists|i: int| 0 <= i < 32 && #[trigger] p.proposer_pubkey@[i] != 0,
        exists|i: int| 0 <= i < 64 && #[trigger] p.block_hash@[i] != 0,
        p.block_hash@ == expected_hash || p.parent_hash.0@ =~= Seq::new(64, |i: int| 0u8)
            || p.state_root.0@ =~= Seq::new(64, |i: int| 0u8) || p.tx_root.0@ =~= Seq::new(
            64,
            |i: int| 0u8,
        ),
        crypto::ed25519_decodes(p.proposer_pubkey@),
        crypto::ed25519_accepts(p.proposer_pubkey@, proposal_bytes(p), p.signature@),
    ensures
        proposal_sound(p, expected_hash),
        p.tx_count == 0 ==> proposal_sound(p, expected_hash),
{
    bytes::not_zeros(p.proposer_pubkey@, 32);
    bytes::not_zeros(p.block_hash@, 64);
    bytes::not_zeros(p.parent_hash.0@, 64);
    bytes::not_zeros(p.state_root.0@, 64);
    bytes::not_zeros(p.tx_root.0@, 64);
}

/// Where a root is missing, the hash that the roots would give plays no part.
pub proof fn missing_roots_are_not_held_against_a_proposal(
    p: LightnodeProposal,
    one: Seq<u8>,
    other: Seq<u8>,
)
    requires
        p.parent_hash.0@ =~= Seq::new(64, |i: int| 0u8) || p.state_root.0@ =~= Seq::new(
            64,
            |i: int| 0u8,
        ) || p.tx_root.0@ =~= Seq::new(64, |i: int| 0u8),
    ensures
        proposal_sound(p, one) == proposal_sound(p, other),
{
    bytes::not_zeros(p.parent_hash.0@, 64);
    bytes::not_zeros(p.state_root.0@, 64);
    bytes::not_zeros(p.tx_root.0@, 64);
}

/// A signature of the older scheme is taken where a root is given, and only there: it is the digest
/// of the message, then that of the proposer's key.
pub proof fn the_older_scheme_needs_a_root(p: LightnodeProposal)
    requires
        crypto::ed25519_decodes(p.proposer_pubkey@),
        !crypto::ed25519_accepts(p.proposer_pubkey@, proposal_bytes(p), p.signature@),
    ensures
        proposal_signed(p) <==> (p.signature@ == crypto::sha256_of(legacy_bytes(p))
            + crypto::sha256_of(text::utf8(crypto::hex_text(p.proposer_pubkey@))) && !(
        p.parent_hash.0@ =~= Seq::new(64, |i: int| 0u8) && p.state_root.0@ =~= Seq::new(
            64,
            |i: int| 0u8,
        ) && p.tx_root.0@ =~= Seq::new(64, |i: int| 0u8))),
{
    bytes::not_zeros(p.parent_hash.0@, 64);
    bytes::not_zeros(p.state_root.0@, 64);
    bytes::not_zeros(p.tx_root.0@, 64);
}

/// When a proposal can be taken and voted on: it is taken from five minutes before its own time
/// until an hour after it, and voted on from less than a minute before until less than ten minutes
/// after it.
pub proof fn proposals_have_their_time(p: LightnodeProposal, now: u64)
    ensures
        proposal_timely(p, now) <==> p.timestamp <= now + 300 && now <= p.timestamp + 3600,
        vote_timely(p, now) <==> p.timestamp < now + 60 && now < p.timestamp + 600,
        proposal_timely(p, p.timestamp) && vote_timely(p, p.timestamp),
        vote_timely(p, now) ==> proposal_timely(p, now),
{
}

/// The clock decides only about the time: a vote is cast exactly on a sound proposal that is in
/// time when it is checked and when the vote is cast.
pub proof fn the_clock_decides_about_the_time(
    p: LightnodeProposal,
    expected_hash: Seq<u8>,
    checked_at: u64,
    now: u64,
)
    requires
        3600 <= checked_at <= u64::MAX - 300,
        600 <= now <= u64::MAX - 60,
    ensures
        valid_as_read(p, expected_hash, checked_at) <==> proposal_sound(p, expected_hash)
            && p.timestamp <= checked_at + 300 && checked_at <= p.timestamp + 3600,
        voted_as_read(p, expected_hash, checked_at, now) <==> valid_as_read(
            p,
            expected_hash,
            checked_at,
        ) && p.timestamp < now + 60 && now < p.timestamp + 600,
{
}

/// A tenure is a hundred blocks long, and starts with its first height.
pub proof fn a_tenure_is_a_hundred_blocks(start: u64, height: u64)
    requires
        start <= u64::MAX - 100,
    ensures
        in_tenure(start, height) <==> 0 <= height - start <= 99,
{
}

/// Two thirds of the members are needed, and no more than that.
pub proof fn two_thirds_is_the_least_that_will_do(n: nat, k: nat)
    ensures
        k >= two_thirds(n) <==> 3 * k >= 2 * n,
{
}

/// The members that attest are those of the roster that are named as signers, each counted once.
pub proof fn attesting_members_are_counted_once(
    atts: Seq<ElectionAttestation>,
    roster: Seq<String>,
)
    ensures
        attesting_members(atts, roster) == roster.map_values(|m: String| m@).to_set().filter(
            |m: Seq<char>|
                exists|j: int| 0 <= j < atts.len() && (#[trigger] atts[j]).signer_peer_id@ == m,
        ).len(),
{
    let named = |m: Seq<char>|
        exists|j: int| 0 <= j < atts.len() && (#[trigger] atts[j]).signer_peer_id@ == m;
    let ids = atts.map_values(|a: ElectionAttestation| a.signer_peer_id@);
    let members = roster.map_values(|m: String| m@);
    assert(members =~= text_set::texts(roster));
    assert forall|m: Seq<char>| signers(atts).contains(m) == named(m) by {
        if signers(atts).contains(m) {
            let j = choose|j: int| 0 <= j < ids.len() && ids[j] == m;
            assert(atts[j].signer_peer_id@ == m);
        }
        if named(m) {
            let j = choose|j: int| 0 <= j < atts.len() && (#[trigger] atts[j]).signer_peer_id@ == m;
            assert(ids[j] == m);
        }
    }
    assert(signers(atts).intersect(members.to_set()) =~= members.to_set().filter(named));
}

/// A proposal is that of an elected proposer only if its certificate is for its group and its
/// proposer, each attestation is validly signed, two thirds of the known members attest or, where
/// none is known, three different peers, and, where the tenure counts, its height lies in it.
pub proof fn elections_are_proved_by_members(
    p: LightnodeProposal,
    roster: Seq<String>,
    tenure_unchecked: bool,
)
    requires
        election_proved(p, roster, tenure_unchecked),
    ensures
        p.election_certificate is Some,
        ({
            let cert = p.election_certificate->0;
            let atts = cert.attestations@;
            &&& p.proposer_group_id@.len() > 0
            &&& cert.group_id@ == p.proposer_group_id@
            &&& cert.elected_proposer_pubkey@ == p.proposer_pubkey@
            &&& atts.len() > 0
            &&& forall|i: int|
                0 <= i < atts.len() ==> crypto::ed25519_accepts_strictly(
                    (#[trigger] atts[i]).signer_pubkey@,
                    election_payload(cert, atts[i].signer_peer_id@),
                    atts[i].signature@,
                )
            &&& roster.len() > 0 ==> 3 * roster.map_values(|m: String| m@).to_set().filter(
                |m: Seq<char>|
                    exists|j: int| 0 <= j < atts.len() && (#[trigger] atts[j]).signer_peer_id@ == m,
            ).len() >= 2 * roster.len()
            &&& roster.len() == 0 ==> atts.map_values(
                |a: ElectionAttestation| a.signer_peer_id@,
            ).to_set().len() >= 3
            &&& !tenure_unchecked ==> cert.tenure_start_height <= p.height
                < cert.tenure_start_height + 100
        }),
{
    attesting_members_are_counted_once(p.election_certificate->0.attestations@, roster);
}

/// Nothing else is asked for an election to be proved.
pub proof fn members_prove_an_election(
    p: LightnodeProposal,
    roster: Seq<String>,
    tenure_unchecked: bool,
)
    requires
        p.election_certificate is Some,
        ({
            let cert = p.election_certificate->0;
            let atts = cert.attestations@;
            &&& p.proposer_group_id@.len() > 0
            &&& cert.group_id@ == p.proposer_group_id@
            &&& cert.elected_proposer_pubkey == p.proposer_pubkey
            &&& atts.len() > 0
            &&& forall|i: int|
                0 <= i < atts.len() ==> crypto::ed25519_accepts_strictly(
                    (#[trigger] atts[i]).signer_pubkey@,
                    election_payload(cert, atts[i].signer_peer_id@),
                    atts[i].signature@,
                )
            &&& roster.len() > 0 ==> 3 * roster.map_values(|m: String| m@).to_set().filter(
                |m: Seq<char>|
                    exists|j: int| 0 <= j < atts.len() && (#[trigger] atts[j]).signer_peer_id@ == m,
            ).len() >= 2 * roster.len()
            &&& roster.len() == 0 ==> atts.map_values(
                |a: ElectionAttestation| a.signer_peer_id@,
            ).to_set().len() >= 3
            &&& !tenure_unchecked ==> cert.tenure_start_height <= u64::MAX - 100
                && cert.tenure_start_height <= p.height < cert.tenure_start_height + 100
        }),
    ensures
        election_proved(p, roster, tenure_unchecked),
{
    attesting_members_are_counted_once(p.election_certificate->0.attestations@, roster);
}

proof fn regrouped(a: Seq<u8>, b: Seq<u8>, c: Seq<u8>)
    ensures
        a + b + c == a + (b + c),
{
    assert(a + b + c =~= a + (b + c));
}

proof fn round_stands_apart(c: ElectionCertificate, sender: Seq<char>) -> (end: Seq<u8>)
    ensures
        election_signable(c, sender) == text::utf8("{\"round\":"@) + text::utf8(
            text::decimal(c.election_round as nat),
        ) + end,
        end == text::utf8(",\"elected_proposer\":"@) + json::json_string(
            c.elected_proposer_peer_id@,
        ) + text::utf8(",\"sender\":"@) + json::json_string(sender) + text::utf8(
            ",\"group_id\":"@,
        ) + json::json_string(c.group_id@) + text::utf8(",\"tenure_start_height\":"@)
            + text::utf8(text::decimal(c.tenure_start_height as nat)) + text::utf8("}"@),
{
    let t = text::utf8("{\"round\":"@) + text::utf8(text::decimal(c.election_round as nat));
    let u1 = text::utf8(",\"elected_proposer\":"@);
    let u2 = u1 + json::json_string(c.elected_proposer_peer_id@);
    let u3 = u2 + text::utf8(",\"sender\":"@);
    let u4 = u3 + json::json_string(sender);
    let u5 = u4 + text::utf8(",\"group_id\":"@);
    let u6 = u5 + json::json_string(c.group_id@);
    let u7 = u6 + text::utf8(",\"tenure_start_height\":"@);
    let u = u7 + text::utf8(text::decimal(c.tenure_start_height as nat));
    regrouped(t, u1, json::json_string(c.elected_proposer_peer_id@));
    regrouped(t, u2, text::utf8(",\"sender\":"@));
    regrouped(t, u3, json::json_string(sender));
    regrouped(t, u4, text::utf8(",\"group_id\":"@));
    regrouped(t, u5, json::json_string(c.group_id@));
    regrouped(t, u6, text::utf8(",\"tenure_start_height\":"@));
    regrouped(t, u7, text::utf8(text::decimal(c.tenure_start_height as nat)));
    regrouped(t, u, text::utf8("}"@));
    u + text::utf8("}"@)
}

/// An attestation is for one round, as for one tenure.
pub proof fn attestations_bind_the_round(
    c: ElectionCertificate,
    d: ElectionCertificate,
    sender: Seq<char>,
)
    requires
        c.group_id@ == d.group_id@,
        c.tenure_start_height == d.tenure_start_height,
        c.elected_proposer_peer_id@ == d.elected_proposer_peer_id@,
        election_payload(c, sender) == election_payload(d, sender),
    ensures
        c.election_round == d.election_round,
{
    reveal(election_payload);
    let end = round_stands_apart(c, sender);
    let also = round_stands_apart(d, sender);
    assert(end == also);
    let head = text::utf8("savitri-intragroup-v1|election_result|"@) + text::utf8(c.group_id@)
        + text::utf8("|"@);
    let x = text::utf8(text::decimal(c.election_round as nat));
    let y = text::utf8(text::decimal(d.election_round as nat));
    round_is_cut_out(head, text::utf8("{\"round\":"@), x, y, end);
    text::utf8_injective(
        text::decimal(c.election_round as nat),
        text::decimal(d.election_round as nat),
    );
    text::decimal_is_read_back(c.election_round as nat);
    text::decimal_is_read_back(d.election_round as nat);
}

proof fn round_is_cut_out(head: Seq<u8>, word: Seq<u8>, x: Seq<u8>, y: Seq<u8>, end: Seq<u8>)
    requires
        head + (word + x + end) == head + (word + y + end),
    ensures
        x == y,
{
    let a = head + (word + x + end);
    let b = head + (word + y + end);
    let n = (head.len() + word.len()) as int;
    assert(a.subrange(n, a.len() - end.len()) =~= x);
    assert(b.subrange(n, b.len() - end.len()) =~= y);
}

/// An attestation is for one proposer: what is signed for one is not signed for another.
pub proof fn attestations_bind_the_proposer(
    c: ElectionCertificate,
    d: ElectionCertificate,
    sender: Seq<char>,
)
    requires
        c.group_id@ == d.group_id@,
        c.tenure_start_height == d.tenure_start_height,
        c.election_round == d.election_round,
        election_payload(c, sender) == election_payload(d, sender),
    ensures
        c.elected_proposer_peer_id@ == d.elected_proposer_peer_id@,
{
    reveal(election_payload);
    let front = text::utf8("savitri-intragroup-v1|election_result|"@) + text::utf8(c.group_id@)
        + text::utf8("|"@) + (text::utf8("{\"round\":"@) + text::utf8(
        text::decimal(c.election_round as nat),
    ) + text::utf8(",\"elected_proposer\":"@));
    let end = text::utf8(",\"sender\":"@) + json::json_string(sender) + text::utf8(
        ",\"group_id\":"@,
    ) + json::json_string(c.group_id@) + text::utf8(",\"tenure_start_height\":"@) + text::utf8(
        text::decimal(c.tenure_start_height as nat),
    ) + text::utf8("}"@);
    let x = json::json_string(c.elected_proposer_peer_id@);
    let y = json::json_string(d.elected_proposer_peer_id@);
    let a = election_payload(c, sender);
    let b = election_payload(d, sender);
    assert(a =~= front + x + end);
    assert(b =~= front + y + end);
    assert(a.subrange(front.len() as int, a.len() - end.len()) =~= x);
    assert(b.subrange(front.len() as int, b.len() - end.len()) =~= y);
    json::json_texts_are_told_apart(c.elected_proposer_peer_id@, d.elected_proposer_peer_id@);
}

/// An attestation is from one sender: what one signs is not what another signs.
pub proof fn attestations_bind_the_sender(
    c: ElectionCertificate,
    sender: Seq<char>,
    other: Seq<char>,
)
    requires
        election_payload(c, sender) == election_payload(c, other),
    ensures
        sender == other,
{
    reveal(election_payload);
    let front = text::utf8("savitri-intragroup-v1|election_result|"@) + text::utf8(c.group_id@)
        + text::utf8("|"@) + (text::utf8("{\"round\":"@) + text::utf8(
        text::decimal(c.election_round as nat),
    ) + text::utf8(",\"elected_proposer\":"@) + json::json_string(c.elected_proposer_peer_id@)
        + text::utf8(",\"sender\":"@));
    let end = text::utf8(",\"group_id\":"@) + json::json_string(c.group_id@) + text::utf8(
        ",\"tenure_start_height\":"@,
    ) + text::utf8(text::decimal(c.tenure_start_height as nat)) + text::utf8("}"@);
    let x = json::json_string(sender);
    let y = json::json_string(other);
    let a = election_payload(c, sender);
    let b = election_payload(c, other);
    assert(a =~= front + x + end);
    assert(b =~= front + y + end);
    assert(a.subrange(front.len() as int, a.len() - end.len()) =~= x);
    assert(b.subrange(front.len() as int, b.len() - end.len()) =~= y);
    json::json_texts_are_told_apart(sender, other);
}

/// An attestation is for one group: groups with names of one length have different payloads.
pub proof fn attestations_bind_the_group(
    c: ElectionCertificate,
    d: ElectionCertificate,
    sender: Seq<char>,
)
    requires
        text::utf8(c.group_id@).len() == text::utf8(d.group_id@).len(),
        election_payload(c, sender) == election_payload(d, sender),
    ensures
        c.group_id@ == d.group_id@,
{
    reveal(election_payload);
    let front = text::utf8("savitri-intragroup-v1|election_result|"@);
    let x = text::utf8(c.group_id@);
    let y = text::utf8(d.group_id@);
    let n = front.len() as int;
    let a = election_payload(c, sender);
    let b = election_payload(d, sender);
    assert(a.subrange(n, n + x.len()) =~= x);
    assert(b.subrange(n, n + y.len()) =~= y);
    text::utf8_injective(c.group_id@, d.group_id@);
}

/// The secret of a masternode in an epoch is cut from the digest of its name and the epoch.
/// `data` is what is digested.
pub proof fn secrets_are_of_masternode_and_epoch(
    masternode_id: Seq<char>,
    epoch: u64,
    data: Seq<u8>,
)
    requires
        data.len() >= 8,
        data.take(data.len() - 8) == text::utf8(masternode_id),
        vstd::bytes::spec_u64_from_le_bytes(data.skip(data.len() - 8)) == epoch,
    ensures
        derived_secret(masternode_id, epoch) == crypto::sha512_of(data).subrange(0, 32),
{
    vstd::bytes::lemma_auto_spec_u64_to_from_le_bytes();
    assert(data.skip(data.len() - 8) == bytes::u64_le(epoch));
    assert(data =~= text::utf8(masternode_id) + bytes::u64_le(epoch));
}

} // verus!
