use ed25519_dalek::Signer;
use savitri_masternode::finality::FinalityTracker;
use savitri_masternode::finality::FinalizeOutcome;
use savitri_masternode::messages::LightnodeBlockProposalCompat;
use savitri_masternode::messages::PendingProposalEntry;
use savitri_masternode::messages::ProposerElectionCertMessage;
use savitri_masternode::proposal_validator::block_hash_roots;
use savitri_masternode::proposal_validator::signature_from_hex;
use savitri_masternode::proposal_validator::BlockAcceptanceCertificate;
use savitri_masternode::proposal_validator::ByteArray64;
use savitri_masternode::proposal_validator::ElectionAttestation;
use savitri_masternode::proposal_validator::ElectionCertificate;
use savitri_masternode::proposal_validator::LightnodeProposal;
use savitri_masternode::proposal_validator::MnGroupRole;
use savitri_masternode::proposal_validator::ProposalValidator;
use savitri_masternode::proposal_validator::VoteType;
use savitri_masternode::proposals::determine_role;
use savitri_masternode::proposals::find_group;
use savitri_masternode::proposals::handle_block_acceptance_certificate;
use savitri_masternode::proposals::handle_lightnode_proposal;
use savitri_masternode::proposals::proposal_from_compat;
use savitri_masternode::proposals::AcceptanceOutcome;
use savitri_masternode::proposals::GroupView;
use savitri_masternode::proposals::PendingProposals;
use savitri_masternode::proposals::ProposalKey;
use savitri_masternode::whitelist::ProposerWhitelist;
use savitri_masternode::whitelist::WHITELIST_TIMEOUT_SECS;
use sha2::Digest;

const NOW: u64 = 1_700_000_000;

fn key(n: u8) -> ed25519_dalek::SigningKey {
    ed25519_dalek::SigningKey::from_bytes(&[n; 32])
}

fn signed_bytes(p: &LightnodeProposal) -> Vec<u8> {
    let mut data = p.round_id.to_le_bytes().to_vec();
    data.extend_from_slice(&p.height.to_le_bytes());
    data.extend_from_slice(&p.timestamp.to_le_bytes());
    data.extend_from_slice(&p.proposer_pubkey);
    data.extend_from_slice(&p.block_hash);
    data.extend_from_slice(&p.tx_count.to_le_bytes());
    data
}

fn sign(p: &mut LightnodeProposal, signer: &ed25519_dalek::SigningKey) {
    p.signature = signer.sign(&signed_bytes(p)).to_bytes();
}

fn proposal(signer: &ed25519_dalek::SigningKey) -> LightnodeProposal {
    let mut p = LightnodeProposal {
        round_id: 3,
        height: 12,
        timestamp: NOW,
        proposer_pubkey: signer.verifying_key().to_bytes(),
        block_hash: [9; 64],
        tx_count: 2,
        signature: [0; 64],
        parent_hash: ByteArray64([0; 64]),
        state_root: ByteArray64([0; 64]),
        tx_root: ByteArray64([0; 64]),
        proposer_group_id: String::new(),
        election_certificate: None,
        raw_txs: None,
    };
    sign(&mut p, signer);
    p
}

fn attest(cert: &ElectionCertificate, peer: &str, signer: &ed25519_dalek::SigningKey) -> ElectionAttestation {
    let payload = format!(
        "savitri-intragroup-v1|election_result|{}|{{\"round\":{},\"elected_proposer\":\"{}\",\"sender\":\"{}\",\"group_id\":\"{}\",\"tenure_start_height\":{}}}",
        cert.group_id,
        cert.election_round,
        cert.elected_proposer_peer_id,
        peer,
        cert.group_id,
        cert.tenure_start_height
    );
    ElectionAttestation {
        signer_peer_id: peer.to_string(),
        signer_pubkey: signer.verifying_key().to_bytes(),
        signature: signer.sign(payload.as_bytes()).to_bytes(),
    }
}

fn certificate(proposer: &ed25519_dalek::SigningKey, attesters: &[(&str, u8)]) -> ElectionCertificate {
    let mut cert = ElectionCertificate {
        group_id: "group-4".to_string(),
        election_round: 3,
        elected_proposer_peer_id: "peer \"one\"".replace('"', ""),
        elected_proposer_pubkey: proposer.verifying_key().to_bytes(),
        proposer_pou_score: 5,
        timestamp: NOW,
        candidates: Vec::new(),
        attestations: Vec::new(),
        tenure_start_height: 10,
    };
    for (peer, n) in attesters {
        let attestation = attest(&cert, peer, &key(*n));
        cert.attestations.push(attestation);
    }
    cert
}

fn grouped_proposal(attesters: &[(&str, u8)]) -> LightnodeProposal {
    let signer = key(1);
    let mut p = proposal(&signer);
    p.proposer_group_id = "group-4".to_string();
    p.election_certificate = Some(certificate(&signer, attesters));
    p
}

fn group(id: &str, index: Option<u64>, members: &[&str], leader: &str, backup: &str) -> GroupView {
    GroupView {
        group_id: id.to_string(),
        index,
        members: members.iter().map(|m| m.to_string()).collect(),
        group_leader_masternode: Some(leader.to_string()),
        backup_leader_masternode: Some(backup.to_string()),
    }
}

fn names(list: &[&str]) -> Vec<String> {
    list.iter().map(|s| s.to_string()).collect()
}

#[test]
fn a_signed_proposal_is_valid_for_an_hour() {
    let validator = ProposalValidator::from_signing_key([2; 32], 3);
    let p = proposal(&key(1));
    assert!(validator.verify_proposal_signature(&p));
    assert!(validator.validate_proposal_at(&p, &[0; 64], NOW));
    assert!(validator.validate_proposal_at(&p, &[0; 64], NOW + 3600));
    assert!(!validator.validate_proposal_at(&p, &[0; 64], NOW + 3601));
    assert!(validator.validate_proposal_at(&p, &[0; 64], NOW - 300));
    assert!(!validator.validate_proposal_at(&p, &[0; 64], NOW - 301));
    assert!(!validator.validate_proposal(&p, &[0; 64]));
    assert_eq!(validator.proposal_signable_bytes(&p), signed_bytes(&p));
}

#[test]
fn unsound_proposals_are_rejected() {
    let validator = ProposalValidator::new([2; 32], 3);
    let signer = key(1);
    let mut p = proposal(&signer);
    p.height = 0;
    sign(&mut p, &signer);
    assert!(!validator.validate_proposal_at(&p, &[0; 64], NOW));
    let mut p = proposal(&signer);
    p.tx_count = 10001;
    sign(&mut p, &signer);
    assert!(!validator.validate_proposal_at(&p, &[0; 64], NOW));
    let mut p = proposal(&signer);
    p.block_hash = [0; 64];
    sign(&mut p, &signer);
    assert!(!validator.validate_proposal_at(&p, &[0; 64], NOW));
    let mut p = proposal(&signer);
    p.signature[0] ^= 1;
    assert!(!validator.validate_proposal_at(&p, &[0; 64], NOW));
    let mut p = proposal(&signer);
    p.proposer_pubkey = [0; 32];
    assert!(!validator.validate_proposal_at(&p, &[0; 64], NOW));
}

#[test]
fn a_block_hash_must_fit_the_roots() {
    let validator = ProposalValidator::new([2; 32], 3);
    let signer = key(1);
    let mut p = proposal(&signer);
    p.parent_hash = ByteArray64([1; 64]);
    p.state_root = ByteArray64([2; 64]);
    p.tx_root = ByteArray64([3; 64]);
    assert!(validator.validate_proposal_at(&p, &[9; 64], NOW));
    assert!(!validator.validate_proposal_at(&p, &[8; 64], NOW));
    let (state, txs) = block_hash_roots(&[2; 64], &[3; 64]);
    assert_eq!((state, txs), ([2; 32], [3; 32]));
}

#[test]
fn the_older_signature_scheme_is_still_taken() {
    let validator = ProposalValidator::new([2; 32], 3);
    let signer = key(1);
    let mut p = proposal(&signer);
    p.parent_hash = ByteArray64([1; 64]);
    let mut data = p.round_id.to_le_bytes().to_vec();
    data.extend_from_slice(&p.height.to_le_bytes());
    data.extend_from_slice(&p.timestamp.to_le_bytes());
    data.extend_from_slice(&p.proposer_pubkey);
    data.extend_from_slice(&p.parent_hash.0);
    data.extend_from_slice(&p.state_root.0);
    data.extend_from_slice(&p.tx_root.0);
    let mut signature = [0u8; 64];
    signature[..32].copy_from_slice(&sha2::Sha256::digest(&data));
    signature[32..]
        .copy_from_slice(&sha2::Sha256::digest(hex::encode(p.proposer_pubkey).as_bytes()));
    p.signature = signature;
    assert!(validator.verify_proposal_signature(&p));
    p.parent_hash = ByteArray64::default();
    assert!(!validator.verify_proposal_signature(&p));
}

#[test]
fn votes_are_signed_by_the_voter() {
    let validator = ProposalValidator::from_signing_key([2; 32], 3);
    let p = grouped_proposal(&[]);
    let vote = match validator.vote_on_proposal_at(&p, &[0; 64], NOW, NOW) {
        Some(v) => v,
        None => unreachable!(),
    };
    let public = key(2).verifying_key().to_bytes();
    assert_eq!(vote.voter_pubkey, public);
    assert_eq!(vote.vote_type, VoteType::Approve);
    assert_eq!(vote.group_id, "group-4");
    let mut data = 3u64.to_le_bytes().to_vec();
    data.extend_from_slice(&12u64.to_le_bytes());
    data.extend_from_slice(&p.block_hash);
    data.extend_from_slice(&public);
    data.push(1);
    data.extend_from_slice(b"group-4");
    assert_eq!(vote.signature, key(2).sign(&data).to_bytes());
    assert!(validator.vote_on_proposal_at(&p, &[0; 64], NOW, NOW + 600).is_none());
    assert!(validator.vote_on_proposal_at(&p, &[0; 64], NOW, NOW - 60).is_none());
    assert!(validator.vote_on_proposal_at(&p, &[0; 64], NOW + 3601, NOW).is_none());
    assert!(validator.vote_on_proposal(&p, &[0; 64]).is_none());
}

#[test]
fn acceptance_is_certified() {
    let validator = ProposalValidator::from_signing_key([2; 32], 3);
    let mut cert = validator.sign_block_acceptance_at(
        "mn-1", "g", 12, 3, &[9; 64], &[1; 64], &[2; 64], &[3; 64], 2, NOW,
    );
    assert!(ProposalValidator::verify_block_acceptance(&cert));
    let mut p = proposal(&key(1));
    p.tx_root = ByteArray64([1; 64]);
    p.state_root = ByteArray64([2; 64]);
    p.parent_hash = ByteArray64([3; 64]);
    assert!(ProposalValidator::verify_proposal_matches_certificate(&p, &cert));
    p.tx_count = 3;
    assert!(!ProposalValidator::verify_proposal_matches_certificate(&p, &cert));
    cert.height = 13;
    assert!(!ProposalValidator::verify_block_acceptance(&cert));
    let other = ProposalValidator::new([5; 32], 3);
    let mut signed = other.sign_block_acceptance(
        "mn-1", "g", 12, 3, &[9; 64], &[1; 64], &[2; 64], &[3; 64], 2,
    );
    assert_eq!(signed.owner_pubkey, key(5).verifying_key().to_bytes());
    assert!(ProposalValidator::verify_block_acceptance(&signed));
    signed.owner_pubkey = key(6).verifying_key().to_bytes();
    assert!(!ProposalValidator::verify_block_acceptance(&signed));
}

#[test]
fn masternode_keys_are_derived() {
    let mut data = b"mn-1".to_vec();
    data.extend_from_slice(&7u64.to_le_bytes());
    let digest = sha2::Sha512::digest(&data);
    let mut secret = [0u8; 32];
    secret.copy_from_slice(&digest[..32]);
    let expected = ed25519_dalek::SigningKey::from_bytes(&secret).verifying_key().to_bytes();
    assert_eq!(ProposalValidator::derive_masternode_pubkey("mn-1", 7), expected);
}

#[test]
fn elections_need_a_quorum_of_the_roster() {
    let roster = names(&["a", "b", "c", "d"]);
    let three = grouped_proposal(&[("a", 11), ("b", 12), ("c", 13)]);
    assert!(ProposalValidator::verify_proposal_group_and_certificate(&three, &roster, false));
    assert!(ProposalValidator::verify_proposal_group_and_certificate(&three, &[], false));
    let two = grouped_proposal(&[("a", 11), ("b", 12)]);
    assert!(!ProposalValidator::verify_proposal_group_and_certificate(&two, &roster, false));
    assert!(!ProposalValidator::verify_proposal_group_and_certificate(&two, &[], false));
    let strangers = grouped_proposal(&[("a", 11), ("x", 12), ("y", 13)]);
    assert!(!ProposalValidator::verify_proposal_group_and_certificate(&strangers, &roster, false));
    let five = names(&["a", "b", "c", "d", "e"]);
    assert!(!ProposalValidator::verify_proposal_group_and_certificate(&three, &five, false));
    let four = grouped_proposal(&[("a", 11), ("b", 12), ("c", 13), ("d", 14)]);
    assert!(ProposalValidator::verify_proposal_group_and_certificate(&four, &five, false));
}

#[test]
fn one_signer_counts_once() {
    let roster = names(&["a", "b", "c", "d"]);
    let alone = grouped_proposal(&[("a", 11), ("a", 11), ("a", 11), ("a", 11)]);
    assert!(!ProposalValidator::verify_proposal_group_and_certificate(&alone, &roster, false));
    assert!(!ProposalValidator::verify_proposal_group_and_certificate(&alone, &[], false));
    let pair = grouped_proposal(&[("a", 11), ("b", 12), ("a", 11)]);
    assert!(!ProposalValidator::verify_proposal_group_and_certificate(&pair, &roster, false));
    assert!(!ProposalValidator::verify_proposal_group_and_certificate(&pair, &[], false));
    let enough = grouped_proposal(&[("a", 11), ("b", 12), ("a", 11), ("c", 13)]);
    assert!(ProposalValidator::verify_proposal_group_and_certificate(&enough, &roster, false));
    assert!(ProposalValidator::verify_proposal_group_and_certificate(&enough, &[], false));
}

#[test]
fn no_signed_word_of_the_candidates_is_needed() {
    let roster = names(&["a", "b", "c", "d"]);
    let mut p = grouped_proposal(&[("a", 11), ("b", 12), ("c", 13)]);
    if let Some(cert) = &mut p.election_certificate {
        cert.proposer_pou_score = 77;
        cert.timestamp = 1;
        cert.candidates.push(("z".to_string(), 1, 2));
    }
    assert!(ProposalValidator::verify_proposal_group_and_certificate(&p, &roster, false));
}

#[test]
fn elections_hold_for_their_tenure() {
    let mut p = grouped_proposal(&[("a", 11), ("b", 12), ("c", 13)]);
    p.height = 109;
    assert!(ProposalValidator::verify_proposal_group_and_certificate(&p, &[], false));
    p.height = 110;
    assert!(!ProposalValidator::verify_proposal_group_and_certificate(&p, &[], false));
    assert!(ProposalValidator::verify_proposal_group_and_certificate(&p, &[], true));
    p.height = 9;
    assert!(!ProposalValidator::verify_proposal_group_and_certificate(&p, &[], false));
    assert!(ProposalValidator::tenure_unchecked(None));
    assert!(ProposalValidator::tenure_unchecked(Some("1")));
    assert!(!ProposalValidator::tenure_unchecked(Some("0")));
    assert!(!ProposalValidator::tenure_unchecked(Some("False")));
}

#[test]
fn elections_must_be_those_of_the_proposer() {
    let full = [("a", 11), ("b", 12), ("c", 13)];
    let mut p = grouped_proposal(&full);
    p.proposer_group_id = "group-5".to_string();
    assert!(!ProposalValidator::verify_proposal_group_and_certificate(&p, &[], false));
    let mut p = grouped_proposal(&full);
    p.proposer_pubkey = [4; 32];
    assert!(!ProposalValidator::verify_proposal_group_and_certificate(&p, &[], false));
    let mut p = grouped_proposal(&full);
    p.election_certificate = None;
    assert!(!ProposalValidator::verify_proposal_group_and_certificate(&p, &[], false));
    let mut p = grouped_proposal(&full);
    if let Some(cert) = &mut p.election_certificate {
        cert.attestations[1].signature[0] ^= 1;
    }
    assert!(!ProposalValidator::verify_proposal_group_and_certificate(&p, &[], false));
}

#[test]
fn signatures_are_read_from_hex() {
    assert_eq!(signature_from_hex(&"0a".repeat(64)), Some([10; 64]));
    assert_eq!(signature_from_hex(&"0a".repeat(63)), Some([0; 64]));
    assert_eq!(signature_from_hex(&"0g".repeat(64)), None);
}

#[test]
fn groups_are_found_by_name_then_by_number() {
    let groups = vec![
        group("g1", Some(1), &["a"], "me", "you"),
        group("g2", Some(2), &["a"], "you", "me"),
        group("g3", None, &["a"], "x", "y"),
    ];
    assert_eq!(find_group(&groups, "g2", Some(1)), Some(1));
    assert_eq!(find_group(&groups, "other", Some(1)), Some(0));
    assert_eq!(find_group(&groups, "other", None), None);
    assert_eq!(determine_role(&groups, "g1", None, "me"), MnGroupRole::Leader);
    assert_eq!(determine_role(&groups, "g2", None, "me"), MnGroupRole::Backup);
    assert_eq!(determine_role(&groups, "g3", None, "me"), MnGroupRole::Participant);
    assert_eq!(determine_role(&groups, "g9", None, "me"), MnGroupRole::Participant);
}

#[test]
fn a_backup_keeps_the_proposal_until_it_is_accepted() {
    let mut tracker = FinalityTracker::new();
    let mut pending = PendingProposals::new();
    let groups = vec![group("group-4", Some(4), &["a", "b", "c"], "leader", "me")];
    let p = grouped_proposal(&[("a", 11), ("b", 12), ("c", 13)]);
    let decision = handle_lightnode_proposal(
        &mut tracker, &mut pending, p, &groups, Some(4), "me", false, NOW,
    );
    assert_eq!(decision.role, Some(MnGroupRole::Backup));
    let key = ProposalKey { group_id: "group-4".to_string(), height: 12, round_id: 3 };
    assert!(pending.contains(&key));

    let leader = ProposalValidator::from_signing_key([2; 32], 3);
    let mut cert = leader.sign_block_acceptance_at(
        "leader", "group-4", 12, 3, &[9; 64], &[0; 64], &[0; 64], &[0; 64], 2, NOW,
    );
    let good: BlockAcceptanceCertificate = cert.clone();
    cert.signature[0] ^= 1;
    let outcome = handle_block_acceptance_certificate(&mut pending, &cert);
    assert!(matches!(outcome, AcceptanceOutcome::Rejected));
    assert!(pending.contains(&key));
    let outcome = handle_block_acceptance_certificate(&mut pending, &good);
    assert!(matches!(outcome, AcceptanceOutcome::BackupCancelled));
    assert!(!pending.contains(&key));
    let outcome = handle_block_acceptance_certificate(&mut pending, &good);
    assert!(matches!(outcome, AcceptanceOutcome::NothingPending));
}

#[test]
fn proposals_without_an_election_are_rejected() {
    let mut tracker = FinalityTracker::new();
    let mut pending = PendingProposals::new();
    let mut p = grouped_proposal(&[]);
    p.election_certificate = None;
    let decision =
        handle_lightnode_proposal(&mut tracker, &mut pending, p, &[], None, "me", false, NOW);
    assert_eq!(decision.role, None);
    let plain = proposal(&key(1));
    let decision =
        handle_lightnode_proposal(&mut tracker, &mut pending, plain, &[], None, "me", false, NOW);
    assert_eq!(decision.role, Some(MnGroupRole::Leader));
}

#[test]
fn a_proposal_brings_the_block_that_a_certificate_waits_for() {
    let mut tracker = FinalityTracker::new();
    let mut pending = PendingProposals::new();
    let waits = tracker.accept_certificate(&[9; 64], 12, "g".to_string(), NOW);
    assert_eq!(waits, FinalizeOutcome::PayloadMissing);
    let mut p = proposal(&key(1));
    p.raw_txs = Some(vec![vec![1]]);
    let decision =
        handle_lightnode_proposal(&mut tracker, &mut pending, p, &[], None, "me", false, NOW);
    assert_eq!(decision.finality, Some(FinalizeOutcome::Finalized));
    assert_eq!(tracker.finalized_count(), 1);
}

#[test]
fn pending_proposals_are_found_by_group_height_and_round() {
    let mut pending = PendingProposals::new();
    let key_of = |height: u64| ProposalKey { group_id: "g".to_string(), height, round_id: 1 };
    let entry = PendingProposalEntry { proposal: proposal(&key(1)), received_at: NOW };
    pending.insert(key_of(1), entry);
    assert!(pending.contains(&key_of(1)));
    assert!(!pending.contains(&key_of(2)));
    assert!(!pending.remove(&key_of(2)));
    assert!(pending.remove(&key_of(1)));
    assert!(!pending.contains(&key_of(1)));
}

fn election_message(proposer: &str, attesters: &[&str]) -> ProposerElectionCertMessage {
    ProposerElectionCertMessage {
        group_id: "group-4".to_string(),
        round_id: 3,
        proposer_peer_id: proposer.to_string(),
        proposer_pubkey: [1; 32],
        proposer_pou_score: 5,
        election_timestamp: NOW,
        candidates: Vec::new(),
        attestations: attesters
            .iter()
            .map(|peer| ElectionAttestation {
                signer_peer_id: peer.to_string(),
                signer_pubkey: [0; 32],
                signature: [0; 64],
            })
            .collect(),
    }
}

#[test]
fn elected_proposers_are_let_in_by_their_leader() {
    let mut whitelist = ProposerWhitelist::new();
    let proposer = libp2p::PeerId::random().to_string();
    let groups = vec![group("group-4", Some(4), &["a", "b", "c", "d", "e"], "me", "you")];
    let all = ["a", "b", "c", "d", "e"];
    let not_leader = whitelist.handle_election_certificate(
        &election_message(&proposer, &all), &groups, Some(4), "you", 100, NOW,
    );
    assert!(not_leader.is_none());
    for few in [&["a", "b", "c"][..], &["a", "a", "b", "c"], &["a", "b", "c", "x"], &[]] {
        let too_few = whitelist.handle_election_certificate(
            &election_message(&proposer, few), &groups, Some(4), "me", 100, NOW,
        );
        assert!(too_few.is_none());
    }
    let no_peer = whitelist.handle_election_certificate(
        &election_message("not a peer", &all), &groups, Some(4), "me", 100, NOW,
    );
    assert!(no_peer.is_none());
    assert!(!whitelist.contains(&proposer));
    let ack = whitelist.handle_election_certificate(
        &election_message(&proposer, &["a", "b", "c", "d"]), &groups, Some(4), "me", 100, NOW,
    );
    match ack {
        Some(a) => {
            assert_eq!(a.target_proposer_peer_id, proposer);
            assert_eq!(a.masternode_peer_id, "me");
            assert_eq!((a.round_id, a.timestamp, a.validity_secs), (3, NOW, WHITELIST_TIMEOUT_SECS));
        }
        None => unreachable!(),
    }
    assert!(whitelist.contains(&proposer));
    assert_eq!(whitelist.cleanup_expired_whitelist(100 + 86400).len(), 0);
    assert_eq!(whitelist.cleanup_expired_whitelist(101 + 86400).len(), 1);
    assert!(!whitelist.contains(&proposer));
}

#[test]
fn accepted_proposers_leave_the_whitelist() {
    let mut whitelist = ProposerWhitelist::new();
    let proposer = libp2p::PeerId::random().to_string();
    let _ = whitelist.handle_election_certificate(
        &election_message(&proposer, &["x"]), &[], None, "me", 0, NOW,
    );
    assert!(whitelist.contains(&proposer));
    assert!(whitelist.remove_accepted("group-4", 4).is_none());
    let gone = whitelist.remove_accepted("group-4", 3);
    assert_eq!(gone.map(|e| e.peer_id), Some(proposer.clone()));
    assert!(!whitelist.contains(&proposer));
}

#[test]
fn a_group_without_known_members_asks_for_nobody() {
    let proposer = libp2p::PeerId::random().to_string();
    let mut whitelist = ProposerWhitelist::new();
    let unknown = whitelist.handle_election_certificate(
        &election_message(&proposer, &[]), &[], None, "me", 0, NOW,
    );
    assert!(unknown.is_some());
    let empty = vec![group("group-4", Some(4), &[], "me", "you")];
    let mut whitelist = ProposerWhitelist::new();
    let led = whitelist.handle_election_certificate(
        &election_message(&proposer, &[]), &empty, Some(4), "me", 0, NOW,
    );
    assert!(led.is_some());
    let not_led = whitelist.handle_election_certificate(
        &election_message(&proposer, &["x"]), &empty, Some(4), "you", 0, NOW,
    );
    assert!(not_led.is_none());
}

#[test]
fn a_vote_holds_for_one_group() {
    let validator = ProposalValidator::from_signing_key([2; 32], 3);
    let p = grouped_proposal(&[]);
    let mut q = grouped_proposal(&[]);
    q.proposer_group_id = "group-5".to_string();
    let first = validator.vote_on_proposal_at(&p, &[0; 64], NOW, NOW).map(|v| v.signature);
    let second = validator.vote_on_proposal_at(&q, &[0; 64], NOW, NOW).map(|v| v.signature);
    assert!(first.is_some() && second.is_some());
    assert_ne!(first, second);
}

#[test]
fn a_signature_holds_for_one_block() {
    let validator = ProposalValidator::from_signing_key([2; 32], 3);
    let mut p = proposal(&key(1));
    let bytes = validator.proposal_signable_bytes(&p);
    assert_eq!(bytes.len(), 124);
    p.tx_count += 1;
    assert_ne!(validator.proposal_signable_bytes(&p), bytes);
    assert!(!validator.verify_proposal_signature(&p));
}

#[test]
fn an_attestation_holds_for_one_tenure() {
    let mut p = grouped_proposal(&[("a", 11), ("b", 12), ("c", 13)]);
    p.height = 111;
    if let Some(cert) = &mut p.election_certificate {
        cert.tenure_start_height = 100;
    }
    assert!(!ProposalValidator::verify_proposal_group_and_certificate(&p, &[], false));
    assert!(!ProposalValidator::verify_proposal_group_and_certificate(&p, &[], true));
}

#[test]
fn a_quorum_can_do_without_the_faulty() {
    let roster = names(&["a", "b", "c", "d", "e", "f", "g"]);
    let five = grouped_proposal(&[("a", 11), ("b", 12), ("c", 13), ("d", 14), ("e", 15)]);
    assert!(ProposalValidator::verify_proposal_group_and_certificate(&five, &roster, false));
    let four = grouped_proposal(&[("a", 11), ("b", 12), ("c", 13), ("d", 14)]);
    assert!(!ProposalValidator::verify_proposal_group_and_certificate(&four, &roster, false));
}

#[test]
fn older_proposals_are_taken_over() {
    let compat = LightnodeBlockProposalCompat {
        round_id: 3,
        height: 12,
        timestamp: NOW,
        proposer_pubkey: [1; 32],
        proposer_pou_score: 5,
        parent_hash: [2; 64],
        state_root: [3; 64],
        tx_root: [4; 64],
        transactions: Vec::new(),
        signature: [6; 64],
    };
    let p = proposal_from_compat(&compat, [7; 64]);
    assert_eq!((p.round_id, p.height, p.timestamp, p.tx_count), (3, 12, NOW, 0));
    assert_eq!((p.block_hash, p.signature), ([7; 64], [6; 64]));
    assert_eq!((p.parent_hash.0, p.state_root.0, p.tx_root.0), ([2; 64], [3; 64], [4; 64]));
    assert!(p.proposer_group_id.is_empty() && p.election_certificate.is_none());
}
