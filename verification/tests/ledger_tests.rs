use ed25519_dalek::Signer;
use savitri_masternode::certificates::handle_consensus_certificate;
use savitri_masternode::certificates::handle_decoded_certificate;
use savitri_masternode::certificates::CertificateError;
use savitri_masternode::certificates::CertificateOutcome;
use savitri_masternode::certificates::CertificateSummary;
use savitri_masternode::certificates::ConsensusCertificate;
use savitri_masternode::certificates::DecodedCertificate;
use savitri_masternode::certificates::MempoolSyncMessage;
use savitri_masternode::finality::decode_chain_head_height;
use savitri_masternode::finality::encode_chain_head;
use savitri_masternode::finality::FinalityTracker;
use savitri_masternode::finality::FinalizeOutcome;
use savitri_masternode::finality::ShortChainHead;
use savitri_masternode::finality::PENDING_CERT_MAX;
use savitri_masternode::json::PayloadKind;
use savitri_masternode::messages::BlockProposal;
use savitri_masternode::messages::LocalTransaction;
use savitri_masternode::proposal_validator::BlockCertificate;
use savitri_masternode::proposal_validator::MasternodeVote;
use savitri_masternode::proposal_validator::VoteType;
use savitri_masternode::transactions::generate_masternode_signature;
use savitri_masternode::transactions::get_masternode_keypair;
use savitri_masternode::transactions::looks_like_block_gossip;
use savitri_masternode::transactions::review_block_proposal;
use savitri_masternode::transactions::BlockValidationResult;
use savitri_masternode::transactions::TransactionValidator;
use savitri_masternode::transactions::ValidatedTransaction;
use sha2::Digest;

const NOW: u64 = 1_700_000_000;

#[test]
fn chain_heads_are_read_back() {
    let head = encode_chain_head(&[7; 64], 258);
    assert_eq!(head.len(), 72);
    assert_eq!(&head[64..], &[2, 1, 0, 0, 0, 0, 0, 0]);
    assert_eq!(decode_chain_head_height(&head), Ok(258));
    assert_eq!(decode_chain_head_height(&head[..71]), Err(ShortChainHead { len: 71 }));
}

#[test]
fn a_certified_block_at_hand_is_final() {
    let mut tracker = FinalityTracker::new();
    assert_eq!(tracker.cache_block_payload([1; 64], 5, [0; 32], vec![vec![9]], NOW), None);
    assert_eq!(tracker.cached_block(&[1; 64]).map(|b| b.txs.len()), Some(1));
    let group = || "g".to_string();
    assert_eq!(tracker.accept_certificate(&[1; 64], 5, group(), NOW), FinalizeOutcome::Finalized);
    let again = tracker.accept_certificate(&[1; 64], 5, group(), NOW);
    assert_eq!(again, FinalizeOutcome::AlreadyFinalized);
    assert!(again.settled());
    let _ = tracker.cache_block_payload([2; 64], 5, [0; 32], Vec::new(), NOW);
    let other = tracker.finalize_with_cached_payload(&[2; 64], 5, group(), NOW);
    assert_eq!(other, FinalizeOutcome::HeightTaken);
    assert_eq!(tracker.finalized_count(), 1);
}

#[test]
fn a_certificate_waits_for_its_block() {
    let mut tracker = FinalityTracker::new();
    let outcome = tracker.accept_certificate(&[1; 64], 5, "g".to_string(), NOW);
    assert_eq!(outcome, FinalizeOutcome::PayloadMissing);
    assert!(!outcome.settled());
    assert_eq!(tracker.waiting_count(), 1);
    tracker.prune_pending_certificate_finality(NOW + 120);
    assert_eq!(tracker.waiting_count(), 1);
    let late = tracker.cache_block_payload([1; 64], 5, [0; 32], Vec::new(), NOW + 120);
    assert_eq!(late, Some(FinalizeOutcome::Finalized));
    assert_eq!(tracker.waiting_count(), 0);
    assert_eq!(tracker.try_finalize_pending_from_cache(&[1; 64], NOW), None);
}

#[test]
fn certificates_do_not_wait_for_ever() {
    let mut tracker = FinalityTracker::new();
    tracker.enqueue_pending_certificate_finality(&[1; 64], 5, "g".to_string(), NOW);
    tracker.prune_pending_certificate_finality(NOW + 121);
    assert_eq!(tracker.waiting_count(), 0);
    for n in 0..(PENDING_CERT_MAX + 9) {
        let mut hash = [0u8; 64];
        hash[..8].copy_from_slice(&(n as u64).to_le_bytes());
        tracker.enqueue_pending_certificate_finality(&hash, n as u64, "g".to_string(), NOW);
    }
    tracker.prune_pending_certificate_finality(NOW);
    assert_eq!(tracker.waiting_count(), PENDING_CERT_MAX);
}

#[test]
fn old_blocks_leave_the_cache() {
    let mut tracker = FinalityTracker::new();
    for n in 0..501u64 {
        let mut hash = [0u8; 64];
        hash[..8].copy_from_slice(&n.to_le_bytes());
        let _ = tracker.cache_block_payload(hash, n, [0; 32], Vec::new(), NOW);
    }
    assert!(tracker.cached_block(&[0; 64]).is_none());
    let mut second = [0u8; 64];
    second[0] = 1;
    assert!(tracker.cached_block(&second).is_some());
}

fn consensus_certificate() -> ConsensusCertificate {
    ConsensusCertificate {
        block_hash: [1; 64],
        height: 9,
        proposer_group_id: "g".to_string(),
        validation_timestamp: NOW,
        voter_signatures: vec!["ab".repeat(64)],
        aggregated_signature: [5; 64],
    }
}

#[test]
fn certificates_are_checked() {
    let good = consensus_certificate();
    assert!(good.is_valid_at(NOW));
    assert!(good.is_valid_at(NOW + 3600));
    assert!(!good.is_valid_at(NOW + 3601));
    assert!(good.is_valid_at(NOW - 300));
    assert!(!good.is_valid_at(NOW - 301));
    assert!(!good.is_valid());
    assert_eq!(good.verify_detailed_at(NOW), Ok(()));
    assert_eq!(good.verify_detailed(), Err(CertificateError::Invalid));
    let mut c = consensus_certificate();
    c.height = 1000001;
    assert_eq!(c.verify_detailed_at(NOW), Err(CertificateError::HeightTooHigh));
    let mut c = consensus_certificate();
    c.proposer_group_id = "x".repeat(257);
    assert_eq!(c.verify_detailed_at(NOW), Err(CertificateError::GroupIdTooLong));
    let mut c = consensus_certificate();
    c.voter_signatures.push("abc".to_string());
    let short = CertificateError::VoterSignatureLength { index: 1, length: 3 };
    assert_eq!(c.verify_detailed_at(NOW), Err(short));
    assert_eq!(short.message(), "Invalid voter signature format at index 1: length 3");
    let mut c = consensus_certificate();
    c.voter_signatures.push("zz".repeat(64));
    let not_hex = CertificateError::VoterSignatureHex { index: 1 };
    assert_eq!(c.verify_detailed_at(NOW), Err(not_hex));
    assert_eq!(not_hex.message(), "Invalid hex format for voter signature at index 1");
    let mut c = consensus_certificate();
    c.voter_signatures.clear();
    assert_eq!(c.verify_detailed_at(NOW), Err(CertificateError::Invalid));
    let mut c = consensus_certificate();
    c.validation_timestamp = 0;
    assert!(c.is_valid());
    assert_eq!(c.verify_detailed(), Ok(()));
}

#[test]
fn certificates_have_an_age() {
    let c = consensus_certificate();
    assert_eq!(c.age_at(NOW + 5), 5);
    assert_eq!(c.age_at(NOW - 5), 0);
    assert!(c.is_recent_at(5, NOW + 5));
    assert!(!c.is_recent_at(4, NOW + 5));
    assert!(c.age_seconds() > 1000);
    assert!(!c.is_recent(1000));
    assert!(c.is_recent(u64::MAX));
    assert!(c.is_recent_at(0, NOW) && c.is_recent_at(0, NOW - 50));
    assert!(!c.is_recent_at(0, NOW + 1));
    let s = c.get_summary_at(NOW);
    assert_eq!(s.block_hash, "01".repeat(64));
    assert_eq!((s.height, s.voter_count, s.is_valid), (9, 1, true));
    assert!(!c.get_summary().is_valid);
    assert_eq!(s.formatted_timestamp(), "2023-11-14 22:13:20 UTC");
    assert_eq!(s.formatted_age_at(NOW + 59), "59s");
    assert_eq!(s.formatted_age_at(NOW + 61), "1m 1s");
    assert_eq!(s.formatted_age_at(NOW + 7260), "2h 1m");
    assert_eq!(s.formatted_age_at(NOW + 90000), "1d 1h");
    assert!(s.formatted_age().contains('d'));
}

#[test]
fn times_beyond_the_calendar_count_as_the_start() {
    let s = CertificateSummary {
        height: 1,
        proposer_group_id: "g".to_string(),
        voter_count: 0,
        validation_timestamp: i64::MAX as u64,
        block_hash: String::new(),
        is_valid: false,
    };
    assert_eq!(s.formatted_timestamp(), "1970-01-01 00:00:00 UTC");
}

#[test]
fn trial_certificates_are_signed_at_random() {
    let make = || {
        ConsensusCertificate::create_mock([1; 64], 9, "g".to_string(), vec!["ab".repeat(64)])
    };
    let (a, b) = (make(), make());
    assert!(a.is_valid());
    assert_ne!(a.aggregated_signature, b.aggregated_signature);
    assert_ne!(a.aggregated_signature, [0; 64]);
}

fn wire_certificate(votes: usize) -> BlockCertificate {
    BlockCertificate {
        round_id: 1,
        height: 5,
        block_hash: [1; 64],
        votes: (0..votes)
            .map(|n| MasternodeVote {
                round_id: 1,
                height: 5,
                block_hash: [1; 64],
                voter_pubkey: [n as u8; 32],
                vote_type: VoteType::Approve,
                signature: [0; 64],
                group_id: "g".to_string(),
                state_root: [0; 64],
                tx_root: [0; 64],
                parent_hash: [0; 64],
            })
            .collect(),
        timestamp: NOW,
        group_id: "g".to_string(),
        state_root: [0; 64],
        tx_root: [0; 64],
        parent_hash: [0; 64],
        reward_recipients: Vec::new(),
    }
}

#[test]
fn certificates_make_blocks_final() {
    let mut tracker = FinalityTracker::new();
    let _ = tracker.cache_block_payload([1; 64], 5, [0; 32], Vec::new(), NOW);
    let none = handle_decoded_certificate(
        &mut tracker,
        DecodedCertificate::Wire(wire_certificate(0)),
        NOW,
    );
    assert!(matches!(none, CertificateOutcome::Invalid));
    let done = handle_consensus_certificate(
        &mut tracker,
        b"{\"height\":5}",
        DecodedCertificate::Wire(wire_certificate(1)),
        NOW,
    );
    assert!(matches!(done, CertificateOutcome::Accepted(FinalizeOutcome::Finalized)));
    let legacy = handle_decoded_certificate(
        &mut tracker,
        DecodedCertificate::Legacy(consensus_certificate()),
        NOW + 4000,
    );
    assert!(matches!(legacy, CertificateOutcome::Invalid));
    let old = handle_decoded_certificate(&mut tracker, DecodedCertificate::MempoolSync, NOW);
    assert!(matches!(old, CertificateOutcome::Deprecated));
    let bad = handle_decoded_certificate(&mut tracker, DecodedCertificate::Unreadable, NOW);
    assert!(matches!(bad, CertificateOutcome::Unreadable));
    let other = handle_consensus_certificate(
        &mut tracker,
        b"{\"MempoolSync\":{}}",
        DecodedCertificate::Wire(wire_certificate(1)),
        NOW,
    );
    assert!(matches!(
        other,
        CertificateOutcome::NotACertificate(PayloadKind::MempoolSyncMessage)
    ));
    assert_eq!(tracker.finalized_count(), 1);
}

#[test]
fn syncs_count_their_transactions() {
    let m = MempoolSyncMessage::new([1; 64], vec![[1; 32]], vec![[2; 32], [3; 32]]);
    assert_eq!(m.total_transactions(), 3);
}

fn local_transaction(n: u8, amount: u64) -> LocalTransaction {
    let signer = ed25519_dalek::SigningKey::from_bytes(&[6; 32]);
    let mut tx = LocalTransaction {
        tx_hash: [n; 32],
        sender: signer.verifying_key().to_bytes(),
        receiver: [8; 32],
        amount,
        nonce: 1,
        signature: [0; 64],
    };
    let mut message = tx.tx_hash.to_vec();
    message.extend_from_slice(&tx.amount.to_le_bytes());
    message.extend_from_slice(&tx.receiver);
    message.extend_from_slice(&tx.nonce.to_le_bytes());
    tx.signature = signer.sign(&sha2::Sha256::digest(&message)).to_bytes();
    tx
}

#[test]
fn transactions_are_validated_by_their_signature() {
    let validator = TransactionValidator::new();
    let tx = ValidatedTransaction::from(local_transaction(1, 5));
    assert!(validator.validate_transaction(&tx));
    let mut other = tx.clone();
    other.amount = 6;
    assert!(!validator.validate_transaction(&other));
    let mut other = tx.clone();
    other.signature = [0; 64];
    assert!(!validator.validate_transaction(&other));
    let mut other = tx.clone();
    other.receiver = [0; 32];
    assert!(!validator.validate_transaction(&other));
    assert!(!validator.validate_transaction(&ValidatedTransaction::from(local_transaction(1, 0))));
    let signer = ed25519_dalek::SigningKey::from_bytes(&[6; 32]);
    let mut in_block = tx.clone();
    in_block.block_hash = Some([4; 64]);
    assert!(!validator.validate_transaction(&in_block));
    let mut message = in_block.tx_hash.to_vec();
    message.extend_from_slice(&[4; 64]);
    in_block.signature = signer.sign(&sha2::Sha256::digest(&message)).to_bytes();
    assert!(validator.validate_transaction(&in_block));
}

#[test]
fn a_block_with_too_many_repeats_is_rejected() {
    let mut validator = TransactionValidator::new();
    let txs = |ns: &[u8]| -> Vec<ValidatedTransaction> {
        ns.iter().map(|n| ValidatedTransaction::from(local_transaction(*n, 5))).collect()
    };
    let r = validator.validate_block_transactions(txs(&[1, 2, 3, 4, 4]), "g".to_string());
    assert!(r.is_accepted);
    assert_eq!((r.unique_transactions, r.total_transactions), (4, 5));
    assert_eq!(r.duplicate_hashes, vec![[4; 32]]);
    let r = validator.validate_block_transactions(txs(&[1, 2, 3, 3]), "g".to_string());
    assert!(!r.is_accepted);
    let r = validator.validate_block_transactions(Vec::new(), "g".to_string());
    assert!(!r.is_accepted);
    validator.set_current_block_height(9);
    assert_eq!(validator.get_current_block_height(), 9);
}

#[test]
fn proposals_are_reviewed() {
    let mut validator = TransactionValidator::new();
    let mut proposal = BlockProposal {
        block_hash: [0xab; 64],
        proposer_group_id: "g".to_string(),
        height: 4,
        transactions: vec![local_transaction(1, 5), local_transaction(2, 5)],
        timestamp: NOW,
        proposer_signature: [0; 64],
    };
    let verdict: BlockValidationResult = review_block_proposal(&mut validator, &proposal);
    assert!(verdict.is_accepted);
    assert_eq!(verdict.get_summary(), "abababababababab: accepted=true, unique_txs=2/2");
    proposal.transactions.push(local_transaction(2, 5));
    let verdict = review_block_proposal(&mut validator, &proposal);
    assert!(!verdict.is_accepted);
    assert_eq!(verdict.get_summary(), "abababababababab: accepted=false, unique_txs=2/3");
}

#[test]
fn verdicts_are_signed() {
    let mut data = b"MASTERNODE-KEYPAIR".to_vec();
    data.extend_from_slice(b"peer");
    let digest = sha2::Sha512::digest(&data);
    let mut secret = [0u8; 32];
    secret.copy_from_slice(&digest[..32]);
    assert_eq!(get_masternode_keypair(b"peer"), secret);
    let mut message = [1u8; 64].to_vec();
    message.extend_from_slice(&1.0f64.to_bits().to_le_bytes());
    message.extend_from_slice(&2u64.to_le_bytes());
    message.push(1);
    let signer = ed25519_dalek::SigningKey::from_bytes(&secret);
    let signature = generate_masternode_signature(b"peer", &[1; 64], 1.0f64.to_bits(), 2, true);
    assert_eq!(signature, signer.sign(&sha2::Sha256::digest(&message)).to_bytes());
}

#[test]
fn gossip_about_blocks_is_recognized() {
    assert!(looks_like_block_gossip(b"{\"Block\":{}}"));
    assert!(looks_like_block_gossip(b"{\"HaveBlock\":{}}"));
    assert!(!looks_like_block_gossip(b"{\"Block\""));
    assert!(!looks_like_block_gossip(b"{\"block_hash\":1}"));
}
