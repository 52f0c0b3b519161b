use ed25519_dalek::Signer;
use savitri_masternode::main_loop::certified_block;
use savitri_masternode::main_loop::epochs_to_rebroadcast;
use savitri_masternode::main_loop::published_form;
use savitri_masternode::main_loop::receive_proposal_at;
use savitri_masternode::main_loop::sync_request;
use savitri_masternode::main_loop::CertifiedProposals;
use savitri_masternode::main_loop::HealthReport;
use savitri_masternode::main_loop::MnHealth;
use savitri_masternode::main_loop::ReformationTrigger;
use savitri_masternode::masternode_p2p;
use savitri_masternode::monolith_benchmark::read_cpu_times;
use savitri_masternode::monolith_benchmark::read_disk_sectors;
use savitri_masternode::monolith_benchmark::read_memory;
use savitri_masternode::monolith_benchmark::read_network_bytes;
use savitri_masternode::monolith_benchmark::BenchmarkConfig;
use savitri_masternode::monolith_benchmark::CreationTotals;
use savitri_masternode::monolith_p2p;
use savitri_masternode::monolith_p2p_fixed;
use savitri_masternode::monolith_producer::MonolithProducer;
use savitri_masternode::monolith_producer::MonolithProducerConfig;
use savitri_masternode::p2p::P2PNetwork;
use savitri_masternode::p2p_block_receiver::classify_topic;
use savitri_masternode::p2p_block_receiver::MasternodeMessage;
use savitri_masternode::p2p_block_receiver::P2PBlockReceiver;
use savitri_masternode::p2p_block_receiver::ProposalTopic;
use savitri_masternode::proposal_validator::BlockCertificate;
use savitri_masternode::proposal_validator::ByteArray64;
use savitri_masternode::proposal_validator::LightnodeProposal;
use savitri_masternode::proposal_validator::ProposalValidator;
use savitri_masternode::proposals::PendingProposals;
use savitri_masternode::startup::decode_genesis_ts;
use savitri_masternode::startup::decode_latest_height;
use savitri_masternode::startup::encode_genesis_account;
use savitri_masternode::startup::genesis_accounts;
use savitri_masternode::startup::genesis_chain_head;
use savitri_masternode::startup::genesis_hash;
use savitri_masternode::startup::max_faulty;
use savitri_masternode::startup::order_validators;
use savitri_masternode::startup::parse_account;
use savitri_masternode::startup::parse_arguments;
use savitri_masternode::startup::parse_reward_address;
use savitri_masternode::startup::resolve_genesis;
use savitri_masternode::startup::resolve_geographic_distribution;
use savitri_masternode::startup::resolve_min_group_size;
use savitri_masternode::startup::resolve_registry_ttl;
use savitri_masternode::startup::resolve_slots_per_epoch;
use savitri_masternode::startup::reward_address;
use savitri_masternode::startup::voters_of_a_group;
use savitri_masternode::startup::AccountEntry;
use savitri_masternode::startup::Invocation;

const NOW: u64 = 1_700_000_000;

fn words(list: &[&str]) -> Vec<String> {
    list.iter().map(|s| s.to_string()).collect()
}

fn proposal(height: u64, group: &str) -> LightnodeProposal {
    let signer = ed25519_dalek::SigningKey::from_bytes(&[1; 32]);
    let mut p = LightnodeProposal {
        round_id: 3,
        height,
        timestamp: NOW,
        proposer_pubkey: signer.verifying_key().to_bytes(),
        block_hash: [9; 64],
        tx_count: 2,
        signature: [0; 64],
        parent_hash: ByteArray64([0; 64]),
        state_root: ByteArray64([0; 64]),
        tx_root: ByteArray64([0; 64]),
        proposer_group_id: group.to_string(),
        election_certificate: None,
        raw_txs: None,
    };
    let mut data = p.round_id.to_le_bytes().to_vec();
    data.extend_from_slice(&p.height.to_le_bytes());
    data.extend_from_slice(&p.timestamp.to_le_bytes());
    data.extend_from_slice(&p.proposer_pubkey);
    data.extend_from_slice(&p.block_hash);
    data.extend_from_slice(&p.tx_count.to_le_bytes());
    p.signature = signer.sign(&data).to_bytes();
    p
}

fn certificate(height: u64, group: &str) -> BlockCertificate {
    BlockCertificate {
        round_id: 3,
        height,
        block_hash: [9; 64],
        votes: Vec::new(),
        timestamp: NOW,
        group_id: group.to_string(),
        state_root: [0; 64],
        tx_root: [0; 64],
        parent_hash: [0; 64],
        reward_recipients: Vec::new(),
    }
}

#[test]
fn arguments_are_read() {
    assert!(matches!(parse_arguments(&words(&["--help"])), Invocation::Help));
    assert!(matches!(parse_arguments(&words(&["-h"])), Invocation::Help));
    assert!(matches!(parse_arguments(&words(&["--config"])), Invocation::MissingPath));
    match parse_arguments(&words(&["-c", "a.toml"])) {
        Invocation::Run(path) => assert_eq!(path, "a.toml"),
        _ => unreachable!(),
    }
    match parse_arguments(&words(&["b.toml"])) {
        Invocation::Run(path) => assert_eq!(path, "b.toml"),
        _ => unreachable!(),
    }
    match parse_arguments(&[]) {
        Invocation::Run(path) => assert_eq!(path, "masternode/masternode.toml"),
        _ => unreachable!(),
    }
}

#[test]
fn stored_numbers_are_read() {
    assert_eq!(decode_latest_height(&[1, 2, 0, 0, 0, 0, 0, 0, 77]), Some(513));
    assert_eq!(decode_latest_height(&[1; 7]), None);
    assert_eq!(decode_genesis_ts(&513u64.to_be_bytes()).is_some(), true);
    assert_eq!(decode_genesis_ts(&[1; 9]), None);
}

#[test]
fn the_genesis_time_is_kept() {
    let db = resolve_genesis(None, Some(5), 7, 9);
    assert!(matches!(db, Ok(t) if t.timestamp_ms == 5 && !t.persist));
    let env = resolve_genesis(Some("6"), None, 7, 9);
    assert!(matches!(env, Ok(t) if t.timestamp_ms == 6 && t.persist));
    let same = resolve_genesis(Some("5"), Some(5), 7, 9);
    assert!(matches!(same, Ok(t) if t.timestamp_ms == 5 && !t.persist));
    let clash = resolve_genesis(Some("6"), Some(5), 7, 9);
    assert!(matches!(clash, Err(m) if m.env == 6 && m.db == 5));
    let configured = resolve_genesis(None, None, 7, 9);
    assert!(matches!(configured, Ok(t) if t.timestamp_ms == 7 && t.persist));
    let fresh = resolve_genesis(None, None, 0, 9);
    assert!(matches!(fresh, Ok(t) if t.timestamp_ms == 9 && t.persist));
}

#[test]
fn settings_are_resolved() {
    assert_eq!(resolve_slots_per_epoch(Some("12"), 20), 12);
    assert_eq!(resolve_slots_per_epoch(None, 20), 20);
    assert_eq!(resolve_min_group_size(Some("4"), 5), 4);
    assert_eq!(resolve_min_group_size(Some("x"), 5), 5);
    assert_eq!(max_faulty(4), 1);
    assert_eq!(max_faulty(7), 2);
    assert_eq!(resolve_registry_ttl(0), 300);
    assert_eq!(resolve_registry_ttl(60), 60);
    assert_ne!(
        resolve_geographic_distribution(Some("true")),
        resolve_geographic_distribution(Some("false"))
    );
}

#[test]
fn the_genesis_block_has_a_hash() {
    let expected = "034b91f49cc164f1347c3df9524bc4c5b755297064146b66eba53744152f7d2e\
                    1fd2598053ee67792bd305ad970ef1d5460e079b387aefe88d54d995909c3bac";
    assert_eq!(hex::encode(genesis_hash(0)), expected);
    assert!(genesis_chain_head(Some(&[1]), 0).is_none());
    match genesis_chain_head(None, 0) {
        Some(head) => {
            assert_eq!(&head[..64], &genesis_hash(0));
            assert_eq!(&head[64..], &[0; 8]);
        }
        None => unreachable!(),
    }
}

#[test]
fn genesis_accounts_are_read() {
    let good = format!(" 0x{} ", "1f".repeat(32));
    assert!(matches!(parse_account(&good), AccountEntry::Account(a) if a == [0x1f; 32]));
    assert!(matches!(parse_account("  "), AccountEntry::Empty));
    assert!(matches!(parse_account("0x12"), AccountEntry::Invalid));
    let accounts = genesis_accounts(&[good, "zz".to_string(), "2e".repeat(32)]);
    assert_eq!(accounts, vec![[0x1f; 32], [0x2e; 32]]);
    let stored = encode_genesis_account(3);
    assert_eq!(stored.len(), 24);
    assert_eq!(&stored[..16], &3_000_000_000_000_000_000u128.to_le_bytes());
    assert_eq!(&stored[16..], &[0; 8]);
}

#[test]
fn rewards_have_an_address() {
    assert_eq!(parse_reward_address(&"0a".repeat(32)), Some([10; 32]));
    assert_eq!(parse_reward_address("0a"), None);
    assert_eq!(reward_address("me", "me", Some([4; 32])), [4; 32]);
    let derived = reward_address("mn-2", "me", Some([4; 32]));
    assert_eq!(
        hex::encode(derived),
        "6ac7f5acd08a6abe411ed99aab5855319813261399fefdddfa39feeedd3358b9"
    );
    assert_eq!(reward_address("mn-2", "mn-2", None), derived);
}

#[test]
fn validators_are_put_in_order() {
    assert_eq!(order_validators(words(&["c", "a", "b"])), words(&["a", "b", "c"]));
    assert_eq!(order_validators(words(&["b", "c", "a"])), words(&["a", "b", "c"]));
    assert!(voters_of_a_group(3) <= 3);
}

#[test]
fn certified_proposals_are_found_again() {
    let mut certified = CertifiedProposals::new();
    certified.remember(proposal(12, "g"));
    certified.remember(proposal(13, "h"));
    assert!(certified.take(&certificate(14, "g")).is_none());
    let found = certified.take(&certificate(12, "g"));
    assert_eq!(found.map(|p| p.height), Some(12));
    assert!(certified.take(&certificate(12, "g")).is_none());
    let fallback = certified.take(&certificate(13, "other"));
    assert_eq!(fallback.map(|p| p.proposer_group_id), Some("h".to_string()));
}

#[test]
fn certified_blocks_become_the_chain_head() {
    let mut certified = CertifiedProposals::new();
    certified.remember(proposal(12, "g"));
    let block = certified_block(&mut certified, &certificate(12, "g"));
    assert_eq!(block.chain_head.len(), 72);
    assert_eq!(&block.chain_head[..64], &[9; 64]);
    assert_eq!(block.chain_head[64], 12);
    assert!(block.proposal.is_some());
    for name in ["h", "g", "k"] {
        certified.remember(proposal(20, name));
    }
    let own = certified_block(&mut certified, &certificate(20, "g"));
    assert_eq!(own.proposal.map(|p| p.proposer_group_id), Some("g".to_string()));
    let next = certified_block(&mut certified, &certificate(20, "z"));
    assert_eq!(next.proposal.map(|p| p.proposer_group_id), Some("h".to_string()));
    let none = certified_block(&mut certified, &certificate(21, "g"));
    assert_eq!(none.chain_head[64], 21);
    assert!(none.proposal.is_none());
}

#[test]
fn received_proposals_are_voted_on() {
    let validator = ProposalValidator::from_signing_key([2; 32], 3);
    let mut certified = CertifiedProposals::new();
    let mut pending = PendingProposals::new();
    let vote = receive_proposal_at(
        &validator, &mut certified, &mut pending, proposal(12, "g"), &[0; 64], NOW,
    );
    assert!(vote.is_some());
    assert!(certified.take(&certificate(12, "g")).is_some());
    let late = receive_proposal_at(
        &validator, &mut certified, &mut pending, proposal(12, "g"), &[0; 64], NOW + 4000,
    );
    assert!(late.is_none());
}

#[test]
fn failover_waits_for_a_sustained_loss() {
    let mut health = MnHealth::new(5);
    assert_eq!(health.tick(4), HealthReport::Stable);
    assert_eq!(health.tick(3), HealthReport::Ignored);
    assert_eq!(health.tick(2), HealthReport::Waiting);
    assert_eq!(health.tick(2), HealthReport::Waiting);
    assert_eq!(health.tick(2), HealthReport::Failover { missing: 2 });
    assert_eq!(health, MnHealth { baseline: 3, dip_ticks: 0 });
    assert_eq!(health.tick(0), HealthReport::Waiting);
    assert_eq!(health.tick(2), HealthReport::Stable);
    assert_eq!(health.dip_ticks, 0);
}

#[test]
fn groups_are_formed_anew_when_something_changes() {
    let mut trigger = ReformationTrigger::new();
    assert!(trigger.observe(3, 1));
    assert!(!trigger.observe(3, 1));
    assert!(trigger.observe(3, 2));
    assert!(trigger.observe(4, 2));
    assert_eq!(epochs_to_rebroadcast(5), vec![5, 4]);
    assert_eq!(epochs_to_rebroadcast(0), vec![0]);
    assert_eq!(sync_request(0, false, 5), None);
    assert_eq!(sync_request(1, false, 5), Some((3, 5)));
    assert_eq!(sync_request(0, true, 1), Some((0, 1)));
}

#[test]
fn messages_change_their_form() {
    let request = monolith_p2p::MasternodeMessage::AvailableLightnodesRequest {
        requester_masternode: "me".to_string(),
        epoch: 4,
    };
    assert!(published_form(request).is_none());
    let group = monolith_p2p::P2PGroup {
        group_id: "g".to_string(),
        epoch: 4,
        members: words(&["a"]),
        proposer: None,
        member_multiaddrs: Vec::new(),
        assigned_shards: vec![1],
    };
    let announcement = monolith_p2p::announce_group(&group, 9, &None);
    match published_form(monolith_p2p::MasternodeMessage::LightnodeGroupAnnounce(announcement)) {
        Some(masternode_p2p::MasternodeMessage::LightnodeGroupAnnounce(a)) => {
            assert_eq!((a.epoch, a.group_id.as_str(), a.proposer.as_str()), (4, "g", "a"));
        }
        _ => unreachable!(),
    }
    let list = masternode_p2p::MasternodeMessage::LightnodeListSync {
        sender_masternode: "me".to_string(),
        lightnodes: Vec::new(),
        timestamp: 9,
    };
    match monolith_p2p_fixed::MasternodeMessage::from_masternode(list) {
        monolith_p2p_fixed::MasternodeMessage::LightnodeListSync {
            epoch, requester_masternode, ..
        } => assert_eq!((epoch, requester_masternode.as_str()), (0, "me")),
        _ => unreachable!(),
    }
}

#[test]
fn the_network_counts_its_peers() {
    let mut network = P2PNetwork::new(4001);
    assert!(!network.is_running());
    network.set_running(true);
    network.update_peer_count(7);
    let stats = network.get_network_stats();
    assert_eq!((stats.peer_count, stats.is_running, stats.port), (7, true, 4001));
    assert_eq!(network.get_peer_count(), 7);
}

#[test]
fn the_receiver_follows_the_height() {
    let validator = ProposalValidator::from_signing_key([2; 32], 3);
    let mut receiver = P2PBlockReceiver::new(validator);
    assert!(receiver.process_proposal_at(proposal(12, "g"), &[0; 64], NOW).is_some());
    assert_eq!(receiver.get_current_height(), 12);
    assert!(receiver.process_proposal_at(proposal(11, "g"), &[0; 64], NOW + 4000).is_none());
    assert_eq!(receiver.get_current_height(), 12);
    assert!(receiver.process_proposal(proposal(12, "g"), &[0; 64]).is_none());
    assert!(receiver.handle_message(MasternodeMessage::HeightRequest, &[0; 64]).is_none());
    let before = receiver.get_active_proposals_count();
    receiver.cleanup_old_proposals(1000);
    assert!(receiver.get_active_proposals_count() <= before);
    assert_eq!(classify_topic("savitri/block/vote"), ProposalTopic::Vote);
    assert_eq!(classify_topic("savitri/consensus/round"), ProposalTopic::Round);
    assert_eq!(classify_topic("savitri/block/proposal"), ProposalTopic::Proposal);
    assert_eq!(classify_topic("x"), ProposalTopic::Unknown);
}

#[test]
fn benchmarks_add_up() {
    let config = BenchmarkConfig::default();
    assert!(config.monolith_count > 0);
    let producer = MonolithProducer::new(MonolithProducerConfig::default());
    let compress = |root: &[u8; 64]| [root[0]; 32];
    let block = match producer.create_monolith_block_at(0, &[], compress, 1, 2) {
        Ok(b) => b,
        Err(_) => unreachable!(),
    };
    let mut totals = CreationTotals::default();
    totals.record(&block, 30);
    totals.record(&block, 10);
    assert_eq!((totals.monoliths, totals.blocks), (2, 17282));
    assert_eq!(totals.transactions, 2592300);
    assert_eq!((totals.fastest_ms, totals.slowest_ms), (10, 30));
}

#[test]
fn system_files_are_read() {
    let memory = read_memory("MemTotal:       1000 kB\nMemFree: 1 kB\nMemAvailable:    400 kB\n");
    assert!(matches!(memory, Ok(Some(m)) if m.total == 1000 && m.available == 400));
    assert!(read_memory("MemTotal:  x kB\nMemAvailable: 4 kB\n").is_err());
    let cpu = read_cpu_times("cpu  10 0 5 85 0 0 0 0 0 0\ncpu0 1 1 1 1\n");
    assert!(matches!(cpu, Ok(Some(t)) if t.idle == 85 && t.total == 100));
    assert!(matches!(read_cpu_times("nothing\n"), Ok(None)));
    let disk = "   8       0 sda 10 0 100 0 20 0 300 0 0 0 0\n";
    assert_eq!(read_disk_sectors(disk), Some(400));
    let net = "Inter-| Receive\n face |bytes\n  eth0: 100 0 0 0 0 0 0 0 50 0 0 0 0 0 0 0\n";
    assert_eq!(read_network_bytes(net), Some(150));
}
