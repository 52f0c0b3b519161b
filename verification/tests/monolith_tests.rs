use savitri_masternode::messages::PeerInfo;
use savitri_masternode::monolith_p2p::announce_group;
use savitri_masternode::monolith_p2p::calculate_block_hash;
use savitri_masternode::monolith_p2p::check_distribution;
use savitri_masternode::monolith_p2p::verify_monolith_integrity;
use savitri_masternode::monolith_p2p::DistributionCheck;
use savitri_masternode::monolith_p2p::IntegrityError;
use savitri_masternode::monolith_p2p::MonolithAction;
use savitri_masternode::monolith_p2p::MonolithMessage;
use savitri_masternode::monolith_p2p::MonolithP2PConfig;
use savitri_masternode::monolith_p2p::MonolithP2PManager;
use savitri_masternode::monolith_p2p::P2PGroup;
use savitri_masternode::monolith_p2p_fixed;
use savitri_masternode::monolith_producer::backend_named;
use savitri_masternode::monolith_producer::copy_monolith;
use savitri_masternode::monolith_producer::statement_for;
use savitri_masternode::monolith_producer::CompressedRoots;
use savitri_masternode::monolith_producer::InsufficientBlocks;
use savitri_masternode::monolith_producer::MonolithBlock;
use savitri_masternode::monolith_producer::MonolithHeader;
use savitri_masternode::monolith_producer::MonolithProducer;
use savitri_masternode::monolith_producer::MonolithProducerConfig;
use savitri_masternode::monolith_producer::ZkProof;
use savitri_masternode::monolith_producer::ZkpBackend;
use savitri_masternode::monolith_producer::ZkpFeatures;
use savitri_masternode::monolith_producer::ZkpProofGenerator;
use savitri_masternode::monolith_storage::height_to_key;
use savitri_masternode::monolith_storage::key_to_height;
use savitri_masternode::monolith_storage::KeyError;
use savitri_masternode::monolith_storage::MonolithStorage;
use savitri_masternode::monolith_storage::MonolithStorageConfig;

fn first_half(root: &[u8; 64]) -> [u8; 32] {
    let mut out = [0u8; 32];
    out.copy_from_slice(&root[..32]);
    out
}

fn header(headers: u8, state: u8, exec_height: u64, epoch_id: u64) -> MonolithHeader {
    MonolithHeader {
        monolith_id: [0; 64],
        prev_monolith_id: [0; 64],
        headers_commit: [headers; 64],
        state_commit: [state; 64],
        proof_commit: [0; 64],
        exec_height,
        window_start: 0,
        epoch_id,
        produced_at_ms: 0,
        producer: [0; 32],
        cosignatures: Vec::new(),
        merkle_proof: None,
        aggregate_receipt: None,
        generation_time_ms: 0,
        size_bytes: 0,
        serve_count: 0,
        zkp_proof: None,
    }
}

fn monolith(start_height: u64, end_height: u64, headers: u8) -> MonolithBlock {
    MonolithBlock {
        header: header(headers, headers.wrapping_add(1), end_height, 123),
        start_height,
        end_height,
        block_count: 100,
        total_transactions: 15000,
        created_at: 123456789,
        creator_id: "test_node".to_string(),
        zkp_proof: vec![1, 2, 3, 4],
    }
}

fn peer(peer_id: &str, is_light_node: bool) -> PeerInfo {
    PeerInfo {
        peer_id: peer_id.to_string(),
        multiaddr: "/ip4/127.0.0.1/tcp/8080".to_string(),
        is_light_node,
        last_seen: 123456789,
    }
}

fn group(id: &str, members: &[&str], proposer: Option<&str>) -> P2PGroup {
    P2PGroup {
        group_id: id.to_string(),
        epoch: 4,
        members: members.iter().map(|m| m.to_string()).collect(),
        proposer: proposer.map(|p| p.to_string()),
        member_multiaddrs: vec![("a".to_string(), "/ip4/1.2.3.4/tcp/1".to_string())],
        assigned_shards: vec![3, 5],
    }
}

#[test]
fn test_monolith_p2p_manager() {
    let local_peer_id = libp2p::PeerId::random().to_string();
    let mut manager = MonolithP2PManager::new(local_peer_id, MonolithP2PConfig::default());
    let peer1 = peer(&libp2p::PeerId::random().to_string(), true);
    manager.add_peer(peer1);

    let stats = manager.get_stats(manager.peers_for_read(None));
    assert_eq!(stats.connected_peers, 1);
    assert_eq!(stats.light_nodes, 1);
    assert_eq!(stats.masternodes, 0);
}

#[test]
fn test_monolith_distribution() {
    let local_peer_id = libp2p::PeerId::random().to_string();
    let mut manager = MonolithP2PManager::new(local_peer_id, MonolithP2PConfig::default());
    let block = monolith(900, 1000, 1);
    assert_eq!(verify_monolith_integrity(&block), Ok(()));
    let id = libp2p::PeerId::random().to_string();
    manager.add_peer(peer(&id, true));
    assert_eq!(manager.distribute_monolith(manager.peers_for_read(None)), vec![id]);
}

#[test]
fn test_monolith_creation() {
    let producer = MonolithProducer::new(MonolithProducerConfig::default());
    let validators = vec!["node1".to_string()];
    let result = producer.create_monolith_block(0, &validators, first_half);
    assert!(result.is_ok());

    let monolith = match result {
        Ok(block) => block,
        Err(_) => unreachable!(),
    };
    assert!(monolith.block_count >= 1000);
    assert!(monolith.total_transactions > 0);
    assert_eq!(monolith.creator_id, "node1");
    assert_eq!(monolith.block_count, 8641);
    assert_eq!(monolith.total_transactions, 1296150);
    assert!(monolith.created_at > 1_600_000_000);
}

#[test]
fn test_monolith_verification() {
    let producer = MonolithProducer::new(MonolithProducerConfig::default());
    let validators = vec!["node1".to_string()];
    let mut monolith = match producer.create_monolith_block(0, &validators, first_half) {
        Ok(block) => block,
        Err(_) => unreachable!(),
    };
    let is_valid = producer.verify_monolith_block(&monolith);
    assert!(is_valid);
    monolith.header.headers_commit[0] ^= 1;
    assert!(!producer.verify_monolith_block(&monolith));
}

#[test]
fn test_monolith_storage() {
    let config = MonolithStorageConfig {
        db_path: "monoliths".to_string(),
        max_monoliths: 100,
        cache_size: 10,
        enable_compression: false,
        write_buffer_size: 1024,
    };
    let mut storage = MonolithStorage::new(config);
    let block = monolith(900, 1000, 1);

    storage.store_monolith(block);
    storage.record_stored(64);
    let retrieved = storage.get_monolith(1000, None);
    assert!(retrieved.is_some());
    assert_eq!(retrieved.map(|b| b.end_height), Some(1000));

    let stats = storage.get_stats();
    assert_eq!(stats.total_monoliths, 1);
    assert_eq!(stats.cache_hits, 1);
}

#[test]
fn test_monolith_range_query() {
    let mut storage = MonolithStorage::new(MonolithStorageConfig::default());
    for i in 1000..=1010u64 {
        storage.store_monolith(monolith(i - 100, i, i as u8));
    }
    let monoliths = storage.get_monoliths_in_range(1005, 1008, vec![None, None, None, None]);
    assert_eq!(monoliths.len(), 4);
    assert_eq!(monoliths[3].end_height, 1008);
    assert_eq!(monoliths[3].header.headers_commit, [1008u64 as u8; 64]);
    assert_eq!(storage.get_stats().cache_hits, 4);
}

#[test]
fn a_range_takes_from_the_database_what_is_not_cached() {
    let mut storage = MonolithStorage::new(MonolithStorageConfig::default());
    storage.store_monolith(monolith(1, 5, 1));
    let stored = vec![Some(monolith(1, 4, 2)), Some(monolith(1, 5, 1)), None];
    let found = storage.get_monoliths_in_range(4, 6, stored);
    assert_eq!(found.len(), 2);
    assert_eq!((found[0].end_height, found[1].end_height), (4, 5));
    assert!(storage.is_cached(4));
    assert!(!storage.is_cached(6));
    let stats = storage.get_stats();
    assert_eq!((stats.cache_hits, stats.cache_misses, stats.db_operations), (1, 2, 2));
    assert_eq!(storage.get_monoliths_in_range(6, 5, Vec::new()).len(), 0);
}

#[test]
fn a_copy_has_the_same_contents() {
    let mut block = monolith(1, 5, 1);
    block.header.cosignatures = vec![vec![1, 2], vec![3]];
    block.header.merkle_proof = Some(vec![9]);
    let copy = copy_monolith(&block);
    assert_eq!(copy.header.cosignatures, vec![vec![1, 2], vec![3]]);
    assert_eq!(copy.header.merkle_proof, Some(vec![9]));
    assert_eq!(copy.header.zkp_proof, None);
    assert_eq!(copy.zkp_proof, vec![1, 2, 3, 4]);
    assert_eq!(copy.creator_id, "test_node");
}

#[test]
fn keys_hold_heights() {
    assert_eq!(height_to_key(1000), "monolith_00000000000000001000");
    assert_eq!(key_to_height(b"monolith_00000000000000001000"), Ok(1000));
    let greatest = height_to_key(u64::MAX);
    assert_eq!(key_to_height(greatest.as_bytes()), Ok(u64::MAX));
    assert_eq!(key_to_height(b"block_1"), Err(KeyError::InvalidFormat));
    assert_eq!(key_to_height(&[0xff, 0xfe]), Err(KeyError::InvalidFormat));
    assert_eq!(key_to_height(b"monolith_x"), Err(KeyError::InvalidHeight));
    assert!(height_to_key(9).as_bytes() < height_to_key(10).as_bytes());
}

#[test]
fn the_cache_drops_what_was_used_longest_ago() {
    let mut storage = MonolithStorage::new(MonolithStorageConfig {
        db_path: "monoliths".to_string(),
        max_monoliths: 1,
        cache_size: 2,
        enable_compression: false,
        write_buffer_size: 1024,
    });
    storage.store_monolith(monolith(0, 1, 1));
    storage.store_monolith(monolith(0, 2, 2));
    assert!(storage.get_monolith(1, None).is_some());
    storage.store_monolith(monolith(0, 3, 3));
    assert!(storage.is_cached(1));
    assert!(!storage.is_cached(2));
    assert!(storage.get_monolith(2, None).is_none());
    assert_eq!(storage.get_stats().cache_misses, 1);
    let again = storage.get_monolith(2, Some(monolith(0, 2, 7)));
    assert_eq!(again.map(|b| b.header.headers_commit), Some([7; 64]));
    assert!(!storage.is_cached(1));
}

#[test]
fn the_latest_monolith_is_the_highest() {
    let mut storage = MonolithStorage::new(MonolithStorageConfig::default());
    let keys = vec![b"monolith_7".to_vec(), b"monolith_12".to_vec()];
    assert_eq!(storage.get_latest_monolith(&keys), Ok(Some(12)));
    assert_eq!(storage.get_latest_monolith(&[]), Ok(None));
    assert_eq!(storage.get_latest_monolith(&[b"x".to_vec()]), Err(KeyError::InvalidFormat));
    storage.store_monolith(monolith(0, 9, 1));
    storage.store_monolith(monolith(0, 8, 1));
    assert_eq!(storage.get_latest_monolith(&keys), Ok(Some(12)));
    assert_eq!(storage.get_latest_monolith(&[]), Ok(Some(9)));
    storage.store_monolith(monolith(0, 13, 1));
    assert_eq!(storage.get_latest_monolith(&keys), Ok(Some(13)));
    assert_eq!(
        storage.get_latest_monolith(&[b"monolith_x".to_vec()]),
        Err(KeyError::InvalidHeight)
    );
}

#[test]
fn the_lowest_monoliths_are_cleaned_up() {
    let mut storage = MonolithStorage::new(MonolithStorageConfig {
        db_path: "monoliths".to_string(),
        max_monoliths: 1,
        cache_size: 0,
        enable_compression: false,
        write_buffer_size: 1024,
    });
    for h in 1..4u64 {
        storage.store_monolith(monolith(0, h, 1));
        storage.record_stored(10);
    }
    assert_eq!(storage.excess(), 2);
    assert_eq!(storage.cleanup_old_monoliths(&[3, 1, 2]), vec![1, 2]);
    assert!(storage.delete_monolith(1, Some(10)));
    assert!(!storage.delete_monolith(9, None));
    assert!(!storage.is_cached(1));
    storage.record_cleanup(77);
    let stats = storage.get_stats();
    assert_eq!((stats.total_monoliths, stats.storage_size_bytes), (2, 20));
    assert_eq!((stats.last_cleanup, stats.db_operations), (77, 4));
}

#[test]
fn commitments_are_digests_of_heights() {
    let producer = MonolithProducer::new(MonolithProducerConfig::default());
    assert_eq!(producer.calculate_block_range(), (1360, 10000));
    let hash = producer.simulate_block_header_hash(7);
    assert_eq!(hex::encode(&hash[..16]), "0447e1d50eacf20421ea34e154d84f20");
    let state = producer.calculate_state_commitment(7);
    assert_eq!(hex::encode(&state[..16]), "cf856f8d4abc94207131c91810800302");
    let headers = producer.collect_block_headers(5, 7);
    assert_eq!(headers.len(), 3);
    assert_eq!(headers[2], hash);
    let commitment = producer.calculate_headers_commitment(&headers);
    assert_eq!(hex::encode(&commitment[..16]), "0edafb5958ff074f1e3f5e999991ade1");
    assert_eq!(producer.collect_block_headers(7, 5).len(), 0);
    assert_eq!(producer.count_transactions_in_range(5, 7), 450);
}

#[test]
fn a_monolith_keeps_to_its_largest_range() {
    let mut config = MonolithProducerConfig::default();
    config.max_block_range = 100;
    config.min_blocks_per_monolith = 101;
    let producer = MonolithProducer::new(config);
    assert_eq!(producer.calculate_block_range(), (9900, 10000));
    match producer.create_monolith_block_at(6, &[], first_half, 1, 2) {
        Ok(block) => {
            assert_eq!((block.start_height, block.end_height), (9900, 10000));
            assert_eq!((block.block_count, block.total_transactions), (101, 15150));
            assert!(producer.verify_monolith_block(&block));
        }
        Err(_) => unreachable!(),
    }
}

#[test]
fn too_few_blocks_make_no_monolith() {
    let mut config = MonolithProducerConfig::default();
    config.min_blocks_per_monolith = 8642;
    let producer = MonolithProducer::new(config);
    let result = producer.create_monolith_block_at(0, &[], first_half, 1, 2);
    match result {
        Err(e) => assert_eq!(e, InsufficientBlocks { block_count: 8641, required: 8642 }),
        Ok(_) => unreachable!(),
    }
}

#[test]
fn monoliths_can_do_without_a_proof() {
    let mut config = MonolithProducerConfig::default();
    config.enable_zkp = false;
    let producer = MonolithProducer::new(config);
    match producer.create_monolith_block_at(6, &[], first_half, 1, 2) {
        Ok(block) => {
            assert_eq!(block.zkp_proof.len(), 0);
            assert_eq!(block.creator_id, "");
            assert_eq!((block.created_at, block.header.produced_at_ms), (1, 2));
            assert_eq!(block.header.epoch_id, 6);
        }
        Err(_) => unreachable!(),
    }
}

#[test]
fn mock_proofs_are_digests() {
    let roots = CompressedRoots { prev_state: [1; 32], headers: [2; 32], state: [3; 32] };
    let head = header(0, 0, 9, 0);
    let generator = ZkpProofGenerator::new();
    let proof = generator.generate_proof(&head, &roots);
    assert_eq!(
        hex::encode(&proof.proof),
        "b404da4205782089f6dbdc3c57e5a52d75eba61aa3eb697f3432cb3ed0d521c2"
    );
    assert_eq!(
        hex::encode(&proof.verification_key),
        "5d0484154c6c5b56a2fe40c83d5f9120477b74fd4c22be5b79f6264d88bfe592"
    );
    assert_eq!(proof.public_inputs.len(), 144);
    assert!(generator.verify_proof(&head, &roots, &proof, false));
    let other = ZkProof { proof: vec![0; 32], public_inputs: vec![], verification_key: vec![] };
    assert!(!generator.verify_proof(&head, &roots, &other, true));
    let plonk = ZkpProofGenerator::new_with_backend(ZkpBackend::Plonk);
    assert!(plonk.verify_proof(&head, &roots, &other, true));
    assert!(!plonk.verify_proof(&head, &roots, &other, false));
    assert_eq!(statement_for(&roots, 9).e, 9);

    let producer = MonolithProducer::new(MonolithProducerConfig::default());
    let stored = producer.generate_zkp_proof(&head, &roots);
    assert_eq!(stored.len(), 8 + 32 + 8 + 144 + 8 + 32);
    assert_eq!(&stored[..8], &[32, 0, 0, 0, 0, 0, 0, 0]);
    assert_eq!(&stored[8..40], proof.proof.as_slice());
}

#[test]
fn a_producer_uses_the_backend_of_its_settings() {
    let roots = CompressedRoots { prev_state: [1; 32], headers: [2; 32], state: [3; 32] };
    let head = header(0, 0, 9, 0);
    let both = ZkpFeatures { plonk: true, arkworks: true };
    let named = |name: &str| {
        let mut config = MonolithProducerConfig::default();
        config.zkp_backend = name.to_string();
        config
    };
    for (name, backend) in [
        ("Arkworks", ZkpBackend::Arkworks),
        ("plonk", ZkpBackend::Plonk),
        ("groth16", ZkpBackend::Mock),
    ] {
        let expected = ZkpProofGenerator::new_with_backend(backend).generate_proof(&head, &roots);
        let stored = MonolithProducer::with_features(named(name), both)
            .generate_zkp_proof(&head, &roots);
        assert_eq!(&stored[8..40], expected.proof.as_slice());
        assert_eq!(&stored[200..], expected.verification_key.as_slice());
    }
    let mock = ZkpProofGenerator::new().generate_proof(&head, &roots);
    let stored = MonolithProducer::new(named("arkworks")).generate_zkp_proof(&head, &roots);
    assert_eq!(&stored[8..40], mock.proof.as_slice());
    let producer = MonolithProducer::with_features(named("arkworks"), both);
    match producer.create_monolith_block_at(6, &[], first_half, 1, 2) {
        Ok(block) => {
            let roots = CompressedRoots {
                prev_state: [0; 32],
                headers: first_half(&block.header.headers_commit),
                state: first_half(&block.header.state_commit),
            };
            let arkworks = ZkpProofGenerator::new_with_backend(ZkpBackend::Arkworks);
            let expected = arkworks.generate_proof(&block.header, &roots);
            assert_eq!(&block.zkp_proof[8..40], expected.proof.as_slice());
        }
        Err(_) => unreachable!(),
    }
}

#[test]
fn a_switched_off_generator_gives_a_placeholder() {
    let generator = ZkpProofGenerator { enabled: false, backend: ZkpBackend::Mock };
    let roots = CompressedRoots { prev_state: [1; 32], headers: [2; 32], state: [3; 32] };
    let proof = generator.generate_proof(&header(0, 0, 9, 0), &roots);
    assert_eq!(proof.proof.len(), 32);
    assert_eq!(proof.public_inputs.len(), 0);
    assert_ne!(proof.proof, ZkpProofGenerator::new().generate_proof(&header(0, 0, 9, 0), &roots).proof);
}

#[test]
fn backends_go_by_name() {
    let both = ZkpFeatures { plonk: true, arkworks: true };
    let none = ZkpFeatures { plonk: false, arkworks: false };
    assert_eq!(ZkpProofGenerator::from_config("PLONK", both).backend_name(), "plonk");
    assert_eq!(ZkpProofGenerator::from_config("ArkWorks", both).backend_name(), "arkworks");
    assert_eq!(ZkpProofGenerator::from_config("plonk", none).backend_name(), "mock");
    assert_eq!(backend_named("groth16", both), ZkpBackend::Mock);
    assert_eq!(backend_named("arkworks", both), ZkpBackend::Arkworks);
}

#[test]
fn blocks_are_known_by_a_digest() {
    let hash = calculate_block_hash(&monolith(900, 1000, 1));
    assert_eq!(hex::encode(&hash[..16]), "3a5236fd18da33fbe68608d364c19500");
}

#[test]
fn unsound_monoliths_are_named() {
    let mut block = monolith(10, 10, 1);
    assert_eq!(verify_monolith_integrity(&block), Err(IntegrityError::InvalidRange));
    block.end_height = 11;
    block.block_count = 0;
    assert_eq!(verify_monolith_integrity(&block), Err(IntegrityError::Empty));
}

#[test]
fn the_highest_monoliths_are_kept() {
    let mut manager = MonolithP2PManager::new(
        "me".to_string(),
        MonolithP2PConfig {
            max_cache_size: 2,
            cache_ttl_secs: 1,
            broadcast_interval_secs: 1,
            max_retries: 1,
        },
    );
    for h in [30u64, 10, 20] {
        assert_eq!(manager.handle_monolith_announce(monolith(1, h, 1)), Ok(()));
    }
    assert!(manager.handle_monolith_request(30));
    assert!(manager.handle_monolith_request(20));
    assert!(!manager.handle_monolith_request(10));
    assert!(manager.cached_block(10).is_none());
    assert_eq!(manager.cached_block(20).map(|b| b.end_height), Some(20));
    let stats = manager.get_stats(&[peer("a", true), peer("b", false)]);
    assert_eq!((stats.connected_peers, stats.light_nodes, stats.masternodes), (2, 1, 1));
    assert_eq!(stats.cached_monoliths, 2);
}

#[test]
fn everyone_gets_a_monolith_lightnodes_first() {
    let manager = MonolithP2PManager::new("me".to_string(), MonolithP2PConfig::default());
    let peers = vec![peer("m1", false), peer("l1", true), peer("m2", false)];
    assert_eq!(manager.distribute_monolith(&peers), vec!["l1", "m1", "m2"]);
    assert_eq!(manager.get_connected_masternode_ids(&peers), vec!["m1", "m2", "me"]);
}

#[test]
fn masternodes_have_the_same_list() {
    let one = MonolithP2PManager::new("b".to_string(), MonolithP2PConfig::default());
    let two = MonolithP2PManager::new("c".to_string(), MonolithP2PConfig::default());
    let first = one.get_connected_masternode_ids(&[peer("c", false), peer("l", true), peer("a", false)]);
    let second = two.get_connected_masternode_ids(&[peer("a", false), peer("b", false)]);
    assert_eq!(first, vec!["a", "b", "c"]);
    assert_eq!(first, second);
    assert_eq!(one.get_connected_masternode_ids(&[]), vec!["b"]);
}

#[test]
fn answers_keep_to_the_limit_too() {
    let config = MonolithP2PConfig {
        max_cache_size: 1,
        cache_ttl_secs: 1,
        broadcast_interval_secs: 1,
        max_retries: 1,
    };
    let mut manager = MonolithP2PManager::new("me".to_string(), config);
    assert_eq!(manager.handle_monolith_response(monolith(1, 20, 1), "me"), Some(Ok(())));
    assert_eq!(manager.handle_monolith_response(monolith(1, 10, 1), "me"), Some(Ok(())));
    assert!(manager.handle_monolith_request(20));
    assert!(!manager.handle_monolith_request(10));
    let action = manager.handle_message(
        "p".to_string(),
        MonolithMessage::MonolithResponse {
            block: monolith(1, 30, 1),
            requester_peer_id: "me".to_string(),
        },
    );
    assert!(matches!(action, MonolithAction::Nothing));
    assert!(manager.handle_monolith_request(30));
    assert!(!manager.handle_monolith_request(20));
    assert_eq!(manager.get_stats(&[]).cached_monoliths, 1);
}

#[test]
fn what_peers_call_invalid_is_dropped() {
    let mut manager = MonolithP2PManager::new("me".to_string(), MonolithP2PConfig::default());
    let block = monolith(900, 1000, 1);
    let hash = calculate_block_hash(&block);
    let r = manager.handle_monolith_response(monolith(1, 2, 1), "someone else");
    assert_eq!(r, None);
    assert!(!manager.handle_monolith_request(2));
    assert_eq!(manager.handle_monolith_response(block, "me"), Some(Ok(())));
    assert!(manager.handle_monolith_verify(&hash));
    manager.handle_monolith_verify_response(false, &hash, "someone else");
    manager.handle_monolith_verify_response(true, &hash, "me");
    assert!(manager.handle_monolith_verify(&hash));
    manager.handle_monolith_verify_response(false, &hash, "me");
    assert!(!manager.handle_monolith_verify(&hash));
}

#[test]
fn messages_are_answered() {
    let mut manager = MonolithP2PManager::new("me".to_string(), MonolithP2PConfig::default());
    let hash = calculate_block_hash(&monolith(900, 1000, 1));
    let action = manager.handle_message(
        "p".to_string(),
        MonolithMessage::MonolithAnnounce {
            block: monolith(900, 1000, 1),
            sender_peer_id: "p".to_string(),
        },
    );
    assert!(matches!(action, MonolithAction::Nothing));
    let action = manager.handle_message(
        "q".to_string(),
        MonolithMessage::MonolithRequest {
            height: 1000,
            epoch_id: 1,
            requester_peer_id: "q".to_string(),
        },
    );
    match action {
        MonolithAction::SendBlock { to, height, .. } => {
            assert_eq!((to.as_str(), height), ("q", 1000));
        }
        _ => unreachable!(),
    }
    let action = manager.handle_message(
        "q".to_string(),
        MonolithMessage::MonolithRequest {
            height: 5,
            epoch_id: 1,
            requester_peer_id: "q".to_string(),
        },
    );
    assert!(matches!(action, MonolithAction::Nothing));
    let action = manager.handle_message(
        "q".to_string(),
        MonolithMessage::MonolithVerify {
            block_hash: hash,
            requester_peer_id: "q".to_string(),
        },
    );
    match action {
        MonolithAction::SendVerdict { to, is_valid, block_hash, .. } => {
            assert_eq!(to, "q");
            assert!(is_valid);
            assert_eq!(block_hash, hash);
        }
        _ => unreachable!(),
    }
}

#[test]
fn groups_are_announced_with_a_signature() {
    let key = ed25519_dalek::SigningKey::from_bytes(&[7; 32]);
    let a = announce_group(&group("g", &["m1", "m2"], None), 99, &Some([7; 32]));
    assert_eq!(a.proposer, "m1");
    assert_eq!((a.epoch, a.timestamp, a.num_shards), (4, 99, 65536));
    assert_eq!(a.signer_pubkey, Some(hex::encode(key.verifying_key().to_bytes())));
    let mut message = 4u64.to_le_bytes().to_vec();
    message.extend_from_slice(b"g");
    message.extend_from_slice(b"m1");
    message.extend_from_slice(&99u64.to_le_bytes());
    message.extend_from_slice(&2u64.to_le_bytes());
    let signature = ed25519_dalek::Signer::sign(&key, &message);
    assert_eq!(a.signature, Some(hex::encode(signature.to_bytes())));
    let plain = announce_group(&group("g", &[], Some("x")), 99, &None);
    assert_eq!(plain.proposer, "x");
    assert_eq!(plain.signature, None);
}

#[test]
fn groups_are_handed_out() {
    let groups = vec![group("g", &["m1"], None)];
    assert_eq!(check_distribution(&[], &[peer("l", true)]), DistributionCheck::NoGroups);
    assert_eq!(check_distribution(&groups, &[peer("m", false)]), DistributionCheck::NoLightnodes);
    assert_eq!(check_distribution(&groups, &[peer("l", true)]), DistributionCheck::Proceed);
    let mut manager = MonolithP2PManager::new("me".to_string(), MonolithP2PConfig::default());
    let peers = vec![peer("m", false), peer("l", true)];
    assert!(manager.distribute_groups_impl(&[], 8, &peers, 5).is_none());
    assert!(manager.distribute_groups_impl(&groups, 8, &peers[..1], 5).is_none());
    match manager.distribute_groups_impl(&groups, 8, &peers, 5) {
        Some(plan) => {
            assert_eq!(plan.recipients, vec!["l"]);
            assert_eq!(plan.announcements.len(), 0);
            match plan.message {
                MonolithMessage::GroupAnnounce { groups: sent, epoch, sender_peer_id } => {
                    assert_eq!((sent.len(), epoch, sender_peer_id.as_str()), (1, 8, "me"));
                    assert_eq!(sent[0].group_id, "g");
                    assert_eq!(sent[0].members, vec!["m1"]);
                    assert_eq!(sent[0].assigned_shards, vec![3, 5]);
                    assert_eq!(sent[0].member_multiaddrs, groups[0].member_multiaddrs);
                }
                _ => unreachable!(),
            }
        }
        None => unreachable!(),
    }
    manager.set_lightnode_announce_sender();
    manager.set_signing_key([7; 32]);
    match manager.distribute_groups_impl(&groups, 8, &peers, 5) {
        Some(plan) => {
            assert_eq!(plan.announcements.len(), 1);
            assert!(plan.announcements[0].signature.is_some());
        }
        None => unreachable!(),
    }
}

#[test]
fn peers_come_and_go() {
    let mut manager = MonolithP2PManager::new("me".to_string(), MonolithP2PConfig::default());
    manager.add_peer(peer("a", true));
    manager.add_peer(peer("a", false));
    assert_eq!(manager.peers_for_read(None).len(), 1);
    assert!(!manager.peers_for_read(None)[0].is_light_node);
    manager.remove_peer("a");
    assert_eq!(manager.peers_for_read(None).len(), 0);
    let shared = vec![peer("s", true)];
    assert_eq!(manager.peers_for_read(Some(&shared)).len(), 1);
}

#[test]
fn old_monoliths_leave_the_simple_manager() {
    let mut manager = monolith_p2p_fixed::MonolithP2PManager::new(
        "me".to_string(),
        MonolithP2PConfig {
            max_cache_size: 2,
            cache_ttl_secs: 100,
            broadcast_interval_secs: 1,
            max_retries: 1,
        },
    );
    let mut block = monolith(900, 1000, 1);
    block.created_at = 1000;
    let _ = manager.handle_monolith_message(
        "p".to_string(),
        MonolithMessage::MonolithAnnounce { block, sender_peer_id: "p".to_string() },
    );
    assert_eq!(manager.cached_block(900).map(|b| b.end_height), Some(1000));
    assert_eq!(manager.get_cache_stats().0, 1);
    assert_eq!(manager.clear_expired_cache_at(1100), 0);
    assert_eq!(manager.clear_expired_cache_at(1101), 1);
    assert!(manager.cached_block(900).is_none());
    assert_eq!(manager.clear_expired_cache(), 0);
}

#[test]
fn the_simple_manager_forwards_groups() {
    let sent = monolith_p2p_fixed::forward_groups_at(
        &[group("g", &["m1"], None)],
        8,
        &"sender".to_string(),
        99,
    );
    assert_eq!(sent.len(), 1);
    assert_eq!((sent[0].epoch, sent[0].timestamp), (8, 99));
    assert_eq!(sent[0].group_id, "g");
    let mut manager = monolith_p2p_fixed::MonolithP2PManager::new(
        "me".to_string(),
        MonolithP2PConfig::default(),
    );
    manager.add_peer(peer("l", true));
    manager.add_peer(peer("m", false));
    let groups = vec![group("g", &["m1"], Some("x"))];
    let sent = manager.distribute_groups_impl(&groups, 8);
    assert_eq!(sent.recipients, vec!["l"]);
    match sent.message {
        MonolithMessage::GroupAnnounce { groups: sent, epoch, sender_peer_id } => {
            assert_eq!((sent.len(), epoch, sender_peer_id.as_str()), (1, 8, "me"));
            assert_eq!(sent[0].proposer.as_deref(), Some("x"));
        }
        _ => unreachable!(),
    }
    assert_eq!(manager.distribute_monolith().len(), 2);
    manager.remove_peer("l");
    assert_eq!(manager.distribute_groups_impl(&groups, 8).recipients.len(), 0);
}

#[test]
fn the_simple_manager_keeps_the_highest_and_knows_them_by_their_hash() {
    let mut manager = monolith_p2p_fixed::MonolithP2PManager::new(
        "me".to_string(),
        MonolithP2PConfig {
            max_cache_size: 2,
            cache_ttl_secs: 100,
            broadcast_interval_secs: 1,
            max_retries: 1,
        },
    );
    for start in [300u64, 100, 200] {
        let _ = manager.handle_monolith_message(
            "p".to_string(),
            MonolithMessage::MonolithAnnounce {
                block: monolith(start, start + 50, 1),
                sender_peer_id: "p".to_string(),
            },
        );
    }
    assert!(manager.cached_block(100).is_none());
    assert!(manager.cached_block(200).is_some() && manager.cached_block(300).is_some());
    let _ = manager.handle_monolith_message(
        "p".to_string(),
        MonolithMessage::MonolithResponse {
            block: monolith(400, 450, 1),
            requester_peer_id: "me".to_string(),
        },
    );
    assert!(manager.cached_block(200).is_none());
    let asked = [
        (calculate_block_hash(&monolith(400, 450, 1)), true),
        (calculate_block_hash(&monolith(200, 250, 1)), false),
        ([5; 64], false),
    ];
    for (hash, expected) in asked {
        let action = manager.handle_monolith_message(
            "q".to_string(),
            MonolithMessage::MonolithVerify { block_hash: hash, requester_peer_id: "q".to_string() },
        );
        match action {
            MonolithAction::SendVerdict { is_valid, block_hash, .. } => {
                assert_eq!(is_valid, expected);
                assert_eq!(block_hash, hash);
            }
            _ => unreachable!(),
        }
    }
}
