use savitri_masternode::activity::build_bootstrap_reply;
use savitri_masternode::activity::is_oversized;
use savitri_masternode::activity::ActivityLog;
use savitri_masternode::activity::BootstrapDirectory;
use savitri_masternode::activity::BootstrapPeer;
use savitri_masternode::activity::PeerInfoInput;
use savitri_masternode::addresses::build_advertised_multiaddr;
use savitri_masternode::addresses::is_routable_ip;
use savitri_masternode::addresses::is_routable_multiaddr;
use savitri_masternode::addresses::try_extract_ipv4_from_multiaddr;
use savitri_masternode::addresses::AddrPart;
use savitri_masternode::addresses::Ip;
use savitri_masternode::json::detect_non_certificate_payload_kind;
use savitri_masternode::json::is_mesh_keepalive;
use savitri_masternode::json::parse_json;
use savitri_masternode::json::Json;
use savitri_masternode::json::PayloadKind;
use savitri_masternode::masternode_p2p::GroupProposal;
use savitri_masternode::masternode_p2p::GroupVote;
use savitri_masternode::masternode_p2p::LightnodeGroupAnnounce;
use savitri_masternode::masternode_p2p::MasternodeMessage;
use savitri_masternode::masternode_p2p::MasternodeP2PManager;
use savitri_masternode::masternode_p2p::MasternodePublisher;
use savitri_masternode::masternode_p2p::PublishPlan;
use savitri_masternode::messages::LightnodeRegistrationMessage;
use savitri_masternode::messages::PeerActivityTracker;
use savitri_masternode::messages::PeerRegistryAnnounce;
use savitri_masternode::messages::PouBroadcast;
use savitri_masternode::peers::DialTarget;
use savitri_masternode::peers::PeerDirectory;
use savitri_masternode::registration::effective_multiaddr;
use savitri_masternode::registration::follow_up;
use savitri_masternode::registration::handle_registration_batch;
use savitri_masternode::registration::is_private_multiaddr;
use savitri_masternode::registration::write_ipv4;
use savitri_masternode::registration::DecodedRegistration;
use savitri_masternode::registration::ManagerReply;
use savitri_masternode::registration::RegistrationInput;
use savitri_masternode::registration::RetryReason;
use savitri_masternode::registry::append_peer;
use savitri_masternode::registry::build_local_multiaddr;
use savitri_masternode::registry::build_registry_announce;
use savitri_masternode::registry::gossip_announcements;
use savitri_masternode::registry::is_worth_keeping;
use savitri_masternode::registry::listener_announcement;
use savitri_masternode::registry::ExternalIp;
use savitri_masternode::registry::PeerRegistry;
use savitri_masternode::text_set::TextSet;
use savitri_masternode::topics::after_handling;
use savitri_masternode::topics::goes_to_main_loop;
use savitri_masternode::topics::mesh_intervals;
use savitri_masternode::topics::record_kind;
use savitri_masternode::topics::route;
use savitri_masternode::topics::topic_name;
use savitri_masternode::topics::RecordKind;
use savitri_masternode::topics::Route;

fn peer() -> String {
    libp2p::PeerId::random().to_string()
}

#[test]
fn private_addresses_are_not_routable() {
    for a in [
        [0u8, 0, 0, 0],
        [127, 0, 0, 1],
        [10, 1, 2, 3],
        [172, 16, 0, 1],
        [172, 31, 0, 1],
        [192, 168, 0, 1],
        [169, 254, 0, 1],
        [255, 255, 255, 255],
        [192, 0, 2, 1],
        [198, 51, 100, 1],
        [203, 0, 113, 1],
    ] {
        assert!(!is_routable_ip(&Ip::V4(a)));
    }
    for a in [[8u8, 8, 8, 8], [172, 15, 0, 1], [172, 32, 0, 1], [192, 169, 0, 1], [0, 0, 0, 1]] {
        assert!(is_routable_ip(&Ip::V4(a)));
    }
    for s in [
        [0u16, 0, 0, 0, 0, 0, 0, 0],
        [0, 0, 0, 0, 0, 0, 0, 1],
        [0xff02, 0, 0, 0, 0, 0, 0, 1],
        [0xfc00, 0, 0, 0, 0, 0, 0, 1],
        [0xfdff, 0, 0, 0, 0, 0, 0, 1],
        [0xfe80, 0, 0, 0, 0, 0, 0, 1],
    ] {
        assert!(!is_routable_ip(&Ip::V6(s)));
    }
    assert!(is_routable_ip(&Ip::V6([0x2001, 0x4860, 0, 0, 0, 0, 0, 1])));
    assert!(is_routable_ip(&Ip::V6([0, 0, 0, 0, 0, 0, 0, 2])));
}

#[test]
fn listeners_are_advertised() {
    let ip = Ip::V4([8, 8, 8, 8]);
    let tcp = vec![AddrPart::Ip4([0, 0, 0, 0]), AddrPart::Tcp(4001)];
    let parts = build_advertised_multiaddr(&tcp, ip);
    match parts {
        Some(p) => {
            assert_eq!(p.len(), 2);
            assert!(matches!(p[0], AddrPart::Ip4([8, 8, 8, 8])));
            assert!(matches!(p[1], AddrPart::Tcp(4001)));
        }
        None => unreachable!(),
    }
    let quic = vec![AddrPart::Ip4([0, 0, 0, 0]), AddrPart::Udp(4001), AddrPart::QuicV1];
    assert_eq!(build_advertised_multiaddr(&quic, ip).map(|p| p.len()), Some(3));
    let udp = vec![AddrPart::Ip4([0, 0, 0, 0]), AddrPart::Udp(4001)];
    assert!(build_advertised_multiaddr(&udp, ip).is_none());
    assert!(is_routable_multiaddr(&[AddrPart::Other, AddrPart::Ip4([8, 8, 8, 8])]));
    assert!(!is_routable_multiaddr(&tcp));
    let both = [AddrPart::Tcp(1), AddrPart::Ip4([1, 2, 3, 4]), AddrPart::Ip4([5, 6, 7, 8])];
    assert_eq!(try_extract_ipv4_from_multiaddr(&both), Some([1, 2, 3, 4]));
    assert_eq!(try_extract_ipv4_from_multiaddr(&[AddrPart::Other]), None);
}

#[test]
fn this_node_announces_where_it_is_reached() {
    let all = Some("/ip4/0.0.0.0/tcp/4001");
    let out = build_local_multiaddr(all, ExternalIp::Address(Ip::V4([8, 8, 8, 8])), "ME");
    assert_eq!(out.as_deref(), Some("/ip4/8.8.8.8/tcp/4001/p2p/ME"));
    let quic = Some("/ip4/0.0.0.0/udp/4001/quic-v1");
    let out = build_local_multiaddr(quic, ExternalIp::Address(Ip::V4([8, 8, 8, 8])), "ME");
    assert_eq!(out.as_deref(), Some("/ip4/8.8.8.8/udp/4001/quic-v1/p2p/ME"));
    let v6 = ExternalIp::Address(Ip::V6([0x2001, 0x4860, 0, 0, 0, 0, 0, 1]));
    let out = build_local_multiaddr(all, v6, "ME");
    assert_eq!(out.as_deref(), Some("/ip6/2001:4860::1/tcp/4001/p2p/ME"));
    assert!(build_local_multiaddr(all, ExternalIp::Address(Ip::V4([10, 0, 0, 1])), "ME").is_none());
    assert!(build_local_multiaddr(all, ExternalIp::Invalid, "ME").is_none());
    assert!(build_local_multiaddr(all, ExternalIp::NotSet, "ME").is_none());
    assert!(build_local_multiaddr(None, ExternalIp::NotSet, "ME").is_none());
    assert!(build_local_multiaddr(Some("nonsense"), ExternalIp::NotSet, "ME").is_none());
    let open = Some("/ip4/8.8.4.4/tcp/4001");
    let out = build_local_multiaddr(open, ExternalIp::NotSet, "ME");
    assert_eq!(out.as_deref(), Some("/ip4/8.8.4.4/tcp/4001/p2p/ME"));
    assert_eq!(append_peer("/ip4/1.2.3.4/p2p/YOU", "ME"), "/ip4/1.2.3.4/p2p/YOU");
    assert_eq!(listener_announcement("/ip4/1.2.3.4//", "ME"), "/ip4/1.2.3.4/p2p/ME");
}

fn announce(peer_id: &str, role: &str, multiaddr: &str, ttl_secs: u64) -> PeerRegistryAnnounce {
    PeerRegistryAnnounce {
        peer_id: peer_id.to_string(),
        multiaddr: multiaddr.to_string(),
        role: role.to_string(),
        timestamp: 0,
        ttl_secs,
    }
}

#[test]
fn the_registry_lists_live_masternodes() {
    let mut registry = PeerRegistry::new();
    let (a, b, c) = (peer(), peer(), peer());
    let found = registry.handle_peer_registry_message(&announce(&a, "masternode", "/z", 10), &c, 100);
    assert_eq!(found, Some(a.clone()));
    let found = registry.handle_peer_registry_message(&announce(&b, "lightnode", "/l", 10), &c, 100);
    assert_eq!(found, None);
    let found = registry.handle_peer_registry_message(&announce(&c, "masternode", "/a", 20), &c, 100);
    assert_eq!(found, None);
    assert!(registry
        .handle_peer_registry_message(&announce(&b, "masternode", "/x", 0), &c, 100)
        .is_none());
    assert!(registry
        .handle_peer_registry_message(&announce("nobody", "masternode", "/x", 5), &c, 100)
        .is_none());
    assert_eq!(registry.discover_masternodes(105), vec!["/a", "/z"]);
    assert_eq!(registry.discover_masternodes(110), vec!["/a"]);
    let answer = registry.answer_discovery("asker".to_string(), 105);
    assert_eq!(answer.requesting_peer, "asker");
    assert_eq!(answer.masternode_peers.len(), 2);
    registry.prune_registry(119);
    assert_eq!(registry.discover_masternodes(0), vec!["/a"]);
}

#[test]
fn announcements_speak_for_masternodes() {
    let a = build_registry_announce("me".to_string(), "/ip4/8.8.8.8".to_string(), 7, 300);
    assert_eq!((a.role.as_str(), a.timestamp, a.ttl_secs), ("masternode", 7, 300));
    assert!(gossip_announcements(None));
    assert!(gossip_announcements(Some((3, 3))));
    assert!(!gossip_announcements(Some((2, 3))));
}

#[test]
fn connections_are_counted() {
    let ids: Vec<String> = (0..6).map(|_| peer()).collect();
    let entries: Vec<String> =
        ids.iter().map(|id| format!("{}@/ip4/1.2.3.4/tcp/1", id)).collect();
    let mut directory = PeerDirectory::new(&entries);
    assert!(directory.is_known_masternode(&ids[0]));
    assert!(!directory.is_likely_masternode(&ids[0]));
    assert!(directory.keepalive_due());
    for id in ids.iter().take(5) {
        assert!(directory.connection_established(id, "/ip4/1.2.3.4/tcp/1".to_string(), 9));
    }
    assert!(!directory.connection_established("light", "/ip4/5.6.7.8/tcp/1".to_string(), 9));
    assert_eq!(directory.count_connected_masternodes(), 5);
    assert_eq!(directory.connected_peer_count(), 6);
    let targets = directory.reconnect_targets(&entries, "me");
    assert_eq!(targets.len(), 1);
    assert_eq!(targets[0].peer_id, ids[5]);
    assert_eq!(directory.consensus_recipients(&ids[0]).len(), 4);
    assert!(!directory.connection_closed("light"));
    assert!(!directory.connection_closed(&ids[0]));
    assert!(directory.connection_closed(&ids[1]));
    let newcomer = peer();
    assert!(directory.learn_masternode(newcomer.clone()));
    assert!(!directory.learn_masternode(newcomer));
}

#[test]
fn broken_entries_are_left_out() {
    let id = peer();
    let entries = vec![
        format!("{}@/ip4/1.2.3.4/tcp/1", id),
        format!("{}@nowhere", id),
        "nobody@/ip4/1.2.3.4/tcp/1".to_string(),
        "/ip4/1.2.3.4/tcp/1".to_string(),
    ];
    let targets: Vec<DialTarget> = PeerDirectory::bootstrap_targets(&entries);
    assert_eq!(targets.len(), 1);
    assert_eq!(targets[0].address, "/ip4/1.2.3.4/tcp/1");
}

#[test]
fn topics_lead_to_their_kinds() {
    assert_eq!(route("/savitri/heartbeat/1"), Route::Heartbeat);
    assert_eq!(route("/savitri/bootstrap/req/1"), Route::BootstrapRequest);
    assert_eq!(route("bootstrap/request"), Route::BootstrapRequest);
    assert_eq!(route("/savitri/masternode/group/sync/1"), Route::GroupSync);
    assert_eq!(route("/savitri/other/1"), Route::Ignored);
    assert_eq!(topic_name(Route::ConsensusCertificate), "/savitri/consensus/cert/1");
    assert_eq!(route(topic_name(Route::MasternodeVote)), Route::MasternodeVote);
    assert!(goes_to_main_loop(Route::LeaderElection));
    assert!(!goes_to_main_loop(Route::GroupVote));
    assert_eq!(mesh_intervals(true), (10, 5));
    assert_eq!(mesh_intervals(false), (30, 15));
    assert_eq!(record_kind("peerinfo:abc"), (RecordKind::PeerInfo, "abc"));
    assert_eq!(record_kind("lightnode_registration:x"), (RecordKind::Registration, "x"));
    assert_eq!(record_kind("peer_registry:y"), (RecordKind::Registry, "y"));
    assert_eq!(record_kind("z"), (RecordKind::Unknown, "z"));
}

#[test]
fn messages_go_on_whatever_their_handler_says() {
    for name in [
        "/savitri/masternode/group/sync/1",
        "/savitri/masternode/leader/election/1",
        "/savitri/masternode/lightnode_list/sync/1",
    ] {
        let failed = after_handling(route(name), Some("p"), Some(7), Err::<(), &str>("no"));
        assert_eq!((failed.forward, failed.failure), (Some(("p", 7)), Some("no")));
        let handled = after_handling(route(name), Some("p"), Some(7), Ok::<(), &str>(()));
        assert_eq!((handled.forward, handled.failure), (Some(("p", 7)), None));
        let unreadable = after_handling(route(name), Some("p"), None::<u8>, Ok::<(), &str>(()));
        assert_eq!(unreadable.forward, None);
        let nobody = after_handling(route(name), None::<&str>, Some(7), Ok::<(), &str>(()));
        assert_eq!(nobody.forward, None);
    }
    for name in ["/savitri/masternode/group/proposal/1", "/savitri/masternode/group/vote/1"] {
        let r = after_handling(route(name), Some("p"), Some(7), Ok::<(), &str>(()));
        assert_eq!((r.forward, r.failure), (None, None));
    }
}

fn registration(multiaddr: &str) -> LightnodeRegistrationMessage {
    LightnodeRegistrationMessage {
        node_id: "n".to_string(),
        peer_id: "p".to_string(),
        multiaddr: multiaddr.to_string(),
        geographic_region: "eu".to_string(),
        pou_score_bits: 0.5f64.to_bits(),
        capabilities: Vec::new(),
        uptime_percentage_bits: 99.0f64.to_bits(),
        account: [3; 32],
    }
}

fn input(peer_id: &str, decoded: DecodedRegistration) -> RegistrationInput {
    RegistrationInput {
        peer_id: peer_id.to_string(),
        decoded,
        data: vec![1, 2],
        connection: Some(vec![AddrPart::Ip4([8, 8, 8, 8]), AddrPart::Tcp(5000)]),
    }
}

#[test]
fn registrations_are_taken_with_an_address_that_can_be_reached() {
    let batch = vec![
        input("a", DecodedRegistration::Registration(registration("/ip4/127.0.0.1/tcp/1"))),
        input("b", DecodedRegistration::Registration(registration("/ip4/192.168.0.4/tcp/1"))),
        input("c", DecodedRegistration::Unreadable),
        input("d", DecodedRegistration::OtherMessage),
        input("e", DecodedRegistration::Registration(registration("/ip4/9.9.9.9/tcp/1"))),
    ];
    let r = handle_registration_batch(batch, Some("7.7.7.7"), 55);
    assert_eq!(r.accepted.len(), 2);
    assert_eq!(r.accepted[0].multiaddr, "/ip4/8.8.8.8/tcp/1");
    assert_eq!(r.accepted[0].last_seen, 55);
    assert_eq!(r.accepted[1].multiaddr, "/ip4/9.9.9.9/tcp/1");
    assert_eq!(r.accepted[1].pou_score_bits, 0.5f64.to_bits());
    assert_eq!(r.failed.len(), 1);
    assert_eq!(r.failed[0].peer_id, "c");
    assert_eq!(r.failed[0].data, vec![1, 2]);
}

#[test]
fn addresses_on_this_host_are_replaced() {
    let connection = Some(vec![AddrPart::Ip4([8, 8, 8, 8])]);
    let given = "/ip4/127.0.0.1/tcp/1";
    assert_eq!(effective_multiaddr(given, None, &connection), "/ip4/8.8.8.8/tcp/1");
    assert_eq!(effective_multiaddr(given, Some("127.0.0.1"), &connection), given);
    assert_eq!(effective_multiaddr(given, None, &None), given);
    assert!(is_private_multiaddr("/ip4/10.0.0.1/tcp/1"));
    assert!(is_private_multiaddr("/ip4/172.99.0.1/tcp/1"));
    assert!(!is_private_multiaddr("/ip4/8.8.8.8/tcp/1"));
    assert_eq!(write_ipv4(&[1, 20, 0, 255]), "1.20.0.255");
}

#[test]
fn batches_are_followed_up() {
    let r = follow_up(true, false, ManagerReply::Registered);
    assert!(!r.failed && r.retries.is_empty());
    let r = follow_up(true, false, ManagerReply::Failed);
    assert!(matches!(r.retries[0], RetryReason::ManagerFailed));
    let r = follow_up(true, false, ManagerReply::Absent);
    assert!(matches!(r.retries[0], RetryReason::ManagerAbsent));
    let r = follow_up(false, true, ManagerReply::Registered);
    assert!(matches!(r.retries[r.retries.len() - 1], RetryReason::BatchFailed));
}

#[test]
fn activity_is_kept_by_peer() {
    let mut log = ActivityLog::new();
    log.handle_heartbeat("a", 5);
    log.handle_heartbeat("a", 9);
    log.handle_heartbeat("b", 7);
    let tracker = match log.heartbeat_of("a") {
        Some(t) => t,
        None => unreachable!(),
    };
    assert_eq!((tracker.last_heartbeat, tracker.heartbeat_count), (9, 2));
    assert_eq!(tracker.uptime(), Some((2, 2)));
    assert!(log.heartbeat_of("c").is_none());
    let fresh = PeerActivityTracker::starting_at(3);
    assert_eq!(fresh.uptime(), None);

    let pou = PouBroadcast { peer_id: "a".to_string(), epoch: 2, score: 7, index: 1, timestamp: 0 };
    log.handle_pou_broadcast(&pou, 11);
    match log.score_of("a") {
        Some(s) => assert_eq!((s.epoch, s.score, s.last_updated), (2, 7, 11)),
        None => unreachable!(),
    }
    assert!(log.score_of("b").is_none());
}

#[test]
fn accounts_are_told_in_batches() {
    let mut log = ActivityLog::new();
    let tell = |id: &str, account: Option<[u8; 32]>| PeerInfoInput {
        peer_id: id.to_string(),
        account,
    };
    let last = log.handle_peer_info_batch(
        &[tell("a", Some([1; 32])), tell("b", Some([2; 32])), tell("c", None)],
        5,
    );
    assert_eq!(last, Some([2; 32]));
    let last = log.handle_peer_info_batch(&[tell("a", Some([3; 32]))], 8);
    assert_eq!(last, Some([3; 32]));
    match log.account_of("a") {
        Some(e) => {
            assert_eq!(e.account, [3; 32]);
            assert_eq!((e.first_seen, e.last_seen, e.is_active), (5, 8, true));
        }
        None => unreachable!(),
    }
    assert!(log.account_of("c").is_none());
    assert_eq!(log.handle_peer_info_batch(&[], 9), None);
}

#[test]
fn lightnodes_are_answered_at_their_start() {
    let known = vec![BootstrapPeer {
        peer_id: "a".to_string(),
        addresses: vec!["/x".to_string()],
        is_light_node: true,
    }];
    let reply = build_bootstrap_reply(known, 12, 99);
    assert_eq!(reply.blocks.len(), 1);
    assert_eq!((reply.blocks[0].height, reply.blocks[0].timestamp), (12, 99));
    assert_eq!(reply.peers.len(), 1);
    assert_eq!(reply.peers[0].peer_id, "a");
    assert!(reply.peers[0].is_light_node);
    assert!(!is_oversized(1_048_576));
    assert!(is_oversized(1_048_577));
}

#[test]
fn lightnodes_are_told_of_masternodes_only() {
    let mut directory = BootstrapDirectory::new();
    directory.peer_dialed("m1", "/ip4/1.2.3.4/tcp/1".to_string());
    directory.peer_connected("l1", "/ip4/5.6.7.8/tcp/50344".to_string(), false);
    directory.peer_connected("m2", "/ip4/9.9.9.9/tcp/2".to_string(), true);
    directory.peer_connected("m1", "/ip4/1.2.3.4/tcp/7".to_string(), true);
    let reply = build_bootstrap_reply(directory.known_peers(), 12, 99);
    let told: Vec<(&str, &str)> = reply
        .peers
        .iter()
        .map(|p| (p.peer_id.as_str(), p.addresses[0].as_str()))
        .collect();
    assert_eq!(told, vec![("m2", "/ip4/9.9.9.9/tcp/2"), ("m1", "/ip4/1.2.3.4/tcp/7")]);
    assert!(reply.peers.iter().all(|p| p.is_masternode && !p.is_light_node));
}

fn proposal_message(id: &str, epoch: u64) -> MasternodeMessage {
    MasternodeMessage::GroupProposal(GroupProposal {
        proposal_id: id.to_string(),
        epoch,
        proposer_masternode: "me".to_string(),
        groups: vec!["g1".to_string(), "g2".to_string()],
    })
}

#[test]
fn messages_are_sent_once() {
    let mut publisher = MasternodePublisher::new();
    let message = proposal_message("p1", 4);
    assert_eq!(message.build_masternode_dedupe_key().as_deref(), Some("p1:4:2"));
    assert_eq!(publisher.publish_masternode_message(&message), PublishPlan::Message);
    assert_eq!(publisher.publish_masternode_message(&message), PublishPlan::AlreadySent);
    let other = proposal_message("p1", 5);
    assert_eq!(publisher.publish_masternode_message(&other), PublishPlan::Message);
    let sync = MasternodeMessage::GroupSyncRequest {
        from_epoch: 1,
        to_epoch: 2,
        requester_masternode: "me".to_string(),
    };
    assert_eq!(sync.build_masternode_dedupe_key(), None);
    for _ in 0..3 {
        assert_eq!(publisher.publish_masternode_message(&sync), PublishPlan::Message);
    }
    let announcement = MasternodeMessage::LightnodeGroupAnnounce(LightnodeGroupAnnounce {
        epoch: 4,
        group_id: "g".to_string(),
        members: Vec::new(),
        member_addresses: Vec::new(),
        proposer: "p".to_string(),
        timestamp: 0,
        signature: None,
        signer_pubkey: None,
        assigned_shards: Vec::new(),
        num_shards: 1,
    });
    for _ in 0..2 {
        assert_eq!(
            publisher.publish_masternode_message(&announcement),
            PublishPlan::Announcement
        );
    }
    assert_eq!(announcement.get_epoch(), 4);
    assert_eq!(announcement.get_groups_count(), 1);
    assert_eq!(announcement.get_proposal_id(), "unknown");
    assert_eq!(announcement.topic(), "/savitri/lightnode/group/announce/1");
}

#[test]
fn masternodes_are_answered_only_if_they_are_connected() {
    let mut manager = MasternodeP2PManager::new("me".to_string());
    assert_eq!(manager.initialize_topics().len(), 5);
    let vote = || GroupVote { proposal_id: "p".to_string(), voter_masternode: "me".to_string() };
    assert!(manager.send_group_vote("you", vote()).is_none());
    manager.add_masternode_peer("you".to_string(), "peer".to_string());
    manager.add_masternode_peer("you".to_string(), "peer2".to_string());
    assert_eq!(manager.get_connected_masternodes_count(), 1);
    assert!(manager.can_reach("you"));
    assert!(matches!(
        manager.send_group_vote("you", vote()),
        Some(MasternodeMessage::GroupVote(_))
    ));
    match manager.respond_available_lightnodes("you", 4, 9) {
        Some(MasternodeMessage::AvailableLightnodesResponse { epoch, available_count, .. }) => {
            assert_eq!((epoch, available_count), (4, 9));
        }
        _ => unreachable!(),
    }
    assert_eq!(manager.request_available_lightnodes(4).get_epoch(), 4);
    assert!(manager.respond_group_sync("stranger", Vec::new()).is_none());
    let response = manager.respond_group_sync("you", Vec::new());
    match response {
        Some(r) => assert!(matches!(manager.send_group_sync_response("you", r), Ok(Some(_)))),
        None => unreachable!(),
    }
    let request = manager.request_group_sync(1, 3);
    assert!(manager.send_group_sync_response("you", request).is_err());
    match manager.broadcast_lightnode_list(Vec::new(), 44) {
        MasternodeMessage::LightnodeListSync { sender_masternode, timestamp, .. } => {
            assert_eq!((sender_masternode.as_str(), timestamp), ("me", 44));
        }
        _ => unreachable!(),
    }
    manager.remove_masternode_peer("you");
    assert!(!manager.can_reach("you"));
}

#[test]
fn payloads_that_are_no_certificates_are_told_apart() {
    let kind = |text: &str| detect_non_certificate_payload_kind(text.as_bytes());
    assert_eq!(kind("{\"MempoolSync\":{}}"), Some(PayloadKind::MempoolSyncMessage));
    assert_eq!(
        kind("{\"payload\":{\"BlockValidationResult\":1}}"),
        Some(PayloadKind::BlockValidationResult)
    );
    assert_eq!(kind("{\"height\":1,\"votes\":[]}"), None);
    assert_eq!(kind("not json"), None);
    assert_eq!(PayloadKind::MempoolSyncMessage.name(), "MempoolSyncMessage");
}

#[test]
fn keepalives_are_recognized() {
    assert!(is_mesh_keepalive(b"{\"type\":\"mesh_keepalive\"}"));
    assert!(!is_mesh_keepalive(b"{\"type\":\"vote\"}"));
    assert!(!is_mesh_keepalive(b"{"));
    match parse_json(b"{\"a\":\"b\",\"c\":[1]}") {
        Some(Json::Object(members)) => {
            assert_eq!(members.len(), 2);
            let a = members.iter().find(|m| m.name == "a");
            assert!(matches!(a.map(|m| &m.value), Some(Json::Text(t)) if t == "b"));
        }
        _ => unreachable!(),
    }
    assert!(parse_json(b"nonsense").is_none());
}

#[test]
fn texts_are_kept_once() {
    let mut set = TextSet::new();
    assert!(set.insert("a".to_string()));
    assert!(!set.insert("a".to_string()));
    assert!(set.insert("b".to_string()));
    assert_eq!(set.len(), 2);
    assert!(set.contains("b"));
    let mut other = TextSet::new();
    let _ = other.insert("b".to_string());
    let _ = other.insert("c".to_string());
    assert_eq!(set.count_common(&other), 1);
    assert!(set.remove("a"));
    assert!(!set.remove("a"));
    assert_eq!(set.get(0), "b");
    set.clear();
    assert_eq!(set.len(), 0);
}

#[test]
fn only_addresses_that_can_be_dialed_are_kept() {
    assert!(is_worth_keeping("/ip4/8.8.8.8/tcp/4001"));
    assert!(!is_worth_keeping("/ip4/10.0.0.1/tcp/4001"));
    assert!(!is_worth_keeping("/ip4/8.8.8.8/tcp/0"));
    assert!(!is_worth_keeping("/ip4/8.8.8.8/udp/0/quic-v1"));
    assert!(!is_worth_keeping("nowhere"));
}
