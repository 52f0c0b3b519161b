use savitri_masternode::messages::LightnodeRegistrationMessage;
use savitri_masternode::retry_manager::LocalRetryManager;
use savitri_masternode::retry_manager::RetryConfig;

fn create_test_registration(peer_id: &str) -> LightnodeRegistrationMessage {
    LightnodeRegistrationMessage {
        node_id: peer_id.to_string(),
        peer_id: peer_id.to_string(),
        multiaddr: format!("/ip4/127.0.0.1/tcp/{}", 5000),
        geographic_region: "test".to_string(),
        pou_score_bits: 0.5f64.to_bits(),
        capabilities: vec!["test".to_string()],
        uptime_percentage_bits: 100.0f64.to_bits(),
        account: [0u8; 32],
    }
}

#[test]
fn test_retry_registration() {
    let mut retry_manager = LocalRetryManager::new();
    let peer_id = libp2p::PeerId::random().to_string();
    let registration = create_test_registration(&peer_id);

    retry_manager.register_failure(peer_id.clone(), registration, "Test failure".to_string());
    assert_eq!(retry_manager.get_stats().pending_retries, 1);

    let ready_retries = retry_manager.get_ready_retries();
    assert_eq!(ready_retries.len(), 1);
    assert_eq!(ready_retries[0].0, peer_id);

    retry_manager.mark_retry_success(&peer_id);
    assert_eq!(retry_manager.get_stats().pending_retries, 0);
}

#[test]
fn test_max_retries() {
    let mut config = RetryConfig::default();
    config.max_retries = 2;
    let mut retry_manager = LocalRetryManager::with_config(config);

    let peer_id = libp2p::PeerId::random().to_string();
    let registration = create_test_registration(&peer_id);
    for i in 0..3 {
        retry_manager.register_failure(
            peer_id.clone(),
            registration.clone(),
            format!("Failure {}", i),
        );
    }

    assert_eq!(retry_manager.get_stats().abandoned_registrations, 1);
    assert_eq!(retry_manager.get_stats().pending_retries, 0);
}

#[test]
fn test_peak_traffic_adaptive_retry() {
    let mut retry_manager = LocalRetryManager::new();
    let peer_id = libp2p::PeerId::random().to_string();
    let registration = create_test_registration(&peer_id);
    retry_manager.register_failure(peer_id, registration, "Test failure".to_string());

    let normal_interval = retry_manager.get_retry_interval(0);
    retry_manager.set_peak_traffic(true);
    let adaptive_interval = retry_manager.get_adaptive_retry_interval(0);
    assert!(adaptive_interval < normal_interval);
}

#[test]
fn intervals_follow_the_settings() {
    let manager = LocalRetryManager::new();
    assert_eq!(manager.get_retry_interval(0), 500_000_000);
    assert_eq!(manager.get_retry_interval(1), 1_000_000_000);
    assert_eq!(manager.get_retry_interval(2), 2_000_000_000);
    assert_eq!(manager.get_retry_interval(9), 2_000_000_000);
    let none = LocalRetryManager::with_config(RetryConfig {
        max_retries: 3,
        retry_intervals_ms: Vec::new(),
        retry_on_peak: true,
        max_failure_age_secs: 300,
    });
    assert_eq!(none.get_retry_interval(0), 2_000_000_000);
    assert_eq!(none.get_adaptive_retry_interval(0), 2_000_000_000);
}

#[test]
fn peak_traffic_can_be_left_out_of_account() {
    let mut manager = LocalRetryManager::with_config(RetryConfig {
        max_retries: 3,
        retry_intervals_ms: vec![501],
        retry_on_peak: false,
        max_failure_age_secs: 300,
    });
    manager.set_peak_traffic(true);
    assert_eq!(manager.get_adaptive_retry_interval(0), 501_000_000);
}

#[test]
fn a_second_attempt_waits_for_its_interval() {
    let mut manager = LocalRetryManager::new();
    manager.register_failure_at("p".to_string(), create_test_registration("p"), "a".to_string(), 0);
    manager.mark_retry_failed_at("p", "b".to_string(), 10);
    assert_eq!(manager.get_failure_reason("p").map(|r| r.as_str()), Some("b"));
    assert_eq!(manager.get_ready_retries_at(1_000_000_009).len(), 0);
    assert!(manager.has_failed_registration("p"));
    let taken = manager.get_ready_retries_at(1_000_000_010);
    assert_eq!(taken.len(), 1);
    assert_eq!(taken[0].1.node_id, "p");
    assert!(!manager.has_failed_registration("p"));
}

#[test]
fn old_failures_are_given_up() {
    let mut manager = LocalRetryManager::new();
    manager.register_failure_at("p".to_string(), create_test_registration("p"), "a".to_string(), 0);
    assert_eq!(manager.get_ready_retries_at(301_000_000_000).len(), 0);
    assert_eq!(manager.get_stats().abandoned_registrations, 1);
    assert!(!manager.has_failed_registration("p"));

    manager.register_failure_at("q".to_string(), create_test_registration("q"), "a".to_string(), 0);
    manager.cleanup_old_failures_at(300_999_999_999);
    assert!(manager.has_failed_registration("q"));
    manager.cleanup_old_failures_at(301_000_000_000);
    assert!(!manager.has_failed_registration("q"));
    assert_eq!(manager.get_stats().abandoned_registrations, 2);
    assert_eq!(manager.get_stats().total_failures, 2);
}

#[test]
fn attempts_are_counted_and_forgotten() {
    let mut manager = LocalRetryManager::new();
    for peer in ["a", "b"] {
        manager.register_failure_at(
            peer.to_string(),
            create_test_registration(peer),
            "x".to_string(),
            0,
        );
    }
    manager.mark_retry_failed_at("a", "y".to_string(), 1);
    manager.mark_retry_failed_at("nobody", "y".to_string(), 1);
    let stats = manager.get_stats();
    assert_eq!((stats.total_failures, stats.pending_attempts, stats.pending_retries), (2, 1, 2));
    let all = manager.force_retry_all();
    assert_eq!(all.len(), 2);
    assert_eq!(all[0].0, "a");
    manager.reset_stats();
    assert_eq!(manager.get_stats().total_failures, 0);
    assert_eq!(manager.get_stats().pending_retries, 0);
}

#[test]
fn what_failed_too_often_is_no_longer_pending() {
    let mut manager = LocalRetryManager::new();
    manager.register_failure_at("p".to_string(), create_test_registration("p"), "a".to_string(), 0);
    manager.mark_retry_failed_at("p", "b".to_string(), 1);
    manager.mark_retry_failed_at("p", "c".to_string(), 2);
    assert!(manager.has_failed_registration("p"));
    manager.mark_retry_failed_at("p", "d".to_string(), 3);
    assert!(!manager.has_failed_registration("p"));
    assert_eq!(manager.get_stats().abandoned_registrations, 1);
}

#[test]
fn what_works_after_it_was_handed_out_is_counted() {
    let mut manager = LocalRetryManager::new();
    manager.register_failure_at("p".to_string(), create_test_registration("p"), "a".to_string(), 0);
    assert_eq!(manager.get_ready_retries_at(1_000_000_000).len(), 1);
    assert!(!manager.has_failed_registration("p"));
    manager.mark_retry_success("p");
    assert_eq!(manager.get_stats().successful_retries, 1);
    manager.mark_retry_success("p");
    manager.mark_retry_success("nobody");
    assert_eq!(manager.get_stats().successful_retries, 1);
}

#[test]
fn what_fails_after_it_was_handed_out_is_pending_again() {
    let mut manager = LocalRetryManager::new();
    manager.register_failure_at("p".to_string(), create_test_registration("p"), "a".to_string(), 0);
    assert_eq!(manager.get_ready_retries_at(1_000_000_000).len(), 1);
    manager.mark_retry_failed_at("p", "b".to_string(), 1_000_000_000);
    assert_eq!(manager.get_failure_reason("p").map(|r| r.as_str()), Some("b"));
    assert_eq!(manager.get_stats().pending_retries, 1);
    assert_eq!(manager.get_ready_retries_at(3_000_000_000).len(), 1);
    manager.mark_retry_failed_at("p", "c".to_string(), 3_000_000_000);
    assert_eq!(manager.get_ready_retries_at(6_000_000_000).len(), 1);
    manager.mark_retry_failed_at("p", "d".to_string(), 6_000_000_000);
    assert!(!manager.has_failed_registration("p"));
    assert_eq!(manager.get_stats().abandoned_registrations, 1);
}

#[test]
fn failures_are_noted_by_the_clock_too() {
    let mut manager = LocalRetryManager::new();
    manager.register_failure("p".to_string(), create_test_registration("p"), "a".to_string());
    manager.mark_retry_failed("p", "b".to_string());
    assert_eq!(manager.get_failure_reason("p").map(|r| r.as_str()), Some("b"));
    manager.cleanup_old_failures();
    assert!(manager.has_failed_registration("p"));
}
