use savitri_masternode::mempool_manager::MempoolConfig;
use savitri_masternode::mempool_manager::MempoolEntry;
use savitri_masternode::mempool_manager::MempoolError;
use savitri_masternode::mempool_manager::MempoolManager;
use savitri_masternode::mempool_manager::MempoolStatus;

fn entry(n: u8, priority: u32, gas_price: u64, added_at: u64) -> MempoolEntry {
    MempoolEntry {
        tx_hash: [n; 32],
        sender: [1; 32],
        receiver: [2; 32],
        amount: 5,
        nonce: n as u64,
        signature: [3; 64],
        added_at,
        priority,
        gas_price,
    }
}

#[test]
fn what_is_settled_no_longer_waits() {
    let mut pool = MempoolManager::new();
    assert!(matches!(pool.add_transaction(entry(1, 0, 1, 100)), Ok(true)));
    assert!(matches!(pool.add_transaction(entry(2, 0, 1, 100)), Ok(true)));
    assert!(pool.contains(&[1; 32]));
    assert_eq!(pool.confirm_transactions(&[[1; 32], [9; 32]]), 1);
    assert!(!pool.contains(&[1; 32]));
    assert!(matches!(pool.get_status(&[1; 32]), MempoolStatus::Confirmed));
    assert_eq!(pool.reject_transactions(&[[2; 32]]), 1);
    assert!(matches!(pool.get_status(&[2; 32]), MempoolStatus::Rejected));
    assert_eq!(pool.pending_count(), 0);
    assert_eq!(pool.get_stats().total_confirmed, 1);
    assert_eq!(pool.get_stats().total_rejected, 1);
}

#[test]
fn settled_transactions_cannot_come_back() {
    let mut pool = MempoolManager::new();
    let _ = pool.confirm_transactions(&[[1; 32]]);
    let _ = pool.reject_transactions(&[[2; 32]]);
    let first = pool.add_transaction(entry(1, 0, 1, 100));
    assert!(matches!(first, Err(MempoolError::AlreadyConfirmed)));
    let second = pool.add_transaction(entry(2, 0, 1, 100));
    assert!(matches!(second, Err(MempoolError::AlreadyRejected)));
}

#[test]
fn a_transaction_is_added_once() {
    let mut pool = MempoolManager::new();
    assert!(matches!(pool.add_transaction(entry(1, 0, 1, 100)), Ok(true)));
    assert!(matches!(pool.add_transaction(entry(1, 9, 9, 200)), Ok(false)));
    assert_eq!(pool.pending_count(), 1);
}

#[test]
fn syncing_settles_both_kinds() {
    let mut pool = MempoolManager::new();
    for n in 1..4u8 {
        let _ = pool.add_transaction(entry(n, 0, 1, 100));
    }
    let result = pool.process_mempool_sync(&[[1; 32]], &[[2; 32]]);
    assert_eq!(
        (result.confirmed_count, result.rejected_count, result.remaining_pending),
        (1, 1, 1)
    );
}

#[test]
fn old_transactions_expire() {
    let mut pool = MempoolManager::with_config(MempoolConfig {
        max_pending_txs: 10,
        max_tx_age_seconds: 60,
        cleanup_interval_seconds: 10,
        max_confirmed_cache: 10,
        max_rejected_cache: 10,
    });
    let _ = pool.add_transaction(entry(1, 0, 1, 100));
    let _ = pool.add_transaction(entry(2, 0, 1, 150));
    assert_eq!(pool.cleanup_expired_at(170), 1);
    assert!(!pool.contains(&[1; 32]));
    assert!(pool.contains(&[2; 32]));
    assert_eq!(pool.get_stats().total_expired, 1);
    assert_eq!(pool.get_stats().last_cleanup, 170);
    assert_eq!(pool.cleanup_expired(), 1);
}

#[test]
fn blocks_take_the_best_transactions() {
    let mut pool = MempoolManager::new();
    let _ = pool.add_transaction(entry(1, 1, 5, 100));
    let _ = pool.add_transaction(entry(2, 2, 1, 100));
    let _ = pool.add_transaction(entry(3, 1, 9, 100));
    let best = pool.get_transactions_for_block(2);
    assert_eq!(best.len(), 2);
    assert_eq!(best[0].tx_hash, [2; 32]);
    assert_eq!(best[1].tx_hash, [3; 32]);
}

#[test]
fn only_so_much_is_remembered() {
    let mut pool = MempoolManager::with_config(MempoolConfig {
        max_pending_txs: 10,
        max_tx_age_seconds: 60,
        cleanup_interval_seconds: 10,
        max_confirmed_cache: 4,
        max_rejected_cache: 4,
    });
    for n in 0..20u8 {
        let _ = pool.confirm_transactions(&[[n; 32]]);
    }
    assert!(matches!(pool.get_status(&[19; 32]), MempoolStatus::Confirmed));
    assert!(!matches!(pool.get_status(&[0; 32]), MempoolStatus::Confirmed));
}

fn limits(max_pending_txs: usize) -> MempoolConfig {
    MempoolConfig {
        max_pending_txs,
        max_tx_age_seconds: 60,
        cleanup_interval_seconds: 10,
        max_confirmed_cache: 10,
        max_rejected_cache: 10,
    }
}

#[test]
fn a_pool_without_room_is_full() {
    let mut pool = MempoolManager::with_config(limits(0));
    let r = pool.add_transaction(entry(1, 0, 1, 100));
    assert!(matches!(r, Err(MempoolError::MempoolFull)));
    assert_eq!(pool.pending_count(), 0);
    assert_eq!(pool.get_stats().total_added, 0);
}

#[test]
fn the_oldest_makes_room() {
    let mut pool = MempoolManager::with_config(limits(2));
    for n in 1..4u8 {
        assert!(matches!(pool.add_transaction(entry(n, 0, 1, 100)), Ok(true)));
    }
    assert!(!pool.contains(&[1; 32]));
    assert!(pool.contains(&[2; 32]) && pool.contains(&[3; 32]));
    assert_eq!((pool.pending_count(), pool.get_stats().total_evicted), (2, 1));
}

#[test]
fn every_transaction_has_its_place() {
    let mut pool = MempoolManager::with_config(limits(4));
    for n in 1..8u8 {
        let _ = pool.add_transaction(entry(n, 0, 1, 100 + n as u64 * 10));
    }
    assert_eq!(pool.confirm_transactions(&[[7; 32]]), 1);
    assert_eq!(pool.reject_transactions(&[[6; 32], [1; 32]]), 1);
    assert_eq!(pool.cleanup_expired_at(201), 1);
    let stats = pool.get_stats();
    let gone = stats.total_confirmed + stats.total_rejected + stats.total_expired;
    assert_eq!(stats.total_evicted, 3);
    assert_eq!(stats.total_added, gone + stats.total_evicted + pool.pending_count() as u64);
}

#[test]
fn errors_have_words() {
    assert!(!MempoolError::AlreadyConfirmed.message().is_empty());
    assert_ne!(MempoolError::AlreadyConfirmed.message(), MempoolError::MempoolFull.message());
}
