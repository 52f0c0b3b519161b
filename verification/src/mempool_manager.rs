//! The transactions that wait for a block, and those that have had theirs.
use vstd::prelude::*;

use crate::bytes::bytes_equal;
use crate::bytes::contains_hash;
use crate::clock::unix_seconds;
use crate::keyed;
use crate::keyed::Keyed;

verus! {

/// A transaction that waits.
#[derive(Debug, Clone, Copy)]
pub struct MempoolEntry {
    pub tx_hash: [u8; 32],
    pub sender: [u8; 32],
    pub receiver: [u8; 32],
    pub amount: u64,
    pub nonce: u64,
    pub signature: [u8; 64],
    pub added_at: u64,
    pub priority: u32,
    pub gas_price: u64,
}

impl Keyed for MempoolEntry {
    type Query = [u8];

    open spec fn key(&self) -> Seq<u8> {
        self.tx_hash@
    }

    fn has_key(&self, query: &[u8]) -> (r: bool) {
        bytes_equal(self.tx_hash.as_slice(), query)
    }
}

/// Where a transaction stands.
#[derive(Debug, Clone, Copy, PartialEq, Eq, Structural)]
pub enum MempoolStatus {
    Pending,
    Confirmed,
    Rejected,
    Expired,
}

#[derive(Debug, Clone, Copy)]
pub struct MempoolConfig {
    pub max_pending_txs: usize,
    pub max_tx_age_seconds: u64,
    pub cleanup_interval_seconds: u64,
    pub max_confirmed_cache: usize,
    pub max_rejected_cache: usize,
}

impl Default for MempoolConfig {
    fn default() -> (r: Self)
        ensures
            r == default_config(),
    {
        MempoolConfig {
            max_pending_txs: 10_000,
            max_tx_age_seconds: 3600,
            cleanup_interval_seconds: 60,
            max_confirmed_cache: 100_000,
            max_rejected_cache: 10_000,
        }
    }
}

/// What holds where nothing else is configured.
pub open spec fn default_config() -> MempoolConfig {
    MempoolConfig {
        max_pending_txs: 10_000,
        max_tx_age_seconds: 3600,
        cleanup_interval_seconds: 60,
        max_confirmed_cache: 100_000,
        max_rejected_cache: 10_000,
    }
}

#[derive(Debug, Clone, Copy)]
pub struct MempoolStats {
    pub total_added: u64,
    pub total_confirmed: u64,
    pub total_rejected: u64,
    pub total_expired: u64,
    pub total_evicted: u64,
    pub last_cleanup: u64,
}

impl Default for MempoolStats {
    fn default() -> (r: Self)
        ensures
            r == no_stats(),
    {
        MempoolStats {
            total_added: 0,
            total_confirmed: 0,
            total_rejected: 0,
            total_expired: 0,
            total_evicted: 0,
            last_cleanup: 0,
        }
    }
}

/// Nothing counted.
pub open spec fn no_stats() -> MempoolStats {
    MempoolStats {
        total_added: 0,
        total_confirmed: 0,
        total_rejected: 0,
        total_expired: 0,
        total_evicted: 0,
        last_cleanup: 0,
    }
}

#[derive(Debug, Clone, Copy, PartialEq, Eq, Structural)]
pub struct MempoolSyncResult {
    pub confirmed_count: usize,
    pub rejected_count: usize,
    pub remaining_pending: usize,
}

#[derive(Debug, Clone, Copy, PartialEq, Eq, Structural)]
pub enum MempoolError {
    AlreadyConfirmed,
    AlreadyRejected,
    MempoolFull,
    InvalidTransaction,
}

impl MempoolError {
    /// The words for the error.
    pub fn message(&self) -> (r: &'static str)
        ensures
            r@ == match self {
                MempoolError::AlreadyConfirmed => "Transaction already confirmed"@,
                MempoolError::AlreadyRejected => "Transaction already rejected"@,
                MempoolError::MempoolFull => "Mempool is full"@,
                MempoolError::InvalidTransaction => "Invalid transaction"@,
            },
    {
        match self {
            MempoolError::AlreadyConfirmed => "Transaction already confirmed",
            MempoolError::AlreadyRejected => "Transaction already rejected",
            MempoolError::MempoolFull => "Mempool is full",
            MempoolError::InvalidTransaction => "Invalid transaction",
        }
    }
}

/// Whether a transaction is among those that wait.
pub open spec fn is_waiting(pending: Seq<MempoolEntry>, hash: [u8; 32]) -> bool {
    keyed::contains_key(pending, hash@)
}

/// Whether a transaction is none of the given ones.
pub open spec fn not_among(hashes: Seq<[u8; 32]>) -> spec_fn(MempoolEntry) -> bool {
    |e: MempoolEntry| !hashes.contains(e.tx_hash)
}

/// Whether a transaction was added at `cutoff` or later.
pub open spec fn added_since(cutoff: int) -> spec_fn(MempoolEntry) -> bool {
    |e: MempoolEntry| e.added_at >= cutoff
}

/// The known hashes after others came: each once, in the order in which they first came.
pub open spec fn remembered(known: Seq<[u8; 32]>, hashes: Seq<[u8; 32]>) -> Seq<[u8; 32]>
    decreases hashes.len(),
{
    if hashes.len() == 0 {
        known
    } else {
        let front = remembered(known, hashes.drop_last());
        if front.contains(hashes.last()) {
            front
        } else {
            front.push(hashes.last())
        }
    }
}

/// The known hashes within a limit: when it is passed, the newest ones that make up half of it.
pub open spec fn trimmed(known: Seq<[u8; 32]>, limit: usize) -> Seq<[u8; 32]> {
    if known.len() > limit {
        known.skip(known.len() - limit as int / 2)
    } else {
        known
    }
}

/// Whether `a` comes before `b` in a block: by priority, then by the price of gas.
pub open spec fn outranks(a: MempoolEntry, b: MempoolEntry) -> bool {
    a.priority > b.priority || (a.priority == b.priority && a.gas_price > b.gas_price)
}

/// Whether `chosen` stand in `pending` at the given places, each at its own.
pub open spec fn places_of(
    places: Seq<usize>,
    chosen: Seq<MempoolEntry>,
    pending: Seq<MempoolEntry>,
) -> bool {
    &&& places.len() == chosen.len()
    &&& places.no_duplicates()
    &&& forall|k: int|
        0 <= k < places.len() ==> (#[trigger] places[k]) < pending.len() && chosen[k]
            == pending[places[k] as int]
    &&& forall|j: int, k: int|
        0 <= j < pending.len() && !places.contains(j as usize) && 0 <= k < places.len()
            ==> !outranks(#[trigger] pending[j], #[trigger] chosen[k])
}

/// Whether `chosen` are the first of `pending`, at most `count`, by priority and price, in that
/// order: none that was left out comes before one that was chosen.
pub open spec fn best_of(
    chosen: Seq<MempoolEntry>,
    pending: Seq<MempoolEntry>,
    count: nat,
) -> bool {
    &&& chosen.len() == if pending.len() <= count {
        pending.len()
    } else {
        count
    }
    &&& forall|a: int, b: int|
        0 <= a < b < chosen.len() ==> !outranks(#[trigger] chosen[b], #[trigger] chosen[a])
    &&& exists|places: Seq<usize>| #[trigger] places_of(places, chosen, pending)
}

/// Whether `order` are the places of the first of the first `n`.
spec fn best_places(order: Seq<usize>, p: Seq<MempoolEntry>, n: int, count: nat) -> bool {
    &&& 0 <= n <= p.len()
    &&& order.len() == if n <= count {
        n
    } else {
        count as int
    }
    &&& order.no_duplicates()
    &&& forall|k: int| 0 <= k < order.len() ==> (#[trigger] order[k]) < n
    &&& forall|a: int, b: int|
        0 <= a < b < order.len() ==> !outranks(
            p[#[trigger] order[b] as int],
            p[#[trigger] order[a] as int],
        )
    &&& forall|j: int, k: int|
        0 <= j < n && !order.contains(j as usize) && 0 <= k < order.len() ==> !outranks(
            #[trigger] p[j],
            p[#[trigger] order[k] as int],
        )
}

proof fn insert_keeps_best(
    before: Seq<usize>,
    longer: Seq<usize>,
    after: Seq<usize>,
    p: Seq<MempoolEntry>,
    i: int,
    count: nat,
    at: int,
)
    requires
        p.len() <= usize::MAX,
        0 <= i < p.len(),
        best_places(before, p, i, count),
        0 <= at <= before.len(),
        at < count,
        longer == before.insert(at, i as usize),
        after == if longer.len() <= count {
            longer
        } else {
            longer.take(count as int)
        },
        forall|k: int|
            at <= k < before.len() ==> outranks(p[i], p[#[trigger] before[k] as int]),
        at > 0 ==> !outranks(p[i], p[before[at - 1] as int]),
    ensures
        best_places(after, p, i + 1, count),
{
    assert forall|k: int| 0 <= k < longer.len() implies #[trigger] longer[k] == if k < at {
        before[k]
    } else if k == at {
        i as usize
    } else {
        before[k - 1]
    } by {}
    assert forall|k: int| 0 <= k < at implies !outranks(p[i], p[#[trigger] before[k] as int]) by {
        if k < at - 1 {
            assert(!outranks(p[before[at - 1] as int], p[before[k] as int]));
        }
    }
    assert forall|a: int, b: int| 0 <= a < b < longer.len() implies !outranks(
        p[#[trigger] longer[b] as int],
        p[#[trigger] longer[a] as int],
    ) by {
        let a2 = if a < at { a } else { a - 1 };
        let b2 = if b < at { b } else { b - 1 };
        if a == at {
            assert(outranks(p[i], p[before[b2] as int]));
        } else if b == at {
            assert(!outranks(p[i], p[before[a] as int]));
        } else {
            assert(!outranks(p[before[b2] as int], p[before[a2] as int]));
        }
    }
    assert forall|k: int| 0 <= k < after.len() implies #[trigger] after[k] == longer[k] by {}
    assert forall|k: int| 0 <= k < after.len() implies (#[trigger] after[k]) < i + 1 by {
        assert(after[k] == longer[k]);
        if k < at {
            assert(before[k] < i);
        } else if k > at {
            assert(before[k - 1] < i);
        }
    }
    assert forall|a: int, b: int| 0 <= a < after.len() && 0 <= b < after.len() && a != b implies
        after[a] != after[b] by {
        assert(after[a] == longer[a] && after[b] == longer[b]);
        let a2 = if a < at { a } else { a - 1 };
        let b2 = if b < at { b } else { b - 1 };
        if a == at {
            assert(before[b2] < i);
        } else if b == at {
            assert(before[a2] < i);
        } else {
            assert(before[a2] != before[b2]);
        }
    }
    assert forall|j: int, k: int|
        0 <= j < i + 1 && !after.contains(j as usize) && 0 <= k < after.len() implies !outranks(
        #[trigger] p[j],
        p[#[trigger] after[k] as int],
    ) by {
        assert(after[k] == longer[k]);
        if j == i {
            assert(after[at] == i as usize);
        } else if before.contains(j as usize) {
            // It fell off the end: it was the last of the longer list.
            let m = choose|m: int| 0 <= m < before.len() && before[m] == j as usize;
            let m2 = if m < at { m } else { m + 1 };
            assert(longer[m2] == j as usize);
            if m2 < after.len() {
                assert(after[m2] == j as usize);
            }
            assert(k < m2);
            assert(!outranks(p[longer[m2] as int], p[longer[k] as int]));
        } else {
            if k == at {
                // Whatever was left out does not come before the last one, which `i` outranks,
                // or nothing was left out.
                if before.len() > 0 && at < before.len() {
                    assert(outranks(p[i], p[before[at] as int]));
                    assert(!outranks(p[j], p[before[at] as int]));
                } else if before.len() == count {
                    assert(at < before.len());
                } else {
                    all_listed(before, i);
                    assert(before.contains(j as usize));
                }
            } else {
                let k2 = if k < at { k } else { k - 1 };
                assert(!outranks(p[j], p[before[k2] as int]));
            }
        }
    }
}

proof fn all_listed(order: Seq<usize>, n: int)
    requires
        order.len() == n,
        n <= usize::MAX,
        order.no_duplicates(),
        forall|k: int| 0 <= k < order.len() ==> (#[trigger] order[k]) < n,
    ensures
        forall|j: int| 0 <= j < n ==> order.contains(#[trigger] (j as usize)),
{
    let places = Seq::new(n as nat, |k: int| order[k] as int);
    assert(places.no_duplicates());
    places.unique_seq_to_set();
    let full = vstd::set_lib::set_int_range(0, n);
    vstd::set_lib::lemma_int_range(0, n);
    assert(places.to_set().subset_of(full));
    vstd::set_lib::lemma_subset_equality(places.to_set(), full);
    assert forall|j: int| 0 <= j < n implies order.contains(#[trigger] (j as usize)) by {
        assert(full.contains(j));
        assert(places.to_set().contains(j));
        let k = choose|k: int| 0 <= k < places.len() && places[k] == j;
        assert(order[k] == j as usize);
    }
}

proof fn full_keeps_best(order: Seq<usize>, p: Seq<MempoolEntry>, i: int, count: nat)
    requires
        p.len() <= usize::MAX,
        0 <= i < p.len(),
        best_places(order, p, i, count),
        order.len() >= count,
        order.len() > 0 ==> !outranks(p[i], p[order[order.len() - 1] as int]),
    ensures
        best_places(order, p, i + 1, count),
{
    assert forall|j: int, k: int|
        0 <= j < i + 1 && !order.contains(j as usize) && 0 <= k < order.len() implies !outranks(
        #[trigger] p[j],
        p[#[trigger] order[k] as int],
    ) by {
        if j == i && k < order.len() - 1 {
            assert(!outranks(p[order[order.len() - 1] as int], p[order[k] as int]));
        }
    }
}

fn ranks_above(a: &MempoolEntry, b: &MempoolEntry) -> (r: bool)
    ensures
        r == outranks(*a, *b),
{
    a.priority > b.priority || (a.priority == b.priority && a.gas_price > b.gas_price)
}

/// A transaction that was confirmed, or rejected, does not wait any more.
pub proof fn settled_do_not_wait(pending: Seq<MempoolEntry>, hashes: Seq<[u8; 32]>, hash: [u8; 32])
    requires
        keyed::unique_keys(pending),
        hashes.contains(hash),
    ensures
        !is_waiting(pending.filter(not_among(hashes)), hash),
{
    keyed::filter_keeps_unique(pending, not_among(hashes));
    let q = pending.filter(not_among(hashes));
    if is_waiting(q, hash) {
        let i = choose|i: int| 0 <= i < q.len() && (#[trigger] q[i]).key() == hash@;
        assert(not_among(hashes)(q[i]));
        assert(q[i].tx_hash =~= hash);
    }
}

/// What becomes of a transaction that is offered goes by where it stands: one that is confirmed,
/// rejected or waits is told so, and nothing changes; one that is not known waits afterwards and
/// is counted, unless the pool has no room at all.
pub proof fn known_transactions_are_told(
    before: MempoolManager,
    after: MempoolManager,
    entry: MempoolEntry,
    r: Result<bool, MempoolError>,
)
    requires
        before.wf(),
        before.offered(&after, entry, r),
    ensures
        ({
            let s = before.status_of(entry.tx_hash);
            let room = before.limits().max_pending_txs > 0;
            &&& r == Err::<bool, MempoolError>(MempoolError::AlreadyConfirmed) <==> s
                == MempoolStatus::Confirmed
            &&& r == Err::<bool, MempoolError>(MempoolError::AlreadyRejected) <==> s
                == MempoolStatus::Rejected
            &&& r == Ok::<bool, MempoolError>(false) <==> s == MempoolStatus::Pending
            &&& r == Ok::<bool, MempoolError>(true) <==> s == MempoolStatus::Expired && room
            &&& r == Err::<bool, MempoolError>(MempoolError::MempoolFull) <==> s
                == MempoolStatus::Expired && !room
            &&& r == Ok::<bool, MempoolError>(true) ==> is_waiting(after.pending(), entry.tx_hash)
                && after.counts().total_added == before.counts().total_added + 1
            &&& r != Ok::<bool, MempoolError>(true) ==> after.pending() == before.pending()
                && after.confirmed() == before.confirmed() && after.rejected()
                == before.rejected() && after.counts() == before.counts()
        }),
{
    if is_waiting(before.pending(), entry.tx_hash) {
        let i = choose|i: int|
            0 <= i < before.pending().len() && (#[trigger] before.pending()[i]).key()
                == entry.tx_hash@;
        assert(before.pending()[i].tx_hash =~= entry.tx_hash);
    }
    if r == Ok::<bool, MempoolError>(true) {
        let q = after.pending();
        assert(q[q.len() - 1] == entry);
        assert(q[q.len() - 1].key() == entry.tx_hash@);
    }
}

/// A pool never holds more than its limit, and every transaction that was added waits or was
/// counted once when it left.
pub proof fn every_transaction_is_accounted_for(m: MempoolManager)
    requires
        m.wf(),
    ensures
        m.pending().len() <= m.limits().max_pending_txs,
        m.counts().total_added == m.pending().len() + m.counts().total_confirmed
            + m.counts().total_rejected + m.counts().total_expired + m.counts().total_evicted,
{
}

/// Among the known hashes, those that came last are kept when the limit is passed, and all are
/// kept when it is not.
pub proof fn newest_are_kept(known: Seq<[u8; 32]>, limit: usize, i: int)
    requires
        0 <= i < known.len(),
        known.len() <= limit || i >= known.len() - limit as int / 2,
    ensures
        trimmed(known, limit).contains(known[i]),
        trimmed(known, limit).len() == if known.len() <= limit {
            known.len() as int
        } else {
            limit as int / 2
        },
{
    if known.len() > limit {
        let d = known.len() - limit as int / 2;
        assert(trimmed(known, limit)[i - d] == known[i]);
    }
}

/// What was just confirmed or rejected is remembered, as long as the limit is not passed: such a
/// transaction cannot be added again.
pub proof fn settled_are_remembered(
    known: Seq<[u8; 32]>,
    hashes: Seq<[u8; 32]>,
    limit: usize,
    hash: [u8; 32],
)
    requires
        known.no_duplicates(),
        hashes.contains(hash) || known.contains(hash),
        remembered(known, hashes).len() <= limit,
    ensures
        trimmed(remembered(known, hashes), limit).contains(hash),
{
    remembered_grows(known, hashes);
}

proof fn remembered_grows(known: Seq<[u8; 32]>, hashes: Seq<[u8; 32]>)
    requires
        known.no_duplicates(),
    ensures
        remembered(known, hashes).no_duplicates(),
        forall|h: [u8; 32]|
            #[trigger] remembered(known, hashes).contains(h) == (known.contains(h)
                || hashes.contains(h)),
    decreases hashes.len(),
{
    if hashes.len() > 0 {
        let rest = hashes.drop_last();
        let last = hashes.last();
        remembered_grows(known, rest);
        let front = remembered(known, rest);
        let all = remembered(known, hashes);
        assert forall|h: [u8; 32]| hashes.contains(h) == (rest.contains(h) || h == last) by {
            if rest.contains(h) {
                let i = choose|i: int| 0 <= i < rest.len() && rest[i] == h;
                assert(hashes[i] == h);
            }
            if h == last {
                assert(hashes[hashes.len() - 1] == h);
            }
            if hashes.contains(h) {
                let i = choose|i: int| 0 <= i < hashes.len() && hashes[i] == h;
                if i < rest.len() {
                    assert(rest[i] == h);
                }
            }
        }
        if !front.contains(last) {
            assert forall|h: [u8; 32]| all.contains(h) == (front.contains(h) || h == last) by {
                if front.contains(h) {
                    let i = choose|i: int| 0 <= i < front.len() && front[i] == h;
                    assert(all[i] == h);
                }
                if h == last {
                    assert(all[front.len() as int] == h);
                }
                if all.contains(h) {
                    let i = choose|i: int| 0 <= i < all.len() && all[i] == h;
                    if i < front.len() {
                        assert(front[i] == h);
                    }
                }
            }
            assert forall|i: int, j: int|
                0 <= i < all.len() && 0 <= j < all.len() && i != j implies all[i] != all[j] by {
                if i < front.len() {
                    assert(all[i] == front[i] && front.contains(front[i]));
                }
                if j < front.len() {
                    assert(all[j] == front[j] && front.contains(front[j]));
                }
            }
        }
    }
}

proof fn trimmed_is_part(known: Seq<[u8; 32]>, limit: usize)
    requires
        known.no_duplicates(),
    ensures
        trimmed(known, limit).no_duplicates(),
        trimmed(known, limit).len() <= limit,
        forall|h: [u8; 32]| #[trigger] trimmed(known, limit).contains(h) ==> known.contains(h),
{
    let t = trimmed(known, limit);
    if known.len() > limit {
        let d = known.len() - limit as int / 2;
        assert forall|h: [u8; 32]| #[trigger] t.contains(h) implies known.contains(h) by {
            let i = choose|i: int| 0 <= i < t.len() && t[i] == h;
            assert(known[i + d] == h);
        }
    }
}

/// The transactions that wait for a block.
#[derive(Debug)]
pub struct MempoolManager {
    pending_txs: Vec<MempoolEntry>,
    confirmed_hashes: Vec<[u8; 32]>,
    rejected_hashes: Vec<[u8; 32]>,
    config: MempoolConfig,
    stats: MempoolStats,
}

impl MempoolManager {
    /// The transactions that wait, in the order in which they came.
    pub closed spec fn pending(&self) -> Seq<MempoolEntry> {
        self.pending_txs@
    }

    /// The hashes of confirmed transactions, in the order in which they came.
    pub closed spec fn confirmed(&self) -> Seq<[u8; 32]> {
        self.confirmed_hashes@
    }

    /// The hashes of rejected transactions, in the order in which they came.
    pub closed spec fn rejected(&self) -> Seq<[u8; 32]> {
        self.rejected_hashes@
    }

    /// The limits.
    pub closed spec fn limits(&self) -> MempoolConfig {
        self.config
    }

    /// What was counted.
    pub closed spec fn counts(&self) -> MempoolStats {
        self.stats
    }

    /// No transaction waits twice, none that is confirmed or rejected waits, every limit is kept,
    /// and every transaction that was added waits or was counted once when it left.
    pub open spec fn wf(&self) -> bool {
        &&& keyed::unique_keys(self.pending())
        &&& self.pending().len() <= self.limits().max_pending_txs
        &&& self.balanced()
        &&& self.confirmed().no_duplicates()
        &&& self.rejected().no_duplicates()
        &&& self.confirmed().len() <= self.limits().max_confirmed_cache
        &&& self.rejected().len() <= self.limits().max_rejected_cache
        &&& forall|i: int|
            0 <= i < self.pending().len() ==> !self.confirmed().contains(
                (#[trigger] self.pending()[i]).tx_hash,
            ) && !self.rejected().contains(self.pending()[i].tx_hash)
    }

    /// Whether every transaction that was added waits, or was counted once as confirmed, rejected,
    /// expired or evicted.
    pub open spec fn balanced(&self) -> bool {
        let c = self.counts();
        c.total_added == self.pending().len() + c.total_confirmed + c.total_rejected
            + c.total_expired + c.total_evicted
    }

    /// Whether `next` is `self` after a transaction was offered, with this answer: one that is
    /// known, or that a pool without room is offered, changes nothing. When the pool is full, the
    /// transaction that came first gives way.
    pub open spec fn offered(
        &self,
        next: &Self,
        entry: MempoolEntry,
        r: Result<bool, MempoolError>,
    ) -> bool {
        let full = self.pending().len() >= self.limits().max_pending_txs;
        &&& next.limits() == self.limits()
        &&& next.confirmed() == self.confirmed()
        &&& next.rejected() == self.rejected()
        &&& r == (if self.confirmed().contains(entry.tx_hash) {
            Err(MempoolError::AlreadyConfirmed)
        } else if self.rejected().contains(entry.tx_hash) {
            Err(MempoolError::AlreadyRejected)
        } else if is_waiting(self.pending(), entry.tx_hash) {
            Ok(false)
        } else if self.limits().max_pending_txs == 0 {
            Err(MempoolError::MempoolFull)
        } else {
            Ok(true)
        })
        &&& if r == Ok::<bool, MempoolError>(true) {
            &&& next.pending() == (if full {
                self.pending().drop_first()
            } else {
                self.pending()
            }).push(entry)
            &&& next.counts().total_added == self.counts().total_added + 1
            &&& next.counts().total_evicted == self.counts().total_evicted + if full {
                1int
            } else {
                0int
            }
            &&& next.counts().total_confirmed == self.counts().total_confirmed
            &&& next.counts().total_rejected == self.counts().total_rejected
            &&& next.counts().total_expired == self.counts().total_expired
            &&& next.counts().last_cleanup == self.counts().last_cleanup
        } else {
            &&& next.pending() == self.pending()
            &&& next.counts() == self.counts()
        }
    }

    /// An empty pool with the usual limits.
    pub fn new() -> (r: Self)
        ensures
            r.wf(),
            r.pending().len() == 0,
            r.confirmed().len() == 0,
            r.rejected().len() == 0,
            r.limits() == default_config(),
            r.counts() == no_stats(),
    {
        Self::with_config(MempoolConfig::default())
    }

    /// An empty pool.
    pub fn with_config(config: MempoolConfig) -> (r: Self)
        ensures
            r.wf(),
            r.pending().len() == 0,
            r.confirmed().len() == 0,
            r.rejected().len() == 0,
            r.limits() == config,
            r.counts() == no_stats(),
    {
        MempoolManager {
            pending_txs: Vec::new(),
            confirmed_hashes: Vec::new(),
            rejected_hashes: Vec::new(),
            config,
            stats: MempoolStats::default(),
        }
    }

    /// Adds a transaction unless it is known; says whether it was added. When the pool is full,
    /// the transaction that came first gives way.
    pub fn add_transaction(&mut self, entry: MempoolEntry) -> (r: Result<bool, MempoolError>)
        requires
            old(self).wf(),
            old(self).counts().total_added < u64::MAX,
        ensures
            final(self).wf(),
            old(self).offered(final(self), entry, r),
    {
        if contains_hash(self.confirmed_hashes.as_slice(), &entry.tx_hash) {
            return Err(MempoolError::AlreadyConfirmed);
        }
        if contains_hash(self.rejected_hashes.as_slice(), &entry.tx_hash) {
            return Err(MempoolError::AlreadyRejected);
        }
        if keyed::find(&self.pending_txs, entry.tx_hash.as_slice()).is_some() {
            return Ok(false);
        }
        if self.config.max_pending_txs == 0 {
            return Err(MempoolError::MempoolFull);
        }
        let ghost p0 = self.pending_txs@;
        if self.pending_txs.len() >= self.config.max_pending_txs {
            let _ = self.pending_txs.remove(0);
            assert(self.pending_txs@ =~= p0.drop_first());
            self.stats.total_evicted = self.stats.total_evicted + 1;
        }
        let ghost p1 = self.pending_txs@;
        self.pending_txs.push(entry);
        self.stats.total_added = self.stats.total_added + 1;
        proof {
            let p2 = self.pending_txs@;
            let d = p0.len() - p1.len();
            assert forall|i: int| 0 <= i < p1.len() implies #[trigger] p2[i] == p0[i + d] by {}
            assert forall|i: int, j: int| 0 <= i < j < p2.len() implies (#[trigger] p2[i]).key() != (
            #[trigger] p2[j]).key() by {
                assert(p2[i] == p0[i + d]);
                if j < p1.len() {
                    assert(p2[j] == p0[j + d]);
                }
            }
            assert forall|i: int| 0 <= i < p2.len() implies !self.confirmed().contains(
                (#[trigger] p2[i]).tx_hash,
            ) && !self.rejected().contains(p2[i].tx_hash) by {
                if i < p1.len() {
                    assert(p2[i] == p0[i + d]);
                }
            }
        }
        Ok(true)
    }

    /// Takes the given transactions out of those that wait; says how many waited.
    fn take_out(&mut self, tx_hashes: &[[u8; 32]]) -> (r: usize)
        requires
            keyed::unique_keys(old(self).pending()),
        ensures
            final(self).confirmed() == old(self).confirmed(),
            final(self).rejected() == old(self).rejected(),
            final(self).limits() == old(self).limits(),
            final(self).counts() == old(self).counts(),
            final(self).pending() == old(self).pending().filter(not_among(tx_hashes@)),
            keyed::unique_keys(final(self).pending()),
            r == old(self).pending().len() - final(self).pending().len(),
    {
        let ghost p0 = self.pending();
        let before: usize = self.pending_txs.len();
        let keep = |e: &MempoolEntry| -> (b: bool)
            ensures
                b == not_among(tx_hashes@)(*e),
            { !contains_hash(tx_hashes, &e.tx_hash) };
        proof {
            keyed::filter_keeps_unique(p0, not_among(tx_hashes@));
        }
        keyed::retain(&mut self.pending_txs, keep, Ghost(not_among(tx_hashes@)));
        before - self.pending_txs.len()
    }

    /// Takes note that transactions are in a final block; says how many of them waited.
    pub fn confirm_transactions(&mut self, tx_hashes: &[[u8; 32]]) -> (r: usize)
        requires
            old(self).wf(),
        ensures
            final(self).wf(),
            final(self).limits() == old(self).limits(),
            final(self).pending() == old(self).pending().filter(not_among(tx_hashes@)),
            final(self).confirmed() == trimmed(
                remembered(old(self).confirmed(), tx_hashes@),
                old(self).limits().max_confirmed_cache,
            ),
            final(self).rejected() == old(self).rejected(),
            r == old(self).pending().len() - final(self).pending().len(),
            final(self).counts() == (MempoolStats {
                total_confirmed: (old(self).counts().total_confirmed + r) as u64,
                ..old(self).counts()
            }),
    {
        let ghost p0 = self.pending();
        let ghost c0 = self.confirmed();
        let count: usize = self.take_out(tx_hashes);
        remember(&mut self.confirmed_hashes, tx_hashes);
        self.stats.total_confirmed = self.stats.total_confirmed + count as u64;
        trim(&mut self.confirmed_hashes, self.config.max_confirmed_cache);
        proof {
            remembered_grows(c0, tx_hashes@);
            trimmed_is_part(remembered(c0, tx_hashes@), self.limits().max_confirmed_cache);
            keyed::filter_keeps_unique(p0, not_among(tx_hashes@));
            let p = self.pending();
            assert forall|i: int| 0 <= i < p.len() implies !self.confirmed().contains(
                (#[trigger] p[i]).tx_hash,
            ) && !self.rejected().contains(p[i].tx_hash) by {
                assert(not_among(tx_hashes@)(p[i]));
                let k = choose|k: int| 0 <= k < p0.len() && p0[k] == p[i];
                assert(!c0.contains(p0[k].tx_hash));
                assert(!remembered(c0, tx_hashes@).contains(p[i].tx_hash));
            }
        }
        count
    }

    /// Takes note that transactions are rejected; says how many of them waited.
    pub fn reject_transactions(&mut self, tx_hashes: &[[u8; 32]]) -> (r: usize)
        requires
            old(self).wf(),
        ensures
            final(self).wf(),
            final(self).limits() == old(self).limits(),
            final(self).pending() == old(self).pending().filter(not_among(tx_hashes@)),
            final(self).confirmed() == old(self).confirmed(),
            final(self).rejected() == trimmed(
                remembered(old(self).rejected(), tx_hashes@),
                old(self).limits().max_rejected_cache,
            ),
            r == old(self).pending().len() - final(self).pending().len(),
            final(self).counts() == (MempoolStats {
                total_rejected: (old(self).counts().total_rejected + r) as u64,
                ..old(self).counts()
            }),
    {
        let ghost p0 = self.pending();
        let ghost c0 = self.rejected();
        let count: usize = self.take_out(tx_hashes);
        remember(&mut self.rejected_hashes, tx_hashes);
        self.stats.total_rejected = self.stats.total_rejected + count as u64;
        trim(&mut self.rejected_hashes, self.config.max_rejected_cache);
        proof {
            remembered_grows(c0, tx_hashes@);
            trimmed_is_part(remembered(c0, tx_hashes@), self.limits().max_rejected_cache);
            keyed::filter_keeps_unique(p0, not_among(tx_hashes@));
            let p = self.pending();
            assert forall|i: int| 0 <= i < p.len() implies !self.confirmed().contains(
                (#[trigger] p[i]).tx_hash,
            ) && !self.rejected().contains(p[i].tx_hash) by {
                assert(not_among(tx_hashes@)(p[i]));
                let k = choose|k: int| 0 <= k < p0.len() && p0[k] == p[i];
                assert(!c0.contains(p0[k].tx_hash));
                assert(!remembered(c0, tx_hashes@).contains(p[i].tx_hash));
            }
        }
        count
    }

    /// Takes a masternode's word on which transactions are confirmed and which rejected.
    pub fn process_mempool_sync(
        &mut self,
        confirmed_txs: &[[u8; 32]],
        rejected_txs: &[[u8; 32]],
    ) -> (r: MempoolSyncResult)
        requires
            old(self).wf(),
        ensures
            final(self).wf(),
            final(self).limits() == old(self).limits(),
            final(self).pending() == old(self).pending().filter(not_among(confirmed_txs@)).filter(
                not_among(rejected_txs@),
            ),
            final(self).confirmed() == trimmed(
                remembered(old(self).confirmed(), confirmed_txs@),
                old(self).limits().max_confirmed_cache,
            ),
            final(self).rejected() == trimmed(
                remembered(old(self).rejected(), rejected_txs@),
                old(self).limits().max_rejected_cache,
            ),
            r.confirmed_count == old(self).pending().len() - old(self).pending().filter(
                not_among(confirmed_txs@),
            ).len(),
            r.rejected_count == old(self).pending().filter(not_among(confirmed_txs@)).len() - final(self).pending().len(),
            r.remaining_pending == final(self).pending().len(),
            final(self).counts() == (MempoolStats {
                total_confirmed: (old(self).counts().total_confirmed + r.confirmed_count) as u64,
                total_rejected: (old(self).counts().total_rejected + r.rejected_count) as u64,
                ..old(self).counts()
            }),
    {
        let confirmed_count: usize = self.confirm_transactions(confirmed_txs);
        let rejected_count: usize = self.reject_transactions(rejected_txs);
        MempoolSyncResult {
            confirmed_count,
            rejected_count,
            remaining_pending: self.pending_txs.len(),
        }
    }

    /// Whether `next` is `self` after the transactions were dropped that are too old at `now`.
    pub open spec fn cleaned_up(&self, next: &MempoolManager, now: u64) -> bool {
        let cutoff = now - self.limits().max_tx_age_seconds;
        &&& next.pending() == self.pending().filter(added_since(cutoff))
        &&& next.confirmed() == self.confirmed()
        &&& next.rejected() == self.rejected()
        &&& next.limits() == self.limits()
        &&& next.counts() == (MempoolStats {
            total_expired: (self.counts().total_expired + (self.pending().len()
                - next.pending().len())) as u64,
            last_cleanup: now,
            ..self.counts()
        })
    }

    /// Whether `next` is `self` after a clean-up where the clock reads `now`: nothing is done as
    /// long as it reads less than the greatest age.
    pub open spec fn cleaned_up_as_read(&self, next: &MempoolManager, now: u64) -> bool {
        if now < self.limits().max_tx_age_seconds {
            *next == *self
        } else {
            self.cleaned_up(next, now)
        }
    }

    /// Drops the transactions that are too old at the time `now`; says how many.
    pub fn cleanup_expired_at(&mut self, now: u64) -> (r: usize)
        requires
            old(self).wf(),
            old(self).limits().max_tx_age_seconds <= now,
        ensures
            final(self).wf(),
            old(self).cleaned_up(final(self), now),
            r == old(self).pending().len() - final(self).pending().len(),
    {
        let ghost p0 = self.pending();
        let cutoff: u64 = now - self.config.max_tx_age_seconds;
        let ghost p = added_since(cutoff as int);
        let before: usize = self.pending_txs.len();
        let keep = |e: &MempoolEntry| -> (b: bool)
            ensures
                b == p(*e),
            { e.added_at >= cutoff };
        proof {
            keyed::filter_keeps_unique(p0, p);
        }
        keyed::retain(&mut self.pending_txs, keep, Ghost(p));
        let count: usize = before - self.pending_txs.len();
        self.stats.total_expired = self.stats.total_expired + count as u64;
        self.stats.last_cleanup = now;
        proof {
            let q = self.pending();
            assert forall|i: int| 0 <= i < q.len() implies !self.confirmed().contains(
                (#[trigger] q[i]).tx_hash,
            ) && !self.rejected().contains(q[i].tx_hash) by {
                let k = choose|k: int| 0 <= k < p0.len() && p0[k] == q[i];
                assert(!self.confirmed().contains(p0[k].tx_hash));
            }
        }
        count
    }

    /// Drops the transactions that are too old now; says how many. As long as the clock reads
    /// less than the greatest age, nothing is done.
    pub fn cleanup_expired(&mut self) -> (r: usize)
        requires
            old(self).wf(),
        ensures
            final(self).wf(),
            r == old(self).pending().len() - final(self).pending().len(),
            exists|now: u64| #[trigger] old(self).cleaned_up_as_read(final(self), now),
    {
        let now: u64 = unix_seconds();
        if now < self.config.max_tx_age_seconds {
            assert(old(self).cleaned_up_as_read(self, now));
            return 0;
        }
        let r: usize = self.cleanup_expired_at(now);
        assert(old(self).cleaned_up_as_read(self, now));
        r
    }

    /// The transactions for a block, at most so many: those that come first by priority and price,
    /// in that order.
    pub fn get_transactions_for_block(&self, max_count: usize) -> (r: Vec<&MempoolEntry>)
        ensures
            best_of(r@.unref(), self.pending(), max_count as nat),
    {
        let ghost p = self.pending();
        let mut order: Vec<usize> = Vec::new();
        let mut i: usize = 0;
        while i < self.pending_txs.len()
            invariant
                i <= self.pending_txs@.len(),
                p == self.pending_txs@,
                best_places(order@, p, i as int, max_count as nat),
            decreases self.pending_txs@.len() - i,
        {
            let ghost before = order@;
            let mut at: usize = order.len();
            while at > 0 && ranks_above(&self.pending_txs[i], &self.pending_txs[order[at - 1]])
                invariant
                    i < self.pending_txs@.len(),
                    p == self.pending_txs@,
                    at <= order@.len(),
                    best_places(order@, p, i as int, max_count as nat),
                    forall|k: int|
                        at <= k < order@.len() ==> outranks(
                            p[i as int],
                            p[#[trigger] order@[k] as int],
                        ),
                decreases at,
            {
                at -= 1;
            }
            if at < max_count {
                order.insert(at, i);
                let ghost longer = order@;
                order.truncate(max_count);
                proof {
                    assert(order@ =~= if longer.len() <= max_count {
                        longer
                    } else {
                        longer.take(max_count as int)
                    });
                    insert_keeps_best(
                        before,
                        longer,
                        order@,
                        p,
                        i as int,
                        max_count as nat,
                        at as int,
                    );
                }
            } else {
                proof {
                    full_keeps_best(before, p, i as int, max_count as nat);
                }
            }
            i += 1;
        }
        let mut out: Vec<&MempoolEntry> = Vec::new();
        let mut k: usize = 0;
        while k < order.len()
            invariant
                k <= order@.len(),
                p == self.pending_txs@,
                best_places(order@, p, p.len() as int, max_count as nat),
                out@.len() == k,
                forall|j: int| 0 <= j < k ==> *(#[trigger] out@[j]) == p[order@[j] as int],
            decreases order@.len() - k,
        {
            out.push(&self.pending_txs[order[k]]);
            k += 1;
        }
        proof {
            let t = out@.unref();
            assert(t.len() == order@.len());
            assert forall|j: int| 0 <= j < t.len() implies #[trigger] t[j] == p[order@[j] as int] by {
                assert(*out@[j] == p[order@[j] as int]);
            }
            assert forall|a: int, b: int| 0 <= a < b < t.len() implies !outranks(
                #[trigger] t[b],
                #[trigger] t[a],
            ) by {
                assert(t[a] == p[order@[a] as int] && t[b] == p[order@[b] as int]);
            }
            assert(places_of(order@, t, p));
        }
        out
    }

    /// Whether a transaction waits.
    pub fn contains(&self, tx_hash: &[u8; 32]) -> (r: bool)
        ensures
            r == is_waiting(self.pending(), *tx_hash),
    {
        keyed::find(&self.pending_txs, tx_hash.as_slice()).is_some()
    }

    /// Where a transaction stands. One that is not known counts as expired.
    pub fn get_status(&self, tx_hash: &[u8; 32]) -> (r: MempoolStatus)
        ensures
            r == self.status_of(*tx_hash),
    {
        if self.contains(tx_hash) {
            MempoolStatus::Pending
        } else if contains_hash(self.confirmed_hashes.as_slice(), tx_hash) {
            MempoolStatus::Confirmed
        } else if contains_hash(self.rejected_hashes.as_slice(), tx_hash) {
            MempoolStatus::Rejected
        } else {
            MempoolStatus::Expired
        }
    }

    /// Where a transaction stands.
    pub open spec fn status_of(&self, tx_hash: [u8; 32]) -> MempoolStatus {
        if is_waiting(self.pending(), tx_hash) {
            MempoolStatus::Pending
        } else if self.confirmed().contains(tx_hash) {
            MempoolStatus::Confirmed
        } else if self.rejected().contains(tx_hash) {
            MempoolStatus::Rejected
        } else {
            MempoolStatus::Expired
        }
    }

    /// What was counted.
    pub fn get_stats(&self) -> (r: &MempoolStats)
        ensures
            *r == self.counts(),
    {
        &self.stats
    }

    /// How many transactions wait.
    pub fn pending_count(&self) -> (r: usize)
        ensures
            r == self.pending().len(),
    {
        self.pending_txs.len()
    }
}

impl Default for MempoolManager {
    fn default() -> (r: Self)
        ensures
            r.wf(),
            r.pending().len() == 0,
            r.confirmed().len() == 0,
            r.rejected().len() == 0,
            r.limits() == default_config(),
            r.counts() == no_stats(),
    {
        Self::new()
    }
}

fn remember(known: &mut Vec<[u8; 32]>, hashes: &[[u8; 32]])
    ensures
        final(known)@ == remembered(old(known)@, hashes@),
{
    let ghost k0 = known@;
    let mut i: usize = 0;
    assert(hashes@.take(0) =~= Seq::<[u8; 32]>::empty());
    while i < hashes.len()
        invariant
            i <= hashes@.len(),
            known@ == remembered(k0, hashes@.take(i as int)),
        decreases hashes@.len() - i,
    {
        assert(hashes@.take(i + 1).drop_last() =~= hashes@.take(i as int));
        if !contains_hash(known.as_slice(), &hashes[i]) {
            known.push(hashes[i]);
        }
        i += 1;
    }
    assert(hashes@.take(i as int) =~= hashes@);
}

fn trim(known: &mut Vec<[u8; 32]>, limit: usize)
    ensures
        final(known)@ == trimmed(old(known)@, limit),
{
    if known.len() > limit {
        let at: usize = known.len() - limit / 2;
        let mut tail = known.split_off(at);
        std::mem::swap(known, &mut tail);
        assert(known@ =~= old(known)@.skip(at as int));
    }
}

/// A transaction that waits goes on waiting exactly if its hash is not among those settled.
pub proof fn only_the_settled_leave(pending: Seq<MempoolEntry>, hashes: Seq<[u8; 32]>, i: int)
    requires
        keyed::unique_keys(pending),
        0 <= i < pending.len(),
    ensures
        pending.filter(not_among(hashes)).contains(pending[i]) <==> forall|k: int|
            0 <= k < hashes.len() ==> #[trigger] hashes[k] != pending[i].tx_hash,
        forall|e: MempoolEntry|
            pending.filter(not_among(hashes)).contains(e) ==> pending.contains(e),
{
    keyed::filter_keeps_the_wanted(pending, not_among(hashes), pending[i]);
    assert forall|e: MempoolEntry| pending.filter(not_among(hashes)).contains(e) implies
        pending.contains(e) by {
        keyed::filter_keeps_the_wanted(pending, not_among(hashes), e);
    }
    if !not_among(hashes)(pending[i]) {
        let k = choose|k: int| 0 <= k < hashes.len() && hashes[k] == pending[i].tx_hash;
        assert(hashes[k] == pending[i].tx_hash);
    }
}

/// The hashes that are known of after some are settled are those known before and the settled
/// ones, each once, and the old ones come first.
pub proof fn the_settled_are_added(known: Seq<[u8; 32]>, hashes: Seq<[u8; 32]>)
    requires
        known.no_duplicates(),
    ensures
        remembered(known, hashes).no_duplicates(),
        remembered(known, hashes).to_set() == known.to_set().union(hashes.to_set()),
        known.is_prefix_of(remembered(known, hashes)),
    decreases hashes.len(),
{
    remembered_grows(known, hashes);
    assert(remembered(known, hashes).to_set() =~= known.to_set().union(hashes.to_set()));
    if hashes.len() > 0 {
        the_settled_are_added(known, hashes.drop_last());
    }
}

/// At a cleanup the transactions leave that were added longer ago than the limit, and no others;
/// they are counted as expired, and nothing else changes but the time of the last cleanup.
pub proof fn old_transactions_expire(
    before: MempoolManager,
    after: MempoolManager,
    now: u64,
    e: MempoolEntry,
)
    requires
        before.wf(),
        before.cleaned_up(&after, now),
        before.limits().max_tx_age_seconds <= now,
    ensures
        after.pending().contains(e) <==> before.pending().contains(e) && now - e.added_at
            <= before.limits().max_tx_age_seconds,
        after.confirmed() == before.confirmed(),
        after.rejected() == before.rejected(),
        after.limits() == before.limits(),
        after.counts().last_cleanup == now,
        after.counts().total_added == before.counts().total_added,
        after.counts().total_confirmed == before.counts().total_confirmed,
        after.counts().total_rejected == before.counts().total_rejected,
        after.counts().total_evicted == before.counts().total_evicted,
        after.counts().total_expired - before.counts().total_expired == before.pending().len()
            - after.pending().len(),
{
    let cutoff = now - before.limits().max_tx_age_seconds;
    keyed::filter_keeps_the_wanted(before.pending(), added_since(cutoff), e);
    keyed::filter_keeps_unique(before.pending(), added_since(cutoff));
}

/// A new transaction comes last. Where there is room the others keep their places; where there
/// is none, the one that has waited longest makes room and is counted as evicted.
pub proof fn room_is_made_by_the_oldest(
    before: MempoolManager,
    after: MempoolManager,
    entry: MempoolEntry,
    r: Result<bool, MempoolError>,
    i: int,
)
    requires
        before.wf(),
        before.offered(&after, entry, r),
        r == Ok::<bool, MempoolError>(true),
        0 <= i < before.pending().len(),
    ensures
        after.pending().last() == entry,
        before.pending().len() < before.limits().max_pending_txs ==> after.pending().len()
            == before.pending().len() + 1 && after.pending()[i] == before.pending()[i]
            && after.counts().total_evicted == before.counts().total_evicted,
        before.pending().len() == before.limits().max_pending_txs ==> after.pending().len()
            == before.pending().len() && (i > 0 ==> after.pending()[i - 1] == before.pending()[i])
            && after.counts().total_evicted == before.counts().total_evicted + 1,
{
}

/// The transactions of a block are waiting ones, as many as are asked for or as there are. They
/// come by priority, and of equal priority by the price of gas. None that is left out is of
/// higher priority than one chosen, or of equal priority and at a higher price.
pub proof fn blocks_take_the_best(
    chosen: Seq<MempoolEntry>,
    pending: Seq<MempoolEntry>,
    count: nat,
    a: int,
    b: int,
    e: MempoolEntry,
)
    requires
        pending.len() <= usize::MAX,
        best_of(chosen, pending, count),
        0 <= a < b < chosen.len(),
        pending.contains(e),
        !chosen.contains(e),
    ensures
        chosen.len() <= count && chosen.len() <= pending.len(),
        chosen.len() == count || chosen.len() == pending.len(),
        pending.contains(chosen[a]),
        chosen[a].priority >= chosen[b].priority,
        chosen[a].priority == chosen[b].priority ==> chosen[a].gas_price >= chosen[b].gas_price,
        chosen[b].priority >= e.priority,
        chosen[b].priority == e.priority ==> chosen[b].gas_price >= e.gas_price,
{
    let places = choose|places: Seq<usize>| #[trigger] places_of(places, chosen, pending);
    assert(places[a] < pending.len() && chosen[a] == pending[places[a] as int]);
    let j = choose|j: int| 0 <= j < pending.len() && pending[j] == e;
    if places.contains(j as usize) {
        let k = choose|k: int| 0 <= k < places.len() && places[k] == j as usize;
        assert(places[k] < pending.len() && chosen[k] == pending[places[k] as int]);
        assert(chosen[k] == e);
    }
    assert(!outranks(pending[j], chosen[b]));
    assert(!outranks(chosen[b], chosen[a]));
}

/// What is said of a transaction is where its hash stands.
pub proof fn statuses_say_where_a_transaction_is(m: MempoolManager, hash: [u8; 32])
    requires
        m.wf(),
    ensures
        m.status_of(hash) is Pending <==> exists|i: int|
            0 <= i < m.pending().len() && (#[trigger] m.pending()[i]).tx_hash == hash,
        m.confirmed().contains(hash) ==> m.status_of(hash) is Confirmed,
        m.status_of(hash) is Confirmed ==> m.confirmed().contains(hash),
        m.rejected().contains(hash) && !m.confirmed().contains(hash) ==> m.status_of(
            hash,
        ) is Rejected,
        m.status_of(hash) is Rejected ==> m.rejected().contains(hash),
{
    if is_waiting(m.pending(), hash) {
        let i = choose|i: int| 0 <= i < m.pending().len() && m.pending()[i].key() == hash@;
        assert(m.pending()[i].tx_hash =~= hash);
    }
    if exists|i: int| 0 <= i < m.pending().len() && (#[trigger] m.pending()[i]).tx_hash == hash {
        let i = choose|i: int|
            0 <= i < m.pending().len() && (#[trigger] m.pending()[i]).tx_hash == hash;
        assert(m.pending()[i].key() == hash@);
    }
}

} // verus!
