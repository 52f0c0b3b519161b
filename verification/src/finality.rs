//! Finality: which blocks are final, which blocks are at hand, and which certificates still wait
//! for their block.
use vstd::prelude::*;

use crate::bytes;
use crate::bytes::push_bytes;
use crate::bytes::push_u64;
use crate::keyed;
use crate::keyed::Keyed;
use crate::messages::BlockFinalityEntry;
use crate::messages::BlockHeaderWire;
use crate::messages::BlockMessageWire;
use crate::messages::PendingCertificateFinality;

verus! {

/// How many blocks are kept at hand.
pub const BLOCK_CACHE_MAX: usize = 500;

/// How long a certificate waits for its block, in seconds.
pub const PENDING_CERT_TTL_SECS: u64 = 120;

/// How many certificates may wait.
pub const PENDING_CERT_MAX: usize = 2048;

/// What came of an attempt to finalize a block.
#[derive(Debug, Clone, Copy, PartialEq, Eq, Structural)]
pub enum FinalizeOutcome {
    /// The block is final now.
    Finalized,
    /// It had been final before.
    AlreadyFinalized,
    /// Another block of that height is final.
    HeightTaken,
    /// The block is not at hand.
    PayloadMissing,
}

impl FinalizeOutcome {
    /// Whether nothing is left to be done for the certificate.
    pub fn settled(&self) -> (r: bool)
        ensures
            r == (*self != FinalizeOutcome::PayloadMissing),
    {
        match self {
            FinalizeOutcome::PayloadMissing => false,
            _ => true,
        }
    }
}

/// The head of the chain as it is stored: the hash, then the height.
pub open spec fn chain_head_bytes(hash: Seq<u8>, height: u64) -> Seq<u8> {
    hash + bytes::u64_le(height)
}

/// Encodes the head of the chain.
pub fn encode_chain_head(hash: &[u8; 64], height: u64) -> (r: Vec<u8>)
    ensures
        r@ == chain_head_bytes(hash@, height),
        r@.len() == 72,
{
    proof {
        vstd::bytes::lemma_auto_spec_u64_to_from_le_bytes();
    }
    let mut out: Vec<u8> = Vec::new();
    push_bytes(&mut out, hash.as_slice());
    push_u64(&mut out, height);
    assert(out@ =~= chain_head_bytes(hash@, height));
    out
}

/// Why a stored chain head gives no height: it is shorter than a hash and a height.
#[derive(Debug, Clone, Copy, PartialEq, Eq, Structural)]
pub struct ShortChainHead {
    pub len: usize,
}

/// The height that a stored chain head gives.
pub fn decode_chain_head_height(data: &[u8]) -> (r: Result<u64, ShortChainHead>)
    ensures
        match r {
            Ok(height) => data@.len() >= 72 && bytes::u64_le(height) == data@.subrange(64, 72),
            Err(e) => data@.len() < 72 && e.len == data@.len(),
        },
{
    if data.len() < 72 {
        return Err(ShortChainHead { len: data.len() });
    }
    proof {
        vstd::bytes::lemma_auto_spec_u64_to_from_le_bytes();
    }
    let height: u64 = vstd::bytes::u64_from_le_bytes(
        vstd::slice::slice_subrange(data, 64, 72),
    );
    Ok(height)
}

/// Reading a stored chain head gives back the height that was written.
pub proof fn chain_head_round_trip(hash: Seq<u8>, height: u64, read: u64)
    requires
        hash.len() == 64,
        bytes::u64_le(read) == chain_head_bytes(hash, height).subrange(64, 72),
    ensures
        read == height,
{
    vstd::bytes::lemma_auto_spec_u64_to_from_le_bytes();
    assert(chain_head_bytes(hash, height).subrange(64, 72) =~= bytes::u64_le(height));
}

/// Whether a waiting certificate is still young enough.
pub open spec fn still_waiting(now: u64) -> spec_fn(PendingCertificateFinality) -> bool {
    |e: PendingCertificateFinality| now - e.received_at <= PENDING_CERT_TTL_SECS
}

/// Where, among the first `n` certificates, the one stands that came first.
pub open spec fn oldest_of(p: Seq<PendingCertificateFinality>, n: int) -> int
    decreases n,
{
    if n <= 1 {
        0
    } else {
        let m = oldest_of(p, n - 1);
        if p[n - 1].received_at < p[m].received_at {
            n - 1
        } else {
            m
        }
    }
}

/// The certificates left when the oldest ones over the limit are dropped.
pub open spec fn newest(p: Seq<PendingCertificateFinality>) -> Seq<PendingCertificateFinality>
    decreases p.len(),
{
    if p.len() <= PENDING_CERT_MAX {
        p
    } else {
        let i = oldest_of(p, p.len() as int);
        if 0 <= i < p.len() {
            newest(p.remove(i))
        } else {
            p
        }
    }
}

/// The certificates that still wait at the time `now`.
pub open spec fn pruned(p: Seq<PendingCertificateFinality>, now: u64) -> Seq<
    PendingCertificateFinality,
> {
    newest(p.filter(still_waiting(now)))
}

proof fn oldest_is_oldest(p: Seq<PendingCertificateFinality>, n: int)
    requires
        1 <= n <= p.len(),
    ensures
        0 <= oldest_of(p, n) < n,
        forall|j: int|
            0 <= j < n ==> p[oldest_of(p, n)].received_at <= (#[trigger] p[j]).received_at,
    decreases n,
{
    if n > 1 {
        oldest_is_oldest(p, n - 1);
    }
}

/// What is kept when the limit is passed: as many certificates as the limit allows, all of them
/// from before, none older than one that was dropped.
pub proof fn newest_keeps_the_newest(p: Seq<PendingCertificateFinality>)
    requires
        keyed::unique_keys(p),
    ensures
        keyed::unique_keys(newest(p)),
        newest(p).len() == if p.len() <= PENDING_CERT_MAX {
            p.len()
        } else {
            PENDING_CERT_MAX as nat
        },
        forall|e: PendingCertificateFinality| newest(p).contains(e) ==> p.contains(e),
        forall|e: PendingCertificateFinality, d: PendingCertificateFinality|
            newest(p).contains(e) && p.contains(d) && !newest(p).contains(d) ==> d.received_at
                <= e.received_at,
    decreases p.len(),
{
    if p.len() > PENDING_CERT_MAX {
        let i = oldest_of(p, p.len() as int);
        oldest_is_oldest(p, p.len() as int);
        let q = p.remove(i);
        assert forall|a: int, b: int| 0 <= a < b < q.len() implies (#[trigger] q[a]).key() != (
        #[trigger] q[b]).key() by {
            let a2 = if a < i { a } else { a + 1 };
            let b2 = if b < i { b } else { b + 1 };
            assert(q[a] == p[a2] && q[b] == p[b2]);
        }
        newest_keeps_the_newest(q);
        assert forall|e: PendingCertificateFinality| q.contains(e) implies p.contains(e) by {
            let a = choose|a: int| 0 <= a < q.len() && q[a] == e;
            assert(p[if a < i { a } else { a + 1 }] == e);
        }
        assert forall|e: PendingCertificateFinality, d: PendingCertificateFinality|
            newest(p).contains(e) && p.contains(d) && !newest(p).contains(d) implies d.received_at
            <= e.received_at by {
            let b = choose|b: int| 0 <= b < p.len() && p[b] == d;
            assert(q.contains(e));
            assert(p.contains(e));
            let a = choose|a: int| 0 <= a < p.len() && p[a] == e;
            if b == i {
                assert(p[i].received_at <= p[a].received_at);
            } else {
                assert(q[if b < i { b } else { b - 1 }] == d);
                assert(q.contains(d));
            }
        }
    }
}

/// A certificate that is young enough still waits, unless there are more than the limit allows.
pub proof fn young_certificate_waits(p: Seq<PendingCertificateFinality>, now: u64, i: int)
    requires
        keyed::unique_keys(p),
        0 <= i < p.len() <= PENDING_CERT_MAX,
        now - p[i].received_at <= PENDING_CERT_TTL_SECS,
    ensures
        pruned(p, now).contains(p[i]),
{
    keyed::filter_keeps_unique(p, still_waiting(now));
}

/// The blocks at hand after `block` came: the oldest gives way when there are too many, and a
/// block that comes again counts as new.
pub open spec fn cached_after(c: Seq<BlockMessageWire>, block: BlockMessageWire) -> Seq<
    BlockMessageWire,
> {
    keyed::without_key(
        if c.len() >= BLOCK_CACHE_MAX {
            c.drop_first()
        } else {
            c
        },
        block.hash@,
    ).push(block)
}

/// Which blocks are final, which are at hand, and which certificates wait.
pub struct FinalityTracker {
    block_cache: Vec<BlockMessageWire>,
    finalized_blocks: Vec<BlockFinalityEntry>,
    pending_certificate_finality: Vec<PendingCertificateFinality>,
}

impl FinalityTracker {
    /// The blocks at hand, the oldest first.
    pub closed spec fn cached(&self) -> Seq<BlockMessageWire> {
        self.block_cache@
    }

    /// The final blocks, in the order in which they became final.
    pub closed spec fn finalized(&self) -> Seq<BlockFinalityEntry> {
        self.finalized_blocks@
    }

    /// The certificates that wait for their block.
    pub closed spec fn waiting(&self) -> Seq<PendingCertificateFinality> {
        self.pending_certificate_finality@
    }

    /// Whether a block of this height is final.
    pub open spec fn height_taken(&self, height: u64) -> bool {
        exists|i: int|
            0 <= i < self.finalized().len() && (#[trigger] self.finalized()[i]).height == height
    }

    /// No block is at hand twice, final twice, or final at a height where another is; no
    /// certificate waits twice; and there are not too many of either.
    pub open spec fn wf(&self) -> bool {
        &&& keyed::unique_keys(self.cached())
        &&& self.cached().len() <= BLOCK_CACHE_MAX
        &&& keyed::unique_keys(self.finalized())
        &&& forall|i: int, j: int|
            0 <= i < j < self.finalized().len() ==> (#[trigger] self.finalized()[i]).height != (
            #[trigger] self.finalized()[j]).height
        &&& keyed::unique_keys(self.waiting())
        &&& self.waiting().len() <= PENDING_CERT_MAX + 1
    }

    /// What comes of an attempt to finalize a block.
    pub open spec fn finalize_outcome(&self, hash: Seq<u8>, height: u64) -> FinalizeOutcome {
        if keyed::contains_key(self.finalized(), hash) {
            FinalizeOutcome::AlreadyFinalized
        } else if self.height_taken(height) {
            FinalizeOutcome::HeightTaken
        } else if !keyed::contains_key(self.cached(), hash) {
            FinalizeOutcome::PayloadMissing
        } else {
            FinalizeOutcome::Finalized
        }
    }

    /// Whether `next` is `self` after an attempt, at the time `now`, to finalize a block.
    pub open spec fn finalize_step(
        &self,
        next: &FinalityTracker,
        hash: Seq<u8>,
        height: u64,
        group: Seq<char>,
        now: u64,
    ) -> bool {
        let outcome = self.finalize_outcome(hash, height);
        &&& next.cached() == self.cached()
        &&& if outcome == FinalizeOutcome::Finalized || outcome
            == FinalizeOutcome::AlreadyFinalized {
            next.waiting() == keyed::without_key(self.waiting(), hash)
        } else {
            next.waiting() == self.waiting()
        }
        &&& if outcome == FinalizeOutcome::Finalized {
            &&& next.finalized().len() == self.finalized().len() + 1
            &&& next.finalized().drop_last() == self.finalized()
            &&& next.finalized().last().block_hash@ == hash
            &&& next.finalized().last().height == height
            &&& next.finalized().last().proposer_group_id@ == group
            &&& next.finalized().last().finalized_at == now
            &&& next.finalized().last().confirmed_transactions@.len() == 0
            &&& next.finalized().last().rejected_transactions@.len() == 0
        } else {
            next.finalized() == self.finalized()
        }
    }

    /// Nothing final, nothing at hand, nothing waiting.
    pub fn new() -> (r: Self)
        ensures
            r.wf(),
            r.cached().len() == 0,
            r.finalized().len() == 0,
            r.waiting().len() == 0,
    {
        FinalityTracker {
            block_cache: Vec::new(),
            finalized_blocks: Vec::new(),
            pending_certificate_finality: Vec::new(),
        }
    }

    fn is_height_taken(&self, height: u64) -> (r: bool)
        ensures
            r == self.height_taken(height),
    {
        let mut i: usize = 0;
        while i < self.finalized_blocks.len()
            invariant
                i <= self.finalized_blocks@.len(),
                forall|j: int|
                    0 <= j < i ==> (#[trigger] self.finalized_blocks@[j]).height != height,
            decreases self.finalized_blocks@.len() - i,
        {
            if self.finalized_blocks[i].height == height {
                assert(self.finalized()[i as int].height == height);
                return true;
            }
            i += 1;
        }
        false
    }

    /// The block with this hash, if it is at hand.
    pub fn cached_block(&self, hash: &[u8; 64]) -> (r: Option<&BlockMessageWire>)
        ensures
            r is Some == keyed::contains_key(self.cached(), hash@),
            r matches Some(b) ==> b.hash@ == hash@ && self.cached().contains(*b),
    {
        match keyed::find(&self.block_cache, hash.as_slice()) {
            Some(i) => {
                assert(self.cached()[i as int] == self.block_cache@[i as int]);
                Some(&self.block_cache[i])
            },
            None => None,
        }
    }

    /// How many blocks are final.
    pub fn finalized_count(&self) -> (r: usize)
        ensures
            r == self.finalized().len(),
    {
        self.finalized_blocks.len()
    }

    /// How many certificates wait.
    pub fn waiting_count(&self) -> (r: usize)
        ensures
            r == self.waiting().len(),
    {
        self.pending_certificate_finality.len()
    }

    /// Makes a certified block final if it is at hand and neither it nor another block of its
    /// height is final.
    pub fn finalize_with_cached_payload(
        &mut self,
        block_hash: &[u8; 64],
        height: u64,
        proposer_group_id: String,
        now: u64,
    ) -> (r: FinalizeOutcome)
        requires
            old(self).wf(),
        ensures
            final(self).wf(),
            r == old(self).finalize_outcome(block_hash@, height),
            old(self).finalize_step(
                final(self),
                block_hash@,
                height,
                proposer_group_id@,
                now,
            ),
    {
        let ghost before = *self;
        proof {
            keyed::filter_keeps_unique(
                self.waiting(),
                |e: PendingCertificateFinality| e.key() != block_hash@,
            );
        }
        if keyed::find(&self.finalized_blocks, block_hash.as_slice()).is_some() {
            let _ = keyed::remove(&mut self.pending_certificate_finality, block_hash.as_slice());
            return FinalizeOutcome::AlreadyFinalized;
        }
        if self.is_height_taken(height) {
            return FinalizeOutcome::HeightTaken;
        }
        if keyed::find(&self.block_cache, block_hash.as_slice()).is_none() {
            return FinalizeOutcome::PayloadMissing;
        }
        let entry = BlockFinalityEntry {
            block_hash: *block_hash,
            height,
            proposer_group_id,
            confirmed_transactions: Vec::new(),
            rejected_transactions: Vec::new(),
            finalized_at: now,
        };
        self.finalized_blocks.push(entry);
        let _ = keyed::remove(&mut self.pending_certificate_finality, block_hash.as_slice());
        proof {
            let f = self.finalized();
            let b = before.finalized();
            assert(f.drop_last() =~= b);
            assert forall|i: int, j: int| 0 <= i < j < f.len() implies (#[trigger] f[i]).height != (
            #[trigger] f[j]).height && f[i].key() != f[j].key() by {
                assert(f[i] == b[i]);
                if j < b.len() {
                    assert(f[j] == b[j]);
                }
            }
        }
        FinalizeOutcome::Finalized
    }

    /// Drops the certificates that waited too long and the oldest of those over the limit.
    pub fn prune_pending_certificate_finality(&mut self, now: u64)
        requires
            old(self).wf(),
        ensures
            final(self).wf(),
            final(self).waiting() == pruned(old(self).waiting(), now),
            final(self).waiting().len() <= PENDING_CERT_MAX,
            final(self).cached() == old(self).cached(),
            final(self).finalized() == old(self).finalized(),
    {
        let ghost p0 = self.waiting();
        let ghost p = p0.filter(still_waiting(now));
        proof {
            keyed::filter_keeps_unique(p0, still_waiting(now));
            newest_keeps_the_newest(p);
        }
        let keep = |e: &PendingCertificateFinality| -> (r: bool)
            ensures
                r == still_waiting(now)(*e),
            { now.saturating_sub(e.received_at) <= PENDING_CERT_TTL_SECS };
        keyed::retain(
            &mut self.pending_certificate_finality,
            keep,
            Ghost(still_waiting(now)),
        );
        while self.pending_certificate_finality.len() > PENDING_CERT_MAX
            invariant
                newest(self.pending_certificate_finality@) == newest(p),
                self.block_cache == old(self).block_cache,
                self.finalized_blocks == old(self).finalized_blocks,
            decreases self.pending_certificate_finality@.len(),
        {
            let n: usize = self.pending_certificate_finality.len();
            let mut oldest: usize = 0;
            let mut i: usize = 1;
            while i < n
                invariant
                    1 <= i <= n,
                    n == self.pending_certificate_finality@.len(),
                    oldest < i,
                    oldest == oldest_of(self.pending_certificate_finality@, i as int),
                decreases n - i,
            {
                if self.pending_certificate_finality[i].received_at
                    < self.pending_certificate_finality[oldest].received_at {
                    oldest = i;
                }
                i += 1;
            }
            let _ = self.pending_certificate_finality.remove(oldest);
        }
    }

    /// Lets a certificate wait for its block, or renews the one that waits.
    pub fn enqueue_pending_certificate_finality(
        &mut self,
        block_hash: &[u8; 64],
        height: u64,
        proposer_group_id: String,
        now: u64,
    )
        requires
            old(self).wf(),
        ensures
            final(self).wf(),
            final(self).cached() == old(self).cached(),
            final(self).finalized() == old(self).finalized(),
            enqueued(
                pruned(old(self).waiting(), now),
                final(self).waiting(),
                block_hash@,
                height,
                proposer_group_id@,
                now,
            ),
    {
        let ghost group = proposer_group_id@;
        self.prune_pending_certificate_finality(now);
        let ghost p = self.waiting();
        let entry = PendingCertificateFinality {
            block_hash: *block_hash,
            height,
            proposer_group_id,
            received_at: now,
        };
        match keyed::find(&self.pending_certificate_finality, block_hash.as_slice()) {
            Some(i) => {
                self.pending_certificate_finality[i] = entry;
                let ghost q = self.waiting();
                assert forall|a: int, b: int| 0 <= a < b < q.len() implies (#[trigger] q[a]).key() != (#[trigger] q[b]).key() by {
                    assert(p[a].key() != p[b].key());
                }
                assert(q =~= p.update(i as int, q[i as int]));
                assert(enqueued_at(p, q, i as int, block_hash@, height, group, now));
            },
            None => {
                self.pending_certificate_finality.push(entry);
                let ghost q = self.waiting();
                assert forall|a: int, b: int| 0 <= a < b < q.len() implies (#[trigger] q[a]).key() != (#[trigger] q[b]).key() by {
                    assert(q[a] == p[a]);
                    if b < p.len() {
                        assert(q[b] == p[b]);
                    }
                }
                assert(q =~= p.push(q[p.len() as int]));
                assert(enqueued_at(p, q, p.len() as int, block_hash@, height, group, now));
            },
        }
    }

    /// Makes the block with this hash final if a certificate waits for it.
    pub fn try_finalize_pending_from_cache(&mut self, block_hash: &[u8; 64], now: u64) -> (r:
        Option<FinalizeOutcome>)
        requires
            old(self).wf(),
        ensures
            final(self).wf(),
            drained(old(self), final(self), block_hash@, now, r),
    {
        let ghost before = *self;
        self.prune_pending_certificate_finality(now);
        let ghost mid = *self;
        match keyed::find(&self.pending_certificate_finality, block_hash.as_slice()) {
            Some(i) => {
                let height: u64 = self.pending_certificate_finality[i].height;
                let group = self.pending_certificate_finality[i].proposer_group_id.clone();
                let r = self.finalize_with_cached_payload(block_hash, height, group, now);
                proof {
                    assert(mid.waiting()[i as int].key() == block_hash@);
                    assert(mid.finalize_outcome(block_hash@, height) == before.finalize_outcome(
                        block_hash@,
                        height,
                    ));
                    assert(drained_at(&before, self, block_hash@, now, i as int, r));
                }
                Some(r)
            },
            None => None,
        }
    }

    /// Keeps a block at hand, and makes it final if a certificate waits for it.
    pub fn cache_block_payload(
        &mut self,
        hash: [u8; 64],
        height: u64,
        proposer: [u8; 32],
        txs: Vec<Vec<u8>>,
        now: u64,
    ) -> (r: Option<FinalizeOutcome>)
        requires
            old(self).wf(),
        ensures
            final(self).wf(),
            final(self).cached() == cached_after(
                old(self).cached(),
                (BlockMessageWire {
                    hash,
                    header: (BlockHeaderWire { exec_height: height, proposer }),
                    txs,
                }),
            ),
            exists|mid: FinalityTracker|
                {
                    &&& mid.cached() == final(self).cached()
                    &&& mid.finalized() == old(self).finalized()
                    &&& mid.waiting() == old(self).waiting()
                    &&& #[trigger] drained(&mid, final(self), hash@, now, r)
                },
    {
        let ghost c0 = self.block_cache@;
        if self.block_cache.len() >= BLOCK_CACHE_MAX {
            let _ = self.block_cache.remove(0);
            assert(self.block_cache@ =~= c0.drop_first());
        }
        let ghost c1 = self.block_cache@;
        assert forall|a: int, b: int| 0 <= a < b < c1.len() implies (#[trigger] c1[a]).key() != (
        #[trigger] c1[b]).key() by {
            let d: int = if c0.len() >= BLOCK_CACHE_MAX { 1 } else { 0 };
            assert(c1[a] == c0[a + d] && c1[b] == c0[b + d]);
        }
        proof {
            keyed::filter_keeps_unique(c1, |e: BlockMessageWire| e.key() != hash@);
            keyed::without_key_contains(c1, hash@, hash@);
        }
        let _ = keyed::remove(&mut self.block_cache, hash.as_slice());
        let ghost c2 = self.block_cache@;
        let block = BlockMessageWire {
            hash,
            header: BlockHeaderWire { exec_height: height, proposer },
            txs,
        };
        self.block_cache.push(block);
        let ghost c3 = self.block_cache@;
        assert forall|a: int, b: int| 0 <= a < b < c3.len() implies (#[trigger] c3[a]).key() != (
        #[trigger] c3[b]).key() by {
            assert(c3[a] == c2[a]);
            if b < c2.len() {
                assert(c3[b] == c2[b]);
            } else {
                assert(c2[a].key() != hash@);
            }
        }
        let ghost mid = *self;
        let r = self.try_finalize_pending_from_cache(&hash, now);
        assert(drained(&mid, self, hash@, now, r));
        r
    }

    /// Takes a valid certificate: makes its block final, or lets the certificate wait where the
    /// block is not at hand.
    pub fn accept_certificate(
        &mut self,
        block_hash: &[u8; 64],
        height: u64,
        proposer_group_id: String,
        now: u64,
    ) -> (r: FinalizeOutcome)
        requires
            old(self).wf(),
        ensures
            final(self).wf(),
            r == old(self).finalize_outcome(block_hash@, height),
            certificate_accepted(
                old(self),
                final(self),
                block_hash@,
                height,
                proposer_group_id@,
                now,
            ),
    {
        let r = self.finalize_with_cached_payload(
            block_hash,
            height,
            proposer_group_id.clone(),
            now,
        );
        if !r.settled() {
            self.enqueue_pending_certificate_finality(block_hash, height, proposer_group_id, now);
        }
        r
    }
}

/// Whether `next` is `prev` after a valid certificate came.
pub open spec fn certificate_accepted(
    prev: &FinalityTracker,
    next: &FinalityTracker,
    hash: Seq<u8>,
    height: u64,
    group: Seq<char>,
    now: u64,
) -> bool {
    if prev.finalize_outcome(hash, height) == FinalizeOutcome::PayloadMissing {
        &&& next.cached() == prev.cached()
        &&& next.finalized() == prev.finalized()
        &&& enqueued(pruned(prev.waiting(), now), next.waiting(), hash, height, group, now)
    } else {
        prev.finalize_step(next, hash, height, group, now)
    }
}

/// Whether `next` is `prev` after the waiting certificate for a hash, if there is one, was used.
pub open spec fn drained(
    prev: &FinalityTracker,
    next: &FinalityTracker,
    hash: Seq<u8>,
    now: u64,
    outcome: Option<FinalizeOutcome>,
) -> bool {
    match outcome {
        None => {
            &&& !keyed::contains_key(pruned(prev.waiting(), now), hash)
            &&& next.waiting() == pruned(prev.waiting(), now)
            &&& next.cached() == prev.cached()
            &&& next.finalized() == prev.finalized()
        },
        Some(o) => exists|i: int| #[trigger] drained_at(prev, next, hash, now, i, o),
    }
}

/// Whether `next` is `prev` after the waiting certificate at place `i` was used.
pub open spec fn drained_at(
    prev: &FinalityTracker,
    next: &FinalityTracker,
    hash: Seq<u8>,
    now: u64,
    i: int,
    outcome: FinalizeOutcome,
) -> bool {
    let p = pruned(prev.waiting(), now);
    &&& 0 <= i < p.len()
    &&& p[i].block_hash@ == hash
    &&& outcome == prev.finalize_outcome(hash, p[i].height)
    &&& next.cached() == prev.cached()
    &&& next.waiting() == if outcome == FinalizeOutcome::Finalized || outcome
        == FinalizeOutcome::AlreadyFinalized {
        keyed::without_key(p, hash)
    } else {
        p
    }
    &&& if outcome == FinalizeOutcome::Finalized {
        &&& next.finalized().len() == prev.finalized().len() + 1
        &&& next.finalized().drop_last() == prev.finalized()
        &&& next.finalized().last().block_hash@ == hash
        &&& next.finalized().last().height == p[i].height
        &&& next.finalized().last().proposer_group_id@ == p[i].proposer_group_id@
        &&& next.finalized().last().finalized_at == now
        &&& next.finalized().last().confirmed_transactions@.len() == 0
        &&& next.finalized().last().rejected_transactions@.len() == 0
    } else {
        next.finalized() == prev.finalized()
    }
}

/// A final block stays final, whatever certificate comes, and no second block becomes final at
/// its height: a certificate for its hash or its height changes nothing about the final blocks.
pub proof fn final_blocks_stay(
    prev: FinalityTracker,
    next: FinalityTracker,
    hash: Seq<u8>,
    height: u64,
    group: Seq<char>,
    now: u64,
)
    requires
        prev.wf(),
        certificate_accepted(&prev, &next, hash, height, group, now),
    ensures
        prev.finalized().is_prefix_of(next.finalized()),
        forall|i: int|
            0 <= i < prev.finalized().len() && ((#[trigger] prev.finalized()[i]).block_hash@ == hash
                || prev.finalized()[i].height == height) ==> next.finalized() == prev.finalized(),
{
    assert forall|i: int|
        0 <= i < prev.finalized().len() && ((#[trigger] prev.finalized()[i]).block_hash@ == hash
            || prev.finalized()[i].height == height) implies next.finalized()
        == prev.finalized() by {
        if prev.finalized()[i].block_hash@ == hash {
            assert(prev.finalized()[i].key() == hash);
        }
    }
    if next.finalized() != prev.finalized() {
        assert(prev.finalized() =~= next.finalized().take(prev.finalized().len() as int));
    }
}

/// A certificate that came before its block is settled when the block comes in time: where the
/// certificate alone waits within the limit, no block of its height is final, and the block comes
/// within the time that a certificate waits, the block becomes final.
pub proof fn block_after_certificate_is_final(
    t0: FinalityTracker,
    t1: FinalityTracker,
    t2: FinalityTracker,
    t3: FinalityTracker,
    hash: Seq<u8>,
    height: u64,
    group: Seq<char>,
    came: u64,
    now: u64,
    outcome: Option<FinalizeOutcome>,
)
    requires
        t0.wf(),
        t1.wf(),
        t0.finalize_outcome(hash, height) == FinalizeOutcome::PayloadMissing,
        certificate_accepted(&t0, &t1, hash, height, group, came),
        t1.waiting().len() <= PENDING_CERT_MAX,
        t2.finalized() == t1.finalized(),
        t2.waiting() == t1.waiting(),
        keyed::contains_key(t2.cached(), hash),
        now - came <= PENDING_CERT_TTL_SECS,
        drained(&t2, &t3, hash, now, outcome),
    ensures
        outcome == Some(FinalizeOutcome::Finalized),
        t3.finalized().last().block_hash@ == hash,
        t3.finalized().last().height == height,
        !keyed::contains_key(t3.waiting(), hash),
{
    let p0 = pruned(t0.waiting(), came);
    let q = t1.waiting();
    let i = choose|i: int| #[trigger] enqueued_at(p0, q, i, hash, height, group, came);
    young_certificate_waits(q, now, i);
    let p = pruned(q, now);
    let j = choose|j: int| 0 <= j < p.len() && p[j] == q[i];
    assert(p[j].key() == hash);
    keyed::filter_keeps_unique(q, still_waiting(now));
    newest_keeps_the_newest(q.filter(still_waiting(now)));
    assert(keyed::contains_key(p, hash));
    let k = choose|k: int| #[trigger] drained_at(&t2, &t3, hash, now, k, outcome->0);
    assert(p[k].key() == hash);
    assert(p[k] == p[j]);
    assert(!t1.height_taken(height)) by {
        if t1.height_taken(height) {
            let m = choose|m: int|
                0 <= m < t1.finalized().len() && (#[trigger] t1.finalized()[m]).height == height;
            assert(t0.finalized()[m].height == height);
        }
    }
    keyed::without_key_contains(p, hash, hash);
}

/// Whether `q` is `p` with the certificate renewed where it waits, or added where it does not.
pub open spec fn enqueued(
    p: Seq<PendingCertificateFinality>,
    q: Seq<PendingCertificateFinality>,
    hash: Seq<u8>,
    height: u64,
    group: Seq<char>,
    now: u64,
) -> bool {
    exists|i: int| #[trigger] enqueued_at(p, q, i, hash, height, group, now)
}

/// Whether `q` is `p` with the certificate at place `i`.
pub open spec fn enqueued_at(
    p: Seq<PendingCertificateFinality>,
    q: Seq<PendingCertificateFinality>,
    i: int,
    hash: Seq<u8>,
    height: u64,
    group: Seq<char>,
    now: u64,
) -> bool {
    &&& 0 <= i < q.len()
    &&& q[i].block_hash@ == hash
    &&& q[i].height == height
    &&& q[i].proposer_group_id@ == group
    &&& q[i].received_at == now
    &&& if keyed::contains_key(p, hash) {
        i < p.len() && p[i].block_hash@ == hash && q == p.update(i, q[i])
    } else {
        i == p.len() && q == p.push(q[i])
    }
}

/// A certificate makes its block final exactly where the block is at hand, and neither it nor
/// another block of its height is final yet.
pub proof fn certified_blocks_become_final(
    prev: FinalityTracker,
    next: FinalityTracker,
    hash: Seq<u8>,
    height: u64,
    group: Seq<char>,
    now: u64,
)
    requires
        certificate_accepted(&prev, &next, hash, height, group, now),
        exists|i: int| 0 <= i < prev.cached().len() && (#[trigger] prev.cached()[i]).hash@ == hash,
        forall|i: int|
            0 <= i < prev.finalized().len() ==> (#[trigger] prev.finalized()[i]).block_hash@ != hash
                && prev.finalized()[i].height != height,
    ensures
        prev.finalize_outcome(hash, height) == FinalizeOutcome::Finalized,
        next.finalized().len() == prev.finalized().len() + 1,
        next.finalized().take(prev.finalized().len() as int) == prev.finalized(),
        next.finalized().last().block_hash@ == hash,
        next.finalized().last().height == height,
        next.finalized().last().proposer_group_id@ == group,
        next.finalized().last().finalized_at == now,
        next.finalized().last().confirmed_transactions@.len() == 0,
        next.finalized().last().rejected_transactions@.len() == 0,
        next.cached() == prev.cached(),
        forall|e: PendingCertificateFinality|
            next.waiting().contains(e) ==> prev.waiting().contains(e) && e.block_hash@ != hash,
        forall|e: PendingCertificateFinality|
            prev.waiting().contains(e) && e.block_hash@ != hash ==> next.waiting().contains(e),
{
    let i = choose|i: int|
        0 <= i < prev.cached().len() && (#[trigger] prev.cached()[i]).hash@ == hash;
    assert(prev.cached()[i].key() == hash);
    assert(!keyed::contains_key(prev.finalized(), hash)) by {
        if keyed::contains_key(prev.finalized(), hash) {
            let k = choose|k: int|
                0 <= k < prev.finalized().len() && (#[trigger] prev.finalized()[k]).key() == hash;
            assert(prev.finalized()[k].block_hash@ == hash);
        }
    }
    assert(next.finalized().take(prev.finalized().len() as int)
        =~= next.finalized().drop_last());
    keyed::without_key_keeps_the_rest(prev.waiting(), hash);
}

/// A certificate whose block is not at hand, and whose height is free, waits for its block; nothing
/// becomes final by it.
pub proof fn certificates_wait_for_their_block(
    prev: FinalityTracker,
    next: FinalityTracker,
    hash: Seq<u8>,
    height: u64,
    group: Seq<char>,
    now: u64,
)
    requires
        certificate_accepted(&prev, &next, hash, height, group, now),
        forall|i: int| 0 <= i < prev.cached().len() ==> (#[trigger] prev.cached()[i]).hash@ != hash,
        forall|i: int|
            0 <= i < prev.finalized().len() ==> (#[trigger] prev.finalized()[i]).block_hash@ != hash
                && prev.finalized()[i].height != height,
    ensures
        prev.finalize_outcome(hash, height) == FinalizeOutcome::PayloadMissing,
        next.finalized() == prev.finalized(),
        next.cached() == prev.cached(),
        exists|i: int|
            0 <= i < next.waiting().len() && (#[trigger] next.waiting()[i]).block_hash@ == hash
                && next.waiting()[i].height == height && next.waiting()[i].proposer_group_id@
                == group && next.waiting()[i].received_at == now,
{
    assert(!keyed::contains_key(prev.finalized(), hash)) by {
        if keyed::contains_key(prev.finalized(), hash) {
            let k = choose|k: int|
                0 <= k < prev.finalized().len() && (#[trigger] prev.finalized()[k]).key() == hash;
            assert(prev.finalized()[k].block_hash@ == hash);
        }
    }
    assert(!keyed::contains_key(prev.cached(), hash)) by {
        if keyed::contains_key(prev.cached(), hash) {
            let k = choose|k: int|
                0 <= k < prev.cached().len() && (#[trigger] prev.cached()[k]).key() == hash;
            assert(prev.cached()[k].hash@ == hash);
        }
    }
    let i = choose|i: int|
        #[trigger] enqueued_at(
            pruned(prev.waiting(), now),
            next.waiting(),
            i,
            hash,
            height,
            group,
            now,
        );
    assert(next.waiting()[i].block_hash@ == hash);
}

/// A certificate for a block that is final, or for a height at which another block is final, makes
/// nothing final; the first of the two is told as such, and no longer waits.
pub proof fn final_heights_are_told(
    prev: FinalityTracker,
    next: FinalityTracker,
    hash: Seq<u8>,
    height: u64,
    group: Seq<char>,
    now: u64,
    i: int,
)
    requires
        certificate_accepted(&prev, &next, hash, height, group, now),
        0 <= i < prev.finalized().len(),
        prev.finalized()[i].block_hash@ == hash || prev.finalized()[i].height == height,
    ensures
        next.finalized() == prev.finalized(),
        next.cached() == prev.cached(),
        prev.finalized()[i].block_hash@ == hash ==> prev.finalize_outcome(hash, height)
            == FinalizeOutcome::AlreadyFinalized && forall|e: PendingCertificateFinality|
            next.waiting().contains(e) ==> e.block_hash@ != hash,
        (forall|k: int|
            0 <= k < prev.finalized().len() ==> (#[trigger] prev.finalized()[k]).block_hash@
                != hash)
            ==> prev.finalize_outcome(hash, height) == FinalizeOutcome::HeightTaken
            && next.waiting() == prev.waiting(),
{
    if prev.finalized()[i].block_hash@ == hash {
        assert(prev.finalized()[i].key() == hash);
        keyed::without_key_keeps_the_rest(prev.waiting(), hash);
    }
    if keyed::contains_key(prev.finalized(), hash) {
        let k = choose|k: int|
            0 <= k < prev.finalized().len() && (#[trigger] prev.finalized()[k]).key() == hash;
        assert(prev.finalized()[k].block_hash@ == hash);
    }
}

/// A block that comes in is the latest at hand. Those that were at hand before stay, but for an
/// earlier copy of it, and but for the oldest where five hundred were there.
pub proof fn a_block_that_comes_is_at_hand(c: Seq<BlockMessageWire>, block: BlockMessageWire)
    requires
        c.len() <= 500,
    ensures
        cached_after(c, block).last() == block,
        cached_after(c, block).len() <= 500,
        forall|i: int|
            0 <= i < c.len() && (#[trigger] c[i]).hash@ != block.hash@ && (i > 0 || c.len() < 500)
                ==> cached_after(c, block).contains(c[i]),
        c.len() == 500 ==> forall|e: BlockMessageWire|
            cached_after(c, block).contains(e) ==> e == block || c.drop_first().contains(e),
        forall|e: BlockMessageWire|
            cached_after(c, block).contains(e) ==> e == block || (c.contains(e) && e.hash@
                != block.hash@),
{
    let d = if c.len() >= 500 {
        c.drop_first()
    } else {
        c
    };
    let kept = keyed::without_key(d, block.hash@);
    let t = cached_after(c, block);
    assert(t == kept.push(block));
    keyed::without_key_keeps_the_rest(d, block.hash@);
    assert forall|i: int|
        0 <= i < c.len() && (#[trigger] c[i]).hash@ != block.hash@ && (i > 0 || c.len()
            < 500) implies t.contains(c[i]) by {
        if c.len() >= 500 {
            assert(d[i - 1] == c[i]);
        } else {
            assert(d[i] == c[i]);
        }
        assert(d.contains(c[i]));
        assert(kept.contains(c[i]));
        let k = choose|k: int| 0 <= k < kept.len() && kept[k] == c[i];
        assert(t[k] == c[i]);
    }
    assert forall|e: BlockMessageWire| t.contains(e) implies e == block || (d.contains(e) && e.hash@
        != block.hash@) by {
        let k = choose|k: int| 0 <= k < t.len() && t[k] == e;
        if k < kept.len() {
            assert(kept[k] == e);
            assert(kept.contains(e));
        }
    }
    assert forall|e: BlockMessageWire| d.contains(e) implies c.contains(e) by {
        let k = choose|k: int| 0 <= k < d.len() && d[k] == e;
        if c.len() >= 500 {
            assert(c[k + 1] == e);
        }
    }
    assert(t.last() == block);
}

/// A certificate waits for two minutes: no older one is left, and of the younger ones all are, as
/// long as there are no more than two thousand and forty-eight.
pub proof fn certificates_wait_two_minutes(p: Seq<PendingCertificateFinality>, now: u64)
    requires
        keyed::unique_keys(p),
    ensures
        pruned(p, now).len() <= 2048,
        forall|e: PendingCertificateFinality|
            pruned(p, now).contains(e) ==> p.contains(e) && now <= e.received_at + 120,
        p.len() <= 2048 ==> forall|e: PendingCertificateFinality|
            p.contains(e) && now <= e.received_at + 120 ==> pruned(p, now).contains(e),
{
    let f = p.filter(still_waiting(now));
    keyed::filter_keeps_unique(p, still_waiting(now));
    newest_keeps_the_newest(f);
    assert forall|e: PendingCertificateFinality| pruned(p, now).contains(e) implies p.contains(e)
        && now <= e.received_at + 120 by {
        assert(f.contains(e));
        let k = choose|k: int| 0 <= k < f.len() && f[k] == e;
        assert(still_waiting(now)(f[k]));
    }
    if p.len() <= 2048 {
        assert forall|e: PendingCertificateFinality|
            p.contains(e) && now <= e.received_at + 120 implies pruned(p, now).contains(e) by {
            let k = choose|k: int| 0 <= k < p.len() && p[k] == e;
            assert(still_waiting(now)(p[k]));
            assert(f.contains(e));
        }
    }
}

/// Where each part stands in a stored chain head.
pub proof fn chain_head_layout(hash: Seq<u8>, height: u64)
    requires
        hash.len() == 64,
    ensures
        chain_head_bytes(hash, height).len() == 72,
        chain_head_bytes(hash, height).subrange(0, 64) == hash,
        vstd::bytes::spec_u64_from_le_bytes(chain_head_bytes(hash, height).subrange(64, 72))
            == height,
{
    vstd::bytes::lemma_auto_spec_u64_to_from_le_bytes();
    assert(chain_head_bytes(hash, height).subrange(0, 64) =~= hash);
    assert(chain_head_bytes(hash, height).subrange(64, 72) =~= bytes::u64_le(height));
}

/// A block that comes in while a certificate for it waits is dealt with by that certificate: with
/// its height and its group.
pub proof fn waiting_certificates_are_used(
    prev: FinalityTracker,
    next: FinalityTracker,
    hash: Seq<u8>,
    now: u64,
    outcome: Option<FinalizeOutcome>,
    i: int,
)
    requires
        prev.wf(),
        prev.waiting().len() <= 2048,
        drained(&prev, &next, hash, now, outcome),
        0 <= i < prev.waiting().len(),
        prev.waiting()[i].block_hash@ == hash,
        now <= prev.waiting()[i].received_at + 120,
    ensures
        outcome == Some(prev.finalize_outcome(hash, prev.waiting()[i].height)),
        next.cached() == prev.cached(),
        outcome == Some(FinalizeOutcome::Finalized) ==> next.finalized().len()
            == prev.finalized().len() + 1 && next.finalized().last().block_hash@ == hash
            && next.finalized().last().height == prev.waiting()[i].height
            && next.finalized().last().proposer_group_id@
            == prev.waiting()[i].proposer_group_id@ && next.finalized().last().finalized_at == now,
        outcome != Some(FinalizeOutcome::Finalized) ==> next.finalized() == prev.finalized(),
{
    let w = prev.waiting();
    let p = pruned(w, now);
    certificates_wait_two_minutes(w, now);
    assert(w.contains(w[i]));
    let j = choose|j: int| 0 <= j < p.len() && p[j] == w[i];
    assert(p[j].key() == hash);
    assert(keyed::contains_key(p, hash));
    keyed::filter_keeps_unique(w, still_waiting(now));
    newest_keeps_the_newest(w.filter(still_waiting(now)));
    let k = choose|k: int| #[trigger] drained_at(&prev, &next, hash, now, k, outcome->0);
    assert(p[k].key() == hash);
    assert(p[k] == p[j]);
}

/// When a certificate comes to wait for its block, the certificates of other blocks go on waiting
/// for as long as they may, and nothing else is added.
pub proof fn other_certificates_go_on_waiting(
    prev: FinalityTracker,
    next: FinalityTracker,
    hash: Seq<u8>,
    height: u64,
    group: Seq<char>,
    now: u64,
    e: PendingCertificateFinality,
)
    requires
        prev.wf(),
        prev.waiting().len() <= 2048,
        certificate_accepted(&prev, &next, hash, height, group, now),
        prev.finalize_outcome(hash, height) == FinalizeOutcome::PayloadMissing,
        e.block_hash@ != hash,
    ensures
        next.waiting().contains(e) <==> prev.waiting().contains(e) && now <= e.received_at + 120,
{
    let p = pruned(prev.waiting(), now);
    let q = next.waiting();
    certificates_wait_two_minutes(prev.waiting(), now);
    let i = choose|i: int| #[trigger] enqueued_at(p, q, i, hash, height, group, now);
    assert(enqueued_at(p, q, i, hash, height, group, now));
    if p.contains(e) {
        let k = choose|k: int| 0 <= k < p.len() && p[k] == e;
        assert(q[k] == e);
    }
    if q.contains(e) {
        let k = choose|k: int| 0 <= k < q.len() && q[k] == e;
        assert(k != i);
        assert(p[k] == e);
    }
}

} // verus!
