//! What the node decides while it runs: votes on proposals, blocks with a certificate, when groups
//! are formed anew, and when other masternodes are asked to catch up.
use vstd::prelude::*;

use crate::bytes::bytes_equal;
use crate::finality;
use crate::finality::encode_chain_head;
use crate::keyed;
use crate::keyed::Keyed;
use crate::masternode_p2p;
use crate::monolith_p2p;
use crate::proposal_validator;
use crate::proposal_validator::BlockCertificate;
use crate::proposal_validator::LightnodeProposal;
use crate::proposal_validator::MasternodeVote;
use crate::proposal_validator::ProposalValidator;
use crate::proposals::PendingProposals;
use crate::proposals::ProposalKey;
use crate::search;
use crate::text::same_text;

verus! {

/// What names a proposal that may get a certificate.
#[derive(Debug)]
pub struct CertifiedKey {
    pub height: u64,
    pub round_id: u64,
    pub block_hash: [u8; 64],
    pub group_id: String,
}

impl View for CertifiedKey {
    type V = (u64, u64, Seq<u8>, Seq<char>);

    open spec fn view(&self) -> (u64, u64, Seq<u8>, Seq<char>) {
        (self.height, self.round_id, self.block_hash@, self.group_id@)
    }
}

impl Keyed for LightnodeProposal {
    type Query = CertifiedKey;

    open spec fn key(&self) -> (u64, u64, Seq<u8>, Seq<char>) {
        (self.height, self.round_id, self.block_hash@, self.proposer_group_id@)
    }

    fn has_key(&self, query: &CertifiedKey) -> (r: bool) {
        self.height == query.height && self.round_id == query.round_id && bytes_equal(
            self.block_hash.as_slice(),
            query.block_hash.as_slice(),
        ) && same_text(self.proposer_group_id.as_str(), query.group_id.as_str())
    }
}

/// Whether a proposal is for this block, whatever its group.
pub open spec fn proposes(height: u64, round_id: u64, block_hash: Seq<u8>) -> spec_fn(
    LightnodeProposal,
) -> bool {
    |p: LightnodeProposal|
        p.height == height && p.round_id == round_id && p.block_hash@ == block_hash
}

/// The proposals that may get a certificate.
#[derive(Debug)]
pub struct CertifiedProposals {
    entries: Vec<LightnodeProposal>,
}

impl CertifiedProposals {
    /// The proposals that may get a certificate.
    pub closed spec fn cached(&self) -> Seq<LightnodeProposal> {
        self.entries@
    }

    /// None is there twice.
    pub open spec fn wf(&self) -> bool {
        keyed::unique_keys(self.cached())
    }

    /// No proposals.
    pub fn new() -> (r: Self)
        ensures
            r.wf(),
            r.cached().len() == 0,
    {
        CertifiedProposals { entries: Vec::new() }
    }

    /// Keeps a proposal, in place of an earlier one for the same block and group.
    pub fn remember(&mut self, proposal: LightnodeProposal)
        requires
            old(self).wf(),
        ensures
            final(self).wf(),
            final(self).cached() == keyed::without_key(old(self).cached(), proposal.key()).push(
                proposal,
            ),
    {
        let key = CertifiedKey {
            height: proposal.height,
            round_id: proposal.round_id,
            block_hash: proposal.block_hash,
            group_id: proposal.proposer_group_id.clone(),
        };
        keyed::replace(&mut self.entries, &key, proposal);
    }

    /// Takes out the proposal that a certificate is for: that of its group, or else the first one
    /// for its block.
    pub fn take(&mut self, certificate: &BlockCertificate) -> (r: Option<LightnodeProposal>)
        requires
            old(self).wf(),
        ensures
            final(self).wf(),
            ({
                let c = old(self).cached();
                let key = (
                    certificate.height,
                    certificate.round_id,
                    certificate.block_hash@,
                    certificate.group_id@,
                );
                let p = proposes(
                    certificate.height,
                    certificate.round_id,
                    certificate.block_hash@,
                );
                if keyed::contains_key(c, key) {
                    &&& r is Some
                    &&& r->0.key() == key
                    &&& c.contains(r->0)
                    &&& final(self).cached() == keyed::without_key(c, key)
                } else {
                    match search::first_index(c, p) {
                        Some(i) => r == Some(c[i]) && final(self).cached() == c.remove(i),
                        None => r is None && final(self).cached() == c,
                    }
                }
            }),
    {
        let ghost c = self.entries@;
        let key = CertifiedKey {
            height: certificate.height,
            round_id: certificate.round_id,
            block_hash: certificate.block_hash,
            group_id: certificate.group_id.clone(),
        };
        if keyed::find(&self.entries, &key).is_some() {
            return keyed::remove(&mut self.entries, &key);
        }
        let height: u64 = certificate.height;
        let round_id: u64 = certificate.round_id;
        let hash = &certificate.block_hash;
        let ghost p = proposes(height, round_id, hash@);
        let f = |e: &LightnodeProposal| -> (b: bool)
            ensures
                b == proposes(height, round_id, hash@)(*e),
            {
                e.height == height && e.round_id == round_id && bytes_equal(
                    e.block_hash.as_slice(),
                    hash.as_slice(),
                )
            };
        match search::find_first(self.entries.as_slice(), f, Ghost(p)) {
            Some(i) => {
                proof {
                    keyed::without_is_remove(c, i as int);
                    keyed::without_key_keeps_unique(c, c[i as int].key());
                }
                Some(self.entries.remove(i))
            },
            None => None,
        }
    }
}

/// What is to be stored once a block has a certificate.
#[derive(Debug)]
pub struct CertifiedBlock {
    /// The new head of the chain, as it is stored.
    pub chain_head: Vec<u8>,
    /// The block, if its proposal was kept.
    pub proposal: Option<LightnodeProposal>,
}

/// Works out what is to be stored once a block has a certificate: its proposal is that of the
/// certificate's group, or else the first one for the block.
pub fn certified_block(certified: &mut CertifiedProposals, certificate: &BlockCertificate) -> (r:
    CertifiedBlock)
    requires
        old(certified).wf(),
    ensures
        final(certified).wf(),
        r.chain_head@ == finality::chain_head_bytes(certificate.block_hash@, certificate.height),
        r.proposal is Some == (exists|i: int|
            0 <= i < old(certified).cached().len() && proposes(
                certificate.height,
                certificate.round_id,
                certificate.block_hash@,
            )(#[trigger] old(certified).cached()[i])),
        ({
            let c = old(certified).cached();
            let key = (
                certificate.height,
                certificate.round_id,
                certificate.block_hash@,
                certificate.group_id@,
            );
            let p = proposes(certificate.height, certificate.round_id, certificate.block_hash@);
            if keyed::contains_key(c, key) {
                r.proposal is Some && r.proposal->0.key() == key
            } else {
                r.proposal == match search::first_index(c, p) {
                    Some(i) => Some(c[i]),
                    None => None,
                }
            }
        }),
        r.proposal matches Some(p) ==> {
            &&& proposes(
                certificate.height,
                certificate.round_id,
                certificate.block_hash@,
            )(p)
            &&& old(certified).cached().contains(p)
            &&& final(certified).cached() == keyed::without_key(old(certified).cached(), p.key())
        },
        r.proposal is None ==> final(certified).cached() == old(certified).cached(),
{
    let ghost c = certified.cached();
    let ghost p = proposes(certificate.height, certificate.round_id, certificate.block_hash@);
    let ghost key = (
        certificate.height,
        certificate.round_id,
        certificate.block_hash@,
        certificate.group_id@,
    );
    let chain_head = encode_chain_head(&certificate.block_hash, certificate.height);
    let proposal = certified.take(certificate);
    proof {
        search::first_index_is_first(c, p);
        if keyed::contains_key(c, key) {
            let i = choose|i: int| 0 <= i < c.len() && (#[trigger] c[i]).key() == key;
            assert(p(c[i]));
        } else if let Some(i) = search::first_index(c, p) {
            keyed::without_is_remove(c, i);
            assert(p(c[i]));
        }
    }
    CertifiedBlock { chain_head, proposal }
}

/// A proposal that was kept is found again when its certificate comes.
pub proof fn kept_proposals_are_found(
    before: Seq<LightnodeProposal>,
    proposal: LightnodeProposal,
    certificate: BlockCertificate,
)
    requires
        certificate.height == proposal.height,
        certificate.round_id == proposal.round_id,
        certificate.block_hash@ == proposal.block_hash@,
    ensures
        ({
            let after = keyed::without_key(before, proposal.key()).push(proposal);
            exists|i: int|
                0 <= i < after.len() && proposes(
                    certificate.height,
                    certificate.round_id,
                    certificate.block_hash@,
                )(#[trigger] after[i])
        }),
{
    let after = keyed::without_key(before, proposal.key()).push(proposal);
    assert(after[after.len() - 1] == proposal);
}

/// Keeps a proposal and votes on it at `now`. Once there is a vote, nobody waits for the block of
/// its group any longer. `expected_hash` is the hash that the proposal's contents give.
pub fn receive_proposal_at(
    validator: &ProposalValidator,
    certified: &mut CertifiedProposals,
    pending: &mut PendingProposals,
    proposal: LightnodeProposal,
    expected_hash: &[u8; 64],
    now: u64,
) -> (r: Option<MasternodeVote>)
    requires
        old(certified).wf(),
        old(pending).wf(),
        3600 <= now <= u64::MAX - 300,
    ensures
        final(certified).wf(),
        final(pending).wf(),
        final(certified).cached() == keyed::without_key(
            old(certified).cached(),
            proposal.key(),
        ).push(proposal),
        r is Some <==> proposal_validator::proposal_sound(proposal, expected_hash@)
            && proposal_validator::proposal_timely(proposal, now)
            && proposal_validator::vote_timely(proposal, now),
        r matches Some(vote) ==> validator.is_approval(vote, proposal),
        final(pending).waiting() == (if r is Some && proposal.proposer_group_id@.len() > 0 {
            keyed::without_key(
                old(pending).waiting(),
                (proposal.proposer_group_id@, proposal.height, proposal.round_id),
            )
        } else {
            old(pending).waiting()
        }),
{
    let vote = validator.vote_on_proposal_at(&proposal, expected_hash, now, now);
    if vote.is_some() && proposal.proposer_group_id.as_str().unicode_len() > 0 {
        let key = ProposalKey {
            group_id: proposal.proposer_group_id.clone(),
            height: proposal.height,
            round_id: proposal.round_id,
        };
        let _ = pending.remove(&key);
    }
    certified.remember(proposal);
    vote
}

/// How many masternodes must be missing before it counts.
pub const MN_DIP_THRESHOLD: usize = 2;

/// For how many looks they must be missing.
pub const MN_DIP_SUSTAINED_TICKS: u32 = 3;

/// How many masternodes there were, and for how many looks some have been missing.
#[derive(Debug, Clone, Copy, PartialEq, Eq, Structural)]
pub struct MnHealth {
    pub baseline: usize,
    pub dip_ticks: u32,
}

/// What a look at the masternodes gives.
#[derive(Debug, Clone, Copy, PartialEq, Eq, Structural)]
pub enum HealthReport {
    /// As many as before, or more.
    Stable,
    /// Too few are missing to count.
    Ignored,
    /// Enough are missing, but not for long enough yet.
    Waiting,
    /// So many have been missing for so long that groups are formed anew.
    Failover { missing: usize },
}

/// What a look gives when there are `current` masternodes, this one included.
pub open spec fn health_step(h: MnHealth, current: usize) -> (MnHealth, HealthReport) {
    if current >= h.baseline {
        (MnHealth { baseline: current, dip_ticks: 0 }, HealthReport::Stable)
    } else if h.baseline - current < MN_DIP_THRESHOLD {
        (h, HealthReport::Ignored)
    } else if h.dip_ticks + 1 < MN_DIP_SUSTAINED_TICKS {
        (
            MnHealth { baseline: h.baseline, dip_ticks: (h.dip_ticks + 1) as u32 },
            HealthReport::Waiting,
        )
    } else {
        (
            MnHealth { baseline: current, dip_ticks: 0 },
            HealthReport::Failover { missing: (h.baseline - current) as usize },
        )
    }
}

impl MnHealth {
    /// The wait never lasts longer than it must.
    pub open spec fn wf(&self) -> bool {
        self.dip_ticks < MN_DIP_SUSTAINED_TICKS
    }

    /// Starts from the number of validators.
    pub fn new(validators: usize) -> (r: Self)
        ensures
            r.wf(),
            r == (MnHealth { baseline: validators, dip_ticks: 0 }),
    {
        MnHealth { baseline: validators, dip_ticks: 0 }
    }

    /// Takes a look, with so many other masternodes connected.
    pub fn tick(&mut self, connected: usize) -> (r: HealthReport)
        requires
            old(self).wf(),
            connected < usize::MAX,
        ensures
            final(self).wf(),
            (*final(self), r) == health_step(*old(self), (connected + 1) as usize),
    {
        let current: usize = connected + 1;
        let missing: usize = self.baseline.saturating_sub(current);
        if current >= self.baseline {
            self.dip_ticks = 0;
            self.baseline = current;
            HealthReport::Stable
        } else if missing < MN_DIP_THRESHOLD {
            HealthReport::Ignored
        } else if self.dip_ticks + 1 < MN_DIP_SUSTAINED_TICKS {
            self.dip_ticks = self.dip_ticks + 1;
            HealthReport::Waiting
        } else {
            self.dip_ticks = 0;
            self.baseline = current;
            HealthReport::Failover { missing }
        }
    }
}

/// A single masternode that comes and goes never counts, and never moves the number that the
/// others are held against down.
pub proof fn flaps_are_ignored(h: MnHealth, current: usize)
    requires
        current + 1 == h.baseline,
    ensures
        health_step(h, current) == (h, HealthReport::Ignored),
{
}

/// Groups are not formed anew before masternodes have been missing for three looks.
pub proof fn failover_takes_three_looks(h: MnHealth, first: usize, second: usize)
    requires
        h.wf(),
        h.dip_ticks == 0,
    ensures
        !(health_step(h, first).1 is Failover),
        !(health_step(health_step(h, first).0, second).1 is Failover),
{
}

/// When enough masternodes are missing for three looks in a row, groups are formed anew, and
/// those that are left become the number to hold against.
pub proof fn sustained_loss_is_noticed(h: MnHealth, first: usize, second: usize, third: usize)
    requires
        h.wf(),
        h.dip_ticks == 0,
        first + 2 <= h.baseline,
        second + 2 <= h.baseline,
        third + 2 <= h.baseline,
    ensures
        ({
            let h1 = health_step(h, first).0;
            let h2 = health_step(h1, second).0;
            health_step(h2, third) == (
                MnHealth { baseline: third, dip_ticks: 0 },
                HealthReport::Failover { missing: (h.baseline - third) as usize },
            )
        }),
{
}

/// When the masternodes are back, the wait starts over.
pub proof fn recovery_clears_the_wait(h: MnHealth, current: usize)
    requires
        current >= h.baseline,
    ensures
        health_step(h, current).0.dip_ticks == 0,
        health_step(h, current).1 is Stable,
{
}

/// What was last known of the lightnodes and the epoch.
#[derive(Debug, Clone, Copy, PartialEq, Eq, Structural)]
pub struct ReformationTrigger {
    pub registered: usize,
    pub epoch: u64,
}

impl ReformationTrigger {
    /// Nothing known.
    pub fn new() -> (r: Self)
        ensures
            r == (ReformationTrigger { registered: 0, epoch: 0 }),
    {
        ReformationTrigger { registered: 0, epoch: 0 }
    }

    /// Whether groups must be formed anew: the number of lightnodes is another, or the epoch has
    /// moved on.
    pub fn observe(&mut self, registered: usize, epoch: u64) -> (r: bool)
        ensures
            r == (registered != old(self).registered || epoch > old(self).epoch),
            *final(self) == (ReformationTrigger { registered, epoch }),
    {
        let changed = registered != self.registered;
        let advanced = epoch > self.epoch;
        self.registered = registered;
        self.epoch = epoch;
        changed || advanced
    }
}

/// Which epochs are asked for when other masternodes are asked for their certificates: the
/// current one and the two before it. Nothing is asked when nobody is connected and groups are
/// active here.
pub fn sync_request(connected: usize, no_active_groups: bool, epoch: u64) -> (r: Option<(u64, u64)>)
    ensures
        r == (if connected >= 1 || no_active_groups {
            Some(
                (
                    if epoch >= 2 {
                        (epoch - 2) as u64
                    } else {
                        0
                    },
                    epoch,
                ),
            )
        } else {
            None
        }),
{
    if connected >= 1 || no_active_groups {
        Some((epoch.saturating_sub(2), epoch))
    } else {
        None
    }
}

/// The epochs whose certificates are sent out again: the current one and the one before it.
pub fn epochs_to_rebroadcast(epoch: u64) -> (r: Vec<u64>)
    ensures
        r@ == (if epoch == 0 {
            seq![0u64]
        } else {
            seq![epoch, (epoch - 1) as u64]
        }),
{
    if epoch == 0 {
        vec![0]
    } else {
        vec![epoch, epoch - 1]
    }
}

/// What is published of a message about groups: announcements to lightnodes, and nothing else.
pub fn published_form(message: monolith_p2p::MasternodeMessage) -> (r: Option<
    masternode_p2p::MasternodeMessage,
>)
    ensures
        r == (match message {
            monolith_p2p::MasternodeMessage::LightnodeGroupAnnounce(a) => Some(
                masternode_p2p::MasternodeMessage::LightnodeGroupAnnounce(
                    masternode_p2p::LightnodeGroupAnnounce {
                        epoch: a.epoch,
                        group_id: a.group_id,
                        members: a.members,
                        member_addresses: a.member_addresses,
                        proposer: a.proposer,
                        timestamp: a.timestamp,
                        signature: a.signature,
                        signer_pubkey: a.signer_pubkey,
                        assigned_shards: a.assigned_shards,
                        num_shards: a.num_shards,
                    },
                ),
            ),
            _ => None,
        }),
{
    match message {
        monolith_p2p::MasternodeMessage::LightnodeGroupAnnounce(a) => {
            Some(
                masternode_p2p::MasternodeMessage::LightnodeGroupAnnounce(
                    masternode_p2p::LightnodeGroupAnnounce {
                        epoch: a.epoch,
                        group_id: a.group_id,
                        members: a.members,
                        member_addresses: a.member_addresses,
                        proposer: a.proposer,
                        timestamp: a.timestamp,
                        signature: a.signature,
                        signer_pubkey: a.signer_pubkey,
                        assigned_shards: a.assigned_shards,
                        num_shards: a.num_shards,
                    },
                ),
            )
        },
        _ => None,
    }
}

/// When there are at least as many masternodes as before, their number is what later looks are
/// held against.
pub proof fn recovery_sets_the_number(h: MnHealth, current: usize)
    requires
        current >= h.baseline,
    ensures
        health_step(h, current).0.baseline == current,
{
}

/// The number that looks are held against moves down only when groups are formed anew, and then
/// to the number that is left.
pub proof fn the_number_falls_with_a_failover(h: MnHealth, current: usize)
    requires
        current < h.baseline,
    ensures
        match health_step(h, current).1 {
            HealthReport::Failover { missing } => missing + current == h.baseline && health_step(
                h,
                current,
            ).0.baseline == current,
            _ => health_step(h, current).0.baseline == h.baseline,
        },
{
}

/// A loss after a recovery is noticed as the first one was: once `back` masternodes were seen,
/// three looks in a row with two or more of them missing give a failover.
pub proof fn a_loss_after_a_recovery_is_noticed(
    h: MnHealth,
    back: usize,
    first: usize,
    second: usize,
    third: usize,
)
    requires
        back >= h.baseline,
        first + 2 <= back,
        second + 2 <= back,
        third + 2 <= back,
    ensures
        ({
            let h0 = health_step(h, back).0;
            let h1 = health_step(h0, first);
            let h2 = health_step(h1.0, second);
            let h3 = health_step(h2.0, third);
            &&& h1.1 is Waiting
            &&& h2.1 is Waiting
            &&& h3.1 matches HealthReport::Failover { missing }
            &&& missing == back - third
        }),
{
}

/// A look at which fewer than two are missing never adds to the wait, and one at which two or more
/// are missing always does, until the third.
pub proof fn the_wait_counts_looks(h: MnHealth, current: usize)
    requires
        h.wf(),
    ensures
        h.wf() == (h.dip_ticks < 3),
        current + 1 >= h.baseline ==> health_step(h, current).0.dip_ticks <= h.dip_ticks
            && !(health_step(h, current).1 is Failover),
        current + 2 <= h.baseline && h.dip_ticks < 2 ==> health_step(h, current).0.dip_ticks
            == h.dip_ticks + 1,
        current + 2 <= h.baseline && h.dip_ticks == 2 ==> health_step(h, current).1 is Failover
            && health_step(h, current).0.dip_ticks == 0,
{
}

/// A proposal is for a certified block exactly if it is of its height, its round and its hash,
/// whatever group it names.
pub proof fn proposals_are_for_one_block(
    p: LightnodeProposal,
    height: u64,
    round_id: u64,
    block_hash: Seq<u8>,
)
    ensures
        proposes(height, round_id, block_hash)(p) <==> p.height == height && p.round_id == round_id
            && p.block_hash@ == block_hash,
{
}

} // verus!
