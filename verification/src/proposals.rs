//! What a masternode does with the proposals of lightnodes, the votes and the acceptance
//! certificates of other masternodes.
use vstd::prelude::*;

use crate::crypto;
use crate::finality;
use crate::finality::FinalityTracker;
use crate::finality::FinalizeOutcome;
use crate::keyed;
use crate::keyed::Keyed;
use crate::messages::BlockHeaderWire;
use crate::messages::BlockMessageWire;
use crate::messages::LightnodeBlockProposalCompat;
use crate::messages::PendingProposalEntry;
use crate::proposal_validator;
use crate::proposal_validator::BlockAcceptanceCertificate;
use crate::proposal_validator::ByteArray64;
use crate::proposal_validator::LightnodeProposal;
use crate::proposal_validator::MnGroupRole;
use crate::proposal_validator::ProposalValidator;
use crate::search;
use crate::text::same_text;

verus! {

/// What is known here of a group of lightnodes.
#[derive(Debug, Clone)]
pub struct GroupView {
    pub group_id: String,
    /// The number of the group that stays the same when groups are formed anew.
    pub index: Option<u64>,
    pub members: Vec<String>,
    pub group_leader_masternode: Option<String>,
    pub backup_leader_masternode: Option<String>,
}

/// Whether a group has this identifier.
pub open spec fn is_group(id: Seq<char>) -> spec_fn(GroupView) -> bool {
    |g: GroupView| g.group_id@ == id
}

/// Whether a group has this number.
pub open spec fn has_index(index: Option<u64>) -> spec_fn(GroupView) -> bool {
    |g: GroupView| index is Some && g.index == index
}

/// Where the group stands that is meant by an identifier and a number: the first one with the
/// identifier, or else the first one with the number.
pub open spec fn matching_group(
    groups: Seq<GroupView>,
    id: Seq<char>,
    index: Option<u64>,
) -> Option<int> {
    match search::first_index(groups, is_group(id)) {
        Some(i) => Some(i),
        None => search::first_index(groups, has_index(index)),
    }
}

/// Whether an optional peer is the given one.
pub open spec fn is_peer(peer: Option<String>, local: Seq<char>) -> bool {
    peer matches Some(p) && p@ == local
}

/// The part that a masternode plays in a group.
pub open spec fn role_in_group(g: GroupView, local: Seq<char>) -> MnGroupRole {
    if is_peer(g.group_leader_masternode, local) {
        MnGroupRole::Leader
    } else if is_peer(g.backup_leader_masternode, local) {
        MnGroupRole::Backup
    } else {
        MnGroupRole::Participant
    }
}

/// The part that a masternode plays for a group that may not be known here.
pub open spec fn role_for(
    groups: Seq<GroupView>,
    id: Seq<char>,
    index: Option<u64>,
    local: Seq<char>,
) -> MnGroupRole {
    match matching_group(groups, id, index) {
        Some(i) => role_in_group(groups[i], local),
        None => MnGroupRole::Participant,
    }
}

/// The members of the group with an identifier; none if it is not known here.
pub open spec fn roster_of(groups: Seq<GroupView>, id: Seq<char>) -> Seq<String> {
    match search::first_index(groups, is_group(id)) {
        Some(i) => groups[i].members@,
        None => Seq::empty(),
    }
}

/// The part to play for a proposal, or none if it is rejected.
pub open spec fn proposal_role(
    p: LightnodeProposal,
    groups: Seq<GroupView>,
    index: Option<u64>,
    local: Seq<char>,
    tenure_unchecked: bool,
) -> Option<MnGroupRole> {
    if p.proposer_group_id@.len() == 0 {
        Some(MnGroupRole::Leader)
    } else if !proposal_validator::election_proved(
        p,
        roster_of(groups, p.proposer_group_id@),
        tenure_unchecked,
    ) {
        None
    } else {
        Some(role_for(groups, p.proposer_group_id@, index, local))
    }
}

fn find_by_id(groups: &[GroupView], id: &str) -> (r: Option<usize>)
    ensures
        match r {
            Some(i) => i < groups@.len() && search::first_index(groups@, is_group(id@)) == Some(
                i as int,
            ),
            None => search::first_index(groups@, is_group(id@)) is None,
        },
{
    let f = |g: &GroupView| -> (b: bool)
        ensures
            b == is_group(id@)(*g),
        { same_text(g.group_id.as_str(), id) };
    search::find_first(groups, f, Ghost(is_group(id@)))
}

fn same_index(a: Option<u64>, b: Option<u64>) -> (r: bool)
    ensures
        r == (b is Some && a == b),
{
    match (a, b) {
        (Some(x), Some(y)) => x == y,
        _ => false,
    }
}

/// Finds the group that is meant by an identifier and a number.
pub fn find_group(groups: &[GroupView], id: &str, index: Option<u64>) -> (r: Option<usize>)
    ensures
        match r {
            Some(i) => i < groups@.len() && matching_group(groups@, id@, index) == Some(i as int),
            None => matching_group(groups@, id@, index) is None,
        },
{
    match find_by_id(groups, id) {
        Some(i) => Some(i),
        None => {
            let f = |g: &GroupView| -> (b: bool)
                ensures
                    b == has_index(index)(*g),
                { same_index(g.index, index) };
            search::find_first(groups, f, Ghost(has_index(index)))
        },
    }
}

/// Whether an optional peer is the given one.
pub fn names_peer(peer: &Option<String>, local: &str) -> (r: bool)
    ensures
        r == is_peer(*peer, local@),
{
    match peer {
        Some(p) => same_text(p.as_str(), local),
        None => false,
    }
}

/// The part that this masternode plays for a group.
pub fn determine_role(groups: &[GroupView], id: &str, index: Option<u64>, local_peer: &str) -> (r:
    MnGroupRole)
    ensures
        r == role_for(groups@, id@, index, local_peer@),
{
    match find_group(groups, id, index) {
        Some(i) => {
            if names_peer(&groups[i].group_leader_masternode, local_peer) {
                MnGroupRole::Leader
            } else if names_peer(&groups[i].backup_leader_masternode, local_peer) {
                MnGroupRole::Backup
            } else {
                MnGroupRole::Participant
            }
        },
        None => MnGroupRole::Participant,
    }
}

/// What a proposal is found by.
#[derive(Debug, Clone)]
pub struct ProposalKey {
    pub group_id: String,
    pub height: u64,
    pub round_id: u64,
}

impl View for ProposalKey {
    type V = (Seq<char>, u64, u64);

    open spec fn view(&self) -> (Seq<char>, u64, u64) {
        (self.group_id@, self.height, self.round_id)
    }
}

/// A proposal that waits, and what it is found by.
#[derive(Debug, Clone)]
pub struct PendingProposal {
    pub key: ProposalKey,
    pub entry: PendingProposalEntry,
}

impl Keyed for PendingProposal {
    type Query = ProposalKey;

    open spec fn key(&self) -> (Seq<char>, u64, u64) {
        self.key@
    }

    fn has_key(&self, query: &ProposalKey) -> (r: bool) {
        same_text(self.key.group_id.as_str(), query.group_id.as_str()) && self.key.height
            == query.height && self.key.round_id == query.round_id
    }
}

/// The proposals that wait for the acceptance certificate of their group's leader.
pub struct PendingProposals {
    entries: Vec<PendingProposal>,
}

impl PendingProposals {
    /// The proposals that wait.
    pub closed spec fn waiting(&self) -> Seq<PendingProposal> {
        self.entries@
    }

    /// No proposal waits twice.
    pub open spec fn wf(&self) -> bool {
        keyed::unique_keys(self.waiting())
    }

    /// Nothing waits.
    pub fn new() -> (r: Self)
        ensures
            r.wf(),
            r.waiting().len() == 0,
    {
        PendingProposals { entries: Vec::new() }
    }

    /// Lets a proposal wait; one that waited under the same key gives way.
    pub fn insert(&mut self, key: ProposalKey, entry: PendingProposalEntry)
        requires
            old(self).wf(),
        ensures
            final(self).wf(),
            final(self).waiting() == keyed::without_key(old(self).waiting(), key@).push(
                (PendingProposal { key, entry }),
            ),
    {
        proof {
            keyed::without_key_contains(self.waiting(), key@, key@);
        }
        let _ = keyed::remove(&mut self.entries, &key);
        let ghost before = self.waiting();
        self.entries.push(PendingProposal { key, entry });
        proof {
            let after = self.waiting();
            assert forall|a: int, b: int| 0 <= a < b < after.len() implies (
            #[trigger] after[a]).key() != (#[trigger] after[b]).key() by {
                assert(after[a] == before[a]);
                if b < before.len() {
                    assert(after[b] == before[b]);
                } else {
                    assert(before[a].key() != key@);
                }
            }
        }
    }

    /// Takes out the proposal with this key, and says whether there was one.
    pub fn remove(&mut self, key: &ProposalKey) -> (r: bool)
        requires
            old(self).wf(),
        ensures
            final(self).wf(),
            final(self).waiting() == keyed::without_key(old(self).waiting(), key@),
            r == keyed::contains_key(old(self).waiting(), key@),
    {
        keyed::remove(&mut self.entries, key).is_some()
    }

    /// Whether a proposal waits under this key.
    pub fn contains(&self, key: &ProposalKey) -> (r: bool)
        ensures
            r == keyed::contains_key(self.waiting(), key@),
    {
        keyed::find(&self.entries, key).is_some()
    }
}

/// What comes of a proposal.
#[derive(Debug, Clone, Copy, PartialEq, Eq, Structural)]
pub struct ProposalDecision {
    /// What came of a certificate that waited for the block, where the proposal carried it.
    pub finality: Option<FinalizeOutcome>,
    /// The part to play when the proposal goes on to validation; none if it is rejected.
    pub role: Option<MnGroupRole>,
}

/// Whether two lists of transactions hold the same bytes.
pub open spec fn same_txs(a: Seq<Vec<u8>>, b: Seq<Vec<u8>>) -> bool {
    a.len() == b.len() && forall|i: int| 0 <= i < a.len() ==> (#[trigger] a[i])@ == b[i]@
}

/// Whether `next` is `prev` after the block of a proposal came along with it.
pub open spec fn payload_cached(
    prev: &FinalityTracker,
    next: &FinalityTracker,
    p: LightnodeProposal,
    now: u64,
    outcome: Option<FinalizeOutcome>,
) -> bool {
    match p.raw_txs {
        None => {
            &&& next.cached() == prev.cached()
            &&& next.finalized() == prev.finalized()
            &&& next.waiting() == prev.waiting()
            &&& outcome is None
        },
        Some(raw) => {
            &&& exists|txs: Vec<Vec<u8>>|
                {
                    &&& same_txs(txs@, raw@)
                    &&& next.cached() == #[trigger] finality::cached_after(
                        prev.cached(),
                        BlockMessageWire {
                            hash: p.block_hash,
                            header: BlockHeaderWire {
                                exec_height: p.height,
                                proposer: p.proposer_pubkey,
                            },
                            txs,
                        },
                    )
                }
            &&& exists|mid: FinalityTracker|
                {
                    &&& mid.cached() == next.cached()
                    &&& mid.finalized() == prev.finalized()
                    &&& mid.waiting() == prev.waiting()
                    &&& #[trigger] finality::drained(&mid, next, p.block_hash@, now, outcome)
                }
        },
    }
}

/// Takes a proposal: keeps the block that comes along with it at hand, checks the election of
/// its proposer, and says which part this masternode plays. A backup also lets the proposal wait
/// for the leader's certificate. `groups` are the groups known here, and `group_index` is the
/// number of the proposal's group.
pub fn handle_lightnode_proposal(
    tracker: &mut FinalityTracker,
    pending: &mut PendingProposals,
    proposal: LightnodeProposal,
    groups: &[GroupView],
    group_index: Option<u64>,
    local_peer: &str,
    tenure_unchecked: bool,
    now: u64,
) -> (r: ProposalDecision)
    requires
        old(tracker).wf(),
        old(pending).wf(),
    ensures
        final(tracker).wf(),
        final(pending).wf(),
        payload_cached(old(tracker), final(tracker), proposal, now, r.finality),
        r.role == proposal_role(proposal, groups@, group_index, local_peer@, tenure_unchecked),
        if r.role == Some(MnGroupRole::Backup) {
            &&& final(pending).waiting().len() > 0
            &&& final(pending).waiting().drop_last() == keyed::without_key(
                old(pending).waiting(),
                (proposal.proposer_group_id@, proposal.height, proposal.round_id),
            )
            &&& final(pending).waiting().last().key@ == (
                proposal.proposer_group_id@,
                proposal.height,
                proposal.round_id,
            )
            &&& final(pending).waiting().last().entry == (PendingProposalEntry {
                proposal,
                received_at: now,
            })
        } else {
            final(pending).waiting() == old(pending).waiting()
        },
{
    let finality = match &proposal.raw_txs {
        Some(raw) => {
            let txs = raw.clone();
            assert(same_txs(txs@, raw@)) by {
                assert forall|i: int| 0 <= i < txs@.len() implies (#[trigger] txs@[i])@
                    == raw@[i]@ by {
                    assert(cloned::<Vec<u8>>(raw@[i], txs@[i]));
                    assert(txs@[i]@ =~= raw@[i]@);
                }
            }
            tracker.cache_block_payload(
                proposal.block_hash,
                proposal.height,
                proposal.proposer_pubkey,
                txs,
                now,
            )
        },
        None => None,
    };
    if proposal.proposer_group_id.as_str().is_empty() {
        return ProposalDecision { finality, role: Some(MnGroupRole::Leader) };
    }
    let empty: Vec<String> = Vec::new();
    assert(empty@ =~= Seq::<String>::empty());
    let roster: &[String] = match find_by_id(groups, proposal.proposer_group_id.as_str()) {
        Some(i) => groups[i].members.as_slice(),
        None => empty.as_slice(),
    };
    if !ProposalValidator::verify_proposal_group_and_certificate(
        &proposal,
        roster,
        tenure_unchecked,
    ) {
        return ProposalDecision { finality, role: None };
    }
    let role = determine_role(
        groups,
        proposal.proposer_group_id.as_str(),
        group_index,
        local_peer,
    );
    if role == MnGroupRole::Backup {
        let key = ProposalKey {
            group_id: proposal.proposer_group_id.clone(),
            height: proposal.height,
            round_id: proposal.round_id,
        };
        pending.insert(key, PendingProposalEntry { proposal, received_at: now });
        assert(pending.waiting().drop_last() =~= keyed::without_key(old(pending).waiting(), key@));
    }
    ProposalDecision { finality, role: Some(role) }
}

/// The proposal that a lightnode's own form stands for, given the hash of what was signed.
pub fn proposal_from_compat(compat: &LightnodeBlockProposalCompat, block_hash: [u8; 64]) -> (r:
    LightnodeProposal)
    ensures
        r.round_id == compat.round_id,
        r.height == compat.height,
        r.timestamp == compat.timestamp,
        r.proposer_pubkey == compat.proposer_pubkey,
        r.block_hash == block_hash,
        r.tx_count == compat.transactions@.len() as u32,
        r.signature == compat.signature,
        r.parent_hash.0 == compat.parent_hash,
        r.state_root.0 == compat.state_root,
        r.tx_root.0 == compat.tx_root,
        r.proposer_group_id@.len() == 0,
        r.election_certificate is None,
        r.raw_txs is None,
{
    LightnodeProposal {
        round_id: compat.round_id,
        height: compat.height,
        timestamp: compat.timestamp,
        proposer_pubkey: compat.proposer_pubkey,
        block_hash,
        tx_count: compat.transactions.len() as u32,
        signature: compat.signature,
        parent_hash: ByteArray64(compat.parent_hash),
        state_root: ByteArray64(compat.state_root),
        tx_root: ByteArray64(compat.tx_root),
        proposer_group_id: String::new(),
        election_certificate: None,
        raw_txs: None,
    }
}

/// What comes of an acceptance certificate.
#[derive(Debug, Clone, Copy, PartialEq, Eq, Structural)]
pub enum AcceptanceOutcome {
    /// Its signature is not valid.
    Rejected,
    /// The proposal that waited for it waits no longer.
    BackupCancelled,
    /// Nothing waited for it.
    NothingPending,
}

/// Takes an acceptance certificate: if it verifies, the proposal that waits for it waits no
/// longer.
pub fn handle_block_acceptance_certificate(
    pending: &mut PendingProposals,
    cert: &BlockAcceptanceCertificate,
) -> (r: AcceptanceOutcome)
    requires
        old(pending).wf(),
    ensures
        final(pending).wf(),
        ({
            let key = (cert.group_id@, cert.height, cert.round_id);
            if !proposal_validator::acceptance_verifies(*cert) {
                &&& r == AcceptanceOutcome::Rejected
                &&& final(pending).waiting() == old(pending).waiting()
            } else {
                &&& r == (if keyed::contains_key(old(pending).waiting(), key) {
                    AcceptanceOutcome::BackupCancelled
                } else {
                    AcceptanceOutcome::NothingPending
                })
                &&& final(pending).waiting() == keyed::without_key(old(pending).waiting(), key)
            }
        }),
{
    if !ProposalValidator::verify_block_acceptance(cert) {
        return AcceptanceOutcome::Rejected;
    }
    let key = ProposalKey {
        group_id: cert.group_id.clone(),
        height: cert.height,
        round_id: cert.round_id,
    };
    if pending.remove(&key) {
        AcceptanceOutcome::BackupCancelled
    } else {
        AcceptanceOutcome::NothingPending
    }
}

/// After a certificate that verifies, the backup no longer waits for its block.
pub proof fn acceptance_cancels_backup(
    before: Seq<PendingProposal>,
    after: Seq<PendingProposal>,
    cert: BlockAcceptanceCertificate,
)
    requires
        keyed::unique_keys(before),
        after == keyed::without_key(before, (cert.group_id@, cert.height, cert.round_id)),
    ensures
        !keyed::contains_key(after, (cert.group_id@, cert.height, cert.round_id)),
{
    let key = (cert.group_id@, cert.height, cert.round_id);
    keyed::without_key_contains(before, key, key);
}

/// A proposal of a group whose members are known goes on only if at least two thirds of them
/// attest to the election of its proposer, each counted once.
pub proof fn members_stand_behind_a_proposal(
    p: LightnodeProposal,
    groups: Seq<GroupView>,
    index: Option<u64>,
    local: Seq<char>,
    tenure_unchecked: bool,
    i: int,
)
    requires
        p.proposer_group_id@.len() > 0,
        0 <= i < groups.len(),
        groups[i].group_id@ == p.proposer_group_id@,
        forall|j: int| 0 <= j < i ==> (#[trigger] groups[j]).group_id@ != p.proposer_group_id@,
        groups[i].members@.len() > 0,
        proposal_role(p, groups, index, local, tenure_unchecked) is Some,
    ensures
        p.election_certificate is Some,
        ({
            let atts = p.election_certificate->0.attestations@;
            3 * groups[i].members@.map_values(|m: String| m@).to_set().filter(
                |m: Seq<char>|
                    exists|j: int| 0 <= j < atts.len() && (#[trigger] atts[j]).signer_peer_id@ == m,
            ).len() >= 2 * groups[i].members@.len()
        }),
{
    search::first_index_is(groups, is_group(p.proposer_group_id@), i);
    proposal_validator::elections_are_proved_by_members(p, groups[i].members@, tenure_unchecked);
}

/// A proposal of a group that is not known here goes on only if three different peers attest to the
/// election of its proposer.
pub proof fn strangers_stand_behind_a_proposal(
    p: LightnodeProposal,
    groups: Seq<GroupView>,
    index: Option<u64>,
    local: Seq<char>,
    tenure_unchecked: bool,
)
    requires
        p.proposer_group_id@.len() > 0,
        forall|j: int|
            0 <= j < groups.len() ==> (#[trigger] groups[j]).group_id@ != p.proposer_group_id@,
        proposal_role(p, groups, index, local, tenure_unchecked) is Some,
    ensures
        p.election_certificate is Some,
        p.election_certificate->0.attestations@.map_values(
            |a: proposal_validator::ElectionAttestation| a.signer_peer_id@,
        ).to_set().len() >= 3,
{
    search::first_index_is_first(groups, is_group(p.proposer_group_id@));
    proposal_validator::elections_are_proved_by_members(p, Seq::empty(), tenure_unchecked);
}

/// Every proposal that goes on for a group carries a certificate of that group for its own
/// proposer, whose attestations are all validly signed; and, where the tenure counts, its height
/// lies in the hundred blocks of it.
pub proof fn only_the_elected_propose(
    p: LightnodeProposal,
    groups: Seq<GroupView>,
    index: Option<u64>,
    local: Seq<char>,
    tenure_unchecked: bool,
)
    requires
        p.proposer_group_id@.len() > 0,
        proposal_role(p, groups, index, local, tenure_unchecked) is Some,
    ensures
        p.election_certificate is Some,
        ({
            let cert = p.election_certificate->0;
            &&& cert.group_id@ == p.proposer_group_id@
            &&& cert.elected_proposer_pubkey@ == p.proposer_pubkey@
            &&& forall|k: int|
                0 <= k < cert.attestations@.len() ==> crypto::ed25519_accepts_strictly(
                    (#[trigger] cert.attestations@[k]).signer_pubkey@,
                    proposal_validator::election_payload(
                        cert,
                        cert.attestations@[k].signer_peer_id@,
                    ),
                    cert.attestations@[k].signature@,
                )
            &&& !tenure_unchecked ==> cert.tenure_start_height <= p.height
                < cert.tenure_start_height + 100
        }),
{
    proposal_validator::elections_are_proved_by_members(
        p,
        roster_of(groups, p.proposer_group_id@),
        tenure_unchecked,
    );
}

/// A proposal of a known group whose certificate is for the group and its proposer, is attested by
/// two thirds of the members with valid signatures, and is in its tenure, goes on: as the part that
/// the group gives this masternode.
pub proof fn the_elected_may_propose(
    p: LightnodeProposal,
    groups: Seq<GroupView>,
    index: Option<u64>,
    local: Seq<char>,
    tenure_unchecked: bool,
    i: int,
)
    requires
        p.proposer_group_id@.len() > 0,
        0 <= i < groups.len(),
        groups[i].group_id@ == p.proposer_group_id@,
        forall|j: int| 0 <= j < i ==> (#[trigger] groups[j]).group_id@ != p.proposer_group_id@,
        groups[i].members@.len() > 0,
        p.election_certificate is Some,
        ({
            let cert = p.election_certificate->0;
            let atts = cert.attestations@;
            &&& cert.group_id@ == p.proposer_group_id@
            &&& cert.elected_proposer_pubkey == p.proposer_pubkey
            &&& atts.len() > 0
            &&& forall|k: int|
                0 <= k < atts.len() ==> crypto::ed25519_accepts_strictly(
                    (#[trigger] atts[k]).signer_pubkey@,
                    proposal_validator::election_payload(cert, atts[k].signer_peer_id@),
                    atts[k].signature@,
                )
            &&& 3 * groups[i].members@.map_values(|m: String| m@).to_set().filter(
                |m: Seq<char>|
                    exists|j: int| 0 <= j < atts.len() && (#[trigger] atts[j]).signer_peer_id@ == m,
            ).len() >= 2 * groups[i].members@.len()
            &&& !tenure_unchecked ==> cert.tenure_start_height <= u64::MAX - 100
                && cert.tenure_start_height <= p.height < cert.tenure_start_height + 100
        }),
    ensures
        ({
            let leads = groups[i].group_leader_masternode matches Some(l) && l@ == local;
            let backs = groups[i].backup_leader_masternode matches Some(b) && b@ == local;
            proposal_role(p, groups, index, local, tenure_unchecked) == Some(
                if leads {
                    MnGroupRole::Leader
                } else if backs {
                    MnGroupRole::Backup
                } else {
                    MnGroupRole::Participant
                },
            )
        }),
{
    search::first_index_is(groups, is_group(p.proposer_group_id@), i);
    proposal_validator::members_prove_an_election(p, groups[i].members@, tenure_unchecked);
}

/// The part that a masternode plays goes by the first group with the identifier, or else by the
/// first one with the number: its leader leads, its backup backs, everybody else takes part.
pub proof fn roles_are_given_by_the_group(
    groups: Seq<GroupView>,
    id: Seq<char>,
    index: Option<u64>,
    local: Seq<char>,
    i: int,
)
    requires
        0 <= i < groups.len(),
        groups[i].group_id@ == id && (forall|j: int|
            0 <= j < i ==> (#[trigger] groups[j]).group_id@ != id) || (index is Some
            && groups[i].index == index && (forall|j: int|
            0 <= j < groups.len() ==> (#[trigger] groups[j]).group_id@ != id) && (forall|j: int|
            0 <= j < i ==> (#[trigger] groups[j]).index != index)),
    ensures
        matching_group(groups, id, index) == Some(i),
        role_for(groups, id, index, local) is Leader <==> (
        groups[i].group_leader_masternode matches Some(l) && l@ == local),
        role_for(groups, id, index, local) is Backup <==> (
        groups[i].backup_leader_masternode matches Some(b) && b@ == local) && !(
        groups[i].group_leader_masternode matches Some(l) && l@ == local),
{
    if groups[i].group_id@ == id && (forall|j: int|
        0 <= j < i ==> (#[trigger] groups[j]).group_id@ != id) {
        search::first_index_is(groups, is_group(id), i);
    } else {
        search::first_index_is_first(groups, is_group(id));
        search::first_index_is(groups, has_index(index), i);
    }
}

/// A masternode only takes part for a group that neither the identifier nor the number names; and
/// of proposals that name no group it is the leader.
pub proof fn unknown_groups_have_no_leader_here(
    p: LightnodeProposal,
    groups: Seq<GroupView>,
    id: Seq<char>,
    index: Option<u64>,
    local: Seq<char>,
    tenure_unchecked: bool,
)
    requires
        forall|j: int|
            0 <= j < groups.len() ==> (#[trigger] groups[j]).group_id@ != id && (index is None
                || groups[j].index != index),
        p.proposer_group_id@.len() == 0,
    ensures
        matching_group(groups, id, index) is None,
        role_for(groups, id, index, local) is Participant,
        proposal_role(p, groups, index, local, tenure_unchecked) == Some(MnGroupRole::Leader),
{
    search::first_index_is_first(groups, is_group(id));
    search::first_index_is_first(groups, has_index(index));
}

/// The block that comes along with a proposal is at hand afterwards, as the latest one, with the
/// transactions that came; without one, nothing changes.
pub proof fn the_block_of_a_proposal_is_at_hand(
    prev: FinalityTracker,
    next: FinalityTracker,
    p: LightnodeProposal,
    now: u64,
    outcome: Option<FinalizeOutcome>,
)
    requires
        payload_cached(&prev, &next, p, now, outcome),
    ensures
        p.raw_txs matches Some(raw) ==> {
            let block = next.cached().last();
            &&& next.cached().len() > 0
            &&& block.hash@ == p.block_hash@
            &&& block.header.exec_height == p.height
            &&& block.header.proposer@ == p.proposer_pubkey@
            &&& block.txs@.len() == raw@.len()
            &&& forall|i: int| 0 <= i < raw@.len() ==> (#[trigger] block.txs@[i])@ == raw@[i]@
        },
        p.raw_txs is None ==> outcome is None && next.cached() == prev.cached() && next.finalized()
            == prev.finalized() && next.waiting() == prev.waiting(),
{
}

} // verus!
