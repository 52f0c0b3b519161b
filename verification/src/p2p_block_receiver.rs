//! Block proposals of lightnodes as they come in: which are taken up, and how they are voted on.
use vstd::prelude::*;

use crate::keyed;
use crate::keyed::HeightKey;
use crate::keyed::Keyed;
use crate::proposal_validator;
use crate::proposal_validator::BlockCertificate;
use crate::proposal_validator::LightnodeProposal;
use crate::proposal_validator::MasternodeVote;
use crate::proposal_validator::ProposalValidator;
use crate::text::same_text;

verus! {

/// A message as the transport hands it over.
#[derive(Debug, Clone)]
pub struct GossipsubMessage {
    pub topic: String,
    pub data: Vec<u8>,
    pub from: String,
    pub seq_no: u64,
}

/// A message about block proposals.
#[derive(Debug)]
pub enum MasternodeMessage {
    BlockProposal(LightnodeProposal),
    MasternodeVote(MasternodeVote),
    BlockCertificate(BlockCertificate),
    HeightRequest,
    HeightResponse(u64),
}

/// What the messages of a topic are about.
#[derive(Debug, Clone, Copy, PartialEq, Eq, Structural)]
pub enum ProposalTopic {
    Proposal,
    Vote,
    Round,
    Unknown,
}

/// The topics that are listened to.
pub const BLOCK_PROPOSAL_TOPIC: &'static str = "savitri/block/proposal";

pub const BLOCK_VOTE_TOPIC: &'static str = "savitri/block/vote";

pub const CONSENSUS_ROUND_TOPIC: &'static str = "savitri/consensus/round";

/// What the messages of a topic are about.
pub open spec fn topic_of(topic: Seq<char>) -> ProposalTopic {
    if topic == BLOCK_PROPOSAL_TOPIC@ {
        ProposalTopic::Proposal
    } else if topic == BLOCK_VOTE_TOPIC@ {
        ProposalTopic::Vote
    } else if topic == CONSENSUS_ROUND_TOPIC@ {
        ProposalTopic::Round
    } else {
        ProposalTopic::Unknown
    }
}

/// Finds out what the messages of a topic are about.
pub fn classify_topic(topic: &str) -> (r: ProposalTopic)
    ensures
        r == topic_of(topic@),
{
    if same_text(topic, BLOCK_PROPOSAL_TOPIC) {
        ProposalTopic::Proposal
    } else if same_text(topic, BLOCK_VOTE_TOPIC) {
        ProposalTopic::Vote
    } else if same_text(topic, CONSENSUS_ROUND_TOPIC) {
        ProposalTopic::Round
    } else {
        ProposalTopic::Unknown
    }
}

/// A proposal that was taken up, by its height.
#[derive(Debug)]
pub struct ActiveProposal {
    pub height: u64,
    pub proposal: LightnodeProposal,
}

impl Keyed for ActiveProposal {
    type Query = HeightKey;

    open spec fn key(&self) -> u64 {
        self.height
    }

    fn has_key(&self, query: &HeightKey) -> (r: bool) {
        let r = self.height == query.height;
        assert(r == (self.key() == query@));
        r
    }
}

/// Whether a proposal is not too far below a height.
pub open spec fn recent_enough(max_height: u64) -> spec_fn(ActiveProposal) -> bool {
    |e: ActiveProposal| e.height >= max_height - 10
}

/// Takes up proposals and votes on them.
#[derive(Debug)]
pub struct P2PBlockReceiver {
    validator: ProposalValidator,
    current_height: u64,
    active_proposals: Vec<ActiveProposal>,
}

impl P2PBlockReceiver {
    /// What proposals are checked and votes signed by.
    pub closed spec fn checker(&self) -> ProposalValidator {
        self.validator
    }

    /// The highest height that was proposed.
    pub closed spec fn height(&self) -> u64 {
        self.current_height
    }

    /// The proposals that were taken up.
    pub closed spec fn active(&self) -> Seq<ActiveProposal> {
        self.active_proposals@
    }

    /// A height has at most one proposal.
    pub open spec fn wf(&self) -> bool {
        keyed::unique_keys(self.active())
    }

    /// Whether a proposal was taken up: it takes the place of an earlier one of its height, and
    /// the height goes up with it.
    pub open spec fn took_up(&self, before: &Self, proposal: LightnodeProposal) -> bool {
        &&& self.checker() == before.checker()
        &&& self.active() == keyed::without_key(before.active(), proposal.height).push(
            ActiveProposal { height: proposal.height, proposal },
        )
        &&& self.height() == if proposal.height > before.height() {
            proposal.height
        } else {
            before.height()
        }
    }

    /// Whether nothing changed.
    pub open spec fn same(&self, before: &Self) -> bool {
        &&& self.checker() == before.checker()
        &&& self.active() == before.active()
        &&& self.height() == before.height()
    }

    /// Whether a proposal was processed with this outcome, where the clock reads, one after the
    /// other, the three `readings`: when the proposal comes, when the vote on it is considered,
    /// and when the vote is cast. It is taken up if it passes at the first, and voted on if it
    /// then also passes at the second and the vote is in time at the third.
    pub open spec fn processed(
        &self,
        before: &Self,
        proposal: LightnodeProposal,
        expected_hash: Seq<u8>,
        readings: (u64, u64, u64),
        vote: Option<MasternodeVote>,
    ) -> bool {
        let accepted = proposal_validator::valid_as_read(proposal, expected_hash, readings.0);
        &&& if accepted {
            self.took_up(before, proposal)
        } else {
            self.same(before)
        }
        &&& vote is Some <==> accepted && proposal_validator::voted_as_read(
            proposal,
            expected_hash,
            readings.1,
            readings.2,
        )
        &&& vote matches Some(v) ==> before.checker().is_approval(v, proposal)
    }

    /// A receiver that has taken up nothing.
    pub fn new(validator: ProposalValidator) -> (r: Self)
        ensures
            r.wf(),
            r.checker() == validator,
            r.height() == 0,
            r.active().len() == 0,
    {
        P2PBlockReceiver { validator, current_height: 0, active_proposals: Vec::new() }
    }

    fn take_up(&mut self, proposal: LightnodeProposal)
        requires
            old(self).wf(),
        ensures
            final(self).wf(),
            final(self).took_up(old(self), proposal),
    {
        let height: u64 = proposal.height;
        keyed::replace(
            &mut self.active_proposals,
            &HeightKey { height },
            ActiveProposal { height, proposal },
        );
        if height > self.current_height {
            self.current_height = height;
        }
    }

    /// Checks a proposal at `now`; one that is sound is taken up and voted on. `expected_hash` is
    /// the hash that its contents give.
    pub fn process_proposal_at(
        &mut self,
        proposal: LightnodeProposal,
        expected_hash: &[u8; 64],
        now: u64,
    ) -> (r: Option<MasternodeVote>)
        requires
            old(self).wf(),
            3600 <= now <= u64::MAX - 300,
        ensures
            final(self).wf(),
            ({
                let accepted = proposal_validator::proposal_sound(proposal, expected_hash@)
                    && proposal_validator::proposal_timely(proposal, now);
                &&& accepted ==> final(self).took_up(old(self), proposal)
                &&& !accepted ==> final(self).same(old(self))
                &&& r is Some <==> accepted && proposal_validator::vote_timely(proposal, now)
            }),
            r matches Some(vote) ==> old(self).checker().is_approval(vote, proposal),
    {
        if !self.validator.validate_proposal_at(&proposal, expected_hash, now) {
            return None;
        }
        let vote = self.validator.vote_on_proposal_at(&proposal, expected_hash, now, now);
        self.take_up(proposal);
        vote
    }

    /// Checks a proposal; one that is sound is taken up and voted on.
    pub fn process_proposal(&mut self, proposal: LightnodeProposal, expected_hash: &[u8; 64]) -> (r:
        Option<MasternodeVote>)
        requires
            old(self).wf(),
        ensures
            final(self).wf(),
            !proposal_validator::proposal_sound(proposal, expected_hash@) ==> final(self).same(
                old(self),
            ) && r is None,
            exists|received_at: u64, checked_at: u64, now: u64|
                #[trigger] final(self).processed(
                    old(self),
                    proposal,
                    expected_hash@,
                    (received_at, checked_at, now),
                    r,
                ),
    {
        let ghost hash = expected_hash@;
        if !self.validator.validate_proposal(&proposal, expected_hash) {
            let ghost received_at = choose|t: u64|
                false == #[trigger] proposal_validator::valid_as_read(proposal, hash, t);
            assert(self.processed(old(self), proposal, hash, (received_at, 0, 0), None));
            return None;
        }
        let ghost received_at = choose|t: u64|
            true == #[trigger] proposal_validator::valid_as_read(proposal, hash, t);
        let vote = self.validator.vote_on_proposal(&proposal, expected_hash);
        let ghost (checked_at, now) = choose|t: u64, u: u64|
            vote is Some == #[trigger] proposal_validator::voted_as_read(proposal, hash, t, u);
        self.take_up(proposal);
        assert(self.processed(old(self), proposal, hash, (received_at, checked_at, now), vote));
        vote
    }

    /// Handles a message: proposals are processed, the others change nothing.
    pub fn handle_message(&mut self, message: MasternodeMessage, expected_hash: &[u8; 64]) -> (r:
        Option<MasternodeVote>)
        requires
            old(self).wf(),
        ensures
            final(self).wf(),
            !(message is BlockProposal) ==> r is None && final(self).same(old(self)),
            message matches MasternodeMessage::BlockProposal(proposal) ==> {
                &&& !proposal_validator::proposal_sound(proposal, expected_hash@) ==> r is None
                    && final(self).same(old(self))
                &&& exists|received_at: u64, checked_at: u64, now: u64|
                    #[trigger] final(self).processed(
                        old(self),
                        proposal,
                        expected_hash@,
                        (received_at, checked_at, now),
                        r,
                    )
            },
    {
        match message {
            MasternodeMessage::BlockProposal(proposal) => self.process_proposal(
                proposal,
                expected_hash,
            ),
            _ => None,
        }
    }

    /// The highest height that was proposed.
    pub fn get_current_height(&self) -> (r: u64)
        ensures
            r == self.height(),
    {
        self.current_height
    }

    /// How many proposals were taken up.
    pub fn get_active_proposals_count(&self) -> (r: usize)
        ensures
            r == self.active().len(),
    {
        self.active_proposals.len()
    }

    /// Drops the proposals that are more than ten below a height.
    pub fn cleanup_old_proposals(&mut self, max_height: u64)
        requires
            old(self).wf(),
        ensures
            final(self).wf(),
            final(self).checker() == old(self).checker(),
            final(self).height() == old(self).height(),
            final(self).active() == old(self).active().filter(recent_enough(max_height)),
    {
        proof {
            keyed::filter_keeps_unique(self.active_proposals@, recent_enough(max_height));
        }
        let lowest: u64 = max_height.saturating_sub(10);
        let keep = |e: &ActiveProposal| -> (b: bool)
            ensures
                b == recent_enough(max_height)(*e),
            { e.height >= lowest };
        keyed::retain(&mut self.active_proposals, keep, Ghost(recent_enough(max_height)));
    }
}

/// The height never goes down.
pub proof fn height_never_falls(
    before: P2PBlockReceiver,
    after: P2PBlockReceiver,
    proposal: LightnodeProposal,
)
    requires
        after.took_up(&before, proposal),
    ensures
        after.height() >= before.height(),
        after.height() >= proposal.height,
{
}

/// A proposal that is taken up is the one for its height. Those for other heights stay, and the
/// height is the greater of the two.
pub proof fn the_latest_of_a_height_counts(
    before: P2PBlockReceiver,
    after: P2PBlockReceiver,
    proposal: LightnodeProposal,
    e: ActiveProposal,
)
    requires
        before.wf(),
        after.took_up(&before, proposal),
    ensures
        e.height == proposal.height ==> (after.active().contains(e) <==> e.proposal == proposal),
        e.height != proposal.height ==> (after.active().contains(e) <==> before.active().contains(
            e,
        )),
        after.height() == proposal.height || after.height() == before.height(),
        after.height() >= proposal.height && after.height() >= before.height(),
{
    let rest = keyed::without_key(before.active(), proposal.height);
    keyed::without_key_keeps_the_rest(before.active(), proposal.height);
    let a = after.active();
    if rest.contains(e) {
        let i = choose|i: int| 0 <= i < rest.len() && rest[i] == e;
        assert(a[i] == e);
    }
    if a.contains(e) {
        let i = choose|i: int| 0 <= i < a.len() && a[i] == e;
        if i < rest.len() {
            assert(rest[i] == e);
        }
    }
    assert(a[rest.len() as int] == ActiveProposal { height: proposal.height, proposal });
}

/// Of the proposals that were taken up, those stay that are at most ten below the given height.
pub proof fn proposals_stay_for_ten_heights(
    active: Seq<ActiveProposal>,
    max_height: u64,
    e: ActiveProposal,
)
    ensures
        active.filter(recent_enough(max_height)).contains(e) <==> active.contains(e) && e.height
            + 10 >= max_height,
{
    keyed::filter_keeps_the_wanted(active, recent_enough(max_height), e);
}

/// A proposal that is not sound is not voted for and changes nothing; one that is voted for is
/// taken up.
pub proof fn only_sound_proposals_are_taken_up(
    before: P2PBlockReceiver,
    after: P2PBlockReceiver,
    proposal: LightnodeProposal,
    expected_hash: Seq<u8>,
    readings: (u64, u64, u64),
    vote: Option<MasternodeVote>,
)
    requires
        after.processed(&before, proposal, expected_hash, readings, vote),
    ensures
        !proposal_validator::proposal_sound(proposal, expected_hash) ==> vote is None
            && after.active() == before.active() && after.height() == before.height(),
        vote is Some ==> after.active().len() > 0 && after.active().last().proposal == proposal
            && after.height() >= proposal.height,
        after.checker() == before.checker(),
{
}

/// Each kind of message has its topic.
pub proof fn topics_of_proposals(topic: Seq<char>)
    ensures
        topic_of(topic) is Proposal <==> topic == "savitri/block/proposal"@,
        topic_of(topic) is Vote <==> topic == "savitri/block/vote"@,
        topic_of(topic) is Round <==> topic == "savitri/consensus/round"@,
{
    reveal_strlit("savitri/block/proposal");
    reveal_strlit("savitri/block/vote");
    reveal_strlit("savitri/consensus/round");
    assert("savitri/block/proposal"@.len() == 22);
    assert("savitri/block/vote"@.len() == 18);
    assert("savitri/consensus/round"@.len() == 23);
}

} // verus!
