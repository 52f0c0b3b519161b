//! Messages between masternodes: what they are about, on which topic they go out, and which are
//! not sent again.
use vstd::prelude::*;
use vstd::string::StringExecFns;

use crate::keyed;
use crate::keyed::Keyed;
use crate::registration::LightNodeInfo;
use crate::text;
use crate::text::push_decimal;
use crate::text::same_text;
use crate::text_set::TextSet;
use crate::topics;

verus! {

/// How many messages are remembered as sent.
pub const MAX_DEDUPE_ENTRIES: usize = 10_000;

/// The announcement of a group to its lightnodes.
#[derive(Debug, Clone)]
pub struct LightnodeGroupAnnounce {
    pub epoch: u64,
    pub group_id: String,
    pub members: Vec<String>,
    /// Peers and their addresses.
    pub member_addresses: Vec<(String, String)>,
    pub proposer: String,
    pub timestamp: u64,
    /// In hexadecimal.
    pub signature: Option<String>,
    /// In hexadecimal.
    pub signer_pubkey: Option<String>,
    pub assigned_shards: Vec<u32>,
    pub num_shards: u32,
}

/// A proposal of groups.
#[derive(Debug, Clone)]
pub struct GroupProposal {
    pub proposal_id: String,
    pub epoch: u64,
    pub proposer_masternode: String,
    /// The identifiers of the groups.
    pub groups: Vec<String>,
}

/// A vote on a proposal of groups.
#[derive(Debug, Clone)]
pub struct GroupVote {
    pub proposal_id: String,
    pub voter_masternode: String,
}

/// The certificate of a proposal of groups that was approved.
#[derive(Debug, Clone)]
pub struct GroupApprovalCertificate {
    pub proposal: GroupProposal,
}

/// A masternode's proposal of itself as leader.
#[derive(Debug, Clone)]
pub struct LeaderElectionProposal {
    pub election_id: String,
    pub epoch: u64,
    pub proposer_masternode: String,
    pub timestamp: u64,
}

/// The approval of a leader.
#[derive(Debug, Clone)]
pub struct LeaderElectionCertificate {
    pub election_id: String,
    pub approver_masternode: String,
}

/// A message between masternodes.
#[derive(Debug, Clone)]
pub enum MasternodeMessage {
    GroupProposal(GroupProposal),
    GroupVote(GroupVote),
    GroupApprovalCertificate(GroupApprovalCertificate),
    AvailableLightnodesRequest { requester_masternode: String, epoch: u64 },
    AvailableLightnodesResponse {
        responder_masternode: String,
        epoch: u64,
        available_count: usize,
    },
    GroupSyncRequest { from_epoch: u64, to_epoch: u64, requester_masternode: String },
    GroupSyncResponse { certificates: Vec<GroupApprovalCertificate>, responder_masternode: String },
    LeaderElectionProposal(LeaderElectionProposal),
    LeaderElectionCertificate(LeaderElectionCertificate),
    LightnodeListSync { sender_masternode: String, timestamp: u64, lightnodes: Vec<LightNodeInfo> },
    LightnodeGroupAnnounce(LightnodeGroupAnnounce),
}

/// The identifier of the proposal or election that a message is about.
pub open spec fn message_id(m: MasternodeMessage) -> Seq<char> {
    match m {
        MasternodeMessage::GroupProposal(p) => p.proposal_id@,
        MasternodeMessage::GroupVote(v) => v.proposal_id@,
        MasternodeMessage::GroupApprovalCertificate(c) => c.proposal.proposal_id@,
        MasternodeMessage::LeaderElectionProposal(p) => p.election_id@,
        MasternodeMessage::LeaderElectionCertificate(c) => c.election_id@,
        _ => "unknown"@,
    }
}

/// The epoch of a message, or zero.
pub open spec fn message_epoch(m: MasternodeMessage) -> u64 {
    match m {
        MasternodeMessage::GroupProposal(p) => p.epoch,
        MasternodeMessage::GroupApprovalCertificate(c) => c.proposal.epoch,
        MasternodeMessage::AvailableLightnodesRequest { epoch, .. } => epoch,
        MasternodeMessage::AvailableLightnodesResponse { epoch, .. } => epoch,
        MasternodeMessage::LeaderElectionProposal(p) => p.epoch,
        MasternodeMessage::LightnodeGroupAnnounce(a) => a.epoch,
        _ => 0,
    }
}

/// How many groups a message speaks of.
pub open spec fn message_groups(m: MasternodeMessage) -> nat {
    match m {
        MasternodeMessage::GroupProposal(p) => p.groups@.len(),
        MasternodeMessage::GroupApprovalCertificate(c) => c.proposal.groups@.len(),
        MasternodeMessage::LightnodeGroupAnnounce(_) => 1,
        _ => 0,
    }
}

/// The topic that a message goes out on.
pub open spec fn message_topic(m: MasternodeMessage) -> Seq<char> {
    match m {
        MasternodeMessage::GroupProposal(_) => topics::GROUP_PROPOSAL_TOPIC@,
        MasternodeMessage::GroupVote(_) => topics::GROUP_VOTE_TOPIC@,
        MasternodeMessage::LeaderElectionProposal(_) => topics::LEADER_ELECTION_TOPIC@,
        MasternodeMessage::LeaderElectionCertificate(_) => topics::LEADER_ELECTION_TOPIC@,
        MasternodeMessage::LightnodeListSync { .. } => topics::LIGHTNODE_LIST_SYNC_TOPIC@,
        MasternodeMessage::LightnodeGroupAnnounce(_) => topics::GROUP_ANNOUNCE_TOPIC@,
        _ => topics::GROUP_SYNC_TOPIC@,
    }
}

/// What a message is remembered by once it is sent: its identifier, epoch and number of groups.
/// Requests to synchronize go out again and again, and a message with none of the three is not
/// told from others.
pub open spec fn dedupe_key(m: MasternodeMessage) -> Option<Seq<char>> {
    if m is GroupSyncRequest || (message_id(m) == "unknown"@ && message_epoch(m) == 0
        && message_groups(m) == 0) {
        None
    } else {
        Some(
            message_id(m) + ":"@ + text::decimal(message_epoch(m) as nat) + ":"@ + text::decimal(
                message_groups(m),
            ),
        )
    }
}

impl MasternodeMessage {
    /// The identifier of the proposal or election that the message is about.
    pub fn get_proposal_id(&self) -> (r: String)
        ensures
            r@ == message_id(*self),
    {
        match self {
            MasternodeMessage::GroupProposal(p) => p.proposal_id.clone(),
            MasternodeMessage::GroupVote(v) => v.proposal_id.clone(),
            MasternodeMessage::GroupApprovalCertificate(c) => c.proposal.proposal_id.clone(),
            MasternodeMessage::LeaderElectionProposal(p) => p.election_id.clone(),
            MasternodeMessage::LeaderElectionCertificate(c) => c.election_id.clone(),
            _ => "unknown".to_owned(),
        }
    }

    /// The epoch of the message, or zero.
    pub fn get_epoch(&self) -> (r: u64)
        ensures
            r == message_epoch(*self),
    {
        match self {
            MasternodeMessage::GroupProposal(p) => p.epoch,
            MasternodeMessage::GroupApprovalCertificate(c) => c.proposal.epoch,
            MasternodeMessage::AvailableLightnodesRequest { epoch, .. } => *epoch,
            MasternodeMessage::AvailableLightnodesResponse { epoch, .. } => *epoch,
            MasternodeMessage::LeaderElectionProposal(p) => p.epoch,
            MasternodeMessage::LightnodeGroupAnnounce(a) => a.epoch,
            _ => 0,
        }
    }

    /// How many groups the message speaks of.
    pub fn get_groups_count(&self) -> (r: usize)
        ensures
            r == message_groups(*self),
    {
        match self {
            MasternodeMessage::GroupProposal(p) => p.groups.len(),
            MasternodeMessage::GroupApprovalCertificate(c) => c.proposal.groups.len(),
            MasternodeMessage::LightnodeGroupAnnounce(_) => 1,
            _ => 0,
        }
    }

    /// The topic that the message goes out on.
    pub fn topic(&self) -> (r: &'static str)
        ensures
            r@ == message_topic(*self),
    {
        match self {
            MasternodeMessage::GroupProposal(_) => topics::GROUP_PROPOSAL_TOPIC,
            MasternodeMessage::GroupVote(_) => topics::GROUP_VOTE_TOPIC,
            MasternodeMessage::LeaderElectionProposal(_) => topics::LEADER_ELECTION_TOPIC,
            MasternodeMessage::LeaderElectionCertificate(_) => topics::LEADER_ELECTION_TOPIC,
            MasternodeMessage::LightnodeListSync { .. } => topics::LIGHTNODE_LIST_SYNC_TOPIC,
            MasternodeMessage::LightnodeGroupAnnounce(_) => topics::GROUP_ANNOUNCE_TOPIC,
            _ => topics::GROUP_SYNC_TOPIC,
        }
    }

    /// What the message is remembered by once it is sent.
    pub fn build_masternode_dedupe_key(&self) -> (r: Option<String>)
        ensures
            match dedupe_key(*self) {
                Some(k) => r matches Some(key) && key@ == k,
                None => r is None,
            },
    {
        if let MasternodeMessage::GroupSyncRequest { .. } = self {
            return None;
        }
        let epoch: u64 = self.get_epoch();
        let groups: usize = self.get_groups_count();
        let mut key = self.get_proposal_id();
        if same_text(key.as_str(), "unknown") && epoch == 0 && groups == 0 {
            return None;
        }
        key.append(":");
        push_decimal(&mut key, epoch);
        key.append(":");
        push_decimal(&mut key, groups as u64);
        Some(key)
    }
}

/// What is to be done with a message that is to go out.
#[derive(Debug, Clone, Copy, PartialEq, Eq, Structural)]
pub enum PublishPlan {
    /// Send the announcement by itself, without the wrapper of masternode messages.
    Announcement,
    /// Send the message.
    Message,
    /// It has been sent already.
    AlreadySent,
}

/// What is to be done with a message when some are remembered as sent.
pub open spec fn plan_for(sent: Set<Seq<char>>, m: MasternodeMessage) -> PublishPlan {
    if m is LightnodeGroupAnnounce {
        PublishPlan::Announcement
    } else if dedupe_key(m) is Some && sent.contains(dedupe_key(m)->0) {
        PublishPlan::AlreadySent
    } else {
        PublishPlan::Message
    }
}

/// What is remembered as sent after a message. When as many messages are remembered as may be,
/// all of them are forgotten first.
pub open spec fn sent_after(sent: Set<Seq<char>>, m: MasternodeMessage) -> Set<Seq<char>> {
    if plan_for(sent, m) == PublishPlan::Message && dedupe_key(m) is Some {
        (if sent.len() >= MAX_DEDUPE_ENTRIES {
            Set::empty()
        } else {
            sent
        }).insert(dedupe_key(m)->0)
    } else {
        sent
    }
}

/// Remembers which messages were sent.
pub struct MasternodePublisher {
    sent: TextSet,
}

impl MasternodePublisher {
    /// What the messages that were sent are remembered by.
    pub closed spec fn sent(&self) -> Set<Seq<char>> {
        self.sent@
    }

    /// The limit on what is remembered is kept.
    pub closed spec fn wf(&self) -> bool {
        self.sent.wf() && self.sent@.len() <= MAX_DEDUPE_ENTRIES
    }

    /// The limit on what is remembered is kept.
    pub proof fn limit_is_kept(&self)
        requires
            self.wf(),
        ensures
            self.sent().len() <= MAX_DEDUPE_ENTRIES,
    {
    }

    /// Nothing was sent.
    pub fn new() -> (r: Self)
        ensures
            r.wf(),
            r.sent() == Set::<Seq<char>>::empty(),
    {
        MasternodePublisher { sent: TextSet::new() }
    }

    /// Says what is to be done with a message, and remembers it.
    pub fn publish_masternode_message(&mut self, message: &MasternodeMessage) -> (r: PublishPlan)
        requires
            old(self).wf(),
        ensures
            final(self).wf(),
            r == plan_for(old(self).sent(), *message),
            final(self).sent() == sent_after(old(self).sent(), *message),
    {
        if let MasternodeMessage::LightnodeGroupAnnounce(_) = message {
            return PublishPlan::Announcement;
        }
        if let Some(key) = message.build_masternode_dedupe_key() {
            if self.sent.contains(key.as_str()) {
                return PublishPlan::AlreadySent;
            }
            if self.sent.len() >= MAX_DEDUPE_ENTRIES {
                self.sent.clear();
            }
            proof {
                self.sent.list_is_set();
            }
            let _ = self.sent.insert(key);
            proof {
                self.sent.list_is_set();
            }
        }
        PublishPlan::Message
    }
}

/// A message that was sent, and is told from others, is not sent again right after.
pub proof fn sent_once(sent: Set<Seq<char>>, m: MasternodeMessage)
    requires
        plan_for(sent, m) == PublishPlan::Message,
        dedupe_key(m) is Some,
    ensures
        plan_for(sent_after(sent, m), m) == PublishPlan::AlreadySent,
{
}

/// A message stays sent whatever else is sent, until as many messages are remembered as may be.
pub proof fn sent_stays_sent(sent: Set<Seq<char>>, m: MasternodeMessage, other: MasternodeMessage)
    requires
        plan_for(sent, m) == PublishPlan::AlreadySent,
        sent.len() < MAX_DEDUPE_ENTRIES,
    ensures
        plan_for(sent_after(sent, other), m) == PublishPlan::AlreadySent,
{
}

/// A connected masternode and its peer.
#[derive(Debug, Clone)]
pub struct MasternodePeer {
    pub masternode_id: String,
    pub peer_id: String,
}

impl Keyed for MasternodePeer {
    type Query = str;

    open spec fn key(&self) -> Seq<char> {
        self.masternode_id@
    }

    fn has_key(&self, query: &str) -> (r: bool) {
        same_text(self.masternode_id.as_str(), query)
    }
}

/// The masternodes that this one exchanges messages with.
pub struct MasternodeP2PManager {
    local_masternode_id: String,
    connected_masternodes: Vec<MasternodePeer>,
}

impl MasternodeP2PManager {
    /// The identifier of this masternode.
    pub closed spec fn local_id(&self) -> Seq<char> {
        self.local_masternode_id@
    }

    /// The connected masternodes.
    pub closed spec fn connected(&self) -> Seq<MasternodePeer> {
        self.connected_masternodes@
    }

    /// No masternode is connected twice.
    pub open spec fn wf(&self) -> bool {
        keyed::unique_keys(self.connected())
    }

    /// No masternode is connected.
    pub fn new(local_masternode_id: String) -> (r: Self)
        ensures
            r.wf(),
            r.local_id() == local_masternode_id@,
            r.connected().len() == 0,
    {
        MasternodeP2PManager { local_masternode_id, connected_masternodes: Vec::new() }
    }

    /// The topics that masternodes listen to.
    pub fn initialize_topics(&self) -> (r: Vec<&'static str>)
        ensures
            r@.len() == 5,
            r@[0]@ == topics::GROUP_PROPOSAL_TOPIC@,
            r@[1]@ == topics::GROUP_VOTE_TOPIC@,
            r@[2]@ == topics::GROUP_SYNC_TOPIC@,
            r@[3]@ == topics::LEADER_ELECTION_TOPIC@,
            r@[4]@ == topics::LIGHTNODE_LIST_SYNC_TOPIC@,
    {
        vec![
            topics::GROUP_PROPOSAL_TOPIC,
            topics::GROUP_VOTE_TOPIC,
            topics::GROUP_SYNC_TOPIC,
            topics::LEADER_ELECTION_TOPIC,
            topics::LIGHTNODE_LIST_SYNC_TOPIC,
        ]
    }

    /// Takes note of a connected masternode.
    pub fn add_masternode_peer(&mut self, masternode_id: String, peer_id: String)
        requires
            old(self).wf(),
        ensures
            final(self).wf(),
            final(self).local_id() == old(self).local_id(),
            final(self).connected().len() > 0,
            final(self).connected().drop_last() == keyed::without_key(
                old(self).connected(),
                masternode_id@,
            ),
            final(self).connected().last().masternode_id@ == masternode_id@,
            final(self).connected().last().peer_id@ == peer_id@,
    {
        let key = masternode_id.clone();
        keyed::replace(
            &mut self.connected_masternodes,
            key.as_str(),
            MasternodePeer { masternode_id, peer_id },
        );
        assert(self.connected().drop_last() =~= keyed::without_key(old(self).connected(), key@));
    }

    /// Takes note that a masternode is no longer connected.
    pub fn remove_masternode_peer(&mut self, masternode_id: &str)
        requires
            old(self).wf(),
        ensures
            final(self).wf(),
            final(self).local_id() == old(self).local_id(),
            final(self).connected() == keyed::without_key(old(self).connected(), masternode_id@),
    {
        let _ = keyed::remove(&mut self.connected_masternodes, masternode_id);
    }

    /// Whether something for a masternode can be sent: only while it is connected.
    pub fn can_reach(&self, masternode_id: &str) -> (r: bool)
        ensures
            r == keyed::contains_key(self.connected(), masternode_id@),
    {
        keyed::find(&self.connected_masternodes, masternode_id).is_some()
    }

    /// The vote for a masternode, if it is connected.
    pub fn send_group_vote(&self, target_masternode: &str, vote: GroupVote) -> (r: Option<
        MasternodeMessage,
    >)
        ensures
            r == (if keyed::contains_key(self.connected(), target_masternode@) {
                Some(MasternodeMessage::GroupVote(vote))
            } else {
                None
            }),
    {
        if self.can_reach(target_masternode) {
            Some(MasternodeMessage::GroupVote(vote))
        } else {
            None
        }
    }

    /// The request for the number of lightnodes that are free.
    pub fn request_available_lightnodes(&self, epoch: u64) -> (r: MasternodeMessage)
        ensures
            r matches MasternodeMessage::AvailableLightnodesRequest {
                requester_masternode,
                epoch: e,
            } && requester_masternode@ == self.local_id() && e == epoch,
    {
        MasternodeMessage::AvailableLightnodesRequest {
            requester_masternode: self.local_masternode_id.clone(),
            epoch,
        }
    }

    /// The answer with the number of lightnodes that are free, if the requester is connected.
    pub fn respond_available_lightnodes(&self, requester: &str, epoch: u64, count: usize) -> (r:
        Option<MasternodeMessage>)
        ensures
            r is Some == keyed::contains_key(self.connected(), requester@),
            r matches Some(m) ==> (m matches MasternodeMessage::AvailableLightnodesResponse {
                responder_masternode,
                epoch: e,
                available_count,
            } && responder_masternode@ == self.local_id() && e == epoch && available_count
                == count),
    {
        if self.can_reach(requester) {
            Some(
                MasternodeMessage::AvailableLightnodesResponse {
                    responder_masternode: self.local_masternode_id.clone(),
                    epoch,
                    available_count: count,
                },
            )
        } else {
            None
        }
    }

    /// The request for the groups of some epochs.
    pub fn request_group_sync(&self, from_epoch: u64, to_epoch: u64) -> (r: MasternodeMessage)
        ensures
            r matches MasternodeMessage::GroupSyncRequest {
                from_epoch: f,
                to_epoch: t,
                requester_masternode,
            } && f == from_epoch && t == to_epoch && requester_masternode@ == self.local_id(),
    {
        MasternodeMessage::GroupSyncRequest {
            from_epoch,
            to_epoch,
            requester_masternode: self.local_masternode_id.clone(),
        }
    }

    /// The answer with certificates of groups, if the requester is connected.
    pub fn respond_group_sync(&self, requester: &str, certificates: Vec<GroupApprovalCertificate>) -> (r:
        Option<MasternodeMessage>)
        ensures
            r is Some == keyed::contains_key(self.connected(), requester@),
            r matches Some(m) ==> (m matches MasternodeMessage::GroupSyncResponse {
                certificates: c,
                responder_masternode,
            } && c == certificates && responder_masternode@ == self.local_id()),
    {
        if self.can_reach(requester) {
            Some(
                MasternodeMessage::GroupSyncResponse {
                    certificates,
                    responder_masternode: self.local_masternode_id.clone(),
                },
            )
        } else {
            None
        }
    }

    /// Sends on an answer with certificates of groups, as this masternode's own; nothing else can
    /// be sent so.
    pub fn send_group_sync_response(&self, requester: &str, response: MasternodeMessage) -> (r:
        Result<Option<MasternodeMessage>, WrongMessage>)
        ensures
            r is Ok == response is GroupSyncResponse,
            r matches Ok(out) ==> {
                &&& out is Some == keyed::contains_key(self.connected(), requester@)
                &&& out matches Some(m) ==> (m matches MasternodeMessage::GroupSyncResponse {
                    certificates: c,
                    responder_masternode,
                } && c == response->GroupSyncResponse_certificates && responder_masternode@
                    == self.local_id())
            },
    {
        match response {
            MasternodeMessage::GroupSyncResponse { certificates, .. } => Ok(
                self.respond_group_sync(requester, certificates),
            ),
            _ => Err(WrongMessage),
        }
    }

    /// The list of lightnodes for the other masternodes.
    pub fn broadcast_lightnode_list(&self, lightnodes: Vec<LightNodeInfo>, timestamp: u64) -> (r:
        MasternodeMessage)
        ensures
            r matches MasternodeMessage::LightnodeListSync {
                sender_masternode,
                timestamp: t,
                lightnodes: l,
            } && sender_masternode@ == self.local_id() && t == timestamp && l == lightnodes,
    {
        MasternodeMessage::LightnodeListSync {
            sender_masternode: self.local_masternode_id.clone(),
            timestamp,
            lightnodes,
        }
    }

    /// How many masternodes are connected.
    pub fn get_connected_masternodes_count(&self) -> (r: usize)
        ensures
            r == self.connected().len(),
    {
        self.connected_masternodes.len()
    }
}

/// A message of another kind than the one that was asked for.
#[derive(Debug, Clone, Copy, PartialEq, Eq, Structural)]
pub struct WrongMessage;

/// Each kind of message goes out on the topic of its kind; what has none of its own goes out on
/// that of the synchronisation of groups.
pub proof fn messages_go_out_on_their_topic(m: MasternodeMessage)
    ensures
        m is GroupProposal ==> message_topic(m) == "/savitri/masternode/group/proposal/1"@,
        m is GroupVote ==> message_topic(m) == "/savitri/masternode/group/vote/1"@,
        m is LeaderElectionProposal || m is LeaderElectionCertificate ==> message_topic(m)
            == "/savitri/masternode/leader/election/1"@,
        m is LightnodeListSync ==> message_topic(m)
            == "/savitri/masternode/lightnode_list/sync/1"@,
        m is LightnodeGroupAnnounce ==> message_topic(m) == "/savitri/lightnode/group/announce/1"@,
        m is GroupApprovalCertificate || m is AvailableLightnodesRequest
            || m is AvailableLightnodesResponse || m is GroupSyncRequest || m is GroupSyncResponse
            ==> message_topic(m) == "/savitri/masternode/group/sync/1"@,
{
}

proof fn split_at_colon(a: Seq<char>, b: Seq<char>, c: Seq<char>, d: Seq<char>)
    requires
        a + ":"@ + b == c + ":"@ + d,
        forall|i: int| 0 <= i < a.len() ==> #[trigger] a[i] != ':',
        forall|i: int| 0 <= i < c.len() ==> #[trigger] c[i] != ':',
    ensures
        a == c,
        b == d,
{
    reveal_strlit(":");
    let x = a + ":"@ + b;
    let y = c + ":"@ + d;
    assert(":"@.len() == 1);
    assert(x[a.len() as int] == ':');
    assert(y[c.len() as int] == ':');
    if a.len() < c.len() {
        assert(y[a.len() as int] == c[a.len() as int]);
    } else if c.len() < a.len() {
        assert(x[c.len() as int] == a[c.len() as int]);
    }
    assert(a =~= x.subrange(0, a.len() as int));
    assert(c =~= y.subrange(0, c.len() as int));
    assert(b =~= x.skip(a.len() as int + 1));
    assert(d =~= y.skip(c.len() as int + 1));
}

proof fn digits_hold_no_colon(n: nat)
    ensures
        forall|i: int| 0 <= i < text::decimal(n).len() ==> #[trigger] text::decimal(n)[i] != ':',
{
    text::decimal_is_read_back(n);
    assert forall|i: int| 0 <= i < text::decimal(n).len() implies #[trigger] text::decimal(n)[i]
        != ':' by {
        text::digits_are_ascii(text::decimal(n)[i]);
    }
}

/// Two messages on the same proposal or election that are of different epochs, or of a different
/// number of groups, are told apart: that the one was sent does not hold the other back.
pub proof fn messages_of_other_epochs_are_sent(
    sent: Set<Seq<char>>,
    a: MasternodeMessage,
    b: MasternodeMessage,
)
    requires
        plan_for(sent, a) == PublishPlan::Message,
        plan_for(sent, b) == PublishPlan::Message,
        message_id(a) == message_id(b),
        message_epoch(a) != message_epoch(b) || message_groups(a) != message_groups(b),
    ensures
        plan_for(sent_after(sent, a), b) == PublishPlan::Message,
{
    if dedupe_key(a) is Some && dedupe_key(b) is Some && dedupe_key(a) == dedupe_key(b) {
        let id = message_id(a);
        let ea = text::decimal(message_epoch(a) as nat);
        let eb = text::decimal(message_epoch(b) as nat);
        let ga = text::decimal(message_groups(a));
        let gb = text::decimal(message_groups(b));
        let ka = id + ":"@ + ea + ":"@ + ga;
        let kb = id + ":"@ + eb + ":"@ + gb;
        reveal_strlit(":");
        assert(ka == kb);
        assert(ka.skip(id.len() as int + 1) =~= ea + ":"@ + ga);
        assert(kb.skip(id.len() as int + 1) =~= eb + ":"@ + gb);
        digits_hold_no_colon(message_epoch(a) as nat);
        digits_hold_no_colon(message_epoch(b) as nat);
        split_at_colon(ea, ga, eb, gb);
        text::decimal_is_read_back(message_epoch(a) as nat);
        text::decimal_is_read_back(message_epoch(b) as nat);
        text::decimal_is_read_back(message_groups(a));
        text::decimal_is_read_back(message_groups(b));
    }
}

/// What a message is about is what it carries.
pub proof fn messages_say_what_they_are_about(m: MasternodeMessage)
    ensures
        m matches MasternodeMessage::GroupProposal(p) ==> message_id(m) == p.proposal_id@
            && message_epoch(m) == p.epoch && message_groups(m) == p.groups@.len(),
        m matches MasternodeMessage::GroupVote(v) ==> message_id(m) == v.proposal_id@,
        m matches MasternodeMessage::GroupApprovalCertificate(c) ==> message_id(m)
            == c.proposal.proposal_id@ && message_epoch(m) == c.proposal.epoch && message_groups(m)
            == c.proposal.groups@.len(),
        m matches MasternodeMessage::LeaderElectionProposal(p) ==> message_id(m) == p.election_id@
            && message_epoch(m) == p.epoch,
        m matches MasternodeMessage::LeaderElectionCertificate(c) ==> message_id(m)
            == c.election_id@,
{
}

/// Requests for synchronisation, and messages that say of nothing which it is, are sent each
/// time; so are announcements of groups.
pub proof fn requests_are_sent_each_time(sent: Set<Seq<char>>, m: MasternodeMessage)
    ensures
        m is GroupSyncRequest || m is GroupSyncResponse || m is LightnodeListSync ==> plan_for(
            sent,
            m,
        ) == PublishPlan::Message && sent_after(sent, m) == sent,
        m is LightnodeGroupAnnounce <==> plan_for(sent, m) == PublishPlan::Announcement,
        m is LightnodeGroupAnnounce ==> sent_after(sent, m) == sent,
        sent.finite() && sent.len() <= 10_000 ==> sent_after(sent, m).len() <= 10_000,
{
}

} // verus!
