//! A simpler manager of monoliths: found by the height that they start at, kept until they run
//! out, with groups passed on to lightnodes one by one.
use vstd::prelude::*;

use crate::bytes::bytes_equal;
use crate::clock::unix_seconds;
use crate::keyed;
use crate::keyed::HeightKey;
use crate::keyed::Keyed;
use crate::masternode_p2p;
use crate::masternode_p2p::GroupApprovalCertificate;
use crate::masternode_p2p::GroupProposal;
use crate::masternode_p2p::GroupVote;
use crate::masternode_p2p::LeaderElectionCertificate;
use crate::masternode_p2p::LeaderElectionProposal;
use crate::messages::PeerInfo;
use crate::monolith_p2p;
use crate::monolith_p2p::calculate_block_hash;
use crate::monolith_p2p::copy_addresses;
use crate::monolith_p2p::distribution_order;
use crate::monolith_p2p::group_announce;
use crate::monolith_p2p::keep_highest;
use crate::monolith_p2p::select_ids;
use crate::monolith_p2p::CachedMonolith;
use crate::monolith_p2p::MonolithAction;
use crate::monolith_p2p::MonolithMessage;
use crate::monolith_p2p::MonolithP2PConfig;
use crate::monolith_p2p::P2PGroup;
use crate::monolith_p2p::NUM_SHARDS;
use crate::monolith_producer::MonolithBlock;
use crate::registration::LightNodeInfo;
use crate::text::same_text;

verus! {

/// The announcement of a group to its lightnodes, without a signature.
#[derive(Debug, Clone)]
pub struct LightnodeGroupAnnounce {
    pub epoch: u64,
    pub group_id: String,
    pub members: Vec<String>,
    /// Peers and their addresses.
    pub member_addresses: Vec<(String, String)>,
    pub proposer: String,
    pub timestamp: u64,
    pub assigned_shards: Vec<u32>,
    pub num_shards: u32,
}

/// A message about groups.
#[derive(Debug, Clone)]
pub enum MasternodeMessage {
    LightnodeGroupAnnounce(LightnodeGroupAnnounce),
    GroupProposal(GroupProposal),
    GroupVote(GroupVote),
    GroupApprovalCertificate(GroupApprovalCertificate),
    AvailableLightnodesRequest { requester_masternode: String, epoch: u64 },
    AvailableLightnodesResponse {
        responder_masternode: String,
        epoch: u64,
        available_count: usize,
    },
    GroupSyncRequest { from_epoch: u64, to_epoch: u64, requester_masternode: String },
    GroupSyncResponse {
        from_epoch: u64,
        to_epoch: u64,
        groups: Vec<P2PGroup>,
        responder_masternode: String,
    },
    LeaderElectionProposal(LeaderElectionProposal),
    LeaderElectionCertificate(LeaderElectionCertificate),
    LightnodeListSync { epoch: u64, lightnodes: Vec<LightNodeInfo>, requester_masternode: String },
}

/// Whether `to` is what a message between masternodes becomes here: signatures, certificates and
/// times are left out.
pub open spec fn becomes(from: masternode_p2p::MasternodeMessage, to: MasternodeMessage) -> bool {
    match from {
        masternode_p2p::MasternodeMessage::LightnodeGroupAnnounce(a) => to
            == MasternodeMessage::LightnodeGroupAnnounce(
            LightnodeGroupAnnounce {
                epoch: a.epoch,
                group_id: a.group_id,
                members: a.members,
                member_addresses: a.member_addresses,
                proposer: a.proposer,
                timestamp: a.timestamp,
                assigned_shards: a.assigned_shards,
                num_shards: a.num_shards,
            },
        ),
        masternode_p2p::MasternodeMessage::GroupProposal(p) => to
            == MasternodeMessage::GroupProposal(p),
        masternode_p2p::MasternodeMessage::GroupVote(v) => to == MasternodeMessage::GroupVote(v),
        masternode_p2p::MasternodeMessage::GroupApprovalCertificate(c) => to
            == MasternodeMessage::GroupApprovalCertificate(c),
        masternode_p2p::MasternodeMessage::AvailableLightnodesRequest {
            requester_masternode,
            epoch,
        } => to == (MasternodeMessage::AvailableLightnodesRequest { requester_masternode, epoch }),
        masternode_p2p::MasternodeMessage::AvailableLightnodesResponse {
            responder_masternode,
            epoch,
            available_count,
        } => to == (MasternodeMessage::AvailableLightnodesResponse {
            responder_masternode,
            epoch,
            available_count,
        }),
        masternode_p2p::MasternodeMessage::GroupSyncRequest {
            from_epoch,
            to_epoch,
            requester_masternode,
        } => to == (MasternodeMessage::GroupSyncRequest {
            from_epoch,
            to_epoch,
            requester_masternode,
        }),
        masternode_p2p::MasternodeMessage::GroupSyncResponse {
            certificates,
            responder_masternode,
        } => {
            &&& to is GroupSyncResponse
            &&& to->GroupSyncResponse_from_epoch == 0
            &&& to->GroupSyncResponse_to_epoch == 0
            &&& to->GroupSyncResponse_groups@.len() == 0
            &&& to->GroupSyncResponse_responder_masternode == responder_masternode
        },
        masternode_p2p::MasternodeMessage::LeaderElectionProposal(p) => to
            == MasternodeMessage::LeaderElectionProposal(p),
        masternode_p2p::MasternodeMessage::LeaderElectionCertificate(c) => to
            == MasternodeMessage::LeaderElectionCertificate(c),
        masternode_p2p::MasternodeMessage::LightnodeListSync {
            sender_masternode,
            timestamp,
            lightnodes,
        } => to == (MasternodeMessage::LightnodeListSync {
            epoch: 0,
            lightnodes,
            requester_masternode: sender_masternode,
        }),
    }
}

impl MasternodeMessage {
    /// What a message between masternodes becomes here.
    pub fn from_masternode(msg: masternode_p2p::MasternodeMessage) -> (r: Self)
        ensures
            becomes(msg, r),
    {
        match msg {
            masternode_p2p::MasternodeMessage::LightnodeGroupAnnounce(a) => {
                MasternodeMessage::LightnodeGroupAnnounce(
                    LightnodeGroupAnnounce {
                        epoch: a.epoch,
                        group_id: a.group_id,
                        members: a.members,
                        member_addresses: a.member_addresses,
                        proposer: a.proposer,
                        timestamp: a.timestamp,
                        assigned_shards: a.assigned_shards,
                        num_shards: a.num_shards,
                    },
                )
            },
            masternode_p2p::MasternodeMessage::GroupProposal(p) => MasternodeMessage::GroupProposal(
                p,
            ),
            masternode_p2p::MasternodeMessage::GroupVote(v) => MasternodeMessage::GroupVote(v),
            masternode_p2p::MasternodeMessage::GroupApprovalCertificate(c) => {
                MasternodeMessage::GroupApprovalCertificate(c)
            },
            masternode_p2p::MasternodeMessage::AvailableLightnodesRequest {
                requester_masternode,
                epoch,
            } => { MasternodeMessage::AvailableLightnodesRequest { requester_masternode, epoch } },
            masternode_p2p::MasternodeMessage::AvailableLightnodesResponse {
                responder_masternode,
                epoch,
                available_count,
            } => {
                MasternodeMessage::AvailableLightnodesResponse {
                    responder_masternode,
                    epoch,
                    available_count,
                }
            },
            masternode_p2p::MasternodeMessage::GroupSyncRequest {
                from_epoch,
                to_epoch,
                requester_masternode,
            } => {
                MasternodeMessage::GroupSyncRequest { from_epoch, to_epoch, requester_masternode }
            },
            masternode_p2p::MasternodeMessage::GroupSyncResponse {
                certificates: _,
                responder_masternode,
            } => {
                MasternodeMessage::GroupSyncResponse {
                    from_epoch: 0,
                    to_epoch: 0,
                    groups: Vec::new(),
                    responder_masternode,
                }
            },
            masternode_p2p::MasternodeMessage::LeaderElectionProposal(p) => {
                MasternodeMessage::LeaderElectionProposal(p)
            },
            masternode_p2p::MasternodeMessage::LeaderElectionCertificate(c) => {
                MasternodeMessage::LeaderElectionCertificate(c)
            },
            masternode_p2p::MasternodeMessage::LightnodeListSync {
                sender_masternode,
                timestamp: _,
                lightnodes,
            } => {
                MasternodeMessage::LightnodeListSync {
                    epoch: 0,
                    lightnodes,
                    requester_masternode: sender_masternode,
                }
            },
        }
    }
}

/// Whether an announcement passes a group on: its proposer is the peer that it came from.
pub open spec fn passes_on(
    a: LightnodeGroupAnnounce,
    g: P2PGroup,
    epoch: u64,
    sender: Seq<char>,
    timestamp: u64,
) -> bool {
    &&& a.epoch == epoch
    &&& a.group_id@ == g.group_id@
    &&& a.members@ == g.members@
    &&& a.member_addresses@ == g.member_multiaddrs@
    &&& a.proposer@ == sender
    &&& a.timestamp == timestamp
    &&& a.assigned_shards@ == g.assigned_shards@
    &&& a.num_shards == NUM_SHARDS
}

/// The announcements that pass groups on, one for each group.
pub fn forward_groups_at(
    groups: &[P2PGroup],
    epoch: u64,
    sender_peer_id: &String,
    timestamp: u64,
) -> (r: Vec<LightnodeGroupAnnounce>)
    ensures
        r@.len() == groups@.len(),
        forall|i: int|
            0 <= i < r@.len() ==> passes_on(
                #[trigger] r@[i],
                groups@[i],
                epoch,
                sender_peer_id@,
                timestamp,
            ),
{
    let mut out: Vec<LightnodeGroupAnnounce> = Vec::new();
    let mut i: usize = 0;
    while i < groups.len()
        invariant
            i <= groups@.len(),
            out@.len() == i,
            forall|k: int|
                0 <= k < i ==> passes_on(
                    #[trigger] out@[k],
                    groups@[k],
                    epoch,
                    sender_peer_id@,
                    timestamp,
                ),
        decreases groups@.len() - i,
    {
        let group = &groups[i];
        let members = group.members.clone();
        assert(members@ =~= group.members@);
        let assigned_shards = group.assigned_shards.clone();
        assert(assigned_shards@ =~= group.assigned_shards@);
        out.push(
            LightnodeGroupAnnounce {
                epoch,
                group_id: group.group_id.clone(),
                members,
                member_addresses: copy_addresses(&group.member_multiaddrs),
                proposer: sender_peer_id.clone(),
                timestamp,
                assigned_shards,
                num_shards: NUM_SHARDS,
            },
        );
        i += 1;
    }
    out
}

/// Whether a monolith at hand could be valid: it starts above zero and does not end before that.
pub open spec fn plausible(b: MonolithBlock) -> bool {
    b.start_height > 0 && b.end_height >= b.start_height
}

/// Whether a monolith could be valid and has this hash.
pub open spec fn vouched_for(block: MonolithBlock, block_hash: Seq<u8>) -> bool {
    plausible(block) && monolith_p2p::block_hash_of(block) == block_hash
}

/// Whether a monolith at hand has not run out.
pub open spec fn still_fresh(ttl: u64, now: u64) -> spec_fn(CachedMonolith) -> bool {
    |e: CachedMonolith| now - e.block.created_at <= ttl
}

/// The monoliths at hand after one more came, within a limit.
pub open spec fn with_limit(c: Seq<CachedMonolith>, block: MonolithBlock, limit: nat) -> Seq<
    CachedMonolith,
> {
    monolith_p2p::highest(monolith_p2p::with_monolith(c, block.start_height, block), limit)
}

/// What is sent when groups are handed out.
#[derive(Debug)]
pub struct GroupDispatch {
    /// The lightnodes that the groups are sent to.
    pub recipients: Vec<String>,
    /// What each of them is sent.
    pub message: MonolithMessage,
}

/// The monoliths at hand and the peers that they are handed out to.
#[derive(Debug)]
pub struct MonolithP2PManager {
    local_peer_id: String,
    connected_peers: Vec<PeerInfo>,
    monolith_cache: Vec<CachedMonolith>,
    config: MonolithP2PConfig,
}

impl MonolithP2PManager {
    /// The identifier of this node.
    pub closed spec fn local_id(&self) -> Seq<char> {
        self.local_peer_id@
    }

    /// The peers that were added.
    pub closed spec fn peers(&self) -> Seq<PeerInfo> {
        self.connected_peers@
    }

    /// The monoliths at hand.
    pub closed spec fn cache(&self) -> Seq<CachedMonolith> {
        self.monolith_cache@
    }

    /// The settings.
    pub closed spec fn settings(&self) -> MonolithP2PConfig {
        self.config
    }

    /// No peer is there twice, the limit on monoliths is kept, and each is found by the height
    /// that it starts at.
    pub open spec fn wf(&self) -> bool {
        &&& keyed::unique_keys(self.peers())
        &&& self.cache().len() <= self.settings().max_cache_size
        &&& keyed::unique_keys(self.cache())
        &&& forall|i: int|
            0 <= i < self.cache().len() ==> (#[trigger] self.cache()[i]).height
                == self.cache()[i].block.start_height
    }

    /// Whether only the monoliths at hand differ.
    pub open spec fn same_but_cache(&self, other: &Self) -> bool {
        &&& self.local_id() == other.local_id()
        &&& self.peers() == other.peers()
        &&& self.settings() == other.settings()
    }

    /// A manager without peers or monoliths.
    pub fn new(local_peer_id: String, config: MonolithP2PConfig) -> (r: Self)
        ensures
            r.wf(),
            r.local_id() == local_peer_id@,
            r.settings() == config,
            r.peers().len() == 0,
            r.cache().len() == 0,
    {
        MonolithP2PManager {
            local_peer_id,
            connected_peers: Vec::new(),
            monolith_cache: Vec::new(),
            config,
        }
    }

    /// Adds a peer, in place of an earlier entry of it.
    pub fn add_peer(&mut self, peer_info: PeerInfo)
        requires
            old(self).wf(),
        ensures
            final(self).wf(),
            final(self).peers() == keyed::without_key(old(self).peers(), peer_info.peer_id@).push(
                peer_info,
            ),
            final(self).local_id() == old(self).local_id(),
            final(self).settings() == old(self).settings(),
            final(self).cache() == old(self).cache(),
    {
        let id = peer_info.peer_id.clone();
        keyed::replace(&mut self.connected_peers, id.as_str(), peer_info);
    }

    /// Removes a peer.
    pub fn remove_peer(&mut self, peer_id: &str)
        requires
            old(self).wf(),
        ensures
            final(self).wf(),
            final(self).peers() == keyed::without_key(old(self).peers(), peer_id@),
            final(self).local_id() == old(self).local_id(),
            final(self).settings() == old(self).settings(),
            final(self).cache() == old(self).cache(),
    {
        let _ = keyed::remove(&mut self.connected_peers, peer_id);
    }

    /// Who gets a monolith: the lightnodes first, then the masternodes.
    pub fn distribute_monolith(&self) -> (r: Vec<String>)
        ensures
            r@.map_values(|s: String| s@) == monolith_p2p::ids_of(
                self.peers().filter(monolith_p2p::is_light()),
            ) + monolith_p2p::ids_of(self.peers().filter(monolith_p2p::is_heavy())),
    {
        distribution_order(self.connected_peers.as_slice())
    }

    /// Works out what is sent when groups are handed out: all of them, with their epoch, to each
    /// lightnode.
    pub fn distribute_groups_impl(&self, groups: &[P2PGroup], epoch: u64) -> (r: GroupDispatch)
        ensures
            r.recipients@.map_values(|s: String| s@) == monolith_p2p::ids_of(
                self.peers().filter(monolith_p2p::is_light()),
            ),
            monolith_p2p::hands_out(r.message, groups@, epoch, self.local_id()),
    {
        GroupDispatch {
            recipients: select_ids(self.connected_peers.as_slice(), true),
            message: group_announce(groups, epoch, &self.local_peer_id),
        }
    }

    fn insert(&mut self, block: MonolithBlock)
        requires
            old(self).wf(),
        ensures
            final(self).wf(),
            final(self).same_but_cache(old(self)),
            final(self).cache() == with_limit(
                old(self).cache(),
                block,
                old(self).settings().max_cache_size as nat,
            ),
    {
        let ghost c = self.monolith_cache@;
        let height: u64 = block.start_height;
        proof {
            keyed::without_key_keeps_unique(c, height);
        }
        keyed::replace(
            &mut self.monolith_cache,
            &HeightKey { height },
            CachedMonolith { height, block },
        );
        proof {
            let t = keyed::without_key(c, height);
            assert forall|i: int| 0 <= i < self.monolith_cache@.len() implies (
            #[trigger] self.monolith_cache@[i]).height
                == self.monolith_cache@[i].block.start_height by {
                if i < t.len() {
                    assert(c.contains(t[i]));
                }
            }
        }
        let ghost all = self.monolith_cache@;
        proof {
            monolith_p2p::highest_keeps_the_highest(all, self.config.max_cache_size as nat);
        }
        keep_highest(&mut self.monolith_cache, self.config.max_cache_size);
        proof {
            let u = self.monolith_cache@;
            assert forall|i: int| 0 <= i < u.len() implies (#[trigger] u[i]).height
                == u[i].block.start_height by {
                assert(u.contains(u[i]));
                assert(all.contains(u[i]));
            }
        }
    }

    /// The monolith of a height, if it is at hand.
    pub fn cached_block(&self, height: u64) -> (r: Option<&MonolithBlock>)
        requires
            self.wf(),
        ensures
            r is Some == keyed::contains_key(self.cache(), height),
            r matches Some(b) ==> self.cache().contains(CachedMonolith { height, block: *b }),
    {
        match keyed::find(&self.monolith_cache, &HeightKey { height }) {
            Some(i) => {
                assert(self.monolith_cache@[i as int].key() == height);
                assert(self.cache()[i as int] == CachedMonolith {
                    height,
                    block: self.monolith_cache@[i as int].block,
                });
                Some(&self.monolith_cache[i].block)
            },
            None => None,
        }
    }

    /// Whether a monolith with this hash is at hand that could be valid.
    fn has_plausible(&self, block_hash: &[u8; 64]) -> (r: bool)
        ensures
            r == exists|i: int|
                0 <= i < self.cache().len() && vouched_for(
                    (#[trigger] self.cache()[i]).block,
                    block_hash@,
                ),
    {
        let mut i: usize = 0;
        while i < self.monolith_cache.len()
            invariant
                i <= self.monolith_cache@.len(),
                forall|k: int|
                    0 <= k < i ==> !vouched_for(
                        (#[trigger] self.monolith_cache@[k]).block,
                        block_hash@,
                    ),
            decreases self.monolith_cache@.len() - i,
        {
            let block = &self.monolith_cache[i].block;
            let hash = calculate_block_hash(block);
            if block.start_height > 0 && block.end_height >= block.start_height && bytes_equal(
                hash.as_slice(),
                block_hash.as_slice(),
            ) {
                assert(vouched_for(self.cache()[i as int].block, block_hash@));
                return true;
            }
            i += 1;
        }
        false
    }

    /// Handles a message, and says what is to be sent in return. Groups are passed on by
    /// `forward_groups_at`; answers about monoliths and requests for groups change nothing.
    pub fn handle_monolith_message(&mut self, sender_peer_id: String, message: MonolithMessage) -> (r:
        MonolithAction)
        requires
            old(self).wf(),
        ensures
            final(self).wf(),
            final(self).same_but_cache(old(self)),
            match message {
                MonolithMessage::MonolithAnnounce { block, .. } => {
                    &&& r is Nothing
                    &&& final(self).cache() == with_limit(
                        old(self).cache(),
                        block,
                        old(self).settings().max_cache_size as nat,
                    )
                },
                MonolithMessage::MonolithRequest { height, epoch_id, requester_peer_id } => {
                    &&& final(self).cache() == old(self).cache()
                    &&& r == (if keyed::contains_key(old(self).cache(), height) {
                        MonolithAction::SendBlock { to: sender_peer_id, height, requester_peer_id }
                    } else {
                        MonolithAction::Nothing
                    })
                },
                MonolithMessage::MonolithResponse { block, requester_peer_id } => {
                    &&& r is Nothing
                    &&& final(self).cache() == (if requester_peer_id@ == old(self).local_id() {
                        with_limit(
                            old(self).cache(),
                            block,
                            old(self).settings().max_cache_size as nat,
                        )
                    } else {
                        old(self).cache()
                    })
                },
                MonolithMessage::MonolithVerify { block_hash, requester_peer_id } => {
                    &&& final(self).cache() == old(self).cache()
                    &&& r == (MonolithAction::SendVerdict {
                        to: sender_peer_id,
                        is_valid: exists|i: int|
                            0 <= i < old(self).cache().len() && vouched_for(
                                (#[trigger] old(self).cache()[i]).block,
                                block_hash@,
                            ),
                        block_hash,
                        requester_peer_id,
                    })
                },
                MonolithMessage::MonolithVerifyResponse { .. } => r is Nothing && final(
                    self).cache() == old(self).cache(),
                MonolithMessage::GroupAnnounce { .. } => r is Nothing && final(self).cache()
                    == old(self).cache(),
                MonolithMessage::GroupRequest { .. } => r is Nothing && final(self).cache() == old(
                    self).cache(),
            },
    {
        match message {
            MonolithMessage::MonolithAnnounce { block, sender_peer_id: _ } => {
                self.insert(block);
                MonolithAction::Nothing
            },
            MonolithMessage::MonolithRequest { height, epoch_id: _, requester_peer_id } => {
                if keyed::find(&self.monolith_cache, &HeightKey { height }).is_some() {
                    MonolithAction::SendBlock { to: sender_peer_id, height, requester_peer_id }
                } else {
                    MonolithAction::Nothing
                }
            },
            MonolithMessage::MonolithResponse { block, requester_peer_id } => {
                if same_text(requester_peer_id.as_str(), self.local_peer_id.as_str()) {
                    self.insert(block);
                }
                MonolithAction::Nothing
            },
            MonolithMessage::MonolithVerify { block_hash, requester_peer_id } => {
                let is_valid = self.has_plausible(&block_hash);
                MonolithAction::SendVerdict {
                    to: sender_peer_id,
                    is_valid,
                    block_hash,
                    requester_peer_id,
                }
            },
            _ => MonolithAction::Nothing,
        }
    }

    /// How many monoliths are at hand, counted twice over.
    pub fn get_cache_stats(&self) -> (r: (usize, u64))
        ensures
            r.0 == self.cache().len(),
            r.1 == self.cache().len(),
    {
        (self.monolith_cache.len(), self.monolith_cache.len() as u64)
    }

    /// Drops the monoliths that have run out at `now`; says how many.
    pub fn clear_expired_cache_at(&mut self, now: u64) -> (r: usize)
        requires
            old(self).wf(),
        ensures
            final(self).wf(),
            final(self).same_but_cache(old(self)),
            final(self).cache() == old(self).cache().filter(
                still_fresh(old(self).settings().cache_ttl_secs, now),
            ),
            r == old(self).cache().len() - final(self).cache().len(),
    {
        let before: usize = self.monolith_cache.len();
        let ttl: u64 = self.config.cache_ttl_secs;
        let ghost c = self.monolith_cache@;
        proof {
            keyed::filter_keeps_unique(c, still_fresh(ttl, now));
        }
        let keep = |e: &CachedMonolith| -> (b: bool)
            ensures
                b == still_fresh(ttl, now)(*e),
            { now.saturating_sub(e.block.created_at) <= ttl };
        keyed::retain(&mut self.monolith_cache, keep, Ghost(still_fresh(ttl, now)));
        proof {
            let t = self.monolith_cache@;
            assert forall|i: int| 0 <= i < t.len() implies (#[trigger] t[i]).height
                == t[i].block.start_height by {
                assert(c.contains(t[i]));
            }
        }
        before - self.monolith_cache.len()
    }

    /// Drops the monoliths that have run out; says how many.
    pub fn clear_expired_cache(&mut self) -> (r: usize)
        requires
            old(self).wf(),
        ensures
            final(self).wf(),
            final(self).same_but_cache(old(self)),
            exists|now: u64|
                final(self).cache() == old(self).cache().filter(
                    #[trigger] still_fresh(old(self).settings().cache_ttl_secs, now),
                ),
            r == old(self).cache().len() - final(self).cache().len(),
    {
        let now: u64 = unix_seconds();
        self.clear_expired_cache_at(now)
    }
}

/// A message keeps its kind, and what is told of a group stays as it was told.
pub proof fn messages_keep_their_kind(
    from: masternode_p2p::MasternodeMessage,
    to: MasternodeMessage,
)
    requires
        becomes(from, to),
    ensures
        from matches masternode_p2p::MasternodeMessage::LightnodeGroupAnnounce(a) ==> (
        to matches MasternodeMessage::LightnodeGroupAnnounce(b) && b.epoch == a.epoch && b.group_id
            == a.group_id && b.members == a.members && b.member_addresses == a.member_addresses
            && b.proposer == a.proposer && b.timestamp == a.timestamp && b.assigned_shards
            == a.assigned_shards && b.num_shards == a.num_shards),
        from matches masternode_p2p::MasternodeMessage::GroupProposal(p) ==> (
        to matches MasternodeMessage::GroupProposal(q) && p == q),
        from matches masternode_p2p::MasternodeMessage::GroupVote(v) ==> (
        to matches MasternodeMessage::GroupVote(w) && v == w),
        from matches masternode_p2p::MasternodeMessage::GroupApprovalCertificate(c) ==> (
        to matches MasternodeMessage::GroupApprovalCertificate(d) && c == d),
        from matches masternode_p2p::MasternodeMessage::LeaderElectionProposal(p) ==> (
        to matches MasternodeMessage::LeaderElectionProposal(q) && p == q),
        from matches masternode_p2p::MasternodeMessage::LeaderElectionCertificate(c) ==> (
        to matches MasternodeMessage::LeaderElectionCertificate(d) && c == d),
        from is AvailableLightnodesRequest <==> to is AvailableLightnodesRequest,
        from is AvailableLightnodesResponse <==> to is AvailableLightnodesResponse,
        from is GroupSyncRequest <==> to is GroupSyncRequest,
        from is GroupSyncResponse <==> to is GroupSyncResponse,
        from is LightnodeListSync <==> to is LightnodeListSync,
{
}

/// A group is passed on as it is, in the name of the one that passes it on.
pub proof fn groups_are_passed_on_as_they_are(
    a: LightnodeGroupAnnounce,
    g: P2PGroup,
    epoch: u64,
    sender: Seq<char>,
    timestamp: u64,
)
    requires
        passes_on(a, g, epoch, sender, timestamp),
    ensures
        a.group_id@ == g.group_id@,
        a.members@ == g.members@,
        a.member_addresses@ == g.member_multiaddrs@,
        a.assigned_shards@ == g.assigned_shards@,
        a.proposer@ == sender,
        a.epoch == epoch,
        a.timestamp == timestamp,
        a.num_shards == 65536,
{
}

/// A monolith is vouched for exactly if its heights make sense and its hash is the one told:
/// it does not begin at the genesis, and does not end before it begins.
pub proof fn monoliths_are_vouched_for_by_their_hash(b: MonolithBlock, hash: Seq<u8>)
    ensures
        vouched_for(b, hash) <==> 1 <= b.start_height <= b.end_height
            && monolith_p2p::block_hash_of(b) == hash,
{
}

/// Monoliths stay at hand for as long as they are kept, and then go.
pub proof fn monoliths_stay_for_their_time(
    c: Seq<CachedMonolith>,
    ttl: u64,
    now: u64,
    e: CachedMonolith,
)
    ensures
        c.filter(still_fresh(ttl, now)).contains(e) <==> c.contains(e) && now <= e.block.created_at
            + ttl,
{
    keyed::filter_keeps_the_wanted(c, still_fresh(ttl, now), e);
}

/// Where there is room, a monolith is at hand by its first height and all others stay at hand.
/// There are never more than the limit, and never two of one height.
pub proof fn new_monoliths_are_at_hand(
    c: Seq<CachedMonolith>,
    block: MonolithBlock,
    limit: nat,
    e: CachedMonolith,
)
    requires
        keyed::unique_keys(c),
    ensures
        with_limit(c, block, limit).len() <= limit,
        c.len() < limit ==> with_limit(c, block, limit).contains(
            CachedMonolith { height: block.start_height, block },
        ),
        c.len() < limit && c.contains(e) && e.height != block.start_height ==> with_limit(
            c,
            block,
            limit,
        ).contains(e),
        with_limit(c, block, limit).contains(e) && e.height != block.start_height ==> c.contains(e),
        with_limit(c, block, limit).contains(e) && e.height == block.start_height ==> e.block
            == block,
{
    let all = monolith_p2p::with_monolith(c, block.start_height, block);
    monolith_p2p::the_latest_monolith_of_a_height_counts(c, block.start_height, block, e);
    monolith_p2p::the_latest_monolith_of_a_height_counts(
        c,
        block.start_height,
        block,
        CachedMonolith { height: block.start_height, block },
    );
    keyed::without_key_keeps_the_rest(c, block.start_height);
    assert(keyed::unique_keys(all)) by {
        keyed::without_key_keeps_unique(c, block.start_height);
        let rest = keyed::without_key(c, block.start_height);
        assert forall|a: int, b: int| 0 <= a < b < all.len() implies (#[trigger] all[a]).key() != (
        #[trigger] all[b]).key() by {
            assert(all[a] == rest[a]);
            assert(rest.contains(rest[a]));
            if b < rest.len() {
                assert(all[b] == rest[b]);
            }
        }
    }
    monolith_p2p::highest_keeps_the_highest(all, limit);
}

} // verus!
