//! How monoliths and groups are handed out to peers, and what peers say of monoliths.
use vstd::prelude::*;

use crate::bytes;
use crate::bytes::bytes_equal;
use crate::bytes::push_bytes;
use crate::bytes::push_u64;
use crate::crypto;
use crate::crypto::ed25519_public;
use crate::crypto::ed25519_sign;
use crate::crypto::hex_encode;
use crate::crypto::sha512;
use crate::keyed;
use crate::keyed::HeightKey;
use crate::keyed::Keyed;
use crate::masternode_p2p::GroupApprovalCertificate;
use crate::masternode_p2p::GroupProposal;
use crate::masternode_p2p::GroupVote;
use crate::masternode_p2p::LeaderElectionCertificate;
use crate::masternode_p2p::LeaderElectionProposal;
use crate::messages::PeerInfo;
use crate::monolith_producer::MonolithBlock;
use crate::registration::LightNodeInfo;
use crate::search;
use crate::startup;
use crate::startup::order_validators;
use crate::text;
use crate::text::same_text;
use crate::text_set;

verus! {

/// The announcement of a group to its lightnodes.
#[derive(Debug, Clone)]
pub struct LightnodeGroupAnnounce {
    pub epoch: u64,
    pub group_id: String,
    pub members: Vec<String>,
    /// Peers and their addresses.
    pub member_addresses: Vec<(String, String)>,
    pub proposer: String,
    pub timestamp: u64,
    /// In hexadecimal.
    pub signature: Option<String>,
    /// In hexadecimal.
    pub signer_pubkey: Option<String>,
    pub assigned_shards: Vec<u32>,
    pub num_shards: u32,
}

/// A group of lightnodes.
#[derive(Debug, Clone)]
pub struct P2PGroup {
    pub group_id: String,
    pub epoch: u64,
    pub members: Vec<String>,
    pub proposer: Option<String>,
    /// Peers and their addresses.
    pub member_multiaddrs: Vec<(String, String)>,
    pub assigned_shards: Vec<u32>,
}

/// A message about groups.
#[derive(Debug, Clone)]
pub enum MasternodeMessage {
    LightnodeGroupAnnounce(LightnodeGroupAnnounce),
    GroupProposal(GroupProposal),
    GroupVote(GroupVote),
    GroupApprovalCertificate(GroupApprovalCertificate),
    AvailableLightnodesRequest { requester_masternode: String, epoch: u64 },
    AvailableLightnodesResponse {
        responder_masternode: String,
        epoch: u64,
        available_count: usize,
    },
    GroupSyncRequest { from_epoch: u64, to_epoch: u64, requester_masternode: String },
    GroupSyncResponse {
        from_epoch: u64,
        to_epoch: u64,
        groups: Vec<P2PGroup>,
        responder_masternode: String,
    },
    LeaderElectionProposal(LeaderElectionProposal),
    LeaderElectionCertificate(LeaderElectionCertificate),
    LightnodeListSync { epoch: u64, lightnodes: Vec<LightNodeInfo>, requester_masternode: String },
}

/// A message about monoliths, or one that hands out groups.
#[derive(Debug, Clone)]
pub enum MonolithMessage {
    MonolithAnnounce { block: MonolithBlock, sender_peer_id: String },
    MonolithRequest { height: u64, epoch_id: u64, requester_peer_id: String },
    MonolithResponse { block: MonolithBlock, requester_peer_id: String },
    MonolithVerify { block_hash: [u8; 64], requester_peer_id: String },
    MonolithVerifyResponse { is_valid: bool, block_hash: [u8; 64], requester_peer_id: String },
    GroupAnnounce { groups: Vec<P2PGroup>, epoch: u64, sender_peer_id: String },
    GroupRequest { node_info: LightNodeInfo, requester_peer_id: String },
}

/// What is to be done after a message.
#[derive(Debug)]
pub enum MonolithAction {
    Nothing,
    /// Answer with the monolith of a height.
    SendBlock { to: String, height: u64, requester_peer_id: String },
    /// Answer whether a monolith is known.
    SendVerdict {
        to: String,
        is_valid: bool,
        block_hash: [u8; 64],
        requester_peer_id: String,
    },
}

#[derive(Debug, Clone, Copy)]
pub struct MonolithP2PConfig {
    pub max_cache_size: usize,
    pub cache_ttl_secs: u64,
    pub broadcast_interval_secs: u64,
    pub max_retries: u32,
}

impl Default for MonolithP2PConfig {
    fn default() -> (r: Self)
        ensures
            r == (MonolithP2PConfig {
                max_cache_size: 1000,
                cache_ttl_secs: 604800,
                broadcast_interval_secs: 30,
                max_retries: 3,
            }),
    {
        MonolithP2PConfig {
            max_cache_size: 1000,
            cache_ttl_secs: 604800,
            broadcast_interval_secs: 30,
            max_retries: 3,
        }
    }
}

#[derive(Debug, Clone, Copy)]
pub struct MonolithP2PStats {
    pub connected_peers: usize,
    pub light_nodes: usize,
    pub masternodes: usize,
    pub cached_monoliths: usize,
    pub cache_size_bytes: usize,
}

/// How many shards there are.
pub const NUM_SHARDS: u32 = 65536;

/// A monolith at hand, and the height that it is found by.
#[derive(Debug)]
pub struct CachedMonolith {
    pub height: u64,
    pub block: MonolithBlock,
}

impl Keyed for CachedMonolith {
    type Query = HeightKey;

    open spec fn key(&self) -> u64 {
        self.height
    }

    fn has_key(&self, query: &HeightKey) -> (r: bool) {
        let r = self.height == query.height;
        assert(r == (self.key() == query@));
        r
    }
}

/// The monoliths at hand after one came; it takes the place of an earlier one.
pub open spec fn with_monolith(
    c: Seq<CachedMonolith>,
    height: u64,
    block: MonolithBlock,
) -> Seq<CachedMonolith> {
    keyed::without_key(c, height).push(CachedMonolith { height, block })
}

/// Where, among the first `n` monoliths, the lowest stands.
pub open spec fn lowest_of(c: Seq<CachedMonolith>, n: int) -> int
    decreases n,
{
    if n <= 1 {
        0
    } else {
        let m = lowest_of(c, n - 1);
        if c[n - 1].height < c[m].height {
            n - 1
        } else {
            m
        }
    }
}

/// The monoliths left when the lowest ones over the limit are dropped.
pub open spec fn highest(c: Seq<CachedMonolith>, limit: nat) -> Seq<CachedMonolith>
    decreases c.len(),
{
    if c.len() <= limit {
        c
    } else {
        let i = lowest_of(c, c.len() as int);
        if 0 <= i < c.len() {
            highest(c.remove(i), limit)
        } else {
            c
        }
    }
}

proof fn lowest_is_lowest(c: Seq<CachedMonolith>, n: int)
    requires
        1 <= n <= c.len(),
    ensures
        0 <= lowest_of(c, n) < n,
        forall|j: int| 0 <= j < n ==> c[lowest_of(c, n)].height <= (#[trigger] c[j]).height,
    decreases n,
{
    if n > 1 {
        lowest_is_lowest(c, n - 1);
    }
}

/// What is kept when the limit is passed: as many monoliths as the limit allows, all of them from
/// before, none lower than one that was dropped.
pub proof fn highest_keeps_the_highest(c: Seq<CachedMonolith>, limit: nat)
    requires
        keyed::unique_keys(c),
    ensures
        keyed::unique_keys(highest(c, limit)),
        highest(c, limit).len() == if c.len() <= limit {
            c.len()
        } else {
            limit
        },
        forall|e: CachedMonolith| highest(c, limit).contains(e) ==> c.contains(e),
        forall|e: CachedMonolith, d: CachedMonolith|
            highest(c, limit).contains(e) && c.contains(d) && !highest(c, limit).contains(d)
                ==> d.height <= e.height,
    decreases c.len(),
{
    if c.len() > limit {
        let i = lowest_of(c, c.len() as int);
        lowest_is_lowest(c, c.len() as int);
        let q = c.remove(i);
        keyed::without_is_remove(c, i);
        keyed::without_key_keeps_unique(c, c[i].key());
        highest_keeps_the_highest(q, limit);
        assert forall|e: CachedMonolith| q.contains(e) implies c.contains(e) by {
            let a = choose|a: int| 0 <= a < q.len() && q[a] == e;
            assert(c[if a < i {
                a
            } else {
                a + 1
            }] == e);
        }
        assert forall|e: CachedMonolith, d: CachedMonolith|
            highest(c, limit).contains(e) && c.contains(d) && !highest(c, limit).contains(
                d,
            ) implies d.height <= e.height by {
            let b = choose|b: int| 0 <= b < c.len() && c[b] == d;
            assert(q.contains(e));
            assert(c.contains(e));
            let a = choose|a: int| 0 <= a < c.len() && c[a] == e;
            if b == i {
                assert(c[i].height <= c[a].height);
            } else {
                assert(q[if b < i {
                    b
                } else {
                    b - 1
                }] == d);
                assert(q.contains(d));
            }
        }
    }
}

/// What a monolith is known by to peers.
pub open spec fn block_hash_of(b: MonolithBlock) -> Seq<u8> {
    crypto::sha512_of(
        bytes::u64_le(b.end_height) + bytes::u64_le(b.start_height) + text::utf8(b.creator_id@),
    )
}

/// Whether a monolith at hand has another hash.
pub open spec fn has_other_hash(hash: Seq<u8>) -> spec_fn(CachedMonolith) -> bool {
    |e: CachedMonolith| block_hash_of(e.block) != hash
}

/// Why a monolith is not sound.
#[derive(Debug, Clone, Copy, PartialEq, Eq, Structural)]
pub enum IntegrityError {
    /// It does not end after it starts.
    InvalidRange,
    /// It holds no blocks.
    Empty,
}

/// Whether a monolith is sound.
pub open spec fn integrity_of(b: MonolithBlock) -> Result<(), IntegrityError> {
    if b.start_height >= b.end_height {
        Err(IntegrityError::InvalidRange)
    } else if b.block_count == 0 {
        Err(IntegrityError::Empty)
    } else {
        Ok(())
    }
}

/// Checks that a monolith is sound.
pub fn verify_monolith_integrity(block: &MonolithBlock) -> (r: Result<(), IntegrityError>)
    ensures
        r == integrity_of(*block),
{
    if block.start_height >= block.end_height {
        return Err(IntegrityError::InvalidRange);
    }
    if block.block_count == 0 {
        return Err(IntegrityError::Empty);
    }
    Ok(())
}

/// What a monolith is known by to peers.
pub fn calculate_block_hash(block: &MonolithBlock) -> (r: [u8; 64])
    ensures
        r@ == block_hash_of(*block),
{
    let mut data: Vec<u8> = Vec::new();
    push_u64(&mut data, block.end_height);
    push_u64(&mut data, block.start_height);
    push_bytes(&mut data, block.creator_id.as_str().as_bytes());
    assert(data@ =~= bytes::u64_le(block.end_height) + bytes::u64_le(block.start_height)
        + text::utf8(block.creator_id@));
    sha512(data.as_slice())
}

/// Whether a peer is a lightnode.
pub open spec fn is_light() -> spec_fn(PeerInfo) -> bool {
    |p: PeerInfo| p.is_light_node
}

/// Whether a peer is a masternode.
pub open spec fn is_heavy() -> spec_fn(PeerInfo) -> bool {
    |p: PeerInfo| !p.is_light_node
}

/// The identifiers of peers.
pub open spec fn ids_of(peers: Seq<PeerInfo>) -> Seq<Seq<char>> {
    peers.map_values(|p: PeerInfo| p.peer_id@)
}

/// The identifiers of the peers that `light` asks for, in their order.
pub(crate) fn select_ids(peers: &[PeerInfo], light: bool) -> (r: Vec<String>)
    ensures
        r@.map_values(|s: String| s@) == ids_of(
            peers@.filter(
                if light {
                    is_light()
                } else {
                    is_heavy()
                },
            ),
        ),
{
    let ghost p = if light {
        is_light()
    } else {
        is_heavy()
    };
    let ghost view = |s: String| s@;
    let mut ids: Vec<String> = Vec::new();
    let mut i: usize = 0;
    proof {
        reveal(Seq::filter);
        assert(peers@.take(0).filter(p) =~= Seq::empty());
        assert(ids@.map_values(view) =~= ids_of(peers@.take(0).filter(p)));
    }
    while i < peers.len()
        invariant
            i <= peers@.len(),
            p == (if light {
                is_light()
            } else {
                is_heavy()
            }),
            view == (|s: String| s@),
            ids@.map_values(view) == ids_of(peers@.take(i as int).filter(p)),
        decreases peers@.len() - i,
    {
        proof {
            reveal(Seq::filter);
            assert(peers@.take(i + 1).drop_last() =~= peers@.take(i as int));
        }
        let ghost front = peers@.take(i as int).filter(p);
        let ghost before = ids@;
        if peers[i].is_light_node == light {
            ids.push(peers[i].peer_id.clone());
            proof {
                assert(ids_of(front.push(peers@[i as int])) =~= ids_of(front).push(
                    peers@[i as int].peer_id@,
                ));
                assert(ids@.map_values(view) =~= before.map_values(view).push(
                    peers@[i as int].peer_id@,
                ));
            }
        }
        i += 1;
    }
    assert(peers@.take(i as int) =~= peers@);
    ids
}

/// Who gets a monolith: the lightnodes first, then the masternodes.
pub fn distribution_order(peers: &[PeerInfo]) -> (r: Vec<String>)
    ensures
        r@.map_values(|s: String| s@) == ids_of(peers@.filter(is_light())) + ids_of(
            peers@.filter(is_heavy()),
        ),
{
    let mut ids = select_ids(peers, true);
    let mut rest = select_ids(peers, false);
    let ghost a = ids@;
    let ghost b = rest@;
    ids.append(&mut rest);
    assert(ids@.map_values(|s: String| s@) =~= a.map_values(|s: String| s@) + b.map_values(
        |s: String| s@,
    ));
    ids
}

/// Every peer gets a monolith, as often as it is listed.
pub proof fn everyone_is_served(peers: Seq<PeerInfo>)
    ensures
        (peers.filter(is_light()) + peers.filter(is_heavy())).to_multiset() == peers.to_multiset(),
    decreases peers.len(),
{
    broadcast use vstd::seq_lib::to_multiset_build;

    reveal(Seq::filter);
    let light = peers.filter(is_light());
    let heavy = peers.filter(is_heavy());
    vstd::seq_lib::lemma_multiset_commutative(light, heavy);
    if peers.len() > 0 {
        let front = peers.drop_last();
        everyone_is_served(front);
        vstd::seq_lib::lemma_multiset_commutative(
            front.filter(is_light()),
            front.filter(is_heavy()),
        );
        assert(peers =~= front.push(peers.last()));
        assert((light + heavy).to_multiset() =~= peers.to_multiset());
    } else {
        assert(light + heavy =~= peers);
    }
}

/// Whether groups are handed out.
#[derive(Debug, Clone, Copy, PartialEq, Eq, Structural)]
pub enum DistributionCheck {
    NoGroups,
    NoLightnodes,
    Proceed,
}

/// Whether groups are handed out: there must be groups and lightnodes.
pub open spec fn distribution_check(groups: nat, peers: Seq<PeerInfo>) -> DistributionCheck {
    if groups == 0 {
        DistributionCheck::NoGroups
    } else if search::count_where(peers, is_light()) == 0 {
        DistributionCheck::NoLightnodes
    } else {
        DistributionCheck::Proceed
    }
}

fn count_light(peers: &[PeerInfo]) -> (r: usize)
    ensures
        r == search::count_where(peers@, is_light()),
{
    let light = |p: &PeerInfo| -> (b: bool)
        ensures
            b == is_light()(*p),
        { p.is_light_node };
    search::count(peers, light, Ghost(is_light()))
}

/// Decides whether groups are handed out.
pub fn check_distribution(groups: &[P2PGroup], peers: &[PeerInfo]) -> (r: DistributionCheck)
    ensures
        r == distribution_check(groups@.len(), peers@),
{
    if groups.len() == 0 {
        return DistributionCheck::NoGroups;
    }
    if count_light(peers) == 0 {
        return DistributionCheck::NoLightnodes;
    }
    DistributionCheck::Proceed
}

/// The proposer of a group: the one it names, or its first member.
pub open spec fn proposer_of(g: P2PGroup) -> Seq<char> {
    match g.proposer {
        Some(p) => p@,
        None => if g.members@.len() > 0 {
            g.members@[0]@
        } else {
            Seq::empty()
        },
    }
}

/// What is signed of an announcement: the epoch, the group, its proposer, the time and the number
/// of members.
pub open spec fn announce_message(a: LightnodeGroupAnnounce) -> Seq<u8> {
    bytes::u64_le(a.epoch) + text::utf8(a.group_id@) + text::utf8(a.proposer@) + bytes::u64_le(
        a.timestamp,
    ) + bytes::u64_le(a.members@.len() as u64)
}

/// Whether an announcement is that of a group at a time, signed if there is a key.
pub open spec fn announces(
    a: LightnodeGroupAnnounce,
    g: P2PGroup,
    timestamp: u64,
    secret: Option<[u8; 32]>,
) -> bool {
    &&& a.epoch == g.epoch
    &&& a.group_id@ == g.group_id@
    &&& a.members@ == g.members@
    &&& a.member_addresses@ == g.member_multiaddrs@
    &&& a.proposer@ == proposer_of(g)
    &&& a.timestamp == timestamp
    &&& a.assigned_shards@ == g.assigned_shards@
    &&& a.num_shards == NUM_SHARDS
    &&& match secret {
        None => a.signature is None && a.signer_pubkey is None,
        Some(key) => {
            let signature = crypto::ed25519_signature_of(key@, announce_message(a));
            let public = crypto::ed25519_public_of(key@);
            &&& a.signature is Some && a.signature->0@ == crypto::hex_text(signature)
            &&& a.signer_pubkey is Some && a.signer_pubkey->0@ == crypto::hex_text(public)
            &&& crypto::ed25519_accepts(public, announce_message(a), signature)
        },
    }
}

pub(crate) fn copy_addresses(list: &Vec<(String, String)>) -> (r: Vec<(String, String)>)
    ensures
        r@ == list@,
{
    let mut out: Vec<(String, String)> = Vec::new();
    let mut i: usize = 0;
    while i < list.len()
        invariant
            i <= list@.len(),
            out@ == list@.take(i as int),
        decreases list@.len() - i,
    {
        out.push((list[i].0.clone(), list[i].1.clone()));
        assert(out@ =~= list@.take(i + 1));
        i += 1;
    }
    assert(list@.take(i as int) =~= list@);
    out
}

/// The announcement of a group, signed if there is a key.
pub fn announce_group(group: &P2PGroup, timestamp: u64, secret: &Option<[u8; 32]>) -> (r:
    LightnodeGroupAnnounce)
    ensures
        announces(r, *group, timestamp, *secret),
{
    let proposer: String = match &group.proposer {
        Some(p) => p.clone(),
        None => if group.members.len() > 0 {
            group.members[0].clone()
        } else {
            String::new()
        },
    };
    let members = group.members.clone();
    assert(members@ =~= group.members@);
    let assigned_shards = group.assigned_shards.clone();
    assert(assigned_shards@ =~= group.assigned_shards@);
    let mut announce = LightnodeGroupAnnounce {
        epoch: group.epoch,
        group_id: group.group_id.clone(),
        members,
        member_addresses: copy_addresses(&group.member_multiaddrs),
        proposer,
        timestamp,
        signature: None,
        signer_pubkey: None,
        assigned_shards,
        num_shards: NUM_SHARDS,
    };
    if let Some(key) = secret {
        let mut message: Vec<u8> = Vec::new();
        push_u64(&mut message, announce.epoch);
        push_bytes(&mut message, announce.group_id.as_str().as_bytes());
        push_bytes(&mut message, announce.proposer.as_str().as_bytes());
        push_u64(&mut message, announce.timestamp);
        push_u64(&mut message, announce.members.len() as u64);
        assert(message@ =~= announce_message(announce));
        let signature = ed25519_sign(key, message.as_slice());
        let public = ed25519_public(key);
        announce.signature = Some(hex_encode(signature.as_slice()));
        announce.signer_pubkey = Some(hex_encode(public.as_slice()));
    }
    announce
}

/// Whether two groups are the same.
pub open spec fn same_group(a: P2PGroup, b: P2PGroup) -> bool {
    &&& a.group_id@ == b.group_id@
    &&& a.epoch == b.epoch
    &&& a.members@ == b.members@
    &&& a.proposer is Some == b.proposer is Some
    &&& a.proposer is Some ==> a.proposer->0@ == b.proposer->0@
    &&& a.member_multiaddrs@ == b.member_multiaddrs@
    &&& a.assigned_shards@ == b.assigned_shards@
}

/// Whether a message hands out these groups of an epoch, and names its sender.
pub open spec fn hands_out(
    message: MonolithMessage,
    groups: Seq<P2PGroup>,
    epoch: u64,
    sender: Seq<char>,
) -> bool {
    &&& message matches MonolithMessage::GroupAnnounce { groups: g, epoch: e, sender_peer_id: id }
    &&& e == epoch
    &&& id@ == sender
    &&& g@.len() == groups.len()
    &&& forall|i: int| 0 <= i < groups.len() ==> same_group(#[trigger] g@[i], groups[i])
}

fn copy_group(group: &P2PGroup) -> (r: P2PGroup)
    ensures
        same_group(r, *group),
{
    let members = group.members.clone();
    assert(members@ =~= group.members@);
    let assigned_shards = group.assigned_shards.clone();
    assert(assigned_shards@ =~= group.assigned_shards@);
    P2PGroup {
        group_id: group.group_id.clone(),
        epoch: group.epoch,
        members,
        proposer: match &group.proposer {
            Some(p) => Some(p.clone()),
            None => None,
        },
        member_multiaddrs: copy_addresses(&group.member_multiaddrs),
        assigned_shards,
    }
}

/// The message that hands out groups.
pub(crate) fn group_announce(groups: &[P2PGroup], epoch: u64, sender: &String) -> (r:
    MonolithMessage)
    ensures
        hands_out(r, groups@, epoch, sender@),
{
    let mut copies: Vec<P2PGroup> = Vec::new();
    let mut i: usize = 0;
    while i < groups.len()
        invariant
            i <= groups@.len(),
            copies@.len() == i,
            forall|k: int| 0 <= k < i ==> same_group(#[trigger] copies@[k], groups@[k]),
        decreases groups@.len() - i,
    {
        copies.push(copy_group(&groups[i]));
        i += 1;
    }
    MonolithMessage::GroupAnnounce { groups: copies, epoch, sender_peer_id: sender.clone() }
}

/// What is sent when groups are handed out.
#[derive(Debug)]
pub struct DistributionPlan {
    /// The lightnodes that the groups are sent to.
    pub recipients: Vec<String>,
    /// What each of them is sent.
    pub message: MonolithMessage,
    /// The announcements that are published.
    pub announcements: Vec<LightnodeGroupAnnounce>,
}

/// How much memory monoliths take: what each takes itself, and its proof.
pub open spec fn cache_bytes(c: Seq<CachedMonolith>) -> nat
    decreases c.len(),
{
    if c.len() == 0 {
        0
    } else {
        cache_bytes(c.drop_last()) + vstd::layout::size_of::<MonolithBlock>()
            + c.last().block.zkp_proof@.len()
    }
}

proof fn cache_bytes_grow(c: Seq<CachedMonolith>, n: int)
    requires
        0 <= n <= c.len(),
    ensures
        cache_bytes(c.take(n)) <= cache_bytes(c),
    decreases c.len(),
{
    if n < c.len() {
        assert(c.drop_last().take(n) =~= c.take(n));
        cache_bytes_grow(c.drop_last(), n);
    } else {
        assert(c.take(n) =~= c);
    }
}

/// Drops the lowest monoliths over the limit.
pub(crate) fn keep_highest(cache: &mut Vec<CachedMonolith>, limit: usize)
    requires
        keyed::unique_keys(old(cache)@),
    ensures
        final(cache)@ == highest(old(cache)@, limit as nat),
{
    let ghost c0 = cache@;
    while cache.len() > limit
        invariant
            highest(cache@, limit as nat) == highest(c0, limit as nat),
        decreases cache@.len(),
    {
        let mut lowest: usize = 0;
        let mut i: usize = 1;
        while i < cache.len()
            invariant
                1 <= i <= cache@.len(),
                lowest < i,
                lowest == lowest_of(cache@, i as int),
            decreases cache@.len() - i,
        {
            if cache[i].height < cache[lowest].height {
                lowest = i;
            }
            i += 1;
        }
        let _ = cache.remove(lowest);
    }
}

/// The monoliths at hand and the peers that they are handed out to.
#[derive(Debug)]
pub struct MonolithP2PManager {
    local_peer_id: String,
    connected_peers: Vec<PeerInfo>,
    monolith_cache: Vec<CachedMonolith>,
    /// Whether announcements to lightnodes can be published.
    can_publish: bool,
    signing_key: Option<[u8; 32]>,
    config: MonolithP2PConfig,
}

impl MonolithP2PManager {
    /// Whether announcements to lightnodes can be published.
    pub closed spec fn publishes(&self) -> bool {
        self.can_publish
    }

    /// What announcements are signed with.
    pub closed spec fn secret(&self) -> Option<[u8; 32]> {
        self.signing_key
    }

    /// The identifier of this node.
    pub closed spec fn local_id(&self) -> Seq<char> {
        self.local_peer_id@
    }

    /// The peers that were added.
    pub closed spec fn peers(&self) -> Seq<PeerInfo> {
        self.connected_peers@
    }

    /// The monoliths at hand.
    pub closed spec fn cache(&self) -> Seq<CachedMonolith> {
        self.monolith_cache@
    }

    /// The settings.
    pub closed spec fn settings(&self) -> MonolithP2PConfig {
        self.config
    }

    /// No peer is there twice, the limit on monoliths is kept, and each is found by the height
    /// that it ends at.
    pub open spec fn wf(&self) -> bool {
        &&& self.found_by_height()
        &&& self.cache().len() <= self.settings().max_cache_size
    }

    /// No peer is there twice, and each monolith is found by the height that it ends at.
    pub open spec fn found_by_height(&self) -> bool {
        &&& keyed::unique_keys(self.peers())
        &&& keyed::unique_keys(self.cache())
        &&& forall|i: int|
            0 <= i < self.cache().len() ==> (#[trigger] self.cache()[i]).height
                == self.cache()[i].block.end_height
    }

    /// Whether only the monoliths at hand differ.
    pub open spec fn same_but_cache(&self, other: &Self) -> bool {
        &&& self.local_id() == other.local_id()
        &&& self.peers() == other.peers()
        &&& self.settings() == other.settings()
        &&& self.publishes() == other.publishes()
        &&& self.secret() == other.secret()
    }

    /// A manager without peers or monoliths.
    pub fn new(local_peer_id: String, config: MonolithP2PConfig) -> (r: Self)
        ensures
            r.wf(),
            r.local_id() == local_peer_id@,
            r.settings() == config,
            r.peers().len() == 0,
            r.cache().len() == 0,
            !r.publishes(),
            r.secret() is None,
    {
        MonolithP2PManager {
            local_peer_id,
            connected_peers: Vec::new(),
            monolith_cache: Vec::new(),
            can_publish: false,
            signing_key: None,
            config,
        }
    }

    /// Sets what announcements are signed with.
    pub fn set_signing_key(&mut self, key: [u8; 32])
        requires
            old(self).wf(),
        ensures
            final(self).wf(),
            final(self).secret() == Some(key),
            final(self).publishes() == old(self).publishes(),
            final(self).local_id() == old(self).local_id(),
            final(self).peers() == old(self).peers(),
            final(self).settings() == old(self).settings(),
            final(self).cache() == old(self).cache(),
    {
        self.signing_key = Some(key);
    }

    /// Takes note that announcements to lightnodes can be published.
    pub fn set_lightnode_announce_sender(&mut self)
        requires
            old(self).wf(),
        ensures
            final(self).wf(),
            final(self).publishes(),
            final(self).secret() == old(self).secret(),
            final(self).local_id() == old(self).local_id(),
            final(self).peers() == old(self).peers(),
            final(self).settings() == old(self).settings(),
            final(self).cache() == old(self).cache(),
    {
        self.can_publish = true;
    }

    /// The peers to go by: the shared ones where there are any, or else those that were added.
    pub fn peers_for_read<'a>(&'a self, shared: Option<&'a Vec<PeerInfo>>) -> (r: &'a Vec<PeerInfo>)
        ensures
            r@ == (match shared {
                Some(list) => list@,
                None => self.peers(),
            }),
    {
        match shared {
            Some(list) => list,
            None => &self.connected_peers,
        }
    }

    /// Who gets a monolith: the lightnodes first, then the masternodes.
    pub fn distribute_monolith(&self, peers: &[PeerInfo]) -> (r: Vec<String>)
        ensures
            r@.map_values(|s: String| s@) == ids_of(peers@.filter(is_light())) + ids_of(
                peers@.filter(is_heavy()),
            ),
    {
        distribution_order(peers)
    }

    /// Whether a plan hands out groups: all of them, with their epoch, to each lightnode, and,
    /// where announcements can be published, one for each group.
    pub open spec fn plans(
        &self,
        plan: DistributionPlan,
        groups: Seq<P2PGroup>,
        epoch: u64,
        peers: Seq<PeerInfo>,
        timestamp: u64,
    ) -> bool {
        &&& plan.recipients@.map_values(|s: String| s@) == ids_of(peers.filter(is_light()))
        &&& hands_out(plan.message, groups, epoch, self.local_id())
        &&& plan.announcements@.len() == if self.publishes() {
            groups.len()
        } else {
            0
        }
        &&& forall|i: int|
            0 <= i < plan.announcements@.len() ==> announces(
                #[trigger] plan.announcements@[i],
                groups[i],
                timestamp,
                self.secret(),
            )
    }

    /// Works out what is sent when groups are handed out: nothing, where there are no groups or no
    /// lightnodes.
    pub fn distribute_groups_impl(
        &self,
        groups: &[P2PGroup],
        epoch: u64,
        peers: &[PeerInfo],
        timestamp: u64,
    ) -> (r: Option<DistributionPlan>)
        ensures
            r is Some == (distribution_check(groups@.len(), peers@) == DistributionCheck::Proceed),
            r matches Some(plan) ==> self.plans(plan, groups@, epoch, peers@, timestamp),
    {
        match check_distribution(groups, peers) {
            DistributionCheck::Proceed => {},
            _ => {
                return None;
            },
        }
        let recipients = select_ids(peers, true);
        let mut announcements: Vec<LightnodeGroupAnnounce> = Vec::new();
        if self.can_publish {
            let mut i: usize = 0;
            while i < groups.len()
                invariant
                    i <= groups@.len(),
                    announcements@.len() == i,
                    forall|k: int|
                        0 <= k < i ==> announces(
                            #[trigger] announcements@[k],
                            groups@[k],
                            timestamp,
                            self.secret(),
                        ),
                decreases groups@.len() - i,
            {
                announcements.push(announce_group(&groups[i], timestamp, &self.signing_key));
                i += 1;
            }
        }
        let message = group_announce(groups, epoch, &self.local_peer_id);
        Some(DistributionPlan { recipients, message, announcements })
    }

    /// Adds a peer, in place of an earlier entry of it.
    pub fn add_peer(&mut self, peer_info: PeerInfo)
        requires
            old(self).wf(),
        ensures
            final(self).wf(),
            final(self).peers() == keyed::without_key(old(self).peers(), peer_info.peer_id@).push(
                peer_info,
            ),
            final(self).local_id() == old(self).local_id(),
            final(self).settings() == old(self).settings(),
            final(self).cache() == old(self).cache(),
            final(self).publishes() == old(self).publishes(),
            final(self).secret() == old(self).secret(),
    {
        let id = peer_info.peer_id.clone();
        keyed::replace(&mut self.connected_peers, id.as_str(), peer_info);
    }

    /// Removes a peer.
    pub fn remove_peer(&mut self, peer_id: &str)
        requires
            old(self).wf(),
        ensures
            final(self).wf(),
            final(self).peers() == keyed::without_key(old(self).peers(), peer_id@),
            final(self).local_id() == old(self).local_id(),
            final(self).settings() == old(self).settings(),
            final(self).cache() == old(self).cache(),
            final(self).publishes() == old(self).publishes(),
            final(self).secret() == old(self).secret(),
    {
        let _ = keyed::remove(&mut self.connected_peers, peer_id);
    }

    fn insert(&mut self, block: MonolithBlock)
        requires
            old(self).found_by_height(),
        ensures
            final(self).found_by_height(),
            final(self).same_but_cache(old(self)),
            final(self).cache() == with_monolith(old(self).cache(), block.end_height, block),
    {
        let ghost c = self.monolith_cache@;
        let height: u64 = block.end_height;
        proof {
            keyed::without_key_keeps_unique(c, height);
        }
        keyed::replace(
            &mut self.monolith_cache,
            &HeightKey { height },
            CachedMonolith { height, block },
        );
        proof {
            let t = keyed::without_key(c, height);
            assert forall|i: int| 0 <= i < self.monolith_cache@.len() implies (
            #[trigger] self.monolith_cache@[i]).height
                == self.monolith_cache@[i].block.end_height by {
                if i < t.len() {
                    assert(c.contains(t[i]));
                }
            }
        }
    }

    /// Drops the lowest monoliths over the limit.
    fn cleanup_cache(&mut self)
        requires
            old(self).found_by_height(),
        ensures
            final(self).wf(),
            final(self).same_but_cache(old(self)),
            final(self).cache() == highest(
                old(self).cache(),
                old(self).settings().max_cache_size as nat,
            ),
    {
        let ghost c0 = self.monolith_cache@;
        proof {
            highest_keeps_the_highest(c0, self.config.max_cache_size as nat);
        }
        keep_highest(&mut self.monolith_cache, self.config.max_cache_size);
        proof {
            let t = self.monolith_cache@;
            assert forall|i: int| 0 <= i < t.len() implies (#[trigger] t[i]).height
                == t[i].block.end_height by {
                assert(t.contains(t[i]));
                assert(c0.contains(t[i]));
            }
        }
    }

    /// Takes in a monolith that a peer announced, within the limit; says whether it is sound.
    pub fn handle_monolith_announce(&mut self, block: MonolithBlock) -> (r: Result<
        (),
        IntegrityError,
    >)
        requires
            old(self).wf(),
        ensures
            final(self).wf(),
            final(self).same_but_cache(old(self)),
            final(self).cache() == highest(
                with_monolith(old(self).cache(), block.end_height, block),
                old(self).settings().max_cache_size as nat,
            ),
            r == integrity_of(block),
    {
        let r = verify_monolith_integrity(&block);
        self.insert(block);
        self.cleanup_cache();
        r
    }

    /// Whether the monolith of a height is at hand.
    pub fn handle_monolith_request(&self, height: u64) -> (r: bool)
        ensures
            r == keyed::contains_key(self.cache(), height),
    {
        keyed::find(&self.monolith_cache, &HeightKey { height }).is_some()
    }

    /// The monolith of a height, if it is at hand.
    pub fn cached_block(&self, height: u64) -> (r: Option<&MonolithBlock>)
        requires
            self.wf(),
        ensures
            r is Some == keyed::contains_key(self.cache(), height),
            r matches Some(b) ==> self.cache().contains(CachedMonolith { height, block: *b }),
    {
        match keyed::find(&self.monolith_cache, &HeightKey { height }) {
            Some(i) => {
                assert(self.monolith_cache@[i as int].key() == height);
                assert(self.cache()[i as int] == CachedMonolith {
                    height,
                    block: self.monolith_cache@[i as int].block,
                });
                Some(&self.monolith_cache[i].block)
            },
            None => None,
        }
    }

    /// Takes in a monolith that was asked for, within the limit; one that another peer asked for is
    /// left alone. Says whether it is sound.
    pub fn handle_monolith_response(&mut self, block: MonolithBlock, requester_peer_id: &str) -> (r:
        Option<Result<(), IntegrityError>>)
        requires
            old(self).wf(),
        ensures
            final(self).wf(),
            final(self).same_but_cache(old(self)),
            r == (if requester_peer_id@ == old(self).local_id() {
                Some(integrity_of(block))
            } else {
                None
            }),
            final(self).cache() == (if requester_peer_id@ == old(self).local_id() {
                highest(
                    with_monolith(old(self).cache(), block.end_height, block),
                    old(self).settings().max_cache_size as nat,
                )
            } else {
                old(self).cache()
            }),
    {
        if !same_text(requester_peer_id, self.local_peer_id.as_str()) {
            return None;
        }
        let r = verify_monolith_integrity(&block);
        self.insert(block);
        self.cleanup_cache();
        Some(r)
    }

    /// Whether a monolith with this hash is at hand.
    pub fn handle_monolith_verify(&self, block_hash: &[u8; 64]) -> (r: bool)
        ensures
            r == exists|i: int|
                0 <= i < self.cache().len() && block_hash_of((#[trigger] self.cache()[i]).block)
                    == block_hash@,
    {
        let mut i: usize = 0;
        while i < self.monolith_cache.len()
            invariant
                i <= self.monolith_cache@.len(),
                forall|k: int|
                    0 <= k < i ==> block_hash_of((#[trigger] self.monolith_cache@[k]).block)
                        != block_hash@,
            decreases self.monolith_cache@.len() - i,
        {
            let hash = calculate_block_hash(&self.monolith_cache[i].block);
            if bytes_equal(hash.as_slice(), block_hash.as_slice()) {
                assert(block_hash_of(self.cache()[i as int].block) == block_hash@);
                return true;
            }
            i += 1;
        }
        false
    }

    /// Drops the monoliths with a hash that a peer says is not valid; an answer to another peer is
    /// left alone.
    pub fn handle_monolith_verify_response(
        &mut self,
        is_valid: bool,
        block_hash: &[u8; 64],
        requester_peer_id: &str,
    )
        requires
            old(self).wf(),
        ensures
            final(self).wf(),
            final(self).same_but_cache(old(self)),
            final(self).cache() == (if requester_peer_id@ == old(self).local_id() && !is_valid {
                old(self).cache().filter(has_other_hash(block_hash@))
            } else {
                old(self).cache()
            }),
    {
        if !same_text(requester_peer_id, self.local_peer_id.as_str()) {
            return ;
        }
        if !is_valid {
            let ghost c = self.monolith_cache@;
            proof {
                keyed::filter_keeps_unique(c, has_other_hash(block_hash@));
            }
            let keep = |e: &CachedMonolith| -> (b: bool)
                ensures
                    b == has_other_hash(block_hash@)(*e),
                {
                    let hash = calculate_block_hash(&e.block);
                    !bytes_equal(hash.as_slice(), block_hash.as_slice())
                };
            keyed::retain(&mut self.monolith_cache, keep, Ghost(has_other_hash(block_hash@)));
            proof {
                let t = self.monolith_cache@;
                assert forall|i: int| 0 <= i < t.len() implies (#[trigger] t[i]).height
                    == t[i].block.end_height by {
                    assert(c.contains(t[i]));
                }
            }
        }
    }

    /// Handles a message, and says what is to be sent in return. Groups that are handed out and
    /// requests for groups change nothing here.
    pub fn handle_message(&mut self, sender_peer_id: String, message: MonolithMessage) -> (r:
        MonolithAction)
        requires
            old(self).wf(),
        ensures
            final(self).wf(),
            final(self).same_but_cache(old(self)),
            match message {
                MonolithMessage::MonolithAnnounce { block, .. } => {
                    &&& r is Nothing
                    &&& final(self).cache() == highest(
                        with_monolith(old(self).cache(), block.end_height, block),
                        old(self).settings().max_cache_size as nat,
                    )
                },
                MonolithMessage::MonolithRequest { height, epoch_id, requester_peer_id } => {
                    &&& final(self).cache() == old(self).cache()
                    &&& r == (if keyed::contains_key(old(self).cache(), height) {
                        MonolithAction::SendBlock { to: sender_peer_id, height, requester_peer_id }
                    } else {
                        MonolithAction::Nothing
                    })
                },
                MonolithMessage::MonolithResponse { block, requester_peer_id } => {
                    &&& r is Nothing
                    &&& final(self).cache() == (if requester_peer_id@ == old(self).local_id() {
                        highest(
                            with_monolith(old(self).cache(), block.end_height, block),
                            old(self).settings().max_cache_size as nat,
                        )
                    } else {
                        old(self).cache()
                    })
                },
                MonolithMessage::MonolithVerify { block_hash, requester_peer_id } => {
                    &&& final(self).cache() == old(self).cache()
                    &&& r == (MonolithAction::SendVerdict {
                        to: sender_peer_id,
                        is_valid: exists|i: int|
                            0 <= i < old(self).cache().len() && block_hash_of(
                                (#[trigger] old(self).cache()[i]).block,
                            ) == block_hash@,
                        block_hash,
                        requester_peer_id,
                    })
                },
                MonolithMessage::MonolithVerifyResponse {
                    is_valid,
                    block_hash,
                    requester_peer_id,
                } => {
                    &&& r is Nothing
                    &&& final(self).cache() == (if requester_peer_id@ == old(self).local_id()
                        && !is_valid {
                        old(self).cache().filter(has_other_hash(block_hash@))
                    } else {
                        old(self).cache()
                    })
                },
                MonolithMessage::GroupAnnounce { .. } => r is Nothing && final(self).cache()
                    == old(self).cache(),
                MonolithMessage::GroupRequest { .. } => r is Nothing && final(self).cache() == old(
                    self).cache(),
            },
    {
        match message {
            MonolithMessage::MonolithAnnounce { block, sender_peer_id: _ } => {
                let _ = self.handle_monolith_announce(block);
                MonolithAction::Nothing
            },
            MonolithMessage::MonolithRequest { height, epoch_id: _, requester_peer_id } => {
                if self.handle_monolith_request(height) {
                    MonolithAction::SendBlock { to: sender_peer_id, height, requester_peer_id }
                } else {
                    MonolithAction::Nothing
                }
            },
            MonolithMessage::MonolithResponse { block, requester_peer_id } => {
                let _ = self.handle_monolith_response(block, requester_peer_id.as_str());
                MonolithAction::Nothing
            },
            MonolithMessage::MonolithVerify { block_hash, requester_peer_id } => {
                let is_valid = self.handle_monolith_verify(&block_hash);
                MonolithAction::SendVerdict {
                    to: sender_peer_id,
                    is_valid,
                    block_hash,
                    requester_peer_id,
                }
            },
            MonolithMessage::MonolithVerifyResponse {
                is_valid,
                block_hash,
                requester_peer_id,
            } => {
                self.handle_monolith_verify_response(
                    is_valid,
                    &block_hash,
                    requester_peer_id.as_str(),
                );
                MonolithAction::Nothing
            },
            MonolithMessage::GroupAnnounce { groups: _, epoch: _, sender_peer_id: _ } => {
                MonolithAction::Nothing
            },
            MonolithMessage::GroupRequest { node_info: _, requester_peer_id: _ } => {
                MonolithAction::Nothing
            },
        }
    }

    /// How much memory the monoliths take.
    fn calculate_cache_size(&self) -> (r: usize)
        requires
            cache_bytes(self.cache()) <= usize::MAX,
        ensures
            r == cache_bytes(self.cache()),
    {
        let ghost c = self.monolith_cache@;
        let mut total: usize = 0;
        let mut i: usize = 0;
        while i < self.monolith_cache.len()
            invariant
                i <= c.len(),
                c == self.monolith_cache@,
                cache_bytes(c) <= usize::MAX,
                total == cache_bytes(c.take(i as int)),
            decreases c.len() - i,
        {
            proof {
                assert(c.take(i + 1).drop_last() =~= c.take(i as int));
                cache_bytes_grow(c, i + 1);
            }
            let size: usize = core::mem::size_of::<MonolithBlock>();
            total = total + size + self.monolith_cache[i].block.zkp_proof.len();
            i += 1;
        }
        assert(c.take(i as int) =~= c);
        total
    }

    /// How many peers and monoliths there are.
    pub fn get_stats(&self, peers: &[PeerInfo]) -> (r: MonolithP2PStats)
        requires
            cache_bytes(self.cache()) <= usize::MAX,
        ensures
            r.connected_peers == peers@.len(),
            r.light_nodes == search::count_where(peers@, is_light()),
            r.masternodes == peers@.len() - search::count_where(peers@, is_light()),
            r.cached_monoliths == self.cache().len(),
            r.cache_size_bytes == cache_bytes(self.cache()),
    {
        let light_nodes: usize = count_light(peers);
        proof {
            search::count_is_bounded(peers@, is_light());
        }
        MonolithP2PStats {
            connected_peers: peers.len(),
            light_nodes,
            masternodes: peers.len() - light_nodes,
            cached_monoliths: self.monolith_cache.len(),
            cache_size_bytes: self.calculate_cache_size(),
        }
    }

    /// The masternodes among the peers, and this node, in dictionary order, which is the same on
    /// every masternode that knows the same ones.
    pub fn get_connected_masternode_ids(&self, peers: &[PeerInfo]) -> (r: Vec<String>)
        ensures
            startup::in_dictionary_order(text_set::texts(r@)),
            text_set::texts(r@).to_multiset() == mesh_of(peers@, self.local_id()).to_multiset(),
            r@.len() == peers@.filter(is_heavy()).len() + 1,
    {
        let mut ids = select_ids(peers, false);
        let ghost before = ids@;
        ids.push(self.local_peer_id.clone());
        assert(text_set::texts(ids@) =~= before.map_values(|s: String| s@).push(self.local_id()));
        let ghost all = text_set::texts(ids@);
        let r = order_validators(ids);
        proof {
            vstd::seq_lib::to_multiset_len(all);
            vstd::seq_lib::to_multiset_len(text_set::texts(r@));
        }
        r
    }
}

/// Whether a node knows these peers as others do: none of them twice, and itself not among them.
pub open spec fn sees_others(peers: Seq<PeerInfo>, own: Seq<char>) -> bool {
    let ids = ids_of(peers.filter(is_heavy()));
    ids.no_duplicates() && !ids.contains(own)
}

/// The masternodes that a node knows, itself with them.
pub open spec fn mesh_of(peers: Seq<PeerInfo>, own: Seq<char>) -> Seq<Seq<char>> {
    ids_of(peers.filter(is_heavy())).push(own)
}

proof fn mesh_is_distinct(peers: Seq<PeerInfo>, own: Seq<char>)
    requires
        sees_others(peers, own),
    ensures
        mesh_of(peers, own).no_duplicates(),
{
    let ids = ids_of(peers.filter(is_heavy()));
    let all = mesh_of(peers, own);
    assert forall|i: int, j: int| 0 <= i < all.len() && 0 <= j < all.len() && i != j implies all[i]
        != all[j] by {
        if i < ids.len() {
            assert(ids.contains(ids[i]));
        }
        if j < ids.len() {
            assert(ids.contains(ids[j]));
        }
    }
}

/// Two masternodes that know the same masternodes, themselves with them, have the same list, and
/// each masternode is in it once.
pub proof fn masternodes_have_one_list(
    first: Seq<Seq<char>>,
    second: Seq<Seq<char>>,
    peers: Seq<PeerInfo>,
    own: Seq<char>,
    other_peers: Seq<PeerInfo>,
    other: Seq<char>,
)
    requires
        startup::in_dictionary_order(first),
        first.to_multiset() == mesh_of(peers, own).to_multiset(),
        startup::in_dictionary_order(second),
        second.to_multiset() == mesh_of(other_peers, other).to_multiset(),
        sees_others(peers, own),
        sees_others(other_peers, other),
        mesh_of(peers, own).to_set() == mesh_of(other_peers, other).to_set(),
    ensures
        first == second,
        first.no_duplicates(),
        first.to_set() == mesh_of(peers, own).to_set(),
{
    broadcast use vstd::seq_lib::group_to_multiset_ensures;

    let a = mesh_of(peers, own);
    let b = mesh_of(other_peers, other);
    mesh_is_distinct(peers, own);
    mesh_is_distinct(other_peers, other);
    a.lemma_multiset_has_no_duplicates();
    b.lemma_multiset_has_no_duplicates();
    assert forall|x: Seq<char>| a.to_multiset().count(x) == b.to_multiset().count(x) by {
        assert(a.contains(x) == a.to_set().contains(x));
        assert(b.contains(x) == b.to_set().contains(x));
        assert(a.contains(x) == (a.to_multiset().count(x) > 0));
        assert(b.contains(x) == (b.to_multiset().count(x) > 0));
    }
    assert(a.to_multiset() =~= b.to_multiset());
    startup::validators_are_ordered_alike(first, second);
    first.lemma_multiset_has_no_duplicates_conv();
    assert forall|x: Seq<char>| first.to_set().contains(x) == a.to_set().contains(x) by {
        assert(first.contains(x) == (first.to_multiset().count(x) > 0));
        assert(a.contains(x) == (a.to_multiset().count(x) > 0));
    }
    assert(first.to_set() =~= a.to_set());
}

/// A monolith that a peer announced is at hand afterwards, if none at hand is higher.
pub proof fn announced_are_at_hand(c: Seq<CachedMonolith>, block: MonolithBlock, limit: nat)
    requires
        keyed::unique_keys(c),
        limit > 0,
        forall|i: int| 0 <= i < c.len() ==> (#[trigger] c[i]).height <= block.end_height,
    ensures
        highest(with_monolith(c, block.end_height, block), limit).contains(
            CachedMonolith { height: block.end_height, block },
        ),
{
    let h = block.end_height;
    let e = CachedMonolith { height: h, block };
    let w = with_monolith(c, h, block);
    keyed::without_key_keeps_unique(c, h);
    let t = keyed::without_key(c, h);
    assert(w[w.len() - 1] == e);
    assert forall|a: int, b: int| 0 <= a < b < w.len() implies (#[trigger] w[a]).key() != (
    #[trigger] w[b]).key() by {
        assert(w[a] == t[a]);
        if b < t.len() {
            assert(w[b] == t[b]);
        }
    }
    highest_keeps_the_highest(w, limit);
    let k = highest(w, limit);
    if !k.contains(e) {
        assert(k.contains(k[0]));
        assert(w.contains(k[0]));
        let a = choose|a: int| 0 <= a < w.len() && w[a] == k[0];
        if a < t.len() {
            assert(c.contains(t[a]));
            assert(t[a].key() != h);
        }
        assert(w.contains(e));
        assert(e.height <= k[0].height);
    }
}

/// After a monolith was found to be not valid, none with its hash is at hand.
pub proof fn invalid_are_dropped(c: Seq<CachedMonolith>, hash: Seq<u8>, i: int)
    requires
        0 <= i < c.filter(has_other_hash(hash)).len(),
    ensures
        block_hash_of(c.filter(has_other_hash(hash))[i].block) != hash,
{
    broadcast use vstd::seq_lib::group_filter_ensures;

    let kept = c.filter(has_other_hash(hash));
    assert(has_other_hash(hash)(kept[i]));
}

/// The hash of a monolith is that of its last height, its first height and its creator, in this
/// order and with nothing between them.
pub proof fn monolith_hash_layout(b: MonolithBlock, data: Seq<u8>)
    requires
        data.len() >= 16,
        vstd::bytes::spec_u64_from_le_bytes(data.subrange(0, 8)) == b.end_height,
        vstd::bytes::spec_u64_from_le_bytes(data.subrange(8, 16)) == b.start_height,
        data.skip(16) == text::utf8(b.creator_id@),
    ensures
        block_hash_of(b) == crypto::sha512_of(data),
{
    bytes::numbers_are_read_back(b.end_height, 0, 0);
    bytes::numbers_are_read_back(b.start_height, 0, 0);
    vstd::bytes::lemma_auto_spec_u64_to_from_le_bytes();
    assert(data.subrange(0, 8) == bytes::u64_le(b.end_height));
    assert(data.subrange(8, 16) == bytes::u64_le(b.start_height));
    assert(data =~= bytes::u64_le(b.end_height) + bytes::u64_le(b.start_height) + text::utf8(
        b.creator_id@,
    ));
}

/// A monolith is whole exactly if it ends above where it begins and holds blocks.
pub proof fn whole_monoliths_hold_blocks(b: MonolithBlock)
    ensures
        integrity_of(b) is Ok <==> b.start_height < b.end_height && b.block_count > 0,
        integrity_of(b) == Err::<(), IntegrityError>(IntegrityError::InvalidRange)
            <==> b.start_height >= b.end_height,
        integrity_of(b) == Err::<(), IntegrityError>(IntegrityError::Empty) <==> b.start_height
            < b.end_height && b.block_count == 0,
{
}

proof fn none_counted<T>(s: Seq<T>, p: spec_fn(T) -> bool)
    ensures
        search::count_where(s, p) > 0 <==> exists|i: int| 0 <= i < s.len() && p(#[trigger] s[i]),
    decreases s.len(),
{
    if s.len() > 0 {
        let t = s.drop_last();
        none_counted(t, p);
        assert(s[s.len() - 1] == s.last());
        if exists|i: int| 0 <= i < s.len() && p(#[trigger] s[i]) {
            let i = choose|i: int| 0 <= i < s.len() && p(#[trigger] s[i]);
            if i < t.len() {
                assert(p(t[i]));
            }
        }
        if exists|i: int| 0 <= i < t.len() && p(#[trigger] t[i]) {
            let i = choose|i: int| 0 <= i < t.len() && p(#[trigger] t[i]);
            assert(p(s[i]));
        }
    }
}

/// Groups are given out exactly if there are groups, and lightnodes to get them.
pub proof fn groups_are_given_out_to_lightnodes(groups: nat, peers: Seq<PeerInfo>)
    ensures
        distribution_check(groups, peers) is Proceed <==> groups > 0 && exists|i: int|
            0 <= i < peers.len() && (#[trigger] peers[i]).is_light_node,
        distribution_check(groups, peers) is NoGroups <==> groups == 0,
{
    none_counted(peers, is_light());
    if exists|i: int| 0 <= i < peers.len() && (#[trigger] peers[i]).is_light_node {
        let i = choose|i: int| 0 <= i < peers.len() && (#[trigger] peers[i]).is_light_node;
        assert(is_light()(peers[i]));
    }
    if exists|i: int| 0 <= i < peers.len() && is_light()(#[trigger] peers[i]) {
        let i = choose|i: int| 0 <= i < peers.len() && is_light()(#[trigger] peers[i]);
        assert(peers[i].is_light_node);
    }
}

proof fn ids_of_the_wanted(peers: Seq<PeerInfo>, p: spec_fn(PeerInfo) -> bool, id: Seq<char>)
    ensures
        ids_of(peers.filter(p)).contains(id) <==> exists|i: int|
            0 <= i < peers.len() && p(#[trigger] peers[i]) && peers[i].peer_id@ == id,
{
    let f = peers.filter(p);
    let ids = ids_of(f);
    if ids.contains(id) {
        let k = choose|k: int| 0 <= k < ids.len() && ids[k] == id;
        assert(f.contains(f[k]));
        keyed::filter_keeps_the_wanted(peers, p, f[k]);
        let i = choose|i: int| 0 <= i < peers.len() && peers[i] == f[k];
        assert(p(peers[i]) && peers[i].peer_id@ == id);
    }
    if exists|i: int| 0 <= i < peers.len() && p(#[trigger] peers[i]) && peers[i].peer_id@ == id {
        let i = choose|i: int|
            0 <= i < peers.len() && p(#[trigger] peers[i]) && peers[i].peer_id@ == id;
        keyed::filter_keeps_the_wanted(peers, p, peers[i]);
        let k = choose|k: int| 0 <= k < f.len() && f[k] == peers[i];
        assert(ids[k] == id);
    }
}

/// A plan to give out groups is for the lightnodes, for all of them and for nobody else. It tells
/// all groups of the epoch, in order, as they are, in the name of this node.
pub proof fn plans_serve_all_lightnodes(
    m: MonolithP2PManager,
    plan: DistributionPlan,
    groups: Seq<P2PGroup>,
    epoch: u64,
    peers: Seq<PeerInfo>,
    timestamp: u64,
    id: Seq<char>,
    i: int,
)
    requires
        m.plans(plan, groups, epoch, peers, timestamp),
        0 <= i < groups.len(),
    ensures
        plan.recipients@.map_values(|s: String| s@).contains(id) <==> exists|k: int|
            0 <= k < peers.len() && (#[trigger] peers[k]).is_light_node && peers[k].peer_id@ == id,
        plan.message matches MonolithMessage::GroupAnnounce {
            groups: g,
            epoch: e,
            sender_peer_id: s,
        } && e == epoch && s@ == m.local_id() && g@.len() == groups.len() && g@[i].group_id@
            == groups[i].group_id@ && g@[i].epoch == groups[i].epoch && g@[i].members@
            == groups[i].members@ && g@[i].member_multiaddrs@ == groups[i].member_multiaddrs@
            && g@[i].assigned_shards@ == groups[i].assigned_shards@ && (groups[i].proposer is Some
            <==> g@[i].proposer is Some) && (groups[i].proposer matches Some(p)
            ==> g@[i].proposer->0@ == p@),
{
    ids_of_the_wanted(peers, is_light(), id);
    if exists|k: int|
        0 <= k < peers.len() && (#[trigger] peers[k]).is_light_node && peers[k].peer_id@ == id {
        let k = choose|k: int|
            0 <= k < peers.len() && (#[trigger] peers[k]).is_light_node && peers[k].peer_id@ == id;
        assert(is_light()(peers[k]));
    }
    if exists|k: int|
        0 <= k < peers.len() && is_light()(#[trigger] peers[k]) && peers[k].peer_id@ == id {
        let k = choose|k: int|
            0 <= k < peers.len() && is_light()(#[trigger] peers[k]) && peers[k].peer_id@ == id;
        assert(peers[k].is_light_node);
    }
    if let MonolithMessage::GroupAnnounce { groups: g, .. } = plan.message {
        assert(same_group(g@[i], groups[i]));
    }
}

/// Each group is announced once, where anything can be published, and not at all elsewhere. An
/// announcement tells the group as it is, its proposer or else its first member, and the number
/// of shards there are; where this node has a key, it is signed with it.
pub proof fn each_group_is_announced(
    m: MonolithP2PManager,
    plan: DistributionPlan,
    groups: Seq<P2PGroup>,
    epoch: u64,
    peers: Seq<PeerInfo>,
    timestamp: u64,
    i: int,
)
    requires
        m.plans(plan, groups, epoch, peers, timestamp),
        0 <= i < groups.len(),
    ensures
        !m.publishes() ==> plan.announcements@.len() == 0,
        m.publishes() ==> plan.announcements@.len() == groups.len() && {
            let a = plan.announcements@[i];
            let g = groups[i];
            &&& a.group_id@ == g.group_id@
            &&& a.epoch == g.epoch
            &&& a.members@ == g.members@
            &&& a.member_addresses@ == g.member_multiaddrs@
            &&& a.timestamp == timestamp
            &&& a.assigned_shards@ == g.assigned_shards@
            &&& a.num_shards == 65536
            &&& g.proposer matches Some(p) ==> a.proposer@ == p@
            &&& g.proposer is None && g.members@.len() > 0 ==> a.proposer@ == g.members@[0]@
            &&& g.proposer is None && g.members@.len() == 0 ==> a.proposer@.len() == 0
            &&& a.signature is Some <==> m.secret() is Some
            &&& a.signer_pubkey is Some <==> m.secret() is Some
            &&& m.secret() matches Some(key) ==> a.signer_pubkey->0@ == crypto::hex_text(
                crypto::ed25519_public_of(key@),
            ) && exists|signature: Seq<u8>|
                a.signature->0@ == crypto::hex_text(signature)
                    && #[trigger] crypto::ed25519_accepts(
                    crypto::ed25519_public_of(key@),
                    announce_message(a),
                    signature,
                )
        },
{
    if m.publishes() {
        assert(announces(plan.announcements@[i], groups[i], timestamp, m.secret()));
        if let Some(key) = m.secret() {
            let a = plan.announcements@[i];
            let signature = crypto::ed25519_signature_of(key@, announce_message(a));
            assert(a.signature->0@ == crypto::hex_text(signature));
            assert(crypto::ed25519_accepts(
                crypto::ed25519_public_of(key@),
                announce_message(a),
                signature,
            ));
        }
    }
}

/// What is signed of an announcement: the epoch, then the group and the proposer, then the time
/// and the number of members.
pub proof fn announcement_layout(a: LightnodeGroupAnnounce)
    ensures
        ({
            let m = announce_message(a);
            let names = text::utf8(a.group_id@) + text::utf8(a.proposer@);
            let n = m.len() as int;
            &&& n == 24 + names.len()
            &&& vstd::bytes::spec_u64_from_le_bytes(m.subrange(0, 8)) == a.epoch
            &&& m.subrange(8, n - 16) == names
            &&& vstd::bytes::spec_u64_from_le_bytes(m.subrange(n - 16, n - 8)) == a.timestamp
            &&& vstd::bytes::spec_u64_from_le_bytes(m.subrange(n - 8, n)) == a.members@.len() as u64
        }),
{
    bytes::numbers_are_read_back(a.epoch, 0, 0);
    bytes::numbers_are_read_back(a.timestamp, 0, 0);
    bytes::numbers_are_read_back(a.members@.len() as u64, 0, 0);
    let m = announce_message(a);
    let n = m.len() as int;
    assert(m.subrange(0, 8) =~= bytes::u64_le(a.epoch));
    assert(m.subrange(8, n - 16) =~= text::utf8(a.group_id@) + text::utf8(a.proposer@));
    assert(m.subrange(n - 16, n - 8) =~= bytes::u64_le(a.timestamp));
    assert(m.subrange(n - 8, n) =~= bytes::u64_le(a.members@.len() as u64));
}

/// Of each height the latest monolith counts; those of other heights stay.
pub proof fn the_latest_monolith_of_a_height_counts(
    c: Seq<CachedMonolith>,
    height: u64,
    block: MonolithBlock,
    e: CachedMonolith,
)
    ensures
        e.height == height ==> (with_monolith(c, height, block).contains(e) <==> e.block == block),
        e.height != height ==> (with_monolith(c, height, block).contains(e) <==> c.contains(e)),
        with_monolith(c, height, block).len() <= c.len() + 1,
{
    let rest = keyed::without_key(c, height);
    let all = with_monolith(c, height, block);
    keyed::without_key_keeps_the_rest(c, height);
    if rest.contains(e) {
        let i = choose|i: int| 0 <= i < rest.len() && rest[i] == e;
        assert(all[i] == e);
    }
    if all.contains(e) {
        let i = choose|i: int| 0 <= i < all.len() && all[i] == e;
        if i < rest.len() {
            assert(rest[i] == e);
            assert(rest.contains(e));
        }
    }
    assert(all[rest.len() as int] == CachedMonolith { height, block });
}

/// A monolith that is found invalid goes, and those with another hash stay.
pub proof fn only_the_invalid_go(c: Seq<CachedMonolith>, hash: Seq<u8>, e: CachedMonolith)
    ensures
        c.filter(has_other_hash(hash)).contains(e) <==> c.contains(e) && block_hash_of(e.block)
            != hash,
{
    keyed::filter_keeps_the_wanted(c, has_other_hash(hash), e);
}

/// The masternodes that a node sees are itself and those of its peers that are no lightnodes.
pub proof fn the_mesh_is_without_lightnodes(peers: Seq<PeerInfo>, own: Seq<char>, id: Seq<char>)
    ensures
        mesh_of(peers, own).contains(id) <==> id == own || exists|i: int|
            0 <= i < peers.len() && !(#[trigger] peers[i]).is_light_node && peers[i].peer_id@ == id,
{
    ids_of_the_wanted(peers, is_heavy(), id);
    let ids = ids_of(peers.filter(is_heavy()));
    let all = mesh_of(peers, own);
    if ids.contains(id) {
        let i = choose|i: int| 0 <= i < ids.len() && ids[i] == id;
        assert(all[i] == id);
        let k = choose|k: int|
            0 <= k < peers.len() && is_heavy()(#[trigger] peers[k]) && peers[k].peer_id@ == id;
        assert(!peers[k].is_light_node);
    }
    if all.contains(id) {
        let i = choose|i: int| 0 <= i < all.len() && all[i] == id;
        if i < ids.len() {
            assert(ids[i] == id);
        }
    }
    assert(all[ids.len() as int] == own);
    if exists|i: int|
        0 <= i < peers.len() && !(#[trigger] peers[i]).is_light_node && peers[i].peer_id@ == id {
        let k = choose|i: int|
            0 <= i < peers.len() && !(#[trigger] peers[i]).is_light_node && peers[i].peer_id@ == id;
        assert(is_heavy()(peers[k]));
        assert(ids.contains(id));
    }
}

/// Each monolith adds the size of its record and of its proof to that of the cache.
pub proof fn monoliths_take_their_room(c: Seq<CachedMonolith>, e: CachedMonolith)
    ensures
        cache_bytes(Seq::empty()) == 0,
        cache_bytes(c.push(e)) == cache_bytes(c) + vstd::layout::size_of::<MonolithBlock>()
            + e.block.zkp_proof@.len(),
{
    assert(c.push(e).drop_last() =~= c);
}

} // verus!
