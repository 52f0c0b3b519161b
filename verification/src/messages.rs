//! The messages that masternodes and lightnodes exchange, and the records that are kept of them.
//!
//! Peer identifiers are their textual form; a floating-point number is carried by its bits.
use vstd::prelude::*;

use crate::bytes::bytes_equal;
use crate::keyed::Keyed;
use crate::proposal_validator::BlockCertificate;
use crate::proposal_validator::ElectionAttestation;
use crate::proposal_validator::LightnodeProposal;
use crate::text::same_text;

verus! {

#[derive(Debug, Clone)]
pub struct BlockProposal {
    pub block_hash: [u8; 64],
    pub proposer_group_id: String,
    pub height: u64,
    pub transactions: Vec<LocalTransaction>,
    pub timestamp: u64,
    pub proposer_signature: [u8; 64],
}

#[derive(Debug, Clone, Copy)]
pub struct LocalTransaction {
    pub tx_hash: [u8; 32],
    pub sender: [u8; 32],
    pub receiver: [u8; 32],
    pub amount: u64,
    pub nonce: u64,
    pub signature: [u8; 64],
}

#[derive(Debug, Clone)]
pub struct PeerDiscoveryRequest {
    pub requesting_peer: String,
}

#[derive(Debug, Clone)]
pub struct PeerDiscoveryResponse {
    pub requesting_peer: String,
    /// Addresses of masternodes, each ending in the peer's identifier.
    pub masternode_peers: Vec<String>,
}

/// What a node says of itself to the registry of peers.
#[derive(Debug, Clone)]
pub struct PeerRegistryAnnounce {
    pub peer_id: String,
    pub multiaddr: String,
    pub role: String,
    pub timestamp: u64,
    pub ttl_secs: u64,
}

#[derive(Debug, Clone)]
pub struct HeartbeatMessage {
    pub timestamp: u64,
    pub nonce: u64,
    pub kind: HeartbeatKind,
}

#[derive(Debug, Clone, Copy, PartialEq, Eq, Structural)]
pub enum HeartbeatKind {
    Ping,
    Pong,
}

#[derive(Debug, Clone)]
pub struct PouBroadcast {
    pub peer_id: String,
    pub epoch: u64,
    pub score: u16,
    pub index: u16,
    pub timestamp: u64,
}

#[derive(Debug, Clone, Copy)]
pub struct PeerInfoMessage {
    pub account: [u8; 32],
}

/// What lightnodes broadcast.
#[derive(Debug, Clone)]
pub enum GossipMessage {
    Tx(TxMessageGossip),
    HaveTx(HaveTxGossip),
    Heartbeat(HeartbeatMessage),
    HaveBlock(HaveBlockGossip),
    Block(BlockMessageGossip),
    PeerInfo(PeerInfoMessage),
    LightnodeRegistration(LightnodeRegistrationMessage),
}

/// What a lightnode tells of itself to be put into a group.
#[derive(Debug, Clone)]
pub struct LightnodeRegistrationMessage {
    pub node_id: String,
    pub peer_id: String,
    pub multiaddr: String,
    pub geographic_region: String,
    pub pou_score_bits: u64,
    pub capabilities: Vec<String>,
    pub uptime_percentage_bits: u64,
    pub account: [u8; 32],
}

#[derive(Debug, Clone)]
pub struct TxMessageGossip {
    pub tx: Vec<u8>,
}

#[derive(Debug, Clone)]
pub struct HaveTxGossip {
    pub tx_hashes: Vec<Vec<u8>>,
}

#[derive(Debug, Clone, Copy)]
pub struct HaveBlockGossip {
    pub exec_height: u64,
    pub tx_count: u32,
}

#[derive(Debug, Clone, Copy)]
pub struct BlockMessageGossip {
    pub hash: [u8; 64],
}

/// The heartbeats of a peer.
#[derive(Debug, Clone, Copy)]
pub struct PeerActivityTracker {
    pub last_heartbeat: u64,
    pub heartbeat_count: u64,
    pub missed_heartbeats: u64,
}

#[derive(Debug, Clone)]
pub struct PouScoreEntry {
    pub peer_id: String,
    pub epoch: u64,
    pub score: u16,
    pub index: u16,
    pub last_updated: u64,
}

#[derive(Debug, Clone)]
pub struct PeerRegistryEntry {
    pub account: [u8; 32],
    pub first_seen: u64,
    pub last_seen: u64,
    pub is_active: bool,
    pub multiaddr: Option<String>,
}

#[derive(Debug, Clone)]
pub struct PeerRegistryRecord {
    pub peer_id: String,
    pub multiaddr: String,
    pub role: String,
    pub last_seen: u64,
    pub expires_at: u64,
}

/// A connected peer.
#[derive(Debug, Clone)]
pub struct PeerInfo {
    pub peer_id: String,
    pub multiaddr: String,
    pub is_light_node: bool,
    pub last_seen: u64,
}

/// A finalized block.
#[derive(Debug, Clone)]
pub struct BlockFinalityEntry {
    pub block_hash: [u8; 64],
    pub height: u64,
    pub proposer_group_id: String,
    pub confirmed_transactions: Vec<[u8; 32]>,
    pub rejected_transactions: Vec<[u8; 32]>,
    pub finalized_at: u64,
}

/// A certificate whose block has not arrived yet.
#[derive(Debug, Clone)]
pub struct PendingCertificateFinality {
    pub block_hash: [u8; 64],
    pub height: u64,
    pub proposer_group_id: String,
    pub received_at: u64,
}

/// A proposal that waits for the acceptance certificate of its group's owner.
#[derive(Debug, Clone)]
pub struct PendingProposalEntry {
    pub proposal: LightnodeProposal,
    pub received_at: u64,
}

#[derive(Debug, Clone)]
pub enum RequestMessage {
    Bootstrap(BootstrapRequest),
    Block(Vec<u8>),
}

#[derive(Debug, Clone)]
pub enum ResponseMessage {
    Bootstrap(BootstrapReply),
    Block(Vec<u8>),
    MonolithReply(MonolithReply),
}

#[derive(Debug, Clone)]
pub struct MonolithReply {
    pub req_id: u64,
    pub header: Option<MonolithHeader>,
    pub header_leaf_hashes: Vec<Vec<u8>>,
    pub missing: bool,
}

#[derive(Debug, Clone)]
pub struct MonolithHeader {
    pub monolith_id: Vec<u8>,
}

#[derive(Debug, Clone, Copy)]
pub struct BootstrapRequest {
    pub version: u32,
    pub end_height: u64,
    pub max_blocks: u32,
}

#[derive(Debug, Clone)]
pub struct BootstrapReply {
    pub peers: Vec<BootstrapPeerInfo>,
    pub accounts: Vec<BootstrapAccountInfo>,
    pub blocks: Vec<BootstrapBlockInfo>,
}

#[derive(Debug, Clone)]
pub struct BootstrapBlockInfo {
    pub height: u64,
    pub hash: Vec<u8>,
    pub timestamp: u64,
    pub tx_count: u32,
}

#[derive(Debug, Clone)]
pub struct BootstrapAccountInfo {
    pub address: Vec<u8>,
    pub balance: u64,
    pub nonce: u64,
}

#[derive(Debug, Clone)]
pub struct BootstrapPeerInfo {
    pub peer_id: String,
    pub addresses: Vec<String>,
    pub is_light_node: bool,
    pub is_masternode: bool,
    pub is_validator: bool,
}

#[derive(Debug, Clone)]
pub struct LightnodeProposalTransactionCompat {
    pub hash: [u8; 64],
    pub from: [u8; 32],
    pub to: [u8; 32],
    pub amount: u64,
    pub nonce: u64,
    pub fee: u64,
    pub data: Vec<u8>,
    pub signature: [u8; 64],
}

/// A block proposal in the lightnodes' own form.
#[derive(Debug, Clone)]
pub struct LightnodeBlockProposalCompat {
    pub round_id: u64,
    pub height: u64,
    pub timestamp: u64,
    pub proposer_pubkey: [u8; 32],
    pub proposer_pou_score: u32,
    pub parent_hash: [u8; 64],
    pub state_root: [u8; 64],
    pub tx_root: [u8; 64],
    pub transactions: Vec<LightnodeProposalTransactionCompat>,
    pub signature: [u8; 64],
}

#[derive(Debug, Clone, Copy)]
pub struct BlockHeaderWire {
    pub exec_height: u64,
    pub proposer: [u8; 32],
}

/// A block with its transactions.
#[derive(Debug, Clone)]
pub struct BlockMessageWire {
    pub hash: [u8; 64],
    pub header: BlockHeaderWire,
    pub txs: Vec<Vec<u8>>,
}

#[derive(Debug, Clone)]
pub enum GossipBlockOnlyWire {
    Block(BlockMessageWire),
}

/// A block and its certificate in one message.
#[derive(Debug, Clone)]
pub struct BlockWithCertificateWire {
    pub block: BlockMessageWire,
    pub certificate: BlockCertificate,
}

#[derive(Debug, Clone)]
pub struct GroupFormedAck {
    pub group_id: String,
    pub epoch: u64,
    pub peer_id: String,
    pub timestamp: u64,
    pub connected_peers: usize,
    pub total_peers: usize,
}

/// A proposer that may send proposals for a while.
#[derive(Debug, Clone)]
pub struct ProposerWhitelistEntry {
    pub peer_id: String,
    pub group_id: String,
    pub round: u64,
    pub proposer_pubkey: [u8; 32],
    /// Seconds on the node's own clock.
    pub added_at: u64,
    pub timeout_secs: u64,
}

/// An elected proposer's request to be let in.
#[derive(Debug, Clone)]
pub struct ProposerElectionCertMessage {
    pub group_id: String,
    pub round_id: u64,
    pub proposer_peer_id: String,
    pub proposer_pubkey: [u8; 32],
    pub proposer_pou_score: u32,
    pub election_timestamp: u64,
    /// Peer, score, and the bits of the combined floating-point score.
    pub candidates: Vec<(String, u32, u64)>,
    pub attestations: Vec<ElectionAttestation>,
}

/// The answer that lets a proposer in.
#[derive(Debug, Clone)]
pub struct ProposerWhitelistAck {
    pub target_proposer_peer_id: String,
    pub masternode_peer_id: String,
    pub group_id: String,
    pub round_id: u64,
    pub timestamp: u64,
    pub validity_secs: u64,
}

impl Keyed for PeerInfo {
    type Query = str;

    open spec fn key(&self) -> Seq<char> {
        self.peer_id@
    }

    fn has_key(&self, query: &str) -> (r: bool) {
        same_text(self.peer_id.as_str(), query)
    }
}

impl Keyed for BlockMessageWire {
    type Query = [u8];

    open spec fn key(&self) -> Seq<u8> {
        self.hash@
    }

    fn has_key(&self, query: &[u8]) -> (r: bool) {
        bytes_equal(self.hash.as_slice(), query)
    }
}

impl Keyed for BlockFinalityEntry {
    type Query = [u8];

    open spec fn key(&self) -> Seq<u8> {
        self.block_hash@
    }

    fn has_key(&self, query: &[u8]) -> (r: bool) {
        bytes_equal(self.block_hash.as_slice(), query)
    }
}

impl Keyed for PendingCertificateFinality {
    type Query = [u8];

    open spec fn key(&self) -> Seq<u8> {
        self.block_hash@
    }

    fn has_key(&self, query: &[u8]) -> (r: bool) {
        bytes_equal(self.block_hash.as_slice(), query)
    }
}

} // verus!
