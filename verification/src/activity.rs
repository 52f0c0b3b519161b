//! What is kept of the heartbeats, the scores and the accounts of peers, and what peers are told
//! at their start.
use vstd::prelude::*;

use crate::keyed;
use crate::keyed::Keyed;
use crate::messages::BootstrapBlockInfo;
use crate::messages::BootstrapPeerInfo;
use crate::messages::BootstrapReply;
use crate::messages::PeerActivityTracker;
use crate::messages::PeerRegistryEntry;
use crate::messages::PouBroadcast;
use crate::messages::PouScoreEntry;
use crate::text::same_text;

verus! {

/// The largest request that is read, in bytes.
pub const MAX_MESSAGE_SIZE: usize = 1_048_576;

/// The smallest message about a peer that is read, in bytes.
pub const MIN_PEER_INFO_SIZE: usize = 40;

impl PeerActivityTracker {
    /// A peer whose first heartbeat is yet to be counted.
    pub fn starting_at(now: u64) -> (r: Self)
        ensures
            r.last_heartbeat == now,
            r.heartbeat_count == 0,
            r.missed_heartbeats == 0,
    {
        PeerActivityTracker { last_heartbeat: now, heartbeat_count: 0, missed_heartbeats: 0 }
    }

    /// How many heartbeats came, and how many should have come; none if none should have.
    pub fn uptime(&self) -> (r: Option<(u64, u128)>)
        ensures
            r == (if self.heartbeat_count + self.missed_heartbeats > 0 {
                Some(
                    (
                        self.heartbeat_count,
                        (self.heartbeat_count + self.missed_heartbeats) as u128,
                    ),
                )
            } else {
                None
            }),
    {
        let expected: u128 = self.heartbeat_count as u128 + self.missed_heartbeats as u128;
        if expected > 0 {
            Some((self.heartbeat_count, expected))
        } else {
            None
        }
    }
}

/// The heartbeats of a peer.
#[derive(Debug, Clone)]
pub struct PeerActivity {
    pub peer_id: String,
    pub tracker: PeerActivityTracker,
}

impl Keyed for PeerActivity {
    type Query = str;

    open spec fn key(&self) -> Seq<char> {
        self.peer_id@
    }

    fn has_key(&self, query: &str) -> (r: bool) {
        same_text(self.peer_id.as_str(), query)
    }
}

impl Keyed for PouScoreEntry {
    type Query = str;

    open spec fn key(&self) -> Seq<char> {
        self.peer_id@
    }

    fn has_key(&self, query: &str) -> (r: bool) {
        same_text(self.peer_id.as_str(), query)
    }
}

/// A peer and what the registry of accounts keeps of it.
#[derive(Debug, Clone)]
pub struct KnownPeer {
    pub peer_id: String,
    pub entry: PeerRegistryEntry,
}

impl Keyed for KnownPeer {
    type Query = str;

    open spec fn key(&self) -> Seq<char> {
        self.peer_id@
    }

    fn has_key(&self, query: &str) -> (r: bool) {
        same_text(self.peer_id.as_str(), query)
    }
}

/// Whether `t` is `s` after a heartbeat of a peer: its count grows by one and its time is set,
/// in place, or it is added with a count of one.
pub open spec fn heartbeat_step(
    s: Seq<PeerActivity>,
    t: Seq<PeerActivity>,
    peer: Seq<char>,
    now: u64,
) -> bool {
    if keyed::contains_key(s, peer) {
        &&& t.len() == s.len()
        &&& forall|i: int|
            0 <= i < s.len() ==> {
                &&& (#[trigger] t[i]).peer_id@ == s[i].peer_id@
                &&& s[i].key() != peer ==> t[i].tracker == s[i].tracker
                &&& s[i].key() == peer ==> t[i].tracker == (PeerActivityTracker {
                    last_heartbeat: now,
                    heartbeat_count: (s[i].tracker.heartbeat_count + 1) as u64,
                    missed_heartbeats: s[i].tracker.missed_heartbeats,
                })
            }
    } else {
        &&& t.len() == s.len() + 1
        &&& t.drop_last() == s
        &&& t.last().peer_id@ == peer
        &&& t.last().tracker == (PeerActivityTracker {
            last_heartbeat: now,
            heartbeat_count: 1,
            missed_heartbeats: 0,
        })
    }
}

/// The entry of a peer after a message about its account.
pub open spec fn noted_entry(
    old_entry: Option<PeerRegistryEntry>,
    account: [u8; 32],
    now: u64,
) -> PeerRegistryEntry {
    match old_entry {
        Some(e) => PeerRegistryEntry {
            account,
            first_seen: e.first_seen,
            last_seen: now,
            is_active: true,
            multiaddr: e.multiaddr,
        },
        None => PeerRegistryEntry {
            account,
            first_seen: now,
            last_seen: now,
            is_active: true,
            multiaddr: None,
        },
    }
}

/// The entries of a peer.
pub open spec fn is_of_peer(peer: Seq<char>) -> spec_fn((Seq<char>, PeerRegistryEntry)) -> bool {
    |e: (Seq<char>, PeerRegistryEntry)| e.0 == peer
}

/// Where the entry of a peer stands, if there is one.
pub open spec fn place_of(s: Seq<(Seq<char>, PeerRegistryEntry)>, peer: Seq<char>) -> Option<int> {
    crate::search::first_index(s, is_of_peer(peer))
}

/// The registry of accounts after a message about a peer.
pub open spec fn noted(
    s: Seq<(Seq<char>, PeerRegistryEntry)>,
    peer: Seq<char>,
    account: [u8; 32],
    now: u64,
) -> Seq<(Seq<char>, PeerRegistryEntry)> {
    match place_of(s, peer) {
        Some(i) => s.update(i, (peer, noted_entry(Some(s[i].1), account, now))),
        None => s.push((peer, noted_entry(None, account, now))),
    }
}

/// A message in a batch: who sent it, and the account that it tells, if it is about one.
#[derive(Debug, Clone)]
pub struct PeerInfoInput {
    pub peer_id: String,
    pub account: Option<[u8; 32]>,
}

/// The registry of accounts after a batch of messages.
pub open spec fn noted_all(
    s: Seq<(Seq<char>, PeerRegistryEntry)>,
    batch: Seq<PeerInfoInput>,
    now: u64,
) -> Seq<(Seq<char>, PeerRegistryEntry)>
    decreases batch.len(),
{
    if batch.len() == 0 {
        s
    } else {
        let front = noted_all(s, batch.drop_last(), now);
        match batch.last().account {
            Some(account) => noted(front, batch.last().peer_id@, account, now),
            None => front,
        }
    }
}

/// The last account that a batch tells.
pub open spec fn last_account(batch: Seq<PeerInfoInput>) -> Option<[u8; 32]>
    decreases batch.len(),
{
    if batch.len() == 0 {
        None
    } else {
        match batch.last().account {
            Some(account) => Some(account),
            None => last_account(batch.drop_last()),
        }
    }
}

/// What is kept of the activity of peers.
pub struct ActivityLog {
    heartbeats: Vec<PeerActivity>,
    scores: Vec<PouScoreEntry>,
    accounts: Vec<KnownPeer>,
}

impl ActivityLog {
    /// The heartbeats of peers.
    pub closed spec fn heartbeats(&self) -> Seq<PeerActivity> {
        self.heartbeats@
    }

    /// The scores of peers.
    pub closed spec fn scores(&self) -> Seq<PouScoreEntry> {
        self.scores@
    }

    /// The registry of accounts.
    pub closed spec fn accounts(&self) -> Seq<(Seq<char>, PeerRegistryEntry)> {
        account_pairs(self.accounts@)
    }

    /// No peer is kept twice.
    pub open spec fn wf(&self) -> bool {
        &&& keyed::unique_keys(self.heartbeats())
        &&& keyed::unique_keys(self.scores())
    }

    /// Nothing is kept.
    pub fn new() -> (r: Self)
        ensures
            r.wf(),
            r.heartbeats().len() == 0,
            r.scores().len() == 0,
            r.accounts().len() == 0,
    {
        ActivityLog { heartbeats: Vec::new(), scores: Vec::new(), accounts: Vec::new() }
    }

    /// The heartbeats of a peer, if there were any.
    pub fn heartbeat_of(&self, peer_id: &str) -> (r: Option<PeerActivityTracker>)
        requires
            self.wf(),
        ensures
            r is Some == keyed::contains_key(self.heartbeats(), peer_id@),
            forall|i: int|
                0 <= i < self.heartbeats().len() && (#[trigger] self.heartbeats()[i]).peer_id@
                    == peer_id@ ==> r == Some(self.heartbeats()[i].tracker),
    {
        match keyed::find(&self.heartbeats, peer_id) {
            Some(k) => {
                assert forall|i: int|
                    0 <= i < self.heartbeats().len() && (#[trigger] self.heartbeats()[i]).peer_id@
                        == peer_id@ implies i == k by {
                    assert(self.heartbeats()[i].key() == self.heartbeats()[k as int].key());
                }
                Some(self.heartbeats[k].tracker)
            },
            None => {
                assert forall|i: int|
                    0 <= i < self.heartbeats().len() implies (
                #[trigger] self.heartbeats()[i]).peer_id@ != peer_id@ by {
                    assert(self.heartbeats()[i].key() == self.heartbeats()[i].peer_id@);
                }
                None
            },
        }
    }

    /// The score of a peer, if it is known.
    pub fn score_of(&self, peer_id: &str) -> (r: Option<&PouScoreEntry>)
        requires
            self.wf(),
        ensures
            r is Some == keyed::contains_key(self.scores(), peer_id@),
            r matches Some(e) ==> e.peer_id@ == peer_id@ && self.scores().contains(*e),
    {
        match keyed::find(&self.scores, peer_id) {
            Some(k) => {
                assert(self.scores()[k as int].key() == peer_id@);
                Some(&self.scores[k])
            },
            None => None,
        }
    }

    /// What is known of the account of a peer, if anything is.
    pub fn account_of(&self, peer_id: &str) -> (r: Option<&PeerRegistryEntry>)
        ensures
            match place_of(self.accounts(), peer_id@) {
                Some(i) => r == Some(&self.accounts()[i].1),
                None => r is None,
            },
    {
        let ghost s = self.accounts();
        let ghost p = is_of_peer(peer_id@);
        proof {
            crate::search::first_index_is_first(s, p);
        }
        let mut i: usize = 0;
        while i < self.accounts.len()
            invariant
                s == account_pairs(self.accounts@),
                i <= self.accounts@.len(),
                forall|j: int| 0 <= j < i ==> (#[trigger] s[j]).0 != peer_id@,
                p == is_of_peer(peer_id@),
            decreases self.accounts@.len() - i,
        {
            assert(s[i as int].0 == self.accounts@[i as int].peer_id@);
            if same_text(self.accounts[i].peer_id.as_str(), peer_id) {
                proof {
                    crate::search::first_index_is_first(s, p);
                    assert(p(s[i as int]));
                    let k = place_of(s, peer_id@)->0;
                    if k < i {
                        assert(s[k].0 != peer_id@);
                    }
                    if i < k {
                        assert(!p(s[i as int]));
                    }
                }
                return Some(&self.accounts[i].entry);
            }
            i += 1;
        }
        proof {
            match place_of(s, peer_id@) {
                Some(k) => {
                    assert(p(s[k]));
                    assert(s[k].0 != peer_id@);
                },
                None => {},
            }
        }
        None
    }

    /// Counts a heartbeat of a peer.
    pub fn handle_heartbeat(&mut self, peer_id: &str, now: u64)
        requires
            old(self).wf(),
            forall|i: int|
                0 <= i < old(self).heartbeats().len() ==> (
                #[trigger] old(self).heartbeats()[i]).tracker.heartbeat_count < u64::MAX,
        ensures
            final(self).wf(),
            final(self).scores() == old(self).scores(),
            final(self).accounts() == old(self).accounts(),
            heartbeat_step(old(self).heartbeats(), final(self).heartbeats(), peer_id@, now),
    {
        let ghost s = self.heartbeats();
        match keyed::find(&self.heartbeats, peer_id) {
            Some(i) => {
                let old_tracker = self.heartbeats[i].tracker;
                assert(s[i as int].tracker.heartbeat_count < u64::MAX);
                let entry = PeerActivity {
                    peer_id: peer_id.to_owned(),
                    tracker: PeerActivityTracker {
                        last_heartbeat: now,
                        heartbeat_count: old_tracker.heartbeat_count + 1,
                        missed_heartbeats: old_tracker.missed_heartbeats,
                    },
                };
                self.heartbeats[i] = entry;
                let ghost t = self.heartbeats();
                assert forall|a: int, b: int| 0 <= a < b < t.len() implies (#[trigger] t[a]).key()
                    != (#[trigger] t[b]).key() by {
                    assert(s[a].key() != s[b].key());
                }
                assert forall|k: int| 0 <= k < s.len() implies (#[trigger] t[k]).peer_id@
                    == s[k].peer_id@ && (s[k].key() != peer_id@ ==> t[k].tracker == s[k].tracker)
                    && (s[k].key() == peer_id@ ==> k == i) by {
                    if k < i {
                        assert(s[k].key() != s[i as int].key());
                    }
                    if i < k {
                        assert(s[i as int].key() != s[k].key());
                    }
                }
            },
            None => {
                let mut tracker = PeerActivityTracker::starting_at(now);
                tracker.heartbeat_count = 1;
                self.heartbeats.push(PeerActivity { peer_id: peer_id.to_owned(), tracker });
                let ghost t = self.heartbeats();
                assert(t.drop_last() =~= s);
                assert forall|a: int, b: int| 0 <= a < b < t.len() implies (#[trigger] t[a]).key()
                    != (#[trigger] t[b]).key() by {
                    assert(t[a] == s[a]);
                    if b < s.len() {
                        assert(t[b] == s[b]);
                    }
                }
            },
        }
    }

    /// Keeps the score that was broadcast of a peer.
    pub fn handle_pou_broadcast(&mut self, pou: &PouBroadcast, now: u64)
        requires
            old(self).wf(),
        ensures
            final(self).wf(),
            final(self).heartbeats() == old(self).heartbeats(),
            final(self).accounts() == old(self).accounts(),
            final(self).scores().len() > 0,
            final(self).scores().drop_last() == keyed::without_key(
                old(self).scores(),
                pou.peer_id@,
            ),
            final(self).scores().last().peer_id@ == pou.peer_id@,
            final(self).scores().last().epoch == pou.epoch,
            final(self).scores().last().score == pou.score,
            final(self).scores().last().index == pou.index,
            final(self).scores().last().last_updated == now,
    {
        let entry = PouScoreEntry {
            peer_id: pou.peer_id.clone(),
            epoch: pou.epoch,
            score: pou.score,
            index: pou.index,
            last_updated: now,
        };
        keyed::replace(&mut self.scores, pou.peer_id.as_str(), entry);
        assert(self.scores@.drop_last() =~= keyed::without_key(old(self).scores(), pou.peer_id@));
    }

    fn note_account(&mut self, peer_id: &str, account: [u8; 32], now: u64)
        ensures
            final(self).heartbeats() == old(self).heartbeats(),
            final(self).scores() == old(self).scores(),
            final(self).accounts() == noted(old(self).accounts(), peer_id@, account, now),
    {
        let ghost s = self.accounts();
        let ghost p = is_of_peer(peer_id@);
        proof {
            crate::search::first_index_is_first(s, p);
        }
        let mut i: usize = 0;
        while i < self.accounts.len()
            invariant
                *self == *old(self),
                s == account_pairs(self.accounts@),
                i <= self.accounts@.len(),
                forall|j: int| 0 <= j < i ==> (#[trigger] s[j]).0 != peer_id@,
                place_of(s, peer_id@) == crate::search::first_index(s, p),
                p == is_of_peer(peer_id@),
            decreases self.accounts@.len() - i,
        {
            assert(s[i as int].0 == self.accounts@[i as int].peer_id@);
            if same_text(self.accounts[i].peer_id.as_str(), peer_id) {
                let entry = PeerRegistryEntry {
                    account,
                    first_seen: self.accounts[i].entry.first_seen,
                    last_seen: now,
                    is_active: true,
                    multiaddr: self.accounts[i].entry.multiaddr.clone(),
                };
                let ghost e0 = self.accounts@[i as int].entry;
                assert(entry.multiaddr == e0.multiaddr);
                self.accounts[i] = KnownPeer { peer_id: peer_id.to_owned(), entry };
                proof {
                    crate::search::first_index_is_first(s, p);
                    assert(p(s[i as int]));
                    let k = place_of(s, peer_id@)->0;
                    assert(k == i) by {
                        if k < i {
                            assert(s[k].0 != peer_id@);
                        }
                        if i < k {
                            assert(!p(s[i as int]));
                        }
                    }
                    assert(self.accounts() =~= noted(s, peer_id@, account, now));
                }
                return;
            }
            i += 1;
        }
        let entry = PeerRegistryEntry {
            account,
            first_seen: now,
            last_seen: now,
            is_active: true,
            multiaddr: None,
        };
        self.accounts.push(KnownPeer { peer_id: peer_id.to_owned(), entry });
        proof {
            crate::search::first_index_is_first(s, p);
            match place_of(s, peer_id@) {
                Some(k) => {
                    assert(p(s[k]));
                    assert(s[k].0 != peer_id@);
                },
                None => {},
            }
            assert(self.accounts() =~= noted(s, peer_id@, account, now));
        }
    }

    /// Takes a batch of messages about accounts, and gives the last account for the answer.
    pub fn handle_peer_info_batch(&mut self, batch: &[PeerInfoInput], now: u64) -> (r: Option<
        [u8; 32],
    >)
        ensures
            final(self).heartbeats() == old(self).heartbeats(),
            final(self).scores() == old(self).scores(),
            final(self).accounts() == noted_all(old(self).accounts(), batch@, now),
            r == last_account(batch@),
    {
        let mut last: Option<[u8; 32]> = None;
        let mut i: usize = 0;
        assert(batch@.take(0) =~= Seq::<PeerInfoInput>::empty());
        while i < batch.len()
            invariant
                i <= batch@.len(),
                self.heartbeats() == old(self).heartbeats(),
                self.scores() == old(self).scores(),
                self.accounts() == noted_all(old(self).accounts(), batch@.take(i as int), now),
                last == last_account(batch@.take(i as int)),
            decreases batch@.len() - i,
        {
            assert(batch@.take(i + 1).drop_last() =~= batch@.take(i as int));
            match batch[i].account {
                Some(account) => {
                    self.note_account(batch[i].peer_id.as_str(), account, now);
                    last = Some(account);
                },
                None => {},
            }
            i += 1;
        }
        assert(batch@.take(i as int) =~= batch@);
        last
    }
}

/// The peers and entries of a list.
pub open spec fn account_pairs(v: Seq<KnownPeer>) -> Seq<(Seq<char>, PeerRegistryEntry)> {
    Seq::new(v.len(), |i: int| (v[i].peer_id@, v[i].entry))
}

/// Whether a request is too large to be read.
pub fn is_oversized(len: usize) -> (r: bool)
    ensures
        r == (len > MAX_MESSAGE_SIZE),
        r <==> len > 1024 * 1024,
{
    len > MAX_MESSAGE_SIZE
}

/// A peer that is known at the start.
#[derive(Debug, Clone)]
pub struct BootstrapPeer {
    pub peer_id: String,
    pub addresses: Vec<String>,
    pub is_light_node: bool,
}

impl Keyed for BootstrapPeer {
    type Query = str;

    open spec fn key(&self) -> Seq<char> {
        self.peer_id@
    }

    fn has_key(&self, query: &str) -> (r: bool) {
        same_text(self.peer_id.as_str(), query)
    }
}

/// How the address of a peer became known.
pub enum Contact {
    /// A masternode was dialed at it.
    Dialed { peer: Seq<char>, address: Seq<char> },
    /// The peer is connected from it.
    Connected { peer: Seq<char>, address: Seq<char>, is_masternode: bool },
}

/// Whether a peer can be dialed at this address: a masternode was dialed at it or is connected
/// from it. A lightnode is connected from a port on which it does not listen.
pub open spec fn can_be_dialed(contact: Contact, peer: Seq<char>, address: Seq<char>) -> bool {
    match contact {
        Contact::Dialed { peer: p, address: a } => p == peer && a == address,
        Contact::Connected { peer: p, address: a, is_masternode } => is_masternode && p == peer
            && a == address,
    }
}

/// Whether the known peers become these by one that can be dialed at an address: the entry of
/// this masternode is the last, and the others stay.
pub open spec fn learned(
    s: Seq<BootstrapPeer>,
    t: Seq<BootstrapPeer>,
    peer: Seq<char>,
    address: Seq<char>,
) -> bool {
    &&& t.len() > 0
    &&& t.drop_last() == keyed::without_key(s, peer)
    &&& t.last().peer_id@ == peer
    &&& t.last().addresses@.len() == 1
    &&& t.last().addresses@[0]@ == address
    &&& !t.last().is_light_node
}

/// Whether the known peers become these by a contact.
pub open spec fn contact_step(s: Seq<BootstrapPeer>, t: Seq<BootstrapPeer>, contact: Contact) -> bool {
    match contact {
        Contact::Dialed { peer, address } => learned(s, t, peer, address),
        Contact::Connected { peer, address, is_masternode } => if is_masternode {
            learned(s, t, peer, address)
        } else {
            t == s
        },
    }
}

/// The peers that lightnodes are told of at their start.
#[derive(Debug)]
pub struct BootstrapDirectory {
    peers: Vec<BootstrapPeer>,
}

impl BootstrapDirectory {
    /// The known peers, the one that was learned last at the end.
    pub closed spec fn known(&self) -> Seq<BootstrapPeer> {
        self.peers@
    }

    /// No peer is there twice.
    pub open spec fn wf(&self) -> bool {
        keyed::unique_keys(self.known())
    }

    /// No peer is known.
    pub fn new() -> (r: Self)
        ensures
            r.wf(),
            r.known().len() == 0,
    {
        BootstrapDirectory { peers: Vec::new() }
    }

    /// Takes note of a masternode that was dialed.
    pub fn peer_dialed(&mut self, peer_id: &str, address: String)
        requires
            old(self).wf(),
        ensures
            final(self).wf(),
            contact_step(
                old(self).known(),
                final(self).known(),
                Contact::Dialed { peer: peer_id@, address: address@ },
            ),
    {
        let mut addresses: Vec<String> = Vec::new();
        addresses.push(address);
        let peer = BootstrapPeer { peer_id: peer_id.to_owned(), addresses, is_light_node: false };
        keyed::replace(&mut self.peers, peer_id, peer);
        assert(self.peers@.drop_last() =~= keyed::without_key(old(self).known(), peer_id@));
    }

    /// Takes note of a peer that is connected, if it is a masternode.
    pub fn peer_connected(&mut self, peer_id: &str, address: String, is_masternode: bool)
        requires
            old(self).wf(),
        ensures
            final(self).wf(),
            contact_step(
                old(self).known(),
                final(self).known(),
                Contact::Connected { peer: peer_id@, address: address@, is_masternode },
            ),
    {
        if is_masternode {
            self.peer_dialed(peer_id, address);
        }
    }

    /// The known peers, for an answer.
    pub fn known_peers(&self) -> (r: Vec<BootstrapPeer>)
        ensures
            r@.len() == self.known().len(),
            forall|i: int|
                0 <= i < r@.len() ==> {
                    &&& (#[trigger] r@[i]).peer_id@ == self.known()[i].peer_id@
                    &&& r@[i].addresses@ == self.known()[i].addresses@
                    &&& r@[i].is_light_node == self.known()[i].is_light_node
                },
    {
        let mut out: Vec<BootstrapPeer> = Vec::new();
        let mut i: usize = 0;
        while i < self.peers.len()
            invariant
                i <= self.peers@.len(),
                out@.len() == i,
                forall|k: int|
                    0 <= k < i ==> {
                        &&& (#[trigger] out@[k]).peer_id@ == self.peers@[k].peer_id@
                        &&& out@[k].addresses@ == self.peers@[k].addresses@
                        &&& out@[k].is_light_node == self.peers@[k].is_light_node
                    },
            decreases self.peers@.len() - i,
        {
            let p = &self.peers[i];
            let addresses = p.addresses.clone();
            assert(addresses@ =~= p.addresses@);
            out.push(
                BootstrapPeer {
                    peer_id: p.peer_id.clone(),
                    addresses,
                    is_light_node: p.is_light_node,
                },
            );
            i += 1;
        }
        out
    }
}

/// After any contacts, each peer that lightnodes are told of is a masternode, with the one address
/// that one of these contacts showed it can be dialed at: the address that a lightnode is connected
/// from is never told.
pub proof fn told_peers_can_be_dialed(states: Seq<Seq<BootstrapPeer>>, contacts: Seq<Contact>)
    requires
        states.len() == contacts.len() + 1,
        states[0].len() == 0,
        forall|k: int|
            0 <= k < contacts.len() ==> contact_step(
                states[k],
                states[k + 1],
                #[trigger] contacts[k],
            ),
    ensures
        forall|i: int|
            0 <= i < states.last().len() ==> {
                &&& !(#[trigger] states.last()[i]).is_light_node
                &&& states.last()[i].addresses@.len() == 1
                &&& exists|k: int|
                    0 <= k < contacts.len() && can_be_dialed(
                        #[trigger] contacts[k],
                        states.last()[i].peer_id@,
                        states.last()[i].addresses@[0]@,
                    )
            },
    decreases contacts.len(),
{
    if contacts.len() > 0 {
        let n = contacts.len() - 1;
        let before = states.drop_last();
        let earlier = contacts.drop_last();
        assert forall|k: int| 0 <= k < earlier.len() implies contact_step(
            before[k],
            before[k + 1],
            #[trigger] earlier[k],
        ) by {
            assert(earlier[k] == contacts[k]);
        }
        told_peers_can_be_dialed(before, earlier);
        let s = before.last();
        let t = states.last();
        assert(contact_step(s, t, contacts[n]));
        assert forall|i: int| 0 <= i < t.len() implies {
            &&& !(#[trigger] t[i]).is_light_node
            &&& t[i].addresses@.len() == 1
            &&& exists|k: int|
                0 <= k < contacts.len() && can_be_dialed(
                    #[trigger] contacts[k],
                    t[i].peer_id@,
                    t[i].addresses@[0]@,
                )
        } by {
            if t.len() > 0 && i == t.len() - 1 && t != s {
                assert(can_be_dialed(contacts[n], t[i].peer_id@, t[i].addresses@[0]@));
            } else {
                assert(exists|j: int| 0 <= j < s.len() && s[j] == t[i]) by {
                    if t == s {
                        assert(s[i] == t[i]);
                    } else {
                        let peer = t.last().peer_id@;
                        keyed::without_key_is_part(s, peer);
                        assert(t.drop_last()[i] == t[i]);
                        assert(s.contains(keyed::without_key(s, peer)[i]));
                    }
                }
                let j = choose|j: int| 0 <= j < s.len() && s[j] == t[i];
                let k = choose|k: int|
                    0 <= k < earlier.len() && can_be_dialed(
                        #[trigger] earlier[k],
                        s[j].peer_id@,
                        s[j].addresses@[0]@,
                    );
                assert(contacts[k] == earlier[k]);
            }
        }
    }
}

/// The answer to a lightnode at its start: the current height, and the known peers in order.
pub fn build_bootstrap_reply(known: Vec<BootstrapPeer>, height: u64, now: u64) -> (r: BootstrapReply)
    ensures
        r.accounts@.len() == 0,
        r.blocks@.len() == 1,
        r.blocks@[0].height == height,
        r.blocks@[0].hash@ == crate::bytes::zeros(64),
        r.blocks@[0].timestamp == now,
        r.blocks@[0].tx_count == 0,
        r.peers@.len() == known@.len(),
        forall|i: int|
            0 <= i < known@.len() ==> {
                &&& (#[trigger] r.peers@[i]).peer_id == known@[i].peer_id
                &&& r.peers@[i].addresses == known@[i].addresses
                &&& r.peers@[i].is_light_node == known@[i].is_light_node
                &&& r.peers@[i].is_masternode == !known@[i].is_light_node
                &&& !r.peers@[i].is_validator
            },
{
    let ghost s = known@;
    let mut peers: Vec<BootstrapPeerInfo> = Vec::new();
    for p in it: known
        invariant
            it.seq() == s,
            peers@.len() == it.index(),
            forall|i: int|
                0 <= i < peers@.len() ==> {
                    &&& (#[trigger] peers@[i]).peer_id == s[i].peer_id
                    &&& peers@[i].addresses == s[i].addresses
                    &&& peers@[i].is_light_node == s[i].is_light_node
                    &&& peers@[i].is_masternode == !s[i].is_light_node
                    &&& !peers@[i].is_validator
                },
    {
        peers.push(
            BootstrapPeerInfo {
                peer_id: p.peer_id,
                addresses: p.addresses,
                is_light_node: p.is_light_node,
                is_masternode: !p.is_light_node,
                is_validator: false,
            },
        );
    }
    let hash = vec![0u8; 64];
    assert(hash@ =~= crate::bytes::zeros(64));
    let mut blocks: Vec<BootstrapBlockInfo> = Vec::new();
    blocks.push(BootstrapBlockInfo { height, hash, timestamp: now, tx_count: 0 });
    BootstrapReply { peers, accounts: Vec::new(), blocks }
}

/// A heartbeat is counted for the peer that sent it, at its time; the first one makes the peer
/// known. Those of other peers stay as they are.
pub proof fn heartbeats_are_counted(
    s: Seq<PeerActivity>,
    t: Seq<PeerActivity>,
    peer: Seq<char>,
    now: u64,
    i: int,
)
    requires
        heartbeat_step(s, t, peer, now),
        0 <= i < s.len(),
        s[i].tracker.heartbeat_count < u64::MAX,
    ensures
        t[i].peer_id@ == s[i].peer_id@,
        s[i].peer_id@ == peer ==> t.len() == s.len() && t[i].tracker.last_heartbeat == now
            && t[i].tracker.heartbeat_count == s[i].tracker.heartbeat_count + 1
            && t[i].tracker.missed_heartbeats == s[i].tracker.missed_heartbeats,
        s[i].peer_id@ != peer ==> t[i].tracker == s[i].tracker,
        (forall|j: int| 0 <= j < s.len() ==> (#[trigger] s[j]).peer_id@ != peer) ==> t.len()
            == s.len() + 1 && t.last().peer_id@ == peer && t.last().tracker.last_heartbeat == now
            && t.last().tracker.heartbeat_count == 1 && t.last().tracker.missed_heartbeats == 0,
{
    if keyed::contains_key(s, peer) {
        let j = choose|j: int| 0 <= j < s.len() && s[j].key() == peer;
        assert(s[j].peer_id@ == peer);
    } else {
        assert(t.drop_last()[i] == s[i]);
        assert(s[i].key() != peer);
    }
    assert(t[i].peer_id@ == s[i].peer_id@);
}

/// A peer that tells its account is known by it, active and seen now; when it was first seen
/// stays, and so do the other peers.
pub proof fn accounts_are_noted(
    s: Seq<(Seq<char>, PeerRegistryEntry)>,
    peer: Seq<char>,
    account: [u8; 32],
    now: u64,
    i: int,
)
    requires
        0 <= i < s.len(),
        forall|j: int| 0 <= j < i ==> (#[trigger] s[j]).0 != peer,
    ensures
        ({
            let t = noted(s, peer, account, now);
            &&& s[i].0 == peer ==> {
                &&& t.len() == s.len()
                &&& t[i].0 == peer
                &&& t[i].1.account == account
                &&& t[i].1.first_seen == s[i].1.first_seen
                &&& t[i].1.last_seen == now
                &&& t[i].1.is_active
                &&& t[i].1.multiaddr == s[i].1.multiaddr
                &&& forall|j: int| 0 <= j < s.len() && j != i ==> t[j] == #[trigger] s[j]
            }
            &&& s[i].0 != peer ==> t[i] == s[i]
        }),
{
    let is_it = is_of_peer(peer);
    if s[i].0 == peer {
        crate::search::first_index_is(s, is_it, i);
    } else {
        crate::search::first_index_is_first(s, is_it);
        if let Some(k) = place_of(s, peer) {
            assert(is_it(s[k]));
        }
    }
}

/// A peer that nobody knew comes last, as first seen now, with no address.
pub proof fn new_accounts_come_last(
    s: Seq<(Seq<char>, PeerRegistryEntry)>,
    peer: Seq<char>,
    account: [u8; 32],
    now: u64,
)
    requires
        forall|j: int| 0 <= j < s.len() ==> (#[trigger] s[j]).0 != peer,
    ensures
        ({
            let t = noted(s, peer, account, now);
            &&& t.len() == s.len() + 1
            &&& t.drop_last() == s
            &&& t.last().0 == peer
            &&& t.last().1.account == account
            &&& t.last().1.first_seen == now
            &&& t.last().1.last_seen == now
            &&& t.last().1.is_active
            &&& t.last().1.multiaddr is None
        }),
{
    let is_it = is_of_peer(peer);
    crate::search::first_index_is_first(s, is_it);
    if let Some(k) = place_of(s, peer) {
        assert(is_it(s[k]));
    }
    assert(noted(s, peer, account, now).drop_last() =~= s);
}

/// A batch of messages is noted one after the other, and those without an account not at all.
pub proof fn batches_are_noted_in_order(
    s: Seq<(Seq<char>, PeerRegistryEntry)>,
    batch: Seq<PeerInfoInput>,
    last: PeerInfoInput,
    now: u64,
)
    ensures
        noted_all(s, Seq::empty(), now) == s,
        last.account is None ==> noted_all(s, batch.push(last), now) == noted_all(s, batch, now),
        last.account matches Some(account) ==> noted_all(s, batch.push(last), now) == noted(
            noted_all(s, batch, now),
            last.peer_id@,
            account,
            now,
        ),
{
    assert(batch.push(last).drop_last() =~= batch);
}

/// The account of a batch is the last one that it tells.
pub proof fn the_last_account_counts(batch: Seq<PeerInfoInput>, i: int)
    requires
        0 <= i < batch.len(),
        forall|j: int| i < j < batch.len() ==> (#[trigger] batch[j]).account is None,
    ensures
        batch[i].account is Some ==> last_account(batch) == batch[i].account,
        i == 0 && batch[0].account is None ==> last_account(batch) is None,
    decreases batch.len(),
{
    let rest = batch.drop_last();
    if i < rest.len() {
        assert(batch[batch.len() - 1].account is None);
        assert forall|j: int| i < j < rest.len() implies (#[trigger] rest[j]).account is None by {
            assert(batch[j].account is None);
        }
        the_last_account_counts(rest, i);
    } else if i == 0 {
        assert(rest.len() == 0);
        assert(last_account(rest) is None);
    }
}

/// A masternode that is met is known by the address at which it was met, and by that alone; the
/// others stay known. A connection from a lightnode teaches nothing.
pub proof fn masternodes_are_known_where_they_were_met(
    s: Seq<BootstrapPeer>,
    t: Seq<BootstrapPeer>,
    peer: Seq<char>,
    address: Seq<char>,
    is_masternode: bool,
    e: BootstrapPeer,
)
    requires
        contact_step(s, t, Contact::Connected { peer, address, is_masternode }),
    ensures
        !is_masternode ==> t == s,
        is_masternode ==> {
            &&& t.len() > 0
            &&& t.last().peer_id@ == peer
            &&& t.last().addresses@.len() == 1
            &&& t.last().addresses@[0]@ == address
            &&& !t.last().is_light_node
            &&& e.peer_id@ != peer ==> (t.contains(e) <==> s.contains(e))
            &&& e.peer_id@ == peer && t.contains(e) ==> e == t.last()
        },
        is_masternode ==> contact_step(s, t, Contact::Dialed { peer, address }),
{
    if is_masternode {
        keyed::without_key_keeps_the_rest(s, peer);
        let rest = t.drop_last();
        if rest.contains(e) {
            let i = choose|i: int| 0 <= i < rest.len() && rest[i] == e;
            assert(t[i] == e);
        }
        if t.contains(e) {
            let i = choose|i: int| 0 <= i < t.len() && t[i] == e;
            if i < rest.len() {
                assert(rest[i] == e);
                assert(rest.contains(e));
            }
        }
    }
}

} // verus!
