//! The peers that a masternode is connected with, and the other masternodes that it knows.
use vstd::prelude::*;

use crate::addresses;
use crate::addresses::parse_address;
use crate::addresses::parse_peer_id;
use crate::keyed;
use crate::messages::PeerInfo;
use crate::search;
use crate::text;
use crate::text::same_text;
use crate::text::split_once;
use crate::text_set::TextSet;

verus! {

/// The fewest masternodes that a network is expected to have.
pub const MIN_EXPECTED_MASTERNODES: usize = 5;

/// The number of masternodes that is enough out of `expected`: four fifths, rounded down.
pub open spec fn enough_masternodes(expected: nat) -> nat {
    (expected * 4) / 5
}

/// The peer identifier that an entry of the form `peer@address` names.
pub open spec fn entry_peer(entry: Seq<char>) -> Option<Seq<char>> {
    match text::split_at_first(entry, '@') {
        Some((peer, _)) => addresses::peer_id_of(peer),
        None => None,
    }
}

/// The peer and the address that an entry names, where both can be read.
pub open spec fn entry_target(entry: Seq<char>) -> Option<(Seq<char>, Seq<char>)> {
    match text::split_at_first(entry, '@') {
        Some((peer, address)) => if addresses::peer_id_of(peer) is Some
            && addresses::address_parts_of(address) is Some {
            Some((addresses::peer_id_of(peer)->0, address))
        } else {
            None
        },
        None => None,
    }
}

/// The peers that entries name.
pub open spec fn entry_peers(entries: Seq<String>) -> Set<Seq<char>> {
    Set::new(
        |id: Seq<char>|
            exists|i: int|
                0 <= i < entries.len() && entry_peer((#[trigger] entries[i])@) == Some(id),
    )
}

/// The targets that entries name, without those that are to be skipped.
pub open spec fn entry_targets(entries: Seq<String>, skipped: Set<Seq<char>>) -> Seq<
    (Seq<char>, Seq<char>),
>
    decreases entries.len(),
{
    if entries.len() == 0 {
        Seq::empty()
    } else {
        let front = entry_targets(entries.drop_last(), skipped);
        match entry_target(entries.last()@) {
            Some(t) => if skipped.contains(t.0) {
                front
            } else {
                front.push(t)
            },
            None => front,
        }
    }
}

/// A peer to be dialed, and where.
#[derive(Debug, Clone)]
pub struct DialTarget {
    pub peer_id: String,
    pub address: String,
}

/// The peers and addresses of a list of targets.
pub open spec fn targets(list: Seq<DialTarget>) -> Seq<(Seq<char>, Seq<char>)> {
    Seq::new(list.len(), |i: int| (list[i].peer_id@, list[i].address@))
}

/// Whether a connected peer is a masternode.
pub open spec fn is_full_peer() -> spec_fn(PeerInfo) -> bool {
    |p: PeerInfo| !p.is_light_node
}

fn read_entry(entry: &str) -> (r: Option<DialTarget>)
    ensures
        match entry_target(entry@) {
            Some((peer, address)) => r matches Some(t) && t.peer_id@ == peer && t.address@
                == address,
            None => r is None,
        },
{
    match split_once(entry, '@') {
        Some((peer, address)) => match parse_peer_id(peer) {
            Some(peer_id) => {
                if parse_address(address).is_some() {
                    Some(DialTarget { peer_id, address: address.to_owned() })
                } else {
                    None
                }
            },
            None => None,
        },
        None => None,
    }
}

/// The connections of a masternode.
pub struct PeerDirectory {
    known_masternodes: TextSet,
    connected: TextSet,
    peers: Vec<PeerInfo>,
    bootstrap_phase: bool,
    expected_masternodes: usize,
}

impl PeerDirectory {
    /// The masternodes that are known.
    pub closed spec fn known(&self) -> Set<Seq<char>> {
        self.known_masternodes@
    }

    /// The masternodes that are known, in the order in which they became so.
    pub closed spec fn known_list(&self) -> Seq<Seq<char>> {
        self.known_masternodes.list()
    }

    /// The peers that are connected.
    pub closed spec fn connected(&self) -> Set<Seq<char>> {
        self.connected@
    }

    /// What is kept of the connected peers.
    pub closed spec fn peers(&self) -> Seq<PeerInfo> {
        self.peers@
    }

    /// Whether the network is still being formed.
    pub closed spec fn bootstrapping(&self) -> bool {
        self.bootstrap_phase
    }

    /// How many masternodes are expected.
    pub closed spec fn expected(&self) -> usize {
        self.expected_masternodes
    }

    /// No peer is listed twice.
    pub closed spec fn wf(&self) -> bool {
        &&& self.known_masternodes.wf()
        &&& self.connected.wf()
        &&& keyed::unique_keys(self.peers@)
    }

    /// The list of the known masternodes holds each of them once.
    pub proof fn list_is_known(&self)
        requires
            self.wf(),
        ensures
            self.known_list().no_duplicates(),
            self.known_list().to_set() == self.known(),
    {
        self.known_masternodes.list_is_set();
    }

    /// How many of the connected peers are known masternodes.
    pub open spec fn connected_masternodes(&self) -> nat {
        self.connected().intersect(self.known()).len()
    }

    /// Before any connection: the masternodes of the configured entries are known, and as many
    /// are expected as there are entries, but at least a handful.
    pub fn new(entries: &[String]) -> (r: Self)
        ensures
            r.wf(),
            r.known() == entry_peers(entries@),
            r.known_list().to_set() == r.known(),
            r.known_list().no_duplicates(),
            r.connected() == Set::<Seq<char>>::empty(),
            r.peers().len() == 0,
            r.bootstrapping(),
            r.expected() == if entries@.len() >= MIN_EXPECTED_MASTERNODES {
                entries@.len()
            } else {
                MIN_EXPECTED_MASTERNODES as nat
            },
            r.expected() >= 5 && r.expected() >= entries@.len(),
            r.expected() == 5 || r.expected() == entries@.len(),
    {
        let mut known_masternodes = TextSet::new();
        let mut i: usize = 0;
        assert(known_masternodes@ =~= entry_peers(entries@.take(0)));
        while i < entries.len()
            invariant
                i <= entries@.len(),
                known_masternodes.wf(),
                known_masternodes@ == entry_peers(entries@.take(i as int)),
            decreases entries@.len() - i,
        {
            let ghost before = entries@.take(i as int);
            let ghost after = entries@.take(i + 1);
            let ghost named = entry_peer(entries@[i as int]@);
            proof {
                assert forall|id: Seq<char>| entry_peers(after).contains(id) == (entry_peers(
                    before,
                ).contains(id) || named == Some(id)) by {
                    if entry_peers(before).contains(id) {
                        let k = choose|k: int|
                            0 <= k < before.len() && entry_peer((#[trigger] before[k])@) == Some(
                                id,
                            );
                        assert(entry_peer(after[k]@) == Some(id));
                    }
                    if named == Some(id) {
                        assert(entry_peer(after[i as int]@) == Some(id));
                    }
                    if entry_peers(after).contains(id) {
                        let k = choose|k: int|
                            0 <= k < after.len() && entry_peer((#[trigger] after[k])@) == Some(id);
                        if k < i {
                            assert(entry_peer(before[k]@) == Some(id));
                        }
                    }
                }
            }
            if let Some((peer, _)) = split_once(entries[i].as_str(), '@') {
                if let Some(id) = parse_peer_id(peer) {
                    let _ = known_masternodes.insert(id);
                }
            }
            assert(known_masternodes@ =~= entry_peers(after));
            i += 1;
        }
        assert(entries@.take(i as int) =~= entries@);
        proof {
            known_masternodes.list_is_set();
        }
        let expected_masternodes: usize = if entries.len() >= MIN_EXPECTED_MASTERNODES {
            entries.len()
        } else {
            MIN_EXPECTED_MASTERNODES
        };
        PeerDirectory {
            known_masternodes,
            connected: TextSet::new(),
            peers: Vec::new(),
            bootstrap_phase: true,
            expected_masternodes,
        }
    }

    /// The peers to dial at the start: all that the entries name.
    pub fn bootstrap_targets(entries: &[String]) -> (r: Vec<DialTarget>)
        ensures
            targets(r@) == entry_targets(entries@, Set::empty()),
    {
        let nobody = TextSet::new();
        assert(nobody@ =~= Set::<Seq<char>>::empty());
        read_entries(entries, &nobody, None)
    }

    /// How many of the connected peers are known masternodes.
    pub fn count_connected_masternodes(&self) -> (r: usize)
        requires
            self.wf(),
        ensures
            r == self.connected_masternodes(),
    {
        self.connected.count_common(&self.known_masternodes)
    }

    /// How many peers are connected.
    pub fn connected_peer_count(&self) -> (r: usize)
        requires
            self.wf(),
        ensures
            r == self.connected().len(),
    {
        self.connected.len()
    }

    /// Whether a peer is connected.
    pub fn is_likely_masternode(&self, peer_id: &str) -> (r: bool)
        ensures
            r == self.connected().contains(peer_id@),
    {
        self.connected.contains(peer_id)
    }

    /// Whether a peer is a known masternode.
    pub fn is_known_masternode(&self, peer_id: &str) -> (r: bool)
        ensures
            r == self.known().contains(peer_id@),
    {
        self.known_masternodes.contains(peer_id)
    }

    fn threshold(&self) -> (r: usize)
        ensures
            r == enough_masternodes(self.expected() as nat),
    {
        let e: u128 = self.expected_masternodes as u128;
        ((e * 4) / 5) as usize
    }

    /// Takes note of a new connection, and says whether it is with a known masternode. The
    /// network counts as formed once enough masternodes are connected.
    pub fn connection_established(&mut self, peer_id: &str, multiaddr: String, now: u64) -> (r: bool)
        requires
            old(self).wf(),
        ensures
            final(self).wf(),
            r == old(self).known().contains(peer_id@),
            final(self).known() == old(self).known(),
            final(self).known_list() == old(self).known_list(),
            final(self).expected() == old(self).expected(),
            final(self).connected() == old(self).connected().insert(peer_id@),
            final(self).peers().len() > 0,
            final(self).peers().drop_last() == keyed::without_key(old(self).peers(), peer_id@),
            final(self).peers().last().peer_id@ == peer_id@,
            final(self).peers().last().multiaddr@ == multiaddr@,
            final(self).peers().last().is_light_node == !r,
            final(self).peers().last().last_seen == now,
            final(self).bootstrapping() == (old(self).bootstrapping() && search::count_where(
                final(self).peers(),
                is_full_peer(),
            ) < enough_masternodes(old(self).expected() as nat)),
    {
        let is_masternode = self.known_masternodes.contains(peer_id);
        let _ = self.connected.insert(peer_id.to_owned());
        let info = PeerInfo {
            peer_id: peer_id.to_owned(),
            multiaddr,
            is_light_node: !is_masternode,
            last_seen: now,
        };
        keyed::replace(&mut self.peers, peer_id, info);
        assert(self.peers@.drop_last() =~= keyed::without_key(old(self).peers(), peer_id@));
        let f = |p: &PeerInfo| -> (b: bool)
            ensures
                b == is_full_peer()(*p),
            { !p.is_light_node };
        let masternodes: usize = search::count(self.peers.as_slice(), f, Ghost(is_full_peer()));
        if self.bootstrap_phase && masternodes >= self.threshold() {
            self.bootstrap_phase = false;
        }
        is_masternode
    }

    /// Takes note of the end of a connection, and says whether the lost masternodes must be
    /// dialed again at once.
    pub fn connection_closed(&mut self, peer_id: &str) -> (r: bool)
        requires
            old(self).wf(),
        ensures
            final(self).wf(),
            final(self).known() == old(self).known(),
            final(self).known_list() == old(self).known_list(),
            final(self).expected() == old(self).expected(),
            final(self).bootstrapping() == old(self).bootstrapping(),
            final(self).connected() == old(self).connected().remove(peer_id@),
            final(self).peers() == keyed::without_key(old(self).peers(), peer_id@),
            r == (old(self).known().contains(peer_id@) && final(self).connected_masternodes()
                < enough_masternodes(old(self).expected() as nat)),
    {
        let was_masternode = self.known_masternodes.contains(peer_id);
        let _ = self.connected.remove(peer_id);
        let _ = keyed::remove(&mut self.peers, peer_id);
        was_masternode && self.count_connected_masternodes() < self.threshold()
    }

    /// Takes note of a masternode that was found, and says whether it is new.
    pub fn learn_masternode(&mut self, peer_id: String) -> (r: bool)
        requires
            old(self).wf(),
        ensures
            final(self).wf(),
            final(self).known() == old(self).known().insert(peer_id@),
            final(self).known_list() == if r {
                old(self).known_list().push(peer_id@)
            } else {
                old(self).known_list()
            },
            final(self).connected() == old(self).connected(),
            final(self).peers() == old(self).peers(),
            final(self).bootstrapping() == old(self).bootstrapping(),
            final(self).expected() == old(self).expected(),
            r == !old(self).known().contains(peer_id@),
    {
        self.known_masternodes.insert(peer_id)
    }

    /// Whether messages that keep the connections alive are due: while the network is being
    /// formed, or while masternodes are missing.
    pub fn keepalive_due(&self) -> (r: bool)
        requires
            self.wf(),
        ensures
            r == (self.bootstrapping() || self.connected_masternodes() < self.expected()),
    {
        self.bootstrap_phase || self.count_connected_masternodes() < self.expected_masternodes
    }

    /// The peers to dial again: while masternodes are missing, those of the entries that are
    /// neither this node nor connected.
    pub fn reconnect_targets(&self, entries: &[String], local_peer: &str) -> (r: Vec<DialTarget>)
        requires
            self.wf(),
        ensures
            targets(r@) == if self.connected_masternodes() >= self.expected() {
                Seq::empty()
            } else {
                entry_targets(entries@, self.connected().insert(local_peer@))
            },
    {
        if self.count_connected_masternodes() >= self.expected_masternodes {
            let none: Vec<DialTarget> = Vec::new();
            assert(targets(none@) =~= Seq::<(Seq<char>, Seq<char>)>::empty());
            return none;
        }
        read_entries(entries, &self.connected, Some(local_peer))
    }

    /// The masternodes that votes and acceptance certificates are sent to: those that are known
    /// and connected, other than this node.
    pub fn consensus_recipients(&self, local_peer: &str) -> (r: Vec<String>)
        requires
            self.wf(),
        ensures
            crate::text_set::texts(r@) == self.known_list().filter(
                recipient(local_peer@, self.connected()),
            ),
    {
        let ghost l = self.known_list();
        let ghost p = recipient(local_peer@, self.connected());
        let mut out: Vec<String> = Vec::new();
        let n: usize = self.known_masternodes.len();
        let mut i: usize = 0;
        proof {
            self.known_masternodes.list_is_set();
            reveal(Seq::filter);
            assert(crate::text_set::texts(out@) =~= l.take(0).filter(p));
        }
        while i < n
            invariant
                self.wf(),
                n == l.len(),
                n == self.known_masternodes@.len(),
                l == self.known_masternodes.list(),
                p == recipient(local_peer@, self.connected()),
                i <= n,
                crate::text_set::texts(out@) == l.take(i as int).filter(p),
            decreases n - i,
        {
            proof {
                reveal(Seq::filter);
                assert(l.take(i + 1).drop_last() =~= l.take(i as int));
            }
            let ghost before = out@;
            let peer = self.known_masternodes.get(i);
            if !same_text(peer, local_peer) && self.connected.contains(peer) {
                out.push(peer.to_owned());
                assert(crate::text_set::texts(out@) =~= crate::text_set::texts(before).push(
                    peer@,
                ));
            }
            i += 1;
        }
        assert(l.take(i as int) =~= l);
        out
    }
}

/// Whether a peer is connected and not this node.
pub open spec fn recipient(local: Seq<char>, connected: Set<Seq<char>>) -> spec_fn(
    Seq<char>,
) -> bool {
    |peer: Seq<char>| peer != local && connected.contains(peer)
}

fn read_entries(entries: &[String], skipped: &TextSet, local_peer: Option<&str>) -> (r: Vec<
    DialTarget,
>)
    ensures
        targets(r@) == entry_targets(
            entries@,
            match local_peer {
                Some(local) => skipped@.insert(local@),
                None => skipped@,
            },
        ),
{
    let ghost skip = match local_peer {
        Some(local) => skipped@.insert(local@),
        None => skipped@,
    };
    let mut out: Vec<DialTarget> = Vec::new();
    let mut i: usize = 0;
    assert(targets(out@) =~= entry_targets(entries@.take(0), skip));
    while i < entries.len()
        invariant
            i <= entries@.len(),
            skip == match local_peer {
                Some(local) => skipped@.insert(local@),
                None => skipped@,
            },
            targets(out@) == entry_targets(entries@.take(i as int), skip),
        decreases entries@.len() - i,
    {
        assert(entries@.take(i + 1).drop_last() =~= entries@.take(i as int));
        let ghost before = out@;
        if let Some(t) = read_entry(entries[i].as_str()) {
            let is_local = match local_peer {
                Some(local) => same_text(t.peer_id.as_str(), local),
                None => false,
            };
            if !is_local && !skipped.contains(t.peer_id.as_str()) {
                let ghost pair = (t.peer_id@, t.address@);
                out.push(t);
                assert(targets(out@) =~= targets(before).push(pair));
            }
        }
        i += 1;
    }
    assert(entries@.take(i as int) =~= entries@);
    out
}

/// Enough masternodes are four fifths of those expected, rounded down.
pub proof fn four_fifths_are_enough(expected: nat)
    ensures
        5 * enough_masternodes(expected) <= 4 * expected < 5 * enough_masternodes(expected) + 5,
{
}

/// An entry names a peer and an address, with an `@` between them; both must be readable.
pub proof fn entries_name_peer_and_address(peer: Seq<char>, address: Seq<char>)
    requires
        forall|i: int| 0 <= i < peer.len() ==> #[trigger] peer[i] != '@',
    ensures
        ({
            let entry = peer.push('@') + address;
            let id = addresses::peer_id_of(peer);
            &&& entry_peer(entry) == id
            &&& entry_target(entry) is Some <==> id is Some && addresses::address_parts_of(
                address,
            ) is Some
            &&& entry_target(entry) matches Some(t) ==> id == Some(t.0) && t.1 == address
        }),
{
    text::parts_make_up_the_text(peer.push('@') + address, '@', peer, address);
}

/// An entry without an `@` names nobody.
pub proof fn entries_without_address_name_nobody(entry: Seq<char>)
    requires
        forall|i: int| 0 <= i < entry.len() ==> #[trigger] entry[i] != '@',
    ensures
        entry_peer(entry) is None,
        entry_target(entry) is None,
{
    text::parts_make_up_the_text(entry, '@', Seq::empty(), Seq::empty());
}

/// Those are dialed that an entry names and that are not skipped, and no others.
pub proof fn all_but_the_skipped_are_dialed(
    entries: Seq<String>,
    skipped: Set<Seq<char>>,
    t: (Seq<char>, Seq<char>),
)
    ensures
        entry_targets(entries, skipped).contains(t) <==> !skipped.contains(t.0) && exists|i: int|
            0 <= i < entries.len() && entry_target((#[trigger] entries[i])@) == Some(t),
    decreases entries.len(),
{
    if entries.len() > 0 {
        let rest = entries.drop_last();
        let n = rest.len() as int;
        all_but_the_skipped_are_dialed(rest, skipped, t);
        let f = entry_targets(rest, skipped);
        let g = entry_targets(entries, skipped);
        assert(entries[n] == entries.last());
        if g.contains(t) {
            let k = choose|k: int| 0 <= k < g.len() && g[k] == t;
            if k < f.len() {
                assert(f[k] == t);
                let i = choose|i: int|
                    0 <= i < rest.len() && entry_target((#[trigger] rest[i])@) == Some(t);
                assert(entry_target(entries[i]@) == Some(t));
            } else {
                assert(entry_target(entries[n]@) == Some(t));
            }
        }
        if !skipped.contains(t.0) && exists|i: int|
            0 <= i < entries.len() && entry_target((#[trigger] entries[i])@) == Some(t) {
            let i = choose|i: int|
                0 <= i < entries.len() && entry_target((#[trigger] entries[i])@) == Some(t);
            if i < n {
                assert(entry_target(rest[i]@) == Some(t));
                assert(f.contains(t));
                let k = choose|k: int| 0 <= k < f.len() && f[k] == t;
                assert(g[k] == t);
            } else {
                assert(g[f.len() as int] == t);
            }
        }
    }
}

/// Entries that come later are dialed later.
pub proof fn targets_come_in_order(
    entries: Seq<String>,
    more: Seq<String>,
    skipped: Set<Seq<char>>,
)
    ensures
        entry_targets(entries, skipped).is_prefix_of(entry_targets(entries + more, skipped)),
    decreases more.len(),
{
    if more.len() == 0 {
        assert(entries + more =~= entries);
    } else {
        targets_come_in_order(entries, more.drop_last(), skipped);
        assert((entries + more).drop_last() =~= entries + more.drop_last());
    }
}

/// A message goes to the connected ones of its addressees, but never to the sender itself.
pub proof fn nobody_writes_to_itself(
    list: Seq<Seq<char>>,
    local: Seq<char>,
    connected: Set<Seq<char>>,
    peer: Seq<char>,
)
    ensures
        list.filter(recipient(local, connected)).contains(peer) <==> list.contains(peer) && peer
            != local && connected.contains(peer),
{
    keyed::filter_keeps_the_wanted(list, recipient(local, connected), peer);
}

/// The peers that count for the end of the start are those that are no lightnodes.
pub proof fn lightnodes_do_not_end_the_start(peers: Seq<PeerInfo>)
    ensures
        search::count_where(peers, is_full_peer()) == peers.filter(
            |p: PeerInfo| !p.is_light_node,
        ).len(),
{
    search::all_of_a_kind_are_counted(peers, is_full_peer());
    assert(is_full_peer() =~= (|p: PeerInfo| !p.is_light_node));
}

} // verus!
