//! The registry of peers: who announced itself, where, and for how long.
use vstd::prelude::*;
use vstd::string::StringExecFns;

use crate::addresses;
use crate::addresses::address_text;
use crate::addresses::build_advertised_multiaddr;
use crate::addresses::is_routable_ip;
use crate::addresses::is_routable_multiaddr;
use crate::addresses::parse_address;
use crate::addresses::parse_peer_id;
use crate::addresses::Ip;
use crate::bytes;
use crate::bytes::comes_before;
use crate::keyed;
use crate::keyed::Keyed;
use crate::messages::PeerDiscoveryResponse;
use crate::messages::PeerRegistryAnnounce;
use crate::messages::PeerRegistryRecord;
use crate::text;
use crate::text::same_text;
use crate::text::text_contains;
use crate::text::trim_end;
use crate::text_set;

verus! {

/// How long an announcement holds where nothing else is configured, in seconds.
pub const DEFAULT_REGISTRY_TTL_SECS: u64 = 300;

/// How often a node announces itself, in seconds.
pub const REGISTRY_ANNOUNCE_INTERVAL_SECS: u64 = 10;

/// How often announcements that ran out are dropped, in seconds.
pub const REGISTRY_PRUNE_INTERVAL_SECS: u64 = 15;

impl Keyed for PeerRegistryRecord {
    type Query = str;

    open spec fn key(&self) -> Seq<char> {
        self.peer_id@
    }

    fn has_key(&self, query: &str) -> (r: bool) {
        same_text(self.peer_id.as_str(), query)
    }
}

/// Whether a record has not run out.
pub open spec fn is_live(now: u64) -> spec_fn(PeerRegistryRecord) -> bool {
    |e: PeerRegistryRecord| e.expires_at > now
}

/// Whether an announcement says anything.
pub open spec fn announces(a: PeerRegistryAnnounce) -> bool {
    a.ttl_secs != 0 && a.multiaddr@.len() > 0
}

/// The peer of an announcement, if it is another masternode.
pub open spec fn announced_masternode(a: PeerRegistryAnnounce, local: Seq<char>) -> Option<
    Seq<char>,
> {
    match addresses::peer_id_of(a.peer_id@) {
        Some(id) => if announces(a) && a.role@ == "masternode"@ && id != local {
            Some(id)
        } else {
            None
        },
        None => None,
    }
}

/// Whether an address is that of a masternode whose record has not run out.
pub open spec fn is_listed(records: Seq<PeerRegistryRecord>, now: u64, address: Seq<char>) -> bool {
    exists|i: int|
        0 <= i < records.len() && (#[trigger] records[i]).role@ == "masternode"@
            && records[i].expires_at > now && records[i].multiaddr@ == address
}

/// Whether texts stand in the strict dictionary order of their bytes.
pub open spec fn strictly_sorted(list: Seq<Seq<char>>) -> bool {
    forall|i: int, j: int|
        0 <= i < j < list.len() ==> bytes::lex_before(
            text::utf8(#[trigger] list[i]),
            text::utf8(#[trigger] list[j]),
        )
}

/// Who announced itself.
pub struct PeerRegistry {
    records: Vec<PeerRegistryRecord>,
}

impl PeerRegistry {
    /// The records, in the order in which they came.
    pub closed spec fn records(&self) -> Seq<PeerRegistryRecord> {
        self.records@
    }

    /// No peer has two records.
    pub open spec fn wf(&self) -> bool {
        keyed::unique_keys(self.records())
    }

    /// No records.
    pub fn new() -> (r: Self)
        ensures
            r.wf(),
            r.records().len() == 0,
    {
        PeerRegistry { records: Vec::new() }
    }

    /// Takes an announcement at the time `now`, and gives the peer if it is another masternode.
    pub fn handle_peer_registry_message(
        &mut self,
        announce: &PeerRegistryAnnounce,
        local_peer: &str,
        now: u64,
    ) -> (r: Option<String>)
        requires
            old(self).wf(),
        ensures
            final(self).wf(),
            !announces(*announce) ==> final(self).records() == old(self).records(),
            announces(*announce) ==> {
                let e = final(self).records().last();
                &&& final(self).records().len() > 0
                &&& final(self).records().drop_last() == keyed::without_key(
                    old(self).records(),
                    announce.peer_id@,
                )
                &&& e.peer_id@ == announce.peer_id@
                &&& e.multiaddr@ == announce.multiaddr@
                &&& e.role@ == announce.role@
                &&& e.last_seen == now
                &&& e.expires_at == if now + announce.ttl_secs <= u64::MAX {
                    now + announce.ttl_secs
                } else {
                    u64::MAX as int
                }
            },
            match announced_masternode(*announce, local_peer@) {
                Some(id) => r matches Some(peer) && peer@ == id,
                None => r is None,
            },
    {
        if announce.ttl_secs == 0 || announce.multiaddr.as_str().is_empty() {
            return None;
        }
        let entry = PeerRegistryRecord {
            peer_id: announce.peer_id.clone(),
            multiaddr: announce.multiaddr.clone(),
            role: announce.role.clone(),
            last_seen: now,
            expires_at: now.saturating_add(announce.ttl_secs),
        };
        keyed::replace(&mut self.records, announce.peer_id.as_str(), entry);
        assert(self.records@.drop_last() =~= keyed::without_key(
            old(self).records(),
            announce.peer_id@,
        ));
        if !same_text(announce.role.as_str(), "masternode") {
            return None;
        }
        match parse_peer_id(announce.peer_id.as_str()) {
            Some(id) => {
                if same_text(id.as_str(), local_peer) {
                    None
                } else {
                    Some(id)
                }
            },
            None => None,
        }
    }

    /// Drops the records that ran out.
    pub fn prune_registry(&mut self, now: u64)
        requires
            old(self).wf(),
        ensures
            final(self).wf(),
            final(self).records() == old(self).records().filter(is_live(now)),
    {
        let keep = |e: &PeerRegistryRecord| -> (r: bool)
            ensures
                r == is_live(now)(*e),
            { e.expires_at > now };
        proof {
            keyed::filter_keeps_unique(self.records(), is_live(now));
        }
        keyed::retain(&mut self.records, keep, Ghost(is_live(now)));
    }

    /// The addresses of the masternodes whose records have not run out, each once, in the
    /// dictionary order of their bytes.
    pub fn discover_masternodes(&self, now: u64) -> (r: Vec<String>)
        ensures
            strictly_sorted(text_set::texts(r@)),
            forall|address: Seq<char>|
                text_set::texts(r@).contains(address) == is_listed(
                    self.records(),
                    now,
                    address,
                ),
    {
        let mut out: Vec<String> = Vec::new();
        let mut i: usize = 0;
        while i < self.records.len()
            invariant
                i <= self.records@.len(),
                strictly_sorted(text_set::texts(out@)),
                forall|a: Seq<char>|
                    text_set::texts(out@).contains(a) == is_listed(
                        self.records@.take(i as int),
                        now,
                        a,
                    ),
            decreases self.records@.len() - i,
        {
            let ghost before = self.records@.take(i as int);
            let ghost after = self.records@.take(i + 1);
            let ghost e = self.records@[i as int];
            let ghost listed = e.role@ == "masternode"@ && e.expires_at > now;
            assert forall|a: Seq<char>| is_listed(after, now, a) == (is_listed(before, now, a) || (
            listed && e.multiaddr@ == a)) by {
                if is_listed(before, now, a) {
                    let k = choose|k: int|
                        0 <= k < before.len() && (#[trigger] before[k]).role@ == "masternode"@
                            && before[k].expires_at > now && before[k].multiaddr@ == a;
                    assert(after[k] == before[k]);
                }
                if listed && e.multiaddr@ == a {
                    assert(after[i as int] == e);
                }
                if is_listed(after, now, a) {
                    let k = choose|k: int|
                        0 <= k < after.len() && (#[trigger] after[k]).role@ == "masternode"@
                            && after[k].expires_at > now && after[k].multiaddr@ == a;
                    if k < i {
                        assert(before[k] == after[k]);
                    }
                }
            }
            if same_text(self.records[i].role.as_str(), "masternode")
                && self.records[i].expires_at > now {
                let ghost old_out = out@;
                insert_sorted(&mut out, self.records[i].multiaddr.as_str());
                assert forall|a: Seq<char>| text_set::texts(out@).contains(a) == is_listed(
                    after,
                    now,
                    a,
                ) by {
                    assert(text_set::texts(old_out).contains(a) == is_listed(before, now, a));
                }
            }
            i += 1;
        }
        assert(self.records@.take(i as int) =~= self.records@);
        out
    }

    /// The answer to a peer that asks for masternodes.
    pub fn answer_discovery(&self, requesting_peer: String, now: u64) -> (r: PeerDiscoveryResponse)
        ensures
            r.requesting_peer@ == requesting_peer@,
            strictly_sorted(text_set::texts(r.masternode_peers@)),
            forall|address: Seq<char>|
                text_set::texts(r.masternode_peers@).contains(address) == is_listed(
                    self.records(),
                    now,
                    address,
                ),
    {
        PeerDiscoveryResponse {
            requesting_peer,
            masternode_peers: self.discover_masternodes(now),
        }
    }
}

/// Puts a text at its place in a sorted list, unless it is there.
fn insert_sorted(list: &mut Vec<String>, t: &str)
    requires
        strictly_sorted(text_set::texts(old(list)@)),
    ensures
        strictly_sorted(text_set::texts(final(list)@)),
        forall|a: Seq<char>|
            text_set::texts(final(list)@).contains(a) == (text_set::texts(old(list)@).contains(a)
                || a == t@),
{
    let ghost l = text_set::texts(list@);
    let mut i: usize = 0;
    while i < list.len() && comes_before(list[i].as_str().as_bytes(), t.as_bytes())
        invariant
            *list == *old(list),
            l == text_set::texts(list@),
            i <= list.len(),
            forall|j: int|
                0 <= j < i ==> bytes::lex_before(text::utf8(#[trigger] l[j]), text::utf8(t@)),
        decreases list.len() - i,
    {
        assert(l[i as int] == list@[i as int]@);
        i += 1;
    }
    if i < list.len() {
        assert(l[i as int] == list@[i as int]@);
        if same_text(list[i].as_str(), t) {
            assert(l.contains(t@));
            return;
        }
        proof {
            bytes::lex_total(text::utf8(l[i as int]), text::utf8(t@));
            if text::utf8(l[i as int]) == text::utf8(t@) {
                text::utf8_injective(l[i as int], t@);
            }
        }
    }
    list.insert(i, t.to_owned());
    proof {
        let m = text_set::texts(list@);
        assert(m =~= l.insert(i as int, t@));
        assert forall|j: int| i <= j < l.len() implies bytes::lex_before(
            text::utf8(t@),
            text::utf8(#[trigger] l[j]),
        ) by {
            if i < j {
                assert(bytes::lex_before(text::utf8(l[i as int]), text::utf8(l[j])));
                bytes::lex_transitive(text::utf8(t@), text::utf8(l[i as int]), text::utf8(l[j]));
            }
        }
        assert forall|a: int, b: int| 0 <= a < b < m.len() implies bytes::lex_before(
            text::utf8(#[trigger] m[a]),
            text::utf8(#[trigger] m[b]),
        ) by {
            let a2 = if a < i { a } else { a - 1 };
            let b2 = if b < i { b } else { b - 1 };
            if a != i {
                assert(m[a] == l[a2]);
            }
            if b != i {
                assert(m[b] == l[b2]);
            }
        }
        assert forall|a: Seq<char>| m.contains(a) == (l.contains(a) || a == t@) by {
            if l.contains(a) {
                let k = choose|k: int| 0 <= k < l.len() && l[k] == a;
                assert(m[if k < i { k } else { k + 1 }] == a);
            }
            if a == t@ {
                assert(m[i as int] == a);
            }
            if m.contains(a) {
                let k = choose|k: int| 0 <= k < m.len() && m[k] == a;
                if k != i {
                    assert(l[if k < i { k } else { k - 1 }] == a);
                }
            }
        }
    }
}

/// The announced form of an address: with the peer's identifier at its end.
pub open spec fn with_peer(address: Seq<char>, peer: Seq<char>) -> Seq<char> {
    if text::contains_word(address, "/p2p/"@) {
        address
    } else {
        address + "/p2p/"@ + peer
    }
}

/// Puts the peer's identifier at the end of an address, unless it has one.
pub fn append_peer(address: &str, peer: &str) -> (r: String)
    ensures
        r@ == with_peer(address@, peer@),
{
    let mut out = address.to_owned();
    if !text_contains(address, "/p2p/") {
        out.append("/p2p/");
        out.append(peer);
    }
    out
}

/// The announced form of the address of a listener, without a slash at its end.
pub fn listener_announcement(listener: &str, peer: &str) -> (r: String)
    ensures
        r@ == with_peer(text::trimmed_end(listener@, '/'), peer@),
{
    append_peer(trim_end(listener, '/'), peer)
}

/// The address that the settings say others reach this node under.
#[derive(Debug, Clone, Copy)]
pub enum ExternalIp {
    NotSet,
    /// What is set is not an IP address.
    Invalid,
    Address(Ip),
}

/// The address that this node announces, from the address it listens on: with the IP address in
/// the settings, which must be reachable from anywhere, or else as it is, if that is reachable.
pub open spec fn local_address(
    listener: Seq<char>,
    external_ip: ExternalIp,
    peer: Seq<char>,
) -> Option<Seq<char>> {
    match addresses::address_parts_of(listener) {
        None => None,
        Some(parts) => match external_ip {
            ExternalIp::Invalid => None,
            ExternalIp::Address(ip) => if !addresses::routable(ip) {
                None
            } else {
                match addresses::advertised(parts, ip) {
                    Some(reached) => Some(with_peer(addresses::address_text_of(reached), peer)),
                    None => None,
                }
            },
            ExternalIp::NotSet => if exists|i: int|
                0 <= i < parts.len() && addresses::routable_part(#[trigger] parts[i]) {
                Some(with_peer(text::trimmed_end(listener, '/'), peer))
            } else {
                None
            },
        },
    }
}

/// Works out the address that this node announces. There is none where it does not listen.
pub fn build_local_multiaddr(
    listener: Option<&str>,
    external_ip: ExternalIp,
    local_peer_id: &str,
) -> (r: Option<String>)
    ensures
        listener is None ==> r is None,
        listener matches Some(l) ==> match local_address(l@, external_ip, local_peer_id@) {
            Some(address) => r is Some && r->0@ == address,
            None => r is None,
        },
{
    let l = match listener {
        Some(l) => l,
        None => {
            return None;
        },
    };
    let parts = match parse_address(l) {
        Some(parts) => parts,
        None => {
            return None;
        },
    };
    match external_ip {
        ExternalIp::Invalid => None,
        ExternalIp::Address(ip) => {
            if !is_routable_ip(&ip) {
                return None;
            }
            match build_advertised_multiaddr(parts.as_slice(), ip) {
                Some(reached) => {
                    let t = address_text(reached.as_slice());
                    Some(append_peer(t.as_str(), local_peer_id))
                },
                None => None,
            }
        },
        ExternalIp::NotSet => {
            if is_routable_multiaddr(parts.as_slice()) {
                Some(listener_announcement(l, local_peer_id))
            } else {
                None
            }
        },
    }
}

/// Whether any component is an address that can be reached from anywhere.
pub open spec fn reachable(parts: Seq<addresses::AddrPart>) -> bool {
    exists|i: int| 0 <= i < parts.len() && addresses::routable_part(#[trigger] parts[i])
}

/// Whether an address that a peer says it listens on is worth keeping: it can be reached from
/// anywhere, and no port in it is left open.
pub open spec fn worth_keeping(address: Seq<char>) -> bool {
    match addresses::address_parts_of(address) {
        Some(parts) => reachable(parts) && !text::contains_word(address, "tcp/0"@)
            && !text::contains_word(address, "udp/0"@),
        None => false,
    }
}

/// Decides whether an address that a peer says it listens on is worth keeping.
pub fn is_worth_keeping(address: &str) -> (r: bool)
    ensures
        r == worth_keeping(address@),
{
    let parts = match parse_address(address) {
        Some(parts) => parts,
        None => {
            return false;
        },
    };
    let routable = is_routable_multiaddr(parts.as_slice());
    assert(routable == reachable(parts@));
    routable && !text_contains(address, "tcp/0") && !text_contains(address, "udp/0")
}

/// A masternode's announcement of itself.
pub fn build_registry_announce(peer_id: String, multiaddr: String, timestamp: u64, ttl_secs: u64) -> (r:
    PeerRegistryAnnounce)
    ensures
        r.peer_id@ == peer_id@,
        r.multiaddr@ == multiaddr@,
        r.role@ == "masternode"@,
        r.timestamp == timestamp,
        r.ttl_secs == ttl_secs,
{
    PeerRegistryAnnounce { peer_id, multiaddr, role: "masternode".to_owned(), timestamp, ttl_secs }
}

/// Whether announcements also go out by gossip: only once enough lightnodes are registered, or
/// where no groups are formed.
pub fn gossip_announcements(registered: Option<(usize, usize)>) -> (r: bool)
    ensures
        r == match registered {
            Some((count, required)) => count >= required,
            None => true,
        },
{
    match registered {
        Some((count, required)) => count >= required,
        None => true,
    }
}

/// A record is kept as long as its time is not over.
pub proof fn records_stay_for_their_time(
    records: Seq<PeerRegistryRecord>,
    now: u64,
    e: PeerRegistryRecord,
)
    ensures
        records.filter(is_live(now)).contains(e) <==> records.contains(e) && now < e.expires_at,
{
    keyed::filter_keeps_the_wanted(records, is_live(now), e);
}

/// An announcement counts if it has a time to live and an address; it is of another masternode if
/// it says so, its peer can be read, and the peer is not this one.
pub proof fn announcements_of_other_masternodes(a: PeerRegistryAnnounce, local: Seq<char>)
    ensures
        announces(a) <==> a.ttl_secs >= 1 && a.multiaddr@.len() >= 1,
        announced_masternode(a, local) is Some <==> {
            &&& a.ttl_secs >= 1
            &&& a.multiaddr@.len() >= 1
            &&& a.role@ == "masternode"@
            &&& addresses::peer_id_of(a.peer_id@) is Some
            &&& addresses::peer_id_of(a.peer_id@) != Some(local)
        },
        announced_masternode(a, local) is Some ==> announced_masternode(a, local)
            == addresses::peer_id_of(a.peer_id@),
{
}

/// An address gets its peer once: it then has a part for it, and a second time nothing is added.
pub proof fn addresses_name_their_peer_once(
    address: Seq<char>,
    peer: Seq<char>,
    other: Seq<char>,
)
    ensures
        text::contains_word(with_peer(address, peer), "/p2p/"@),
        with_peer(with_peer(address, peer), other) == with_peer(address, peer),
        address.is_prefix_of(with_peer(address, peer)),
        !text::contains_word(address, "/p2p/"@) ==> with_peer(address, peer).len() == address.len()
            + 5 + peer.len() && with_peer(address, peer).skip(address.len() + 5int) == peer,
{
    reveal_strlit("/p2p/");
    assert("/p2p/"@.len() == 5);
    if !text::contains_word(address, "/p2p/"@) {
        let r = address + "/p2p/"@ + peer;
        let n = address.len() as int;
        assert(r.subrange(n, n + 5) =~= "/p2p/"@);
        assert(text::word_at(r, "/p2p/"@, n));
        assert(r.skip(n + 5) =~= peer);
    }
}

/// The address of a node is known only if its listener can be read. Where an address is set for
/// it, that one must be readable and routable; where none is set, a part of the listener must be.
/// What is known names the peer.
pub proof fn nodes_tell_only_routable_addresses(
    listener: Seq<char>,
    external_ip: ExternalIp,
    peer: Seq<char>,
)
    ensures
        addresses::address_parts_of(listener) is None ==> local_address(
            listener,
            external_ip,
            peer,
        ) is None,
        external_ip is Invalid ==> local_address(listener, external_ip, peer) is None,
        external_ip matches ExternalIp::Address(ip) ==> !addresses::routable(ip) ==> local_address(
            listener,
            external_ip,
            peer,
        ) is None,
        external_ip is NotSet ==> (local_address(listener, external_ip, peer) is Some <==> (
        addresses::address_parts_of(listener) matches Some(parts) && exists|i: int|
            0 <= i < parts.len() && addresses::routable_part(#[trigger] parts[i]))),
        local_address(listener, external_ip, peer) matches Some(a) ==> text::contains_word(
            a,
            "/p2p/"@,
        ),
{
    if let Some(parts) = addresses::address_parts_of(listener) {
        addresses_name_their_peer_once(text::trimmed_end(listener, '/'), peer, peer);
        if let ExternalIp::Address(ip) = external_ip {
            if let Some(reached) = addresses::advertised(parts, ip) {
                addresses_name_their_peer_once(addresses::address_text_of(reached), peer, peer);
            }
        }
    }
}

/// An address is worth keeping if it can be read, a part of it is routable, and it has no port
/// zero.
pub proof fn addresses_worth_keeping(address: Seq<char>)
    ensures
        worth_keeping(address) <==> {
            &&& addresses::address_parts_of(address) matches Some(parts) && exists|i: int|
                0 <= i < parts.len() && addresses::routable_part(#[trigger] parts[i])
            &&& !text::contains_word(address, "tcp/0"@)
            &&& !text::contains_word(address, "udp/0"@)
        },
{
}

/// Those addresses are listed that a masternode announced and whose time is not over.
pub proof fn live_masternodes_are_listed(
    records: Seq<PeerRegistryRecord>,
    now: u64,
    address: Seq<char>,
)
    ensures
        is_listed(records, now, address) <==> records.filter(is_live(now)).filter(
            |e: PeerRegistryRecord| e.role@ == "masternode"@ && e.multiaddr@ == address,
        ).len() > 0,
{
    let live = records.filter(is_live(now));
    let wanted = |e: PeerRegistryRecord| e.role@ == "masternode"@ && e.multiaddr@ == address;
    let found = live.filter(wanted);
    if is_listed(records, now, address) {
        let i = choose|i: int|
            0 <= i < records.len() && (#[trigger] records[i]).role@ == "masternode"@
                && records[i].expires_at > now && records[i].multiaddr@ == address;
        keyed::filter_keeps_the_wanted(records, is_live(now), records[i]);
        keyed::filter_keeps_the_wanted(live, wanted, records[i]);
        assert(found.contains(records[i]));
    }
    if found.len() > 0 {
        let e = found[0];
        assert(found.contains(e));
        keyed::filter_keeps_the_wanted(live, wanted, e);
        keyed::filter_keeps_the_wanted(records, is_live(now), e);
        let i = choose|i: int| 0 <= i < records.len() && records[i] == e;
        assert(records[i].role@ == "masternode"@);
    }
}

} // verus!
