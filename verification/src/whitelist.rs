//! The proposers that are let in after their election.
use vstd::prelude::*;

use crate::addresses;
use crate::addresses::parse_peer_id;
use crate::keyed;
use crate::keyed::Keyed;
use crate::messages::ProposerElectionCertMessage;
use crate::messages::ProposerWhitelistAck;
use crate::messages::ProposerWhitelistEntry;
use crate::proposals;
use crate::proposals::find_group;
use crate::proposals::names_peer;
use crate::proposals::GroupView;
use crate::proposal_validator;
use crate::proposal_validator::count_attesting;
use crate::search;
use crate::text::same_text;

verus! {

/// How long a proposer is let in, in seconds.
pub const WHITELIST_TIMEOUT_SECS: u64 = 86400;

impl Keyed for ProposerWhitelistEntry {
    type Query = str;

    open spec fn key(&self) -> Seq<char> {
        self.peer_id@
    }

    fn has_key(&self, query: &str) -> (r: bool) {
        same_text(self.peer_id.as_str(), query)
    }
}

/// Whether a group has the identifier, or the number if there is one.
pub open spec fn is_group_or_index(id: Seq<char>, index: Option<u64>) -> spec_fn(
    GroupView,
) -> bool {
    |g: GroupView| g.group_id@ == id || (index is Some && g.index == index)
}

/// The members of the first group that the identifier or the number names; none where there is
/// no such group.
pub open spec fn members_of(groups: Seq<GroupView>, id: Seq<char>, index: Option<u64>) -> Seq<
    String,
> {
    match search::first_index(groups, is_group_or_index(id, index)) {
        Some(i) => groups[i].members@,
        None => Seq::empty(),
    }
}

/// Whether enough peers attest to the election: two thirds of the members that the group is known
/// to have, each counted once. Of a group that is not known no member is asked for: groups are
/// formed anew while certificates are on their way, and what the elected proposer then proposes is
/// checked with a certificate of its own.
pub open spec fn enough_attest(
    cert: ProposerElectionCertMessage,
    groups: Seq<GroupView>,
    index: Option<u64>,
) -> bool {
    let members = members_of(groups, cert.group_id@, index);
    3 * proposal_validator::attesting_members(cert.attestations@, members) >= 2 * members.len()
}

/// Whether an election certificate is this masternode's to answer: it leads the group, or the
/// group is not known here.
pub open spec fn mine_to_answer(
    groups: Seq<GroupView>,
    id: Seq<char>,
    index: Option<u64>,
    local: Seq<char>,
) -> bool {
    match proposals::matching_group(groups, id, index) {
        Some(i) => proposals::is_peer(groups[i].group_leader_masternode, local),
        None => true,
    }
}

/// Whether an election certificate lets its proposer in. The signatures of the attestations stay
/// unchecked here: they cover the height at which the tenure starts, which this message does not
/// carry. They are checked with each proposal, whose certificate carries it.
pub open spec fn lets_in(
    cert: ProposerElectionCertMessage,
    groups: Seq<GroupView>,
    index: Option<u64>,
    local: Seq<char>,
) -> bool {
    &&& mine_to_answer(groups, cert.group_id@, index, local)
    &&& enough_attest(cert, groups, index)
    &&& addresses::peer_id_of(cert.proposer_peer_id@) is Some
}

/// Whether an entry's time is over.
pub open spec fn is_expired(now: u64) -> spec_fn(ProposerWhitelistEntry) -> bool {
    |e: ProposerWhitelistEntry| now - e.added_at > e.timeout_secs
}

/// Whether an entry's time is not over.
pub open spec fn is_current(now: u64) -> spec_fn(ProposerWhitelistEntry) -> bool {
    |e: ProposerWhitelistEntry| now - e.added_at <= e.timeout_secs
}

/// Whether an entry is for a group and a round.
pub open spec fn is_for(group: Seq<char>, round: u64) -> spec_fn(ProposerWhitelistEntry) -> bool {
    |e: ProposerWhitelistEntry| e.group_id@ == group && e.round == round
}

/// The proposers that are let in.
pub struct ProposerWhitelist {
    entries: Vec<ProposerWhitelistEntry>,
}

impl ProposerWhitelist {
    /// The proposers, in the order in which they were let in.
    pub closed spec fn entries(&self) -> Seq<ProposerWhitelistEntry> {
        self.entries@
    }

    /// No proposer is let in twice.
    pub open spec fn wf(&self) -> bool {
        keyed::unique_keys(self.entries())
    }

    /// Nobody is let in.
    pub fn new() -> (r: Self)
        ensures
            r.wf(),
            r.entries().len() == 0,
    {
        ProposerWhitelist { entries: Vec::new() }
    }

    /// Whether a peer is let in.
    pub fn contains(&self, peer_id: &str) -> (r: bool)
        ensures
            r == keyed::contains_key(self.entries(), peer_id@),
    {
        keyed::find(&self.entries, peer_id).is_some()
    }

    /// Takes an election certificate, and gives the answer for the proposer if it is let in.
    /// `groups` are the groups known here, `group_index` the number of the certificate's group,
    /// `elapsed` the node's own time in seconds, and `timestamp` the time of day.
    pub fn handle_election_certificate(
        &mut self,
        cert: &ProposerElectionCertMessage,
        groups: &[GroupView],
        group_index: Option<u64>,
        local_peer: &str,
        elapsed: u64,
        timestamp: u64,
    ) -> (r: Option<ProposerWhitelistAck>)
        requires
            old(self).wf(),
        ensures
            final(self).wf(),
            r is Some <==> lets_in(*cert, groups@, group_index, local_peer@),
            r is None ==> final(self).entries() == old(self).entries(),
            r matches Some(ack) ==> {
                let peer = addresses::peer_id_of(cert.proposer_peer_id@)->0;
                &&& ack.target_proposer_peer_id@ == cert.proposer_peer_id@
                &&& ack.masternode_peer_id@ == local_peer@
                &&& ack.group_id@ == cert.group_id@
                &&& ack.round_id == cert.round_id
                &&& ack.timestamp == timestamp
                &&& ack.validity_secs == WHITELIST_TIMEOUT_SECS
                &&& final(self).entries().len() > 0
                &&& final(self).entries().drop_last() == keyed::without_key(
                    old(self).entries(),
                    peer,
                )
                &&& final(self).entries().last().peer_id@ == peer
                &&& final(self).entries().last().group_id@ == cert.group_id@
                &&& final(self).entries().last().round == cert.round_id
                &&& final(self).entries().last().proposer_pubkey == cert.proposer_pubkey
                &&& final(self).entries().last().added_at == elapsed
                &&& final(self).entries().last().timeout_secs == WHITELIST_TIMEOUT_SECS
            },
    {
        if let Some(i) = find_group(groups, cert.group_id.as_str(), group_index) {
            if !names_peer(&groups[i].group_leader_masternode, local_peer) {
                return None;
            }
        }
        if !has_enough(cert, groups, group_index) {
            return None;
        }
        let peer = match parse_peer_id(cert.proposer_peer_id.as_str()) {
            Some(id) => id,
            None => {
                return None;
            },
        };
        let ghost peer_text = peer@;
        proof {
            keyed::without_key_contains(self.entries(), peer_text, peer_text);
        }
        let _ = keyed::remove(&mut self.entries, peer.as_str());
        let ghost before = self.entries();
        self.entries.push(
            ProposerWhitelistEntry {
                peer_id: peer,
                group_id: cert.group_id.clone(),
                round: cert.round_id,
                proposer_pubkey: cert.proposer_pubkey,
                added_at: elapsed,
                timeout_secs: WHITELIST_TIMEOUT_SECS,
            },
        );
        proof {
            let after = self.entries();
            assert(after.drop_last() =~= before);
            assert forall|a: int, b: int| 0 <= a < b < after.len() implies (
            #[trigger] after[a]).key() != (#[trigger] after[b]).key() by {
                assert(after[a] == before[a]);
                if b < before.len() {
                    assert(after[b] == before[b]);
                } else {
                    assert(before[a].key() != peer_text);
                }
            }
        }
        Some(
            ProposerWhitelistAck {
                target_proposer_peer_id: cert.proposer_peer_id.clone(),
                masternode_peer_id: local_peer.to_owned(),
                group_id: cert.group_id.clone(),
                round_id: cert.round_id,
                timestamp,
                validity_secs: WHITELIST_TIMEOUT_SECS,
            },
        )
    }

    /// Removes the proposers whose time is over, and gives them back.
    pub fn cleanup_expired_whitelist(&mut self, elapsed: u64) -> (r: Vec<ProposerWhitelistEntry>)
        requires
            old(self).wf(),
        ensures
            final(self).wf(),
            final(self).entries() == old(self).entries().filter(is_current(elapsed)),
            r@ == old(self).entries().filter(is_expired(elapsed)),
    {
        let mut all: Vec<ProposerWhitelistEntry> = Vec::new();
        std::mem::swap(&mut self.entries, &mut all);
        let ghost s = all@;
        let mut expired: Vec<ProposerWhitelistEntry> = Vec::new();
        proof {
            reveal(Seq::filter);
            assert(s.take(0).filter(is_current(elapsed)) =~= self.entries@);
            assert(s.take(0).filter(is_expired(elapsed)) =~= expired@);
        }
        for e in it: all
            invariant
                it.seq() == s,
                self.entries@ == s.take(it.index() as int).filter(is_current(elapsed)),
                expired@ == s.take(it.index() as int).filter(is_expired(elapsed)),
        {
            proof {
                reveal(Seq::filter);
                let k = it.index() as int;
                assert(s.take(k + 1).drop_last() =~= s.take(k));
            }
            if elapsed.saturating_sub(e.added_at) > e.timeout_secs {
                expired.push(e);
            } else {
                self.entries.push(e);
            }
        }
        proof {
            assert(s.take(s.len() as int) =~= s);
            keyed::filter_keeps_unique(s, is_current(elapsed));
        }
        expired
    }

    /// Removes the first proposer that was let in for a group and a round, once its block has
    /// been accepted, and gives it back.
    pub fn remove_accepted(&mut self, group_id: &str, round_id: u64) -> (r: Option<
        ProposerWhitelistEntry,
    >)
        requires
            old(self).wf(),
        ensures
            final(self).wf(),
            match search::first_index(old(self).entries(), is_for(group_id@, round_id)) {
                Some(i) => {
                    &&& r == Some(old(self).entries()[i])
                    &&& final(self).entries() == old(self).entries().remove(i)
                },
                None => r is None && final(self).entries() == old(self).entries(),
            },
    {
        let f = |e: &ProposerWhitelistEntry| -> (b: bool)
            ensures
                b == is_for(group_id@, round_id)(*e),
            { same_text(e.group_id.as_str(), group_id) && e.round == round_id };
        match search::find_first(
            self.entries.as_slice(),
            f,
            Ghost(is_for(group_id@, round_id)),
        ) {
            Some(i) => {
                proof {
                    let s = self.entries();
                    keyed::filter_keeps_unique(
                        s,
                        |e: ProposerWhitelistEntry| e.key() != s[i as int].key(),
                    );
                    keyed::without_is_remove(s, i as int);
                }
                Some(self.entries.remove(i))
            },
            None => None,
        }
    }
}

fn has_enough(
    cert: &ProposerElectionCertMessage,
    groups: &[GroupView],
    index: Option<u64>,
) -> (r: bool)
    ensures
        r == enough_attest(*cert, groups@, index),
{
    let id: &str = cert.group_id.as_str();
    let f = |g: &GroupView| -> (b: bool)
        ensures
            b == is_group_or_index(id@, index)(*g),
        {
            same_text(g.group_id.as_str(), id) || match (g.index, index) {
                (Some(x), Some(y)) => x == y,
                _ => false,
            }
        };
    match search::find_first(groups, f, Ghost(is_group_or_index(id@, index))) {
        Some(i) => {
            let members: usize = groups[i].members.len();
            let attesting: usize = count_attesting(
                cert.attestations.as_slice(),
                groups[i].members.as_slice(),
            );
            attesting >= members - members / 3
        },
        None => true,
    }
}

/// A proposer that is let in has two thirds of the members behind it that its group is known to
/// have.
pub proof fn those_let_in_were_elected(
    cert: ProposerElectionCertMessage,
    groups: Seq<GroupView>,
    index: Option<u64>,
    local: Seq<char>,
)
    requires
        lets_in(cert, groups, index, local),
    ensures
        ({
            let members = members_of(groups, cert.group_id@, index);
            proposal_validator::attesting_members(cert.attestations@, members)
                >= proposal_validator::two_thirds(members.len())
        }),
{
}

/// A proposer is let in only by the masternode that leads its group, only if two thirds of the
/// group's members attest, each counted once, and only if its peer can be read. `led` is the
/// place of the group that the identifier names, or else the number; `listed` is the first that
/// either names.
pub proof fn only_the_elected_are_let_in(
    cert: ProposerElectionCertMessage,
    groups: Seq<GroupView>,
    index: Option<u64>,
    local: Seq<char>,
    led: int,
    listed: int,
)
    requires
        0 <= led < groups.len(),
        groups[led].group_id@ == cert.group_id@ && (forall|j: int|
            0 <= j < led ==> (#[trigger] groups[j]).group_id@ != cert.group_id@) || (index is Some
            && groups[led].index == index && (forall|j: int|
            0 <= j < groups.len() ==> (#[trigger] groups[j]).group_id@ != cert.group_id@) && (
        forall|j: int| 0 <= j < led ==> (#[trigger] groups[j]).index != index)),
        0 <= listed < groups.len(),
        groups[listed].group_id@ == cert.group_id@ || (index is Some && groups[listed].index
            == index),
        forall|j: int|
            0 <= j < listed ==> (#[trigger] groups[j]).group_id@ != cert.group_id@ && (index is None
                || groups[j].index != index),
    ensures
        lets_in(cert, groups, index, local) <==> {
            let members = groups[listed].members@;
            &&& groups[led].group_leader_masternode matches Some(l) && l@ == local
            &&& addresses::peer_id_of(cert.proposer_peer_id@) is Some
            &&& 3 * members.map_values(|m: String| m@).to_set().filter(
                |m: Seq<char>|
                    exists|j: int|
                        0 <= j < cert.attestations@.len() && (
                        #[trigger] cert.attestations@[j]).signer_peer_id@ == m,
            ).len() >= 2 * members.len()
        },
{
    proposals::roles_are_given_by_the_group(groups, cert.group_id@, index, local, led);
    search::first_index_is(groups, is_group_or_index(cert.group_id@, index), listed);
    proposal_validator::attesting_members_are_counted_once(
        cert.attestations@,
        groups[listed].members@,
    );
}

/// Where neither the identifier nor the number names a group, nobody else is there to answer, and
/// whoever can be read as a peer is let in.
pub proof fn groups_nobody_knows_are_let_in(
    cert: ProposerElectionCertMessage,
    groups: Seq<GroupView>,
    index: Option<u64>,
    local: Seq<char>,
)
    requires
        forall|j: int|
            0 <= j < groups.len() ==> (#[trigger] groups[j]).group_id@ != cert.group_id@ && (
            index is None || groups[j].index != index),
    ensures
        lets_in(cert, groups, index, local) <==> addresses::peer_id_of(
            cert.proposer_peer_id@,
        ) is Some,
{
    search::first_index_is_first(groups, is_group_or_index(cert.group_id@, index));
    search::first_index_is_first(groups, proposals::is_group(cert.group_id@));
    search::first_index_is_first(groups, proposals::has_index(index));
}

/// A proposer stays let in as long as no more time has passed than it was given, which is a day
/// for all that are let in here; then it is given back as expired.
pub proof fn proposers_stay_for_their_time(
    entries: Seq<ProposerWhitelistEntry>,
    now: u64,
    e: ProposerWhitelistEntry,
)
    ensures
        entries.filter(is_current(now)).contains(e) <==> entries.contains(e) && now <= e.added_at
            + e.timeout_secs,
        entries.filter(is_expired(now)).contains(e) <==> entries.contains(e) && now > e.added_at
            + e.timeout_secs,
        WHITELIST_TIMEOUT_SECS == 24 * 60 * 60,
{
    keyed::filter_keeps_the_wanted(entries, is_current(now), e);
    keyed::filter_keeps_the_wanted(entries, is_expired(now), e);
}

/// The proposer of an accepted block is the first one let in for its group and round.
pub proof fn accepted_proposers_are_found(
    entries: Seq<ProposerWhitelistEntry>,
    group: Seq<char>,
    round: u64,
    i: int,
)
    ensures
        search::first_index(entries, is_for(group, round)) == Some(i) <==> 0 <= i < entries.len()
            && entries[i].group_id@ == group && entries[i].round == round && (forall|j: int|
            0 <= j < i ==> (#[trigger] entries[j]).group_id@ != group || entries[j].round != round),
{
    let p = is_for(group, round);
    search::first_index_is_first(entries, p);
    if let Some(k) = search::first_index(entries, p) {
        assert(p(entries[k]));
        assert forall|j: int| 0 <= j < k implies (#[trigger] entries[j]).group_id@ != group
            || entries[j].round != round by {
            assert(!p(entries[j]));
        }
    }
    if 0 <= i < entries.len() && entries[i].group_id@ == group && entries[i].round == round && (
    forall|j: int|
        0 <= j < i ==> (#[trigger] entries[j]).group_id@ != group || entries[j].round != round) {
        assert forall|j: int| 0 <= j < i implies !p(#[trigger] entries[j]) by {
            assert(entries[j].group_id@ != group || entries[j].round != round);
        }
        search::first_index_is(entries, p, i);
    }
}

} // verus!
