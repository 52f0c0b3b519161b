//! The topics of the network, and what is done with a message on each.
use vstd::prelude::*;

use crate::text;
use crate::text::same_text;

verus! {

/// What is done with a gossip message.
#[derive(Debug, Clone, Copy, PartialEq, Eq, Structural)]
pub enum Route {
    BootstrapRequest,
    Heartbeat,
    Pou,
    PeerInfo,
    Block,
    ConsensusCertificate,
    PeerDiscovery,
    PeerRegistry,
    Registration,
    GroupFormed,
    LightnodeProposal,
    MasternodeVote,
    BlockAcceptance,
    ElectionCertificate,
    GroupProposal,
    GroupVote,
    GroupSync,
    LeaderElection,
    LightnodeListSync,
    Ignored,
}

pub const GROUP_PROPOSAL_TOPIC: &'static str = "/savitri/masternode/group/proposal/1";

pub const GROUP_VOTE_TOPIC: &'static str = "/savitri/masternode/group/vote/1";

pub const GROUP_SYNC_TOPIC: &'static str = "/savitri/masternode/group/sync/1";

pub const LEADER_ELECTION_TOPIC: &'static str = "/savitri/masternode/leader/election/1";

pub const LIGHTNODE_LIST_SYNC_TOPIC: &'static str = "/savitri/masternode/lightnode_list/sync/1";

pub const GROUP_ANNOUNCE_TOPIC: &'static str = "/savitri/lightnode/group/announce/1";

/// The topic of each kind of message that is acted upon; requests at the start come on two.
pub open spec fn topic_of(route: Route) -> Seq<char> {
    match route {
        Route::BootstrapRequest => "bootstrap/request"@,
        Route::Heartbeat => "/savitri/heartbeat/1"@,
        Route::Pou => "/savitri/pou/1"@,
        Route::PeerInfo => "/savitri/peerinfo/1"@,
        Route::Block => "/savitri/block/1"@,
        Route::ConsensusCertificate => "/savitri/consensus/cert/1"@,
        Route::PeerDiscovery => "/savitri/peer_discovery/1"@,
        Route::PeerRegistry => "/savitri/peer_registry/1"@,
        Route::Registration => "/savitri/registration/1"@,
        Route::GroupFormed => "/savitri/lightnode/group/formed/1"@,
        Route::LightnodeProposal => "/savitri/masternode/proposal/1"@,
        Route::MasternodeVote => "/savitri/masternode/vote/1"@,
        Route::BlockAcceptance => "/savitri/masternode/block_acceptance/1"@,
        Route::ElectionCertificate => "/savitri/masternode/election/cert/1"@,
        Route::GroupProposal => GROUP_PROPOSAL_TOPIC@,
        Route::GroupVote => GROUP_VOTE_TOPIC@,
        Route::GroupSync => GROUP_SYNC_TOPIC@,
        Route::LeaderElection => LEADER_ELECTION_TOPIC@,
        Route::LightnodeListSync => LIGHTNODE_LIST_SYNC_TOPIC@,
        Route::Ignored => Seq::empty(),
    }
}

/// The name of a kind's topic.
pub fn topic_name(route: Route) -> (r: &'static str)
    ensures
        r@ == topic_of(route),
{
    match route {
        Route::BootstrapRequest => "bootstrap/request",
        Route::Heartbeat => "/savitri/heartbeat/1",
        Route::Pou => "/savitri/pou/1",
        Route::PeerInfo => "/savitri/peerinfo/1",
        Route::Block => "/savitri/block/1",
        Route::ConsensusCertificate => "/savitri/consensus/cert/1",
        Route::PeerDiscovery => "/savitri/peer_discovery/1",
        Route::PeerRegistry => "/savitri/peer_registry/1",
        Route::Registration => "/savitri/registration/1",
        Route::GroupFormed => "/savitri/lightnode/group/formed/1",
        Route::LightnodeProposal => "/savitri/masternode/proposal/1",
        Route::MasternodeVote => "/savitri/masternode/vote/1",
        Route::BlockAcceptance => "/savitri/masternode/block_acceptance/1",
        Route::ElectionCertificate => "/savitri/masternode/election/cert/1",
        Route::GroupProposal => GROUP_PROPOSAL_TOPIC,
        Route::GroupVote => GROUP_VOTE_TOPIC,
        Route::GroupSync => GROUP_SYNC_TOPIC,
        Route::LeaderElection => LEADER_ELECTION_TOPIC,
        Route::LightnodeListSync => LIGHTNODE_LIST_SYNC_TOPIC,
        Route::Ignored => {
            proof {
                reveal_strlit("");
            }
            let empty = "";
            assert(empty@ =~= Seq::<char>::empty());
            empty
        },
    }
}

/// The other topic on which requests at the start come.
pub const BOOTSTRAP_REQUEST_ALIGNED_TOPIC: &'static str = "/savitri/bootstrap/req/1";

/// Whether a kind of message goes with a topic.
pub open spec fn goes_with(route: Route, topic: Seq<char>) -> bool {
    ||| route != Route::Ignored && topic == topic_of(route)
    ||| route == Route::BootstrapRequest && topic == BOOTSTRAP_REQUEST_ALIGNED_TOPIC@
}

spec fn topic_len(route: Route) -> nat {
    match route {
        Route::BootstrapRequest => 17,
        Route::Heartbeat => 20,
        Route::Pou => 14,
        Route::PeerInfo => 19,
        Route::Block => 16,
        Route::ConsensusCertificate => 25,
        Route::PeerDiscovery => 25,
        Route::PeerRegistry => 24,
        Route::Registration => 23,
        Route::GroupFormed => 33,
        Route::LightnodeProposal => 30,
        Route::MasternodeVote => 26,
        Route::BlockAcceptance => 38,
        Route::ElectionCertificate => 35,
        Route::GroupProposal => 36,
        Route::GroupVote => 32,
        Route::GroupSync => 32,
        Route::LeaderElection => 37,
        Route::LightnodeListSync => 41,
        Route::Ignored => 0,
    }
}

/// No two kinds of message share a topic.
pub proof fn topics_are_distinct(a: Route, b: Route, topic: Seq<char>)
    requires
        goes_with(a, topic),
        goes_with(b, topic),
    ensures
        a == b,
{
    reveal_strlit("bootstrap/request");
    reveal_strlit("/savitri/heartbeat/1");
    reveal_strlit("/savitri/pou/1");
    reveal_strlit("/savitri/peerinfo/1");
    reveal_strlit("/savitri/block/1");
    reveal_strlit("/savitri/consensus/cert/1");
    reveal_strlit("/savitri/peer_discovery/1");
    reveal_strlit("/savitri/peer_registry/1");
    reveal_strlit("/savitri/registration/1");
    reveal_strlit("/savitri/lightnode/group/formed/1");
    reveal_strlit("/savitri/masternode/proposal/1");
    reveal_strlit("/savitri/masternode/vote/1");
    reveal_strlit("/savitri/masternode/block_acceptance/1");
    reveal_strlit("/savitri/masternode/election/cert/1");
    reveal_strlit("/savitri/masternode/group/proposal/1");
    reveal_strlit("/savitri/masternode/group/vote/1");
    reveal_strlit("/savitri/masternode/group/sync/1");
    reveal_strlit("/savitri/masternode/leader/election/1");
    reveal_strlit("/savitri/masternode/lightnode_list/sync/1");
    reveal_strlit("/savitri/bootstrap/req/1");
    assert(topic_of(a).len() == topic_len(a));
    assert(topic_of(b).len() == topic_len(b));
    assert("/savitri/consensus/cert/1"@[9] != "/savitri/peer_discovery/1"@[9]);
    assert("/savitri/peer_registry/1"@[9] != "/savitri/bootstrap/req/1"@[9]);
    assert("/savitri/masternode/group/vote/1"@[26] != "/savitri/masternode/group/sync/1"@[26]);
}

fn routes() -> (r: Vec<Route>)
    ensures
        forall|k: Route| k != Route::Ignored ==> #[trigger] r@.contains(k),
        forall|i: int| 0 <= i < r@.len() ==> #[trigger] r@[i] != Route::Ignored,
{
    let r = vec![
        Route::BootstrapRequest,
        Route::Heartbeat,
        Route::Pou,
        Route::PeerInfo,
        Route::Block,
        Route::ConsensusCertificate,
        Route::PeerDiscovery,
        Route::PeerRegistry,
        Route::Registration,
        Route::GroupFormed,
        Route::LightnodeProposal,
        Route::MasternodeVote,
        Route::BlockAcceptance,
        Route::ElectionCertificate,
        Route::GroupProposal,
        Route::GroupVote,
        Route::GroupSync,
        Route::LeaderElection,
        Route::LightnodeListSync,
    ];
    assert forall|k: Route| k != Route::Ignored implies #[trigger] r@.contains(k) by {
        let i: int = match k {
            Route::BootstrapRequest => 0,
            Route::Heartbeat => 1,
            Route::Pou => 2,
            Route::PeerInfo => 3,
            Route::Block => 4,
            Route::ConsensusCertificate => 5,
            Route::PeerDiscovery => 6,
            Route::PeerRegistry => 7,
            Route::Registration => 8,
            Route::GroupFormed => 9,
            Route::LightnodeProposal => 10,
            Route::MasternodeVote => 11,
            Route::BlockAcceptance => 12,
            Route::ElectionCertificate => 13,
            Route::GroupProposal => 14,
            Route::GroupVote => 15,
            Route::GroupSync => 16,
            Route::LeaderElection => 17,
            _ => 18,
        };
        assert(r@[i] == k);
    }
    r
}

/// What is done with a message on a topic: what goes with the topic, and nothing if nothing does.
pub fn route(topic: &str) -> (r: Route)
    ensures
        r != Route::Ignored ==> goes_with(r, topic@),
        r == Route::Ignored ==> forall|k: Route| !#[trigger] goes_with(k, topic@),
{
    if same_text(topic, BOOTSTRAP_REQUEST_ALIGNED_TOPIC) {
        return Route::BootstrapRequest;
    }
    let all = routes();
    let mut i: usize = 0;
    while i < all.len()
        invariant
            i <= all@.len(),
            topic@ != BOOTSTRAP_REQUEST_ALIGNED_TOPIC@,
            forall|j: int| 0 <= j < all@.len() ==> #[trigger] all@[j] != Route::Ignored,
            forall|j: int| 0 <= j < i ==> topic_of(#[trigger] all@[j]) != topic@,
        decreases all@.len() - i,
    {
        if same_text(topic, topic_name(all[i])) {
            return all[i];
        }
        i += 1;
    }
    assert forall|k: Route| !#[trigger] goes_with(k, topic@) by {
        if k != Route::Ignored {
            assert(all@.contains(k));
            let j = choose|j: int| 0 <= j < all@.len() && all@[j] == k;
            assert(topic_of(all@[j]) != topic@);
        }
    }
    Route::Ignored
}

/// Whether a message between masternodes also goes on to the main loop. Proposals and votes do
/// not: they are handled where they come in.
pub fn goes_to_main_loop(route: Route) -> (r: bool)
    ensures
        r == for_main_loop(route),
{
    match route {
        Route::GroupSync => true,
        Route::LeaderElection => true,
        Route::LightnodeListSync => true,
        _ => false,
    }
}

/// Whether a message between masternodes also goes on to the main loop.
pub open spec fn for_main_loop(route: Route) -> bool {
    route == Route::GroupSync || route == Route::LeaderElection || route
        == Route::LightnodeListSync
}

/// What goes on to the main loop of a message that decodes as this, if it decodes at all: the
/// message with its source, where there is one.
pub open spec fn passed_on<P, M>(route: Route, source: Option<P>, message: Option<M>) -> Option<
    (P, M),
> {
    match (source, message) {
        (Some(p), Some(m)) if for_main_loop(route) => Some((p, m)),
        _ => None,
    }
}

/// What is left to be done once a message was handled.
#[derive(Debug)]
pub struct AfterHandling<P, M, E> {
    /// What goes on to the main loop.
    pub forward: Option<(P, M)>,
    /// What is put into the log.
    pub failure: Option<E>,
}

/// What is left to be done once the handler of a message has answered. A failure of the handler
/// only goes into the log: the message goes on as it would have, and so does the network.
pub fn after_handling<P, M, E>(
    route: Route,
    source: Option<P>,
    message: Option<M>,
    handled: Result<(), E>,
) -> (r: AfterHandling<P, M, E>)
    ensures
        r.forward == passed_on(route, source, message),
        r.failure == match handled {
            Ok(_) => None,
            Err(e) => Some(e),
        },
{
    let forward = if goes_to_main_loop(route) {
        match (source, message) {
            (Some(p), Some(m)) => Some((p, m)),
            _ => None,
        }
    } else {
        None
    };
    let failure = match handled {
        Ok(_) => None,
        Err(e) => Some(e),
    };
    AfterHandling { forward, failure }
}

/// Whether a message on a topic is handled where it comes in and must not be processed again.
pub open spec fn stays_here(topic: Seq<char>) -> bool {
    topic == GROUP_PROPOSAL_TOPIC@ || topic == GROUP_VOTE_TOPIC@
}

/// Whether a message on a topic is for the main loop to process.
pub open spec fn belongs_to_main_loop(topic: Seq<char>) -> bool {
    topic == GROUP_SYNC_TOPIC@ || topic == LEADER_ELECTION_TOPIC@ || topic
        == LIGHTNODE_LIST_SYNC_TOPIC@
}

/// No message between masternodes is processed twice, and none is lost: a proposal or a vote never
/// goes on to the main loop, and a message on the other three topics, if it decodes, goes there
/// with its source.
pub proof fn messages_are_processed_once<P, M>(
    topic: Seq<char>,
    route: Route,
    source: P,
    message: Option<M>,
)
    requires
        goes_with(route, topic),
    ensures
        stays_here(topic) ==> passed_on(route, Some(source), message) is None,
        belongs_to_main_loop(topic) ==> passed_on(route, Some(source), message) == (match message {
            Some(m) => Some((source, m)),
            None => None,
        }),
{
    if topic == GROUP_PROPOSAL_TOPIC@ {
        topics_are_distinct(route, Route::GroupProposal, topic);
    }
    if topic == GROUP_VOTE_TOPIC@ {
        topics_are_distinct(route, Route::GroupVote, topic);
    }
    if topic == GROUP_SYNC_TOPIC@ {
        topics_are_distinct(route, Route::GroupSync, topic);
    }
    if topic == LEADER_ELECTION_TOPIC@ {
        topics_are_distinct(route, Route::LeaderElection, topic);
    }
    if topic == LIGHTNODE_LIST_SYNC_TOPIC@ {
        topics_are_distinct(route, Route::LightnodeListSync, topic);
    }
}

/// How often, in seconds, the connections are kept alive and lost masternodes dialed: more often
/// while the network is being formed.
pub fn mesh_intervals(bootstrapping: bool) -> (r: (u64, u64))
    ensures
        r == (if bootstrapping {
            (10u64, 5u64)
        } else {
            (30u64, 15u64)
        }),
{
    if bootstrapping {
        (10, 5)
    } else {
        (30, 15)
    }
}

/// What a record of the distributed table is about.
#[derive(Debug, Clone, Copy, PartialEq, Eq, Structural)]
pub enum RecordKind {
    PeerInfo,
    Registration,
    Registry,
    Unknown,
}

/// What the key of a record says that it is about.
pub open spec fn record_kind_of(key: Seq<char>) -> RecordKind {
    if "peerinfo:"@.is_prefix_of(key) {
        RecordKind::PeerInfo
    } else if "lightnode_registration:"@.is_prefix_of(key) {
        RecordKind::Registration
    } else if "peer_registry:"@.is_prefix_of(key) {
        RecordKind::Registry
    } else {
        RecordKind::Unknown
    }
}

/// What a record is about, and the rest of its key where that names a peer.
pub fn record_kind(key: &str) -> (r: (RecordKind, &str))
    ensures
        r.0 == record_kind_of(key@),
        r.0 == RecordKind::PeerInfo ==> "peerinfo:"@ + r.1@ == key@,
        r.0 == RecordKind::Registration ==> "lightnode_registration:"@ + r.1@ == key@,
        r.0 == RecordKind::Registry ==> "peer_registry:"@ + r.1@ == key@,
        r.0 == RecordKind::Unknown ==> r.1@ == key@,
{
    match text::strip_prefix(key, "peerinfo:") {
        Some(rest) => (RecordKind::PeerInfo, rest),
        None => match text::strip_prefix(key, "lightnode_registration:") {
            Some(rest) => (RecordKind::Registration, rest),
            None => match text::strip_prefix(key, "peer_registry:") {
                Some(rest) => (RecordKind::Registry, rest),
                None => (RecordKind::Unknown, key),
            },
        },
    }
}

/// The kind of a record is told by what its key begins with.
pub proof fn records_are_known_by_their_key(name: Seq<char>)
    ensures
        record_kind_of("peerinfo:"@ + name) is PeerInfo,
        record_kind_of("lightnode_registration:"@ + name) is Registration,
        record_kind_of("peer_registry:"@ + name) is Registry,
        !"peerinfo:"@.is_prefix_of(name) && !"lightnode_registration:"@.is_prefix_of(name)
            && !"peer_registry:"@.is_prefix_of(name) ==> record_kind_of(name) is Unknown,
{
    reveal_strlit("peerinfo:");
    reveal_strlit("lightnode_registration:");
    reveal_strlit("peer_registry:");
    let a = "peerinfo:"@ + name;
    let b = "lightnode_registration:"@ + name;
    let c = "peer_registry:"@ + name;
    assert("peerinfo:"@.is_prefix_of(a));
    assert("lightnode_registration:"@.is_prefix_of(b));
    assert("peer_registry:"@.is_prefix_of(c));
    assert("peerinfo:"@.len() == 9 && "peerinfo:"@[0] == 'p' && "peerinfo:"@[4] == 'i');
    assert("lightnode_registration:"@[0] == 'l');
    assert("peer_registry:"@[0] == 'p' && "peer_registry:"@[4] == '_');
    assert(b[0] == 'l' && c[0] == 'p' && c[4] == '_');
    if "peerinfo:"@.is_prefix_of(b) {
        assert(b.subrange(0, 9)[0] == b[0]);
    }
    if "peerinfo:"@.is_prefix_of(c) {
        assert(c.subrange(0, 9)[4] == c[4]);
    }
    if "lightnode_registration:"@.is_prefix_of(c) {
        assert(c.subrange(0, "lightnode_registration:"@.len() as int)[0] == c[0]);
    }
}

/// The main loop gets just the messages on the synchronisation of groups, the election of leaders
/// and the lists of lightnodes, and only with their sender.
pub proof fn the_main_loop_gets_its_messages<P, M>(route: Route, source: Option<P>, message: M)
    ensures
        passed_on(route, source, Some(message)) is Some <==> source is Some && (route
            == Route::GroupSync || route == Route::LeaderElection || route
            == Route::LightnodeListSync),
        passed_on(route, source, Some(message)) matches Some(r) ==> Some(r.0) == source && r.1
            == message,
        passed_on::<P, M>(route, source, None) is None,
{
}

/// Each route has its topic, and each of these topics its route.
pub proof fn routes_have_their_topic(route: Route)
    ensures
        goes_with(route, "bootstrap/request"@) <==> route == Route::BootstrapRequest,
        goes_with(route, "/savitri/bootstrap/req/1"@) <==> route == Route::BootstrapRequest,
        goes_with(route, "/savitri/heartbeat/1"@) <==> route == Route::Heartbeat,
        goes_with(route, "/savitri/pou/1"@) <==> route == Route::Pou,
        goes_with(route, "/savitri/peerinfo/1"@) <==> route == Route::PeerInfo,
        goes_with(route, "/savitri/block/1"@) <==> route == Route::Block,
        goes_with(route, "/savitri/consensus/cert/1"@) <==> route == Route::ConsensusCertificate,
        goes_with(route, "/savitri/peer_discovery/1"@) <==> route == Route::PeerDiscovery,
        goes_with(route, "/savitri/peer_registry/1"@) <==> route == Route::PeerRegistry,
        goes_with(route, "/savitri/registration/1"@) <==> route == Route::Registration,
        goes_with(route, "/savitri/masternode/proposal/1"@) <==> route == Route::LightnodeProposal,
        goes_with(route, "/savitri/masternode/vote/1"@) <==> route == Route::MasternodeVote,
        goes_with(route, "/savitri/masternode/block_acceptance/1"@) <==> route
            == Route::BlockAcceptance,
        goes_with(route, "/savitri/masternode/election/cert/1"@) <==> route
            == Route::ElectionCertificate,
{
    let a = Route::BootstrapRequest;
    if goes_with(route, "bootstrap/request"@) {
        topics_are_distinct(route, a, "bootstrap/request"@);
    }
    if goes_with(route, "/savitri/bootstrap/req/1"@) {
        topics_are_distinct(route, a, "/savitri/bootstrap/req/1"@);
    }
    if goes_with(route, "/savitri/heartbeat/1"@) {
        topics_are_distinct(route, Route::Heartbeat, "/savitri/heartbeat/1"@);
    }
    if goes_with(route, "/savitri/pou/1"@) {
        topics_are_distinct(route, Route::Pou, "/savitri/pou/1"@);
    }
    if goes_with(route, "/savitri/peerinfo/1"@) {
        topics_are_distinct(route, Route::PeerInfo, "/savitri/peerinfo/1"@);
    }
    if goes_with(route, "/savitri/block/1"@) {
        topics_are_distinct(route, Route::Block, "/savitri/block/1"@);
    }
    let t = "/savitri/consensus/cert/1"@;
    if goes_with(route, t) {
        topics_are_distinct(route, Route::ConsensusCertificate, t);
    }
    let t = "/savitri/peer_discovery/1"@;
    if goes_with(route, t) {
        topics_are_distinct(route, Route::PeerDiscovery, t);
    }
    let t = "/savitri/peer_registry/1"@;
    if goes_with(route, t) {
        topics_are_distinct(route, Route::PeerRegistry, t);
    }
    let t = "/savitri/registration/1"@;
    if goes_with(route, t) {
        topics_are_distinct(route, Route::Registration, t);
    }
    let t = "/savitri/masternode/proposal/1"@;
    if goes_with(route, t) {
        topics_are_distinct(route, Route::LightnodeProposal, t);
    }
    let t = "/savitri/masternode/vote/1"@;
    if goes_with(route, t) {
        topics_are_distinct(route, Route::MasternodeVote, t);
    }
    let t = "/savitri/masternode/block_acceptance/1"@;
    if goes_with(route, t) {
        topics_are_distinct(route, Route::BlockAcceptance, t);
    }
    let t = "/savitri/masternode/election/cert/1"@;
    if goes_with(route, t) {
        topics_are_distinct(route, Route::ElectionCertificate, t);
    }
}

} // verus!
