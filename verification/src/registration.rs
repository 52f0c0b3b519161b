//! Registration of lightnodes: which address a lightnode is reached at, and which registrations
//! are taken.
use vstd::prelude::*;
use vstd::string::StringExecFns;

use crate::addresses::try_extract_ipv4_from_multiaddr;
use crate::addresses::AddrPart;
use crate::messages::LightnodeRegistrationMessage;
use crate::text;
use crate::text::push_decimal;
use crate::text::replace_word;
use crate::text::same_text;
use crate::text::text_contains;

verus! {

/// What is known of a lightnode that can be put into a group. Floating-point numbers are carried
/// by their bits.
#[derive(Debug, Clone)]
pub struct LightNodeInfo {
    pub node_id: String,
    pub peer_id: String,
    pub multiaddr: String,
    pub geographic_region: String,
    pub pou_score_bits: u64,
    pub capabilities: Vec<String>,
    pub last_seen: u64,
    pub uptime_percentage_bits: u64,
    pub account: [u8; 32],
}

/// What a message in a batch of registrations decodes as.
#[derive(Debug, Clone)]
pub enum DecodedRegistration {
    Registration(LightnodeRegistrationMessage),
    OtherMessage,
    Unreadable,
}

/// A message in a batch of registrations: who sent it, what it decodes as, its bytes, and the
/// address of the connection with the sender.
#[derive(Debug, Clone)]
pub struct RegistrationInput {
    pub peer_id: String,
    pub decoded: DecodedRegistration,
    pub data: Vec<u8>,
    pub connection: Option<Vec<AddrPart>>,
}

/// An IPv4 address in its usual notation.
pub open spec fn dotted(a: [u8; 4]) -> Seq<char> {
    text::decimal(a[0] as nat) + "."@ + text::decimal(a[1] as nat) + "."@ + text::decimal(
        a[2] as nat,
    ) + "."@ + text::decimal(a[3] as nat)
}

/// Writes an IPv4 address in its usual notation.
pub fn write_ipv4(a: &[u8; 4]) -> (r: String)
    ensures
        r@ == dotted(*a),
{
    let mut s = String::new();
    push_decimal(&mut s, a[0] as u64);
    assert(s@ =~= text::decimal(a[0] as nat));
    s.append(".");
    push_decimal(&mut s, a[1] as u64);
    s.append(".");
    push_decimal(&mut s, a[2] as u64);
    s.append(".");
    push_decimal(&mut s, a[3] as u64);
    s
}

/// Whether a component is an IPv4 address.
pub open spec fn is_ip4() -> spec_fn(AddrPart) -> bool {
    |p: AddrPart| p is Ip4
}

/// The first IPv4 address of a connection.
pub open spec fn connection_ipv4(connection: Option<Vec<AddrPart>>) -> Option<[u8; 4]> {
    match connection {
        Some(parts) => match crate::search::first_index(parts@, is_ip4()) {
            Some(i) => Some(parts@[i]->Ip4_0),
            None => None,
        },
        None => None,
    }
}

/// The address at which a lightnode is reached: where it gives the local host, and this node is
/// not on the local host itself, the address of the connection stands in for it.
pub open spec fn effective_address(
    given: Seq<char>,
    external_ip: Option<Seq<char>>,
    connection: Option<Vec<AddrPart>>,
) -> Seq<char> {
    if text::contains_word(given, "127.0.0.1"@) && external_ip != Some("127.0.0.1"@) {
        match connection_ipv4(connection) {
            Some(a) => text::replaced(given, "127.0.0.1"@, dotted(a)),
            None => given,
        }
    } else {
        given
    }
}

/// Whether an address is private or cannot be reached.
pub open spec fn is_private_address(address: Seq<char>) -> bool {
    ||| text::contains_word(address, "/ip4/172."@)
    ||| text::contains_word(address, "/ip4/10."@)
    ||| text::contains_word(address, "/ip4/192.168."@)
    ||| text::contains_word(address, "/ip4/127.0.0.1"@)
    ||| text::contains_word(address, "/ip4/0.0.0.0"@)
}

fn extract_ipv4(connection: &Option<Vec<AddrPart>>) -> (r: Option<[u8; 4]>)
    ensures
        r == connection_ipv4(*connection),
{
    match connection {
        Some(parts) => {
            let r = try_extract_ipv4_from_multiaddr(parts.as_slice());
            proof {
                crate::search::first_index_is_first(parts@, is_ip4());
                match crate::search::first_index(parts@, is_ip4()) {
                    Some(i) => {
                        assert(is_ip4()(parts@[i]));
                        if let Some(a) = r {
                            let k = choose|k: int|
                                0 <= k < parts@.len() && #[trigger] parts@[k] == AddrPart::Ip4(a)
                                    && forall|j: int|
                                    0 <= j < k ==> !((#[trigger] parts@[j]) is Ip4);
                            if k < i {
                                assert(!is_ip4()(parts@[k]));
                            } else if i < k {
                                assert(!(parts@[i] is Ip4));
                            }
                        }
                    },
                    None => {
                        if let Some(a) = r {
                            let k = choose|k: int|
                                0 <= k < parts@.len() && #[trigger] parts@[k] == AddrPart::Ip4(a)
                                    && forall|j: int|
                                    0 <= j < k ==> !((#[trigger] parts@[j]) is Ip4);
                            assert(!is_ip4()(parts@[k]));
                        }
                    },
                }
            }
            r
        },
        None => None,
    }
}

/// The address at which a lightnode is reached.
pub fn effective_multiaddr(
    given: &str,
    external_ip: Option<&str>,
    connection: &Option<Vec<AddrPart>>,
) -> (r: String)
    ensures
        r@ == effective_address(
            given@,
            match external_ip {
                Some(ip) => Some(ip@),
                None => None,
            },
            *connection,
        ),
{
    let local = match external_ip {
        Some(ip) => same_text(ip, "127.0.0.1"),
        None => false,
    };
    if text_contains(given, "127.0.0.1") && !local {
        if let Some(a) = extract_ipv4(connection) {
            let ip = write_ipv4(&a);
            proof {
                reveal_strlit("127.0.0.1");
            }
            return replace_word(given, "127.0.0.1", ip.as_str());
        }
    }
    given.to_owned()
}

/// Whether an address is private or cannot be reached.
pub fn is_private_multiaddr(address: &str) -> (r: bool)
    ensures
        r == is_private_address(address@),
{
    text_contains(address, "/ip4/172.") || text_contains(address, "/ip4/10.") || text_contains(
        address,
        "/ip4/192.168.",
    ) || text_contains(address, "/ip4/127.0.0.1") || text_contains(address, "/ip4/0.0.0.0")
}

/// The address that a registration is taken with, if it is taken.
pub open spec fn taken_address(input: RegistrationInput, external_ip: Option<Seq<char>>) -> Option<
    Seq<char>,
> {
    match input.decoded {
        DecodedRegistration::Registration(m) => {
            let address = effective_address(m.multiaddr@, external_ip, input.connection);
            if is_private_address(address) {
                None
            } else {
                Some(address)
            }
        },
        _ => None,
    }
}

/// The places in a batch of the registrations that are taken.
pub open spec fn taken_places(
    batch: Seq<RegistrationInput>,
    external_ip: Option<Seq<char>>,
) -> Seq<int>
    decreases batch.len(),
{
    if batch.len() == 0 {
        Seq::empty()
    } else {
        let front = taken_places(batch.drop_last(), external_ip);
        if taken_address(batch.last(), external_ip) is Some {
            front.push(batch.len() - 1)
        } else {
            front
        }
    }
}

/// The places in a batch of the messages that cannot be read.
pub open spec fn failed_places(batch: Seq<RegistrationInput>) -> Seq<int>
    decreases batch.len(),
{
    if batch.len() == 0 {
        Seq::empty()
    } else {
        let front = failed_places(batch.drop_last());
        if batch.last().decoded is Unreadable {
            front.push(batch.len() - 1)
        } else {
            front
        }
    }
}

/// Whether `info` is what a registration, taken with an address at `now`, says.
pub open spec fn is_info_of(
    info: LightNodeInfo,
    m: LightnodeRegistrationMessage,
    address: Seq<char>,
    now: u64,
) -> bool {
    &&& info.node_id == m.node_id
    &&& info.peer_id == m.peer_id
    &&& info.multiaddr@ == address
    &&& info.geographic_region == m.geographic_region
    &&& info.pou_score_bits == m.pou_score_bits
    &&& info.capabilities == m.capabilities
    &&& info.last_seen == now
    &&& info.uptime_percentage_bits == m.uptime_percentage_bits
    &&& info.account == m.account
}

/// A message that could not be read, and who sent it.
#[derive(Debug, Clone)]
pub struct FailedRegistration {
    pub peer_id: String,
    pub data: Vec<u8>,
}

/// What comes of a batch of registrations: the lightnodes that are taken, and the messages that
/// are tried again later, each in the order of the batch.
#[derive(Debug, Clone)]
pub struct RegistrationBatch {
    pub accepted: Vec<LightNodeInfo>,
    pub failed: Vec<FailedRegistration>,
}

/// Whether the taken ones are those of the batch.
pub open spec fn accepted_from(
    accepted: Seq<LightNodeInfo>,
    batch: Seq<RegistrationInput>,
    external_ip: Option<Seq<char>>,
    now: u64,
) -> bool {
    let places = taken_places(batch, external_ip);
    &&& accepted.len() == places.len()
    &&& forall|k: int|
        0 <= k < accepted.len() ==> {
            let input = batch[places[k]];
            is_info_of(
                #[trigger] accepted[k],
                input.decoded->Registration_0,
                taken_address(input, external_ip)->0,
                now,
            )
        }
}

/// Whether the failed ones are those of the batch.
pub open spec fn failed_from(failed: Seq<FailedRegistration>, batch: Seq<RegistrationInput>) -> bool {
    let places = failed_places(batch);
    &&& failed.len() == places.len()
    &&& forall|k: int|
        0 <= k < failed.len() ==> {
            &&& (#[trigger] failed[k]).peer_id == batch[places[k]].peer_id
            &&& failed[k].data == batch[places[k]].data
        }
}

proof fn places_in_range(batch: Seq<RegistrationInput>, external_ip: Option<Seq<char>>)
    ensures
        forall|k: int|
            0 <= k < taken_places(batch, external_ip).len() ==> 0 <= (#[trigger] taken_places(
                batch,
                external_ip,
            )[k]) < batch.len(),
        forall|k: int|
            0 <= k < failed_places(batch).len() ==> 0 <= (#[trigger] failed_places(batch)[k])
                < batch.len(),
    decreases batch.len(),
{
    if batch.len() > 0 {
        let front = batch.drop_last();
        places_in_range(front, external_ip);
        let t0 = taken_places(front, external_ip);
        let t1 = taken_places(batch, external_ip);
        assert forall|k: int| 0 <= k < t1.len() implies 0 <= (#[trigger] t1[k]) < batch.len() by {
            if k < t0.len() {
                assert(t1[k] == t0[k]);
            }
        }
        let f0 = failed_places(front);
        let f1 = failed_places(batch);
        assert forall|k: int| 0 <= k < f1.len() implies 0 <= (#[trigger] f1[k]) < batch.len() by {
            if k < f0.len() {
                assert(f1[k] == f0[k]);
            }
        }
    }
}

/// Takes a batch of registrations at the time `now`.
pub fn handle_registration_batch(
    batch: Vec<RegistrationInput>,
    external_ip: Option<&str>,
    now: u64,
) -> (r: RegistrationBatch)
    ensures
        accepted_from(
            r.accepted@,
            batch@,
            match external_ip {
                Some(ip) => Some(ip@),
                None => None,
            },
            now,
        ),
        failed_from(r.failed@, batch@),
{
    let ghost s = batch@;
    let ghost ext = match external_ip {
        Some(ip) => Some(ip@),
        None => None,
    };
    let mut accepted: Vec<LightNodeInfo> = Vec::new();
    let mut failed: Vec<FailedRegistration> = Vec::new();
    for input in it: batch
        invariant
            it.seq() == s,
            ext == match external_ip {
                Some(ip) => Some(ip@),
                None => None,
            },
            accepted_from(accepted@, s.take(it.index() as int), ext, now),
            failed_from(failed@, s.take(it.index() as int)),
    {
        let ghost k = it.index() as int;
        let ghost front = s.take(k);
        let ghost next = s.take(k + 1);
        let ghost acc0 = accepted@;
        let ghost fail0 = failed@;
        proof {
            assert(next.drop_last() =~= front);
            assert(next.last() == input);
            places_in_range(front, ext);
            places_in_range(next, ext);
        }
        match input.decoded {
            DecodedRegistration::Registration(m) => {
                let address = effective_multiaddr(
                    m.multiaddr.as_str(),
                    external_ip,
                    &input.connection,
                );
                if !is_private_multiaddr(address.as_str()) {
                    accepted.push(
                        LightNodeInfo {
                            node_id: m.node_id,
                            peer_id: m.peer_id,
                            multiaddr: address,
                            geographic_region: m.geographic_region,
                            pou_score_bits: m.pou_score_bits,
                            capabilities: m.capabilities,
                            last_seen: now,
                            uptime_percentage_bits: m.uptime_percentage_bits,
                            account: m.account,
                        },
                    );
                }
            },
            DecodedRegistration::OtherMessage => {},
            DecodedRegistration::Unreadable => {
                failed.push(FailedRegistration { peer_id: input.peer_id, data: input.data });
            },
        }
        proof {
            let p0 = taken_places(front, ext);
            let p1 = taken_places(next, ext);
            assert forall|j: int| 0 <= j < accepted@.len() implies {
                let input = next[p1[j]];
                is_info_of(
                    #[trigger] accepted@[j],
                    input.decoded->Registration_0,
                    taken_address(input, ext)->0,
                    now,
                )
            } by {
                if j < acc0.len() {
                    assert(accepted@[j] == acc0[j]);
                    assert(p1[j] == p0[j]);
                    assert(next[p1[j]] == front[p0[j]]);
                }
            }
            let f0 = failed_places(front);
            let f1 = failed_places(next);
            assert forall|j: int| 0 <= j < failed@.len() implies {
                &&& (#[trigger] failed@[j]).peer_id == next[f1[j]].peer_id
                &&& failed@[j].data == next[f1[j]].data
            } by {
                if j < fail0.len() {
                    assert(failed@[j] == fail0[j]);
                    assert(f1[j] == f0[j]);
                    assert(next[f1[j]] == front[f0[j]]);
                }
            }
        }
    }
    assert(s.take(s.len() as int) =~= s);
    RegistrationBatch { accepted, failed }
}

/// What the group manager said to the lightnodes that were taken.
#[derive(Debug, Clone, Copy, PartialEq, Eq, Structural)]
pub enum ManagerReply {
    Registered,
    Failed,
    Absent,
}

/// Why failed registrations are put down to be tried again.
#[derive(Debug, Clone, Copy, PartialEq, Eq, Structural)]
pub enum RetryReason {
    ManagerFailed,
    ManagerAbsent,
    BatchFailed,
}

/// What is to be done after a batch: for which reasons, in order, the failed registrations are
/// put down to be tried again, and whether the batch as a whole failed.
#[derive(Debug)]
pub struct BatchFollowUp {
    pub retries: Vec<RetryReason>,
    pub failed: bool,
}

/// The reasons for which failed registrations are put down, in order.
pub open spec fn retry_reasons(any_accepted: bool, any_failed: bool, reply: ManagerReply) -> Seq<
    RetryReason,
> {
    if any_accepted && reply == ManagerReply::Failed {
        seq![RetryReason::ManagerFailed]
    } else {
        (if any_accepted && reply == ManagerReply::Absent {
            seq![RetryReason::ManagerAbsent]
        } else {
            Seq::empty()
        }) + (if any_failed {
            seq![RetryReason::BatchFailed]
        } else {
            Seq::empty()
        })
    }
}

/// What is to be done after a batch. The reply counts only if lightnodes were taken.
pub fn follow_up(any_accepted: bool, any_failed: bool, reply: ManagerReply) -> (r: BatchFollowUp)
    ensures
        r.retries@ == retry_reasons(any_accepted, any_failed, reply),
        r.failed == (any_accepted && reply == ManagerReply::Failed),
{
    let mut retries: Vec<RetryReason> = Vec::new();
    if any_accepted && reply == ManagerReply::Failed {
        retries.push(RetryReason::ManagerFailed);
        assert(retries@ =~= retry_reasons(any_accepted, any_failed, reply));
        return BatchFollowUp { retries, failed: true };
    }
    if any_accepted && reply == ManagerReply::Absent {
        retries.push(RetryReason::ManagerAbsent);
    }
    if any_failed {
        retries.push(RetryReason::BatchFailed);
    }
    assert(retries@ =~= retry_reasons(any_accepted, any_failed, reply));
    BatchFollowUp { retries, failed: false }
}

/// An address stays as it was given unless it names the machine itself. Even then it stays where
/// that is the address set for this node, or where the connection has no address of version 4.
pub proof fn addresses_stay_unless_they_are_local(
    given: Seq<char>,
    external_ip: Option<Seq<char>>,
    connection: Option<Vec<AddrPart>>,
)
    ensures
        !text::contains_word(given, "127.0.0.1"@) ==> effective_address(
            given,
            external_ip,
            connection,
        ) == given,
        external_ip == Some("127.0.0.1"@) ==> effective_address(given, external_ip, connection)
            == given,
        connection is None ==> effective_address(given, external_ip, connection) == given,
        (connection matches Some(parts) && forall|i: int|
            0 <= i < parts@.len() ==> !((#[trigger] parts@[i]) is Ip4)) ==> effective_address(
            given,
            external_ip,
            connection,
        ) == given,
{
    if let Some(parts) = connection {
        crate::search::first_index_is_first(parts@, is_ip4());
    }
}

/// An address that names the machine itself is completed from the connection: the first address
/// of version 4 in it takes the place of each loopback address.
pub proof fn local_addresses_are_completed(
    given: Seq<char>,
    external_ip: Option<Seq<char>>,
    parts: Vec<AddrPart>,
    i: int,
    a: [u8; 4],
)
    requires
        text::contains_word(given, "127.0.0.1"@),
        external_ip != Some("127.0.0.1"@),
        0 <= i < parts@.len(),
        parts@[i] == AddrPart::Ip4(a),
        forall|j: int| 0 <= j < i ==> !((#[trigger] parts@[j]) is Ip4),
    ensures
        effective_address(given, external_ip, Some(parts)) == text::replaced(
            given,
            "127.0.0.1"@,
            dotted(a),
        ),
{
    crate::search::first_index_is(parts@, is_ip4(), i);
}

proof fn split_at_dot(a: nat, b: Seq<char>, c: nat, d: Seq<char>)
    requires
        text::decimal(a) + "."@ + b == text::decimal(c) + "."@ + d,
    ensures
        a == c,
        b == d,
{
    reveal_strlit(".");
    assert("."@.len() == 1);
    let x = text::decimal(a);
    let y = text::decimal(c);
    text::decimal_is_read_back(a);
    text::decimal_is_read_back(c);
    let s = x + "."@ + b;
    let t = y + "."@ + d;
    assert(s[x.len() as int] == '.');
    assert(t[y.len() as int] == '.');
    if x.len() < y.len() {
        text::digits_are_ascii(y[x.len() as int]);
        assert(t[x.len() as int] == y[x.len() as int]);
    } else if y.len() < x.len() {
        text::digits_are_ascii(x[y.len() as int]);
        assert(s[y.len() as int] == x[y.len() as int]);
    }
    assert(x =~= s.subrange(0, x.len() as int));
    assert(y =~= t.subrange(0, y.len() as int));
    assert(b =~= s.skip(x.len() as int + 1));
    assert(d =~= t.skip(y.len() as int + 1));
}

/// Addresses that are written alike are the same.
pub proof fn dotted_addresses_are_told_apart(a: [u8; 4], b: [u8; 4])
    requires
        dotted(a) == dotted(b),
    ensures
        a[0] == b[0] && a[1] == b[1] && a[2] == b[2] && a[3] == b[3],
{
    let a3 = text::decimal(a[3] as nat);
    let b3 = text::decimal(b[3] as nat);
    let a2 = text::decimal(a[2] as nat) + "."@ + a3;
    let b2 = text::decimal(b[2] as nat) + "."@ + b3;
    let a1 = text::decimal(a[1] as nat) + "."@ + a2;
    let b1 = text::decimal(b[1] as nat) + "."@ + b2;
    assert(dotted(a) =~= text::decimal(a[0] as nat) + "."@ + a1);
    assert(dotted(b) =~= text::decimal(b[0] as nat) + "."@ + b1);
    split_at_dot(a[0] as nat, a1, b[0] as nat, b1);
    split_at_dot(a[1] as nat, a2, b[1] as nat, b2);
    split_at_dot(a[2] as nat, a3, b[2] as nat, b3);
    text::decimal_is_read_back(a[3] as nat);
    text::decimal_is_read_back(b[3] as nat);
}

/// A registration that is taken has an address outside the private networks; and one that names
/// neither a private network nor the machine itself is taken with the address that it gives.
pub proof fn private_addresses_are_refused(
    input: RegistrationInput,
    external_ip: Option<Seq<char>>,
)
    ensures
        taken_address(input, external_ip) matches Some(a) ==> {
            &&& input.decoded is Registration
            &&& !text::contains_word(a, "/ip4/10."@)
            &&& !text::contains_word(a, "/ip4/172."@)
            &&& !text::contains_word(a, "/ip4/192.168."@)
            &&& !text::contains_word(a, "/ip4/127.0.0.1"@)
            &&& !text::contains_word(a, "/ip4/0.0.0.0"@)
        },
        input.decoded matches DecodedRegistration::Registration(m) ==> {
            &&& !text::contains_word(m.multiaddr@, "/ip4/10."@)
            &&& !text::contains_word(m.multiaddr@, "/ip4/172."@)
            &&& !text::contains_word(m.multiaddr@, "/ip4/192.168."@)
            &&& !text::contains_word(m.multiaddr@, "/ip4/127.0.0.1"@)
            &&& !text::contains_word(m.multiaddr@, "/ip4/0.0.0.0"@)
            &&& !text::contains_word(m.multiaddr@, "127.0.0.1"@)
        } ==> taken_address(input, external_ip) == Some(m.multiaddr@),
{
}

/// The places of those that are taken are just the places where something can be taken, in order;
/// so are the places of those that could not be read.
pub proof fn each_input_has_its_place(
    batch: Seq<RegistrationInput>,
    external_ip: Option<Seq<char>>,
    i: int,
)
    ensures
        taken_places(batch, external_ip).contains(i) <==> 0 <= i < batch.len() && taken_address(
            batch[i],
            external_ip,
        ) is Some,
        failed_places(batch).contains(i) <==> 0 <= i < batch.len()
            && batch[i].decoded is Unreadable,
        forall|a: int, b: int|
            0 <= a < b < taken_places(batch, external_ip).len() ==> #[trigger] taken_places(
                batch,
                external_ip,
            )[a] < #[trigger] taken_places(batch, external_ip)[b] < batch.len(),
        forall|a: int, b: int|
            0 <= a < b < failed_places(batch).len() ==> #[trigger] failed_places(batch)[a]
                < #[trigger] failed_places(batch)[b] < batch.len(),
    decreases batch.len(),
{
    if batch.len() > 0 {
        let rest = batch.drop_last();
        let n = rest.len() as int;
        each_input_has_its_place(rest, external_ip, i);
        let f = taken_places(rest, external_ip);
        let g = taken_places(batch, external_ip);
        let u = failed_places(rest);
        let v = failed_places(batch);
        assert(batch[n] == batch.last());
        if f.contains(i) {
            let k = choose|k: int| 0 <= k < f.len() && f[k] == i;
            assert(g[k] == i);
        }
        if g.contains(i) {
            let k = choose|k: int| 0 <= k < g.len() && g[k] == i;
            if k < f.len() {
                assert(f[k] == i);
            }
        }
        if taken_address(batch.last(), external_ip) is Some {
            assert(g[f.len() as int] == n);
        }
        if u.contains(i) {
            let k = choose|k: int| 0 <= k < u.len() && u[k] == i;
            assert(v[k] == i);
        }
        if v.contains(i) {
            let k = choose|k: int| 0 <= k < v.len() && v[k] == i;
            if k < u.len() {
                assert(u[k] == i);
            }
        }
        if batch.last().decoded is Unreadable {
            assert(v[u.len() as int] == n);
        }
        assert forall|a: int, b: int| 0 <= a < b < g.len() implies #[trigger] g[a]
            < #[trigger] g[b] < batch.len() by {
            assert(f[a] == g[a]);
            each_input_has_its_place(rest, external_ip, f[a]);
            assert(f.contains(f[a]));
            if b < f.len() {
                assert(f[b] == g[b]);
            }
        }
        assert forall|a: int, b: int| 0 <= a < b < v.len() implies #[trigger] v[a]
            < #[trigger] v[b] < batch.len() by {
            assert(u[a] == v[a]);
            each_input_has_its_place(rest, external_ip, u[a]);
            assert(u.contains(u[a]));
            if b < u.len() {
                assert(u[b] == v[b]);
            }
        }
    }
}

/// Each registration of a batch that can be taken is accepted as it was sent, with the address
/// that it is reached at and as seen now.
pub proof fn registrations_are_accepted_as_sent(
    accepted: Seq<LightNodeInfo>,
    batch: Seq<RegistrationInput>,
    external_ip: Option<Seq<char>>,
    now: u64,
    i: int,
)
    requires
        accepted_from(accepted, batch, external_ip, now),
        0 <= i < batch.len(),
        taken_address(batch[i], external_ip) is Some,
    ensures
        exists|k: int|
            #![trigger accepted[k]]
            0 <= k < accepted.len() && {
                let info = accepted[k];
                let m = batch[i].decoded->Registration_0;
                &&& info.node_id == m.node_id
                &&& info.peer_id == m.peer_id
                &&& Some(info.multiaddr@) == taken_address(batch[i], external_ip)
                &&& info.geographic_region == m.geographic_region
                &&& info.pou_score_bits == m.pou_score_bits
                &&& info.capabilities == m.capabilities
                &&& info.uptime_percentage_bits == m.uptime_percentage_bits
                &&& info.account == m.account
                &&& info.last_seen == now
            },
        accepted.len() <= batch.len(),
{
    each_input_has_its_place(batch, external_ip, i);
    let places = taken_places(batch, external_ip);
    let k = choose|k: int| 0 <= k < places.len() && places[k] == i;
    assert(is_info_of(
        accepted[k],
        batch[places[k]].decoded->Registration_0,
        taken_address(batch[places[k]], external_ip)->0,
        now,
    ));
    places_fit(batch, external_ip);
}

proof fn places_fit(batch: Seq<RegistrationInput>, external_ip: Option<Seq<char>>)
    ensures
        taken_places(batch, external_ip).len() <= batch.len(),
    decreases batch.len(),
{
    if batch.len() > 0 {
        places_fit(batch.drop_last(), external_ip);
    }
}

/// Retries are asked for once for each reason that holds. Where the manager failed on what was
/// accepted, that is the one reason.
pub proof fn retries_have_their_reasons(any_accepted: bool, any_failed: bool, reply: ManagerReply)
    ensures
        ({
            let r = retry_reasons(any_accepted, any_failed, reply);
            let manager_failed = any_accepted && reply == ManagerReply::Failed;
            let manager_absent = any_accepted && reply == ManagerReply::Absent;
            &&& r.no_duplicates()
            &&& r.contains(RetryReason::ManagerFailed) <==> manager_failed
            &&& r.contains(RetryReason::ManagerAbsent) <==> manager_absent
            &&& r.contains(RetryReason::BatchFailed) <==> any_failed && !manager_failed
            &&& manager_failed ==> r.len() == 1
        }),
{
    let r = retry_reasons(any_accepted, any_failed, reply);
    if any_accepted && reply == ManagerReply::Failed {
        assert(r[0] == RetryReason::ManagerFailed);
    } else if any_accepted && reply == ManagerReply::Absent {
        assert(r[0] == RetryReason::ManagerAbsent);
        if any_failed {
            assert(r[1] == RetryReason::BatchFailed);
        }
    } else if any_failed {
        assert(r[0] == RetryReason::BatchFailed);
    }
}

/// Each input of a batch that could not be read is kept as it came, and no other.
pub proof fn unreadable_inputs_are_kept_as_they_came(
    failed: Seq<FailedRegistration>,
    batch: Seq<RegistrationInput>,
    i: int,
)
    requires
        failed_from(failed, batch),
        0 <= i < batch.len(),
        batch[i].decoded is Unreadable,
    ensures
        exists|k: int|
            0 <= k < failed.len() && (#[trigger] failed[k]).peer_id == batch[i].peer_id
                && failed[k].data == batch[i].data,
{
    each_input_has_its_place(batch, None, i);
    let places = failed_places(batch);
    let k = choose|k: int| 0 <= k < places.len() && places[k] == i;
    assert(failed[k].peer_id == batch[places[k]].peer_id);
}

} // verus!
