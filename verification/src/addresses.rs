//! Peer identifiers and network addresses.
use std::str::FromStr;
use vstd::prelude::*;

verus! {

/// One component of a network address. Components that the node does not look at are `Other`.
#[derive(Debug, Clone, Copy, PartialEq, Eq)]
pub enum AddrPart {
    Ip4([u8; 4]),
    Ip6([u16; 8]),
    Tcp(u16),
    Udp(u16),
    QuicV1,
    Other,
}

/// An IP address.
#[derive(Debug, Clone, Copy, PartialEq, Eq)]
pub enum Ip {
    V4([u8; 4]),
    V6([u16; 8]),
}

/// The usual text of the peer identifier that a text gives, if it gives one.
pub uninterp spec fn peer_id_of(text: Seq<char>) -> Option<Seq<char>>;

/// The components of the network address that a text gives, if it gives one.
pub uninterp spec fn address_parts_of(text: Seq<char>) -> Option<Seq<AddrPart>>;

/// `libp2p::PeerId::from_str`: the peer identifier of a text, in base 58; a function of the text
/// alone.
#[verifier::external_body]
pub(crate) fn parse_peer_id(text: &str) -> (r: Option<String>)
    ensures
        r is Some == peer_id_of(text@) is Some,
        r matches Some(id) ==> peer_id_of(text@) == Some(id@),
{
    libp2p::PeerId::from_str(text).ok().map(|id| id.to_base58())
}

/// `libp2p::Multiaddr::from_str`: the components of an address; a function of the text alone.
#[verifier::external_body]
pub(crate) fn parse_address(text: &str) -> (r: Option<Vec<AddrPart>>)
    ensures
        r is Some == address_parts_of(text@) is Some,
        r matches Some(parts) ==> address_parts_of(text@) == Some(parts@),
{
    let address = libp2p::Multiaddr::from_str(text).ok()?;
    Some(address.iter().map(|part| match part {
        libp2p::multiaddr::Protocol::Ip4(ip) => AddrPart::Ip4(ip.octets()),
        libp2p::multiaddr::Protocol::Ip6(ip) => AddrPart::Ip6(ip.segments()),
        libp2p::multiaddr::Protocol::Tcp(port) => AddrPart::Tcp(port),
        libp2p::multiaddr::Protocol::Udp(port) => AddrPart::Udp(port),
        libp2p::multiaddr::Protocol::QuicV1 => AddrPart::QuicV1,
        _ => AddrPart::Other,
    }).collect())
}

/// The text of the network address that components make up.
pub uninterp spec fn address_text_of(parts: Seq<AddrPart>) -> Seq<char>;

/// `libp2p::Multiaddr` as text: a function of the components alone. Components that the node does
/// not look at cannot be turned back.
#[verifier::external_body]
pub(crate) fn address_text(parts: &[AddrPart]) -> (r: String)
    requires
        forall|i: int| 0 <= i < parts@.len() ==> !((#[trigger] parts@[i]) is Other),
    ensures
        r@ == address_text_of(parts@),
{
    let address: libp2p::Multiaddr = parts.iter().map(|part| match part {
        AddrPart::Ip4(ip) => libp2p::multiaddr::Protocol::Ip4((*ip).into()),
        AddrPart::Ip6(ip) => libp2p::multiaddr::Protocol::Ip6((*ip).into()),
        AddrPart::Tcp(port) => libp2p::multiaddr::Protocol::Tcp(*port),
        AddrPart::Udp(port) => libp2p::multiaddr::Protocol::Udp(*port),
        _ => libp2p::multiaddr::Protocol::QuicV1,
    }).collect();
    address.to_string()
}

/// Whether an address can be reached from anywhere: it is not reserved for the host itself, for
/// private or local networks, for broadcasts or for documentation.
pub open spec fn routable(ip: Ip) -> bool {
    match ip {
        Ip::V4(a) => !(a@ == seq![0u8, 0u8, 0u8, 0u8] || a[0] == 127 || a[0] == 10 || (a[0] == 172
            && 16 <= a[1] <= 31) || (a[0] == 192 && a[1] == 168) || (a[0] == 169 && a[1] == 254)
            || a@ == seq![255u8, 255u8, 255u8, 255u8] || (a[0] == 192 && a[1] == 0 && a[2] == 2)
            || (a[0] == 198 && a[1] == 51 && a[2] == 100) || (a[0] == 203 && a[1] == 0 && a[2]
            == 113)),
        Ip::V6(s) => !((forall|i: int| 0 <= i < 7 ==> #[trigger] s[i] == 0) && s[7] <= 1) && !(
        0xff00 <= s[0]) && !(0xfc00 <= s[0] < 0xfe00) && !(0xfe80 <= s[0] < 0xfec0),
    }
}

/// Whether an address can be reached from anywhere.
pub fn is_routable_ip(ip: &Ip) -> (r: bool)
    ensures
        r == routable(*ip),
{
    match ip {
        Ip::V4(a) => {
            let unspecified = a[0] == 0 && a[1] == 0 && a[2] == 0 && a[3] == 0;
            let broadcast = a[0] == 255 && a[1] == 255 && a[2] == 255 && a[3] == 255;
            let private = a[0] == 10 || (a[0] == 172 && 16 <= a[1] && a[1] <= 31) || (a[0] == 192
                && a[1] == 168);
            let link_local = a[0] == 169 && a[1] == 254;
            let documentation = (a[0] == 192 && a[1] == 0 && a[2] == 2) || (a[0] == 198 && a[1]
                == 51 && a[2] == 100) || (a[0] == 203 && a[1] == 0 && a[2] == 113);
            assert(unspecified == (a@ =~= seq![0u8, 0u8, 0u8, 0u8]));
            assert(broadcast == (a@ =~= seq![255u8, 255u8, 255u8, 255u8]));
            !unspecified && a[0] != 127 && !private && !link_local && !broadcast && !documentation
        },
        Ip::V6(s) => {
            let head = s[0] == 0 && s[1] == 0 && s[2] == 0 && s[3] == 0 && s[4] == 0 && s[5] == 0
                && s[6] == 0;
            proof {
                assert(head == (forall|i: int| 0 <= i < 7 ==> #[trigger] s[i] == 0)) by {
                    assert(s[0] == s@[0] && s[1] == s@[1] && s[2] == s@[2] && s[3] == s@[3] && s[4]
                        == s@[4] && s[5] == s@[5] && s[6] == s@[6]);
                }
            }
            let multicast = s[0] >= 0xff00;
            let unique_local = 0xfc00 <= s[0] && s[0] < 0xfe00;
            let link_local = 0xfe80 <= s[0] && s[0] < 0xfec0;
            !(head && s[7] <= 1) && !multicast && !unique_local && !link_local
        },
    }
}

/// Whether a component is an address that can be reached from anywhere.
pub open spec fn routable_part(part: AddrPart) -> bool {
    match part {
        AddrPart::Ip4(a) => routable(Ip::V4(a)),
        AddrPart::Ip6(s) => routable(Ip::V6(s)),
        _ => false,
    }
}

/// Whether any component is an address that can be reached from anywhere.
pub fn is_routable_multiaddr(parts: &[AddrPart]) -> (r: bool)
    ensures
        r == exists|i: int| 0 <= i < parts@.len() && routable_part(#[trigger] parts@[i]),
{
    let mut i: usize = 0;
    while i < parts.len()
        invariant
            i <= parts@.len(),
            forall|j: int| 0 <= j < i ==> !routable_part(#[trigger] parts@[j]),
        decreases parts@.len() - i,
    {
        let ok = match parts[i] {
            AddrPart::Ip4(a) => is_routable_ip(&Ip::V4(a)),
            AddrPart::Ip6(s) => is_routable_ip(&Ip::V6(s)),
            _ => false,
        };
        if ok {
            assert(routable_part(parts@[i as int]));
            return true;
        }
        i += 1;
    }
    false
}

/// The last TCP port of an address.
pub open spec fn last_tcp(parts: Seq<AddrPart>) -> Option<u16>
    decreases parts.len(),
{
    if parts.len() == 0 {
        None
    } else {
        match parts.last() {
            AddrPart::Tcp(port) => Some(port),
            _ => last_tcp(parts.drop_last()),
        }
    }
}

/// The last UDP port of an address.
pub open spec fn last_udp(parts: Seq<AddrPart>) -> Option<u16>
    decreases parts.len(),
{
    if parts.len() == 0 {
        None
    } else {
        match parts.last() {
            AddrPart::Udp(port) => Some(port),
            _ => last_udp(parts.drop_last()),
        }
    }
}

/// Whether an address speaks QUIC.
pub open spec fn speaks_quic(parts: Seq<AddrPart>) -> bool {
    exists|i: int| 0 <= i < parts.len() && (#[trigger] parts[i]) is QuicV1
}

/// The component that names an IP address.
pub open spec fn ip_part(ip: Ip) -> AddrPart {
    match ip {
        Ip::V4(a) => AddrPart::Ip4(a),
        Ip::V6(s) => AddrPart::Ip6(s),
    }
}

/// The address under which others reach what listens on `listener`: the given IP address with the
/// listener's TCP port, or else, where it speaks QUIC, with its UDP port.
pub open spec fn advertised(listener: Seq<AddrPart>, ip: Ip) -> Option<Seq<AddrPart>> {
    match (last_tcp(listener), last_udp(listener)) {
        (Some(port), _) => Some(seq![ip_part(ip), AddrPart::Tcp(port)]),
        (None, Some(port)) => if speaks_quic(listener) {
            Some(seq![ip_part(ip), AddrPart::Udp(port), AddrPart::QuicV1])
        } else {
            None
        },
        (None, None) => None,
    }
}

/// Works out the address under which others reach what listens on `listener`.
pub fn build_advertised_multiaddr(listener: &[AddrPart], ip: Ip) -> (r: Option<Vec<AddrPart>>)
    ensures
        match advertised(listener@, ip) {
            Some(parts) => r is Some && r->0@ == parts,
            None => r is None,
        },
{
    let mut tcp_port: Option<u16> = None;
    let mut udp_port: Option<u16> = None;
    let mut has_quic_v1 = false;
    let mut i: usize = 0;
    while i < listener.len()
        invariant
            i <= listener@.len(),
            tcp_port == last_tcp(listener@.take(i as int)),
            udp_port == last_udp(listener@.take(i as int)),
            has_quic_v1 == speaks_quic(listener@.take(i as int)),
        decreases listener@.len() - i,
    {
        let ghost before = listener@.take(i as int);
        let ghost after = listener@.take(i + 1);
        assert(after.drop_last() =~= before);
        assert(after.last() == listener@[i as int]);
        proof {
            if speaks_quic(before) {
                let k = choose|k: int| 0 <= k < before.len() && (#[trigger] before[k]) is QuicV1;
                assert(after[k] is QuicV1);
            }
            if speaks_quic(after) {
                let k = choose|k: int| 0 <= k < after.len() && (#[trigger] after[k]) is QuicV1;
                if k < i {
                    assert(before[k] is QuicV1);
                }
            }
            assert(after[i as int] == listener@[i as int]);
        }
        match listener[i] {
            AddrPart::Tcp(port) => {
                tcp_port = Some(port);
            },
            AddrPart::Udp(port) => {
                udp_port = Some(port);
            },
            AddrPart::QuicV1 => {
                has_quic_v1 = true;
            },
            _ => {},
        }
        i += 1;
    }
    assert(listener@.take(i as int) =~= listener@);
    let host = match ip {
        Ip::V4(a) => AddrPart::Ip4(a),
        Ip::V6(s) => AddrPart::Ip6(s),
    };
    match tcp_port {
        Some(port) => {
            let v = vec![host, AddrPart::Tcp(port)];
            assert(v@ =~= seq![ip_part(ip), AddrPart::Tcp(port)]);
            Some(v)
        },
        None => match udp_port {
            Some(port) => {
                if has_quic_v1 {
                    let v = vec![host, AddrPart::Udp(port), AddrPart::QuicV1];
                    assert(v@ =~= seq![ip_part(ip), AddrPart::Udp(port), AddrPart::QuicV1]);
                    Some(v)
                } else {
                    None
                }
            },
            None => None,
        },
    }
}

/// The first IPv4 address among the components.
pub fn try_extract_ipv4_from_multiaddr(parts: &[AddrPart]) -> (r: Option<[u8; 4]>)
    ensures
        match r {
            Some(a) => exists|i: int|
                0 <= i < parts@.len() && #[trigger] parts@[i] == AddrPart::Ip4(a) && forall|j: int|
                    0 <= j < i ==> !((#[trigger] parts@[j]) is Ip4),
            None => forall|j: int| 0 <= j < parts@.len() ==> !((#[trigger] parts@[j]) is Ip4),
        },
{
    let mut i: usize = 0;
    while i < parts.len()
        invariant
            i <= parts@.len(),
            forall|j: int| 0 <= j < i ==> !((#[trigger] parts@[j]) is Ip4),
        decreases parts@.len() - i,
    {
        if let AddrPart::Ip4(a) = parts[i] {
            assert(parts@[i as int] == AddrPart::Ip4(a));
            return Some(a);
        }
        i += 1;
    }
    None
}

/// Addresses of version 4 that no other network reaches: none at all, the machine itself, private
/// networks, the link, everybody, and those kept for examples.
pub proof fn local_addresses_are_not_routable(a: [u8; 4])
    ensures
        a[0] == 0 && a[1] == 0 && a[2] == 0 && a[3] == 0 ==> !routable(Ip::V4(a)),
        a[0] == 255 && a[1] == 255 && a[2] == 255 && a[3] == 255 ==> !routable(Ip::V4(a)),
        a[0] == 127 ==> !routable(Ip::V4(a)),
        a[0] == 10 ==> !routable(Ip::V4(a)),
        a[0] == 172 && 16 <= a[1] < 32 ==> !routable(Ip::V4(a)),
        a[0] == 192 && a[1] == 168 ==> !routable(Ip::V4(a)),
        a[0] == 169 && a[1] == 254 ==> !routable(Ip::V4(a)),
        a[0] == 192 && a[1] == 0 && a[2] == 2 ==> !routable(Ip::V4(a)),
        a[0] == 198 && a[1] == 51 && a[2] == 100 ==> !routable(Ip::V4(a)),
        a[0] == 203 && a[1] == 0 && a[2] == 113 ==> !routable(Ip::V4(a)),
{
    if a[0] == 0 && a[1] == 0 && a[2] == 0 && a[3] == 0 {
        assert(a@ =~= seq![0u8, 0u8, 0u8, 0u8]);
    }
    if a[0] == 255 && a[1] == 255 && a[2] == 255 && a[3] == 255 {
        assert(a@ =~= seq![255u8, 255u8, 255u8, 255u8]);
    }
}

/// All other addresses of version 4 are routable.
pub proof fn other_addresses_are_routable(a: [u8; 4])
    requires
        a[0] != 127 && a[0] != 10,
        a[0] == 0 || a[0] == 255 ==> 0 < a[3] < 255,
        a[0] == 172 ==> a[1] < 16 || a[1] >= 32,
        a[0] == 192 ==> a[1] != 168 && a[1] != 0,
        a[0] == 169 ==> a[1] != 254,
        a[0] == 198 ==> a[1] != 51,
        a[0] == 203 ==> a[1] != 0,
    ensures
        routable(Ip::V4(a)),
{
    assert(a@[0] == a[0] && a@[3] == a[3]);
}

/// Of the addresses of version 6 those are routable that are not all zero up to a last part of at
/// most one, and that do not begin with `ff`, with `fc` or `fd`, or with `fe8` to `feb`.
pub proof fn routable_addresses_of_version_six(s: [u16; 8])
    ensures
        s[0] >= 0xff00 ==> !routable(Ip::V6(s)),
        0xfc00 <= s[0] <= 0xfdff ==> !routable(Ip::V6(s)),
        0xfe80 <= s[0] <= 0xfebf ==> !routable(Ip::V6(s)),
        s[0] == 0 && s[1] == 0 && s[2] == 0 && s[3] == 0 && s[4] == 0 && s[5] == 0 && s[6] == 0
            && s[7] <= 1 ==> !routable(Ip::V6(s)),
        0 < s[0] < 0xfc00 || 0xfec0 <= s[0] < 0xff00 || 0xfe00 <= s[0] < 0xfe80 ==> routable(
            Ip::V6(s),
        ),
        s[0] == 0 && s[7] > 1 ==> routable(Ip::V6(s)),
{
}

/// The port of an address is that of its last part for it.
pub proof fn the_last_port_counts(parts: Seq<AddrPart>, i: int, port: u16)
    ensures
        0 <= i < parts.len() && parts[i] == AddrPart::Tcp(port) && (forall|j: int|
            i < j < parts.len() ==> !((#[trigger] parts[j]) is Tcp)) ==> last_tcp(parts) == Some(
            port,
        ),
        0 <= i < parts.len() && parts[i] == AddrPart::Udp(port) && (forall|j: int|
            i < j < parts.len() ==> !((#[trigger] parts[j]) is Udp)) ==> last_udp(parts) == Some(
            port,
        ),
        (forall|j: int| 0 <= j < parts.len() ==> !((#[trigger] parts[j]) is Tcp)) ==> last_tcp(
            parts,
        ) is None,
        (forall|j: int| 0 <= j < parts.len() ==> !((#[trigger] parts[j]) is Udp)) ==> last_udp(
            parts,
        ) is None,
    decreases parts.len(),
{
    if parts.len() > 0 {
        let front = parts.drop_last();
        the_last_port_counts(front, i, port);
        assert(parts[parts.len() - 1] == parts.last());
        if 0 <= i && (forall|j: int|
            i < j < parts.len() ==> !((#[trigger] parts[j]) is Tcp)) {
            assert forall|j: int| i < j < front.len() implies !((#[trigger] front[j]) is Tcp) by {
                assert(!(parts[j] is Tcp));
            }
        }
        if 0 <= i && (forall|j: int|
            i < j < parts.len() ==> !((#[trigger] parts[j]) is Udp)) {
            assert forall|j: int| i < j < front.len() implies !((#[trigger] front[j]) is Udp) by {
                assert(!(parts[j] is Udp));
            }
        }
        if forall|j: int| 0 <= j < parts.len() ==> !((#[trigger] parts[j]) is Tcp) {
            assert forall|j: int| 0 <= j < front.len() implies !((#[trigger] front[j]) is Tcp) by {
                assert(!(parts[j] is Tcp));
            }
        }
        if forall|j: int| 0 <= j < parts.len() ==> !((#[trigger] parts[j]) is Udp) {
            assert forall|j: int| 0 <= j < front.len() implies !((#[trigger] front[j]) is Udp) by {
                assert(!(parts[j] is Udp));
            }
        }
    }
}

/// What is advertised begins with the given address. A listener with a port for TCP is advertised
/// by it; one without, by its port for UDP, and only if it speaks QUIC.
pub proof fn listeners_are_advertised_by_their_port(listener: Seq<AddrPart>, ip: Ip)
    ensures
        ({
            let tcp = exists|i: int| 0 <= i < listener.len() && (#[trigger] listener[i]) is Tcp;
            let udp = exists|i: int| 0 <= i < listener.len() && (#[trigger] listener[i]) is Udp;
            let quic = exists|i: int| 0 <= i < listener.len() && (#[trigger] listener[i]) is QuicV1;
            &&& advertised(listener, ip) is Some <==> tcp || (udp && quic)
            &&& advertised(listener, ip) matches Some(r) ==> {
                &&& ip matches Ip::V4(a) ==> r[0] == AddrPart::Ip4(a)
                &&& ip matches Ip::V6(s) ==> r[0] == AddrPart::Ip6(s)
                &&& tcp ==> r.len() == 2 && r[1] is Tcp && listener.contains(r[1])
                &&& !tcp ==> r.len() == 3 && r[1] is Udp && listener.contains(r[1])
                    && r[2] is QuicV1
            }
        }),
{
    ports_are_found(listener);
}

proof fn ports_are_found(parts: Seq<AddrPart>)
    ensures
        last_tcp(parts) is Some <==> exists|i: int|
            0 <= i < parts.len() && (#[trigger] parts[i]) is Tcp,
        last_udp(parts) is Some <==> exists|i: int|
            0 <= i < parts.len() && (#[trigger] parts[i]) is Udp,
        last_tcp(parts) matches Some(p) ==> parts.contains(AddrPart::Tcp(p)),
        last_udp(parts) matches Some(p) ==> parts.contains(AddrPart::Udp(p)),
    decreases parts.len(),
{
    if parts.len() > 0 {
        let front = parts.drop_last();
        let n = front.len() as int;
        ports_are_found(front);
        assert(parts[n] == parts.last());
        if exists|i: int| 0 <= i < parts.len() && (#[trigger] parts[i]) is Tcp {
            let i = choose|i: int| 0 <= i < parts.len() && (#[trigger] parts[i]) is Tcp;
            if i < n {
                assert(front[i] is Tcp);
            }
        }
        if exists|i: int| 0 <= i < parts.len() && (#[trigger] parts[i]) is Udp {
            let i = choose|i: int| 0 <= i < parts.len() && (#[trigger] parts[i]) is Udp;
            if i < n {
                assert(front[i] is Udp);
            }
        }
        if let Some(p) = last_tcp(front) {
            let i = choose|i: int| 0 <= i < front.len() && front[i] == AddrPart::Tcp(p);
            assert(parts[i] == AddrPart::Tcp(p));
        }
        if let Some(p) = last_udp(front) {
            let i = choose|i: int| 0 <= i < front.len() && front[i] == AddrPart::Udp(p);
            assert(parts[i] == AddrPart::Udp(p));
        }
    }
}

} // verus!
