//! What is settled when the node starts: its arguments, the genesis, the settings, the accounts
//! and the order of the validators.
use vstd::prelude::*;

use crate::bytes;
use crate::bytes::comes_before;
use crate::bytes::push_bytes;
use crate::bytes::push_u128;
use crate::bytes::push_u64;
use crate::bytes::to_array32;
use crate::crypto;
use crate::crypto::hex_decode;
use crate::crypto::sha256;
use crate::crypto::sha512;
use crate::finality;
use crate::finality::encode_chain_head;
use crate::registry::DEFAULT_REGISTRY_TTL_SECS;
use crate::text;
use crate::text::equal_ignoring_ascii_case;
use crate::text::parse_u64;
use crate::text::same_text;
use crate::text::strip_prefix;
use crate::text::trim;
use crate::text_set;

verus! {

/// Where the settings are where no argument says so.
pub const DEFAULT_CONFIG_PATH: &'static str = "masternode/masternode.toml";

/// What the arguments ask for.
#[derive(Debug)]
pub enum Invocation {
    /// To be told how the program is called.
    Help,
    /// To run with the settings in this file.
    Run(String),
    /// A file was announced but not named.
    MissingPath,
}

/// Whether an invocation is what the arguments, without the name of the program, ask for.
pub open spec fn asks_for(args: Seq<String>, r: Invocation) -> bool {
    if args.len() == 0 {
        r is Run && r->Run_0@ == DEFAULT_CONFIG_PATH@
    } else if args[0]@ == "--help"@ || args[0]@ == "-h"@ {
        r is Help
    } else if args[0]@ == "--config"@ || args[0]@ == "-c"@ {
        if args.len() < 2 {
            r is MissingPath
        } else {
            r is Run && r->Run_0@ == args[1]@
        }
    } else {
        r is Run && r->Run_0@ == args[0]@
    }
}

/// Reads the arguments, without the name of the program.
pub fn parse_arguments(args: &[String]) -> (r: Invocation)
    ensures
        asks_for(args@, r),
{
    if args.len() == 0 {
        return Invocation::Run(DEFAULT_CONFIG_PATH.to_owned());
    }
    let first = args[0].as_str();
    if same_text(first, "--help") || same_text(first, "-h") {
        return Invocation::Help;
    }
    if same_text(first, "--config") || same_text(first, "-c") {
        if args.len() < 2 {
            return Invocation::MissingPath;
        }
        return Invocation::Run(args[1].clone());
    }
    Invocation::Run(args[0].clone())
}

/// The latest height that the consensus stored: the first eight bytes, if there are as many.
pub open spec fn is_latest_height(data: Seq<u8>, r: Option<u64>) -> bool {
    match r {
        Some(height) => data.len() >= 8 && bytes::u64_le(height) == data.subrange(0, 8),
        None => data.len() < 8,
    }
}

/// Reads the latest height that the consensus stored.
pub fn decode_latest_height(data: &[u8]) -> (r: Option<u64>)
    ensures
        is_latest_height(data@, r),
{
    if data.len() < 8 {
        return None;
    }
    proof {
        vstd::bytes::lemma_auto_spec_u64_to_from_le_bytes();
    }
    Some(vstd::bytes::u64_from_le_bytes(vstd::slice::slice_subrange(data, 0, 8)))
}

/// Reads a stored genesis time: eight bytes and no more.
pub fn decode_genesis_ts(data: &[u8]) -> (r: Option<u64>)
    ensures
        match r {
            Some(ts) => data@.len() == 8 && bytes::u64_le(ts) == data@,
            None => data@.len() != 8,
        },
{
    if data.len() != 8 {
        return None;
    }
    proof {
        vstd::bytes::lemma_auto_spec_u64_to_from_le_bytes();
    }
    Some(vstd::bytes::u64_from_le_bytes(data))
}

/// A stored genesis time is read back.
pub proof fn genesis_ts_is_read_back(ts: u64, read: u64)
    requires
        bytes::u64_le(read) == bytes::u64_le(ts),
    ensures
        read == ts,
{
    vstd::bytes::lemma_auto_spec_u64_to_from_le_bytes();
}

/// The genesis time of the node.
#[derive(Debug, Clone, Copy, PartialEq, Eq, Structural)]
pub struct GenesisTime {
    pub timestamp_ms: u64,
    /// Whether it is still to be stored.
    pub persist: bool,
}

/// Why the genesis time is not settled: the environment and the database disagree.
#[derive(Debug, Clone, Copy, PartialEq, Eq, Structural)]
pub struct GenesisMismatch {
    pub env: u64,
    pub db: u64,
}

/// The genesis time: that of the environment, or else that of the database, or else that of the
/// settings, or else now. One that is not in the database yet is to be stored.
pub open spec fn genesis_time(env: Option<u64>, db: Option<u64>, cfg: u64, now: u64) -> Result<
    GenesisTime,
    GenesisMismatch,
> {
    match (env, db) {
        (Some(e), Some(d)) => if e != d {
            Err(GenesisMismatch { env: e, db: d })
        } else {
            Ok(GenesisTime { timestamp_ms: e, persist: false })
        },
        (Some(e), None) => Ok(GenesisTime { timestamp_ms: e, persist: true }),
        (None, Some(d)) => Ok(GenesisTime { timestamp_ms: d, persist: false }),
        (None, None) => Ok(
            GenesisTime {
                timestamp_ms: if cfg > 0 {
                    cfg
                } else {
                    now
                },
                persist: true,
            },
        ),
    }
}

/// Settles the genesis time. A setting in the environment that is not a number does not count.
pub fn resolve_genesis(env: Option<&str>, db: Option<u64>, cfg: u64, now: u64) -> (r: Result<
    GenesisTime,
    GenesisMismatch,
>)
    ensures
        r == genesis_time(
            match env {
                Some(t) => text::parsed_u64(t@),
                None => None,
            },
            db,
            cfg,
            now,
        ),
{
    let env_genesis: Option<u64> = match env {
        Some(t) => parse_u64(t),
        None => None,
    };
    match (env_genesis, db) {
        (Some(e), Some(d)) => if e != d {
            Err(GenesisMismatch { env: e, db: d })
        } else {
            Ok(GenesisTime { timestamp_ms: e, persist: false })
        },
        (Some(e), None) => Ok(GenesisTime { timestamp_ms: e, persist: true }),
        (None, Some(d)) => Ok(GenesisTime { timestamp_ms: d, persist: false }),
        (None, None) => Ok(
            GenesisTime {
                timestamp_ms: if cfg > 0 {
                    cfg
                } else {
                    now
                },
                persist: true,
            },
        ),
    }
}

/// The genesis time stays what it was at the first start: where it was stored, the next start
/// settles on it again, as long as the environment does not say otherwise.
pub proof fn genesis_is_stable(
    env: Option<u64>,
    cfg: u64,
    now: u64,
    later_cfg: u64,
    later_now: u64,
)
    ensures
        ({
            let first = genesis_time(env, None, cfg, now);
            &&& first is Ok
            &&& first->Ok_0.persist
            &&& genesis_time(env, Some(first->Ok_0.timestamp_ms), later_cfg, later_now) == Ok::<
                GenesisTime,
                GenesisMismatch,
            >(GenesisTime { timestamp_ms: first->Ok_0.timestamp_ms, persist: false })
            &&& genesis_time(None, Some(first->Ok_0.timestamp_ms), later_cfg, later_now) == Ok::<
                GenesisTime,
                GenesisMismatch,
            >(GenesisTime { timestamp_ms: first->Ok_0.timestamp_ms, persist: false })
        }),
{
}

/// How many slots an epoch has: a positive number in the environment, or else the setting.
pub fn resolve_slots_per_epoch(env: Option<&str>, cfg: u64) -> (r: u64)
    ensures
        r == (match env {
            Some(t) => match text::parsed_u64(t@) {
                Some(n) if n > 0 => n,
                _ => cfg,
            },
            None => cfg,
        }),
{
    match env {
        Some(t) => match parse_u64(t) {
            Some(n) => if n > 0 {
                n
            } else {
                cfg
            },
            None => cfg,
        },
        None => cfg,
    }
}

/// How many members a group must have: a number from two up in the environment, or else the
/// setting.
pub fn resolve_min_group_size(env: Option<&str>, cfg: usize) -> (r: usize)
    ensures
        r == (match env {
            Some(t) => match text::parsed_u64(t@) {
                Some(n) if 2 <= n <= usize::MAX => n as usize,
                _ => cfg,
            },
            None => cfg,
        }),
{
    match env {
        Some(t) => match parse_u64(t) {
            Some(n) => if n >= 2 && n <= usize::MAX as u64 {
                n as usize
            } else {
                cfg
            },
            None => cfg,
        },
        None => cfg,
    }
}

/// Whether groups are formed by region: where the environment says `1` or `true`.
pub fn resolve_geographic_distribution(env: Option<&str>) -> (r: bool)
    ensures
        r == (match env {
            Some(t) => t@ == "1"@ || text::same_ignoring_ascii_case(t@, "true"@),
            None => false,
        }),
{
    match env {
        Some(t) => same_text(t, "1") || equal_ignoring_ascii_case(t, "true"),
        None => false,
    }
}

/// How many masternodes may be faulty: fewer than a third.
pub fn max_faulty(total_masternodes: usize) -> (r: usize)
    ensures
        total_masternodes == 0 ==> r == 0,
        total_masternodes > 0 ==> 3 * r < total_masternodes <= 3 * r + 3,
{
    total_masternodes.saturating_sub(1) / 3
}

/// How long a peer's record counts: the setting, or the usual time where there is none.
pub fn resolve_registry_ttl(registry_ttl_secs: u64) -> (r: u64)
    ensures
        r == if registry_ttl_secs == 0 {
            DEFAULT_REGISTRY_TTL_SECS
        } else {
            registry_ttl_secs
        },
        registry_ttl_secs == 0 ==> r == 300,
{
    if registry_ttl_secs == 0 {
        DEFAULT_REGISTRY_TTL_SECS
    } else {
        registry_ttl_secs
    }
}

/// The hash of the genesis block.
pub open spec fn genesis_hash_of(timestamp_ms: u64) -> Seq<u8> {
    crypto::sha512_of(text::utf8("SAVITRI_GENESIS_v1"@) + bytes::u64_le(timestamp_ms))
}

/// The hash of the genesis block.
pub fn genesis_hash(timestamp_ms: u64) -> (r: [u8; 64])
    ensures
        r@ == genesis_hash_of(timestamp_ms),
{
    let mut data: Vec<u8> = Vec::new();
    push_bytes(&mut data, "SAVITRI_GENESIS_v1".as_bytes());
    push_u64(&mut data, timestamp_ms);
    assert(data@ =~= text::utf8("SAVITRI_GENESIS_v1"@) + bytes::u64_le(timestamp_ms));
    sha512(data.as_slice())
}

/// The chain head to be stored where there is none: the genesis block at height zero.
pub fn genesis_chain_head(stored: Option<&[u8]>, timestamp_ms: u64) -> (r: Option<Vec<u8>>)
    ensures
        r is Some == stored is None,
        r matches Some(head) ==> head@ == finality::chain_head_bytes(
            genesis_hash_of(timestamp_ms),
            0,
        ),
{
    match stored {
        Some(_) => None,
        None => {
            let hash = genesis_hash(timestamp_ms);
            Some(encode_chain_head(&hash, 0))
        },
    }
}

/// What is left of an entry for an account: without white space around it, and without `0x`.
pub open spec fn account_digits(entry: Seq<char>) -> Seq<char> {
    let t = text::trimmed_right(text::trimmed_left(entry));
    if "0x"@.is_prefix_of(t) {
        t.skip("0x"@.len() as int)
    } else {
        t
    }
}

/// An entry for an account.
#[derive(Debug, Clone, Copy)]
pub enum AccountEntry {
    Empty,
    /// It is not 32 bytes in hexadecimal.
    Invalid,
    Account([u8; 32]),
}

/// Whether `r` is what an entry for an account stands for.
pub open spec fn is_account(entry: Seq<char>, r: AccountEntry) -> bool {
    let d = account_digits(entry);
    if d.len() == 0 {
        r is Empty
    } else if crypto::is_hex_text(d) && crypto::hex_bytes(d).len() == 32 {
        r is Account && r->Account_0@ == crypto::hex_bytes(d)
    } else {
        r is Invalid
    }
}

/// Reads an entry for an account.
pub fn parse_account(entry: &str) -> (r: AccountEntry)
    ensures
        is_account(entry@, r),
{
    let t = trim(entry);
    let digits = match strip_prefix(t, "0x") {
        Some(rest) => {
            assert(rest@ =~= t@.skip("0x"@.len() as int));
            rest
        },
        None => t,
    };
    if digits.unicode_len() == 0 {
        return AccountEntry::Empty;
    }
    match hex_decode(digits) {
        Some(data) => if data.len() == 32 {
            AccountEntry::Account(to_array32(data.as_slice()))
        } else {
            AccountEntry::Invalid
        },
        None => AccountEntry::Invalid,
    }
}

/// How many of the smallest units a coin has.
pub const UNITS_PER_COIN: u128 = 1_000_000_000_000_000_000;

/// An account as it is stored: the balance, then how often it was used.
pub open spec fn account_bytes(balance: u128, nonce: u64) -> Seq<u8> {
    bytes::u128_le(balance) + bytes::u64_le(nonce)
}

/// A fresh account with so many coins, as it is stored.
pub fn encode_genesis_account(coins: u64) -> (r: Vec<u8>)
    ensures
        r@ == account_bytes((coins * UNITS_PER_COIN) as u128, 0),
        r@.len() == 24,
        vstd::bytes::spec_u128_from_le_bytes(r@.subrange(0, 16)) == coins
            * 1_000_000_000_000_000_000,
        vstd::bytes::spec_u64_from_le_bytes(r@.subrange(16, 24)) == 0,
{
    assert(coins * UNITS_PER_COIN <= u128::MAX) by (nonlinear_arith)
        requires
            coins <= 0xffff_ffff_ffff_ffff,
            UNITS_PER_COIN == 1_000_000_000_000_000_000,
    ;
    let balance: u128 = coins as u128 * UNITS_PER_COIN;
    let mut out: Vec<u8> = Vec::new();
    push_u128(&mut out, balance);
    push_u64(&mut out, 0);
    assert(out@ =~= account_bytes(balance, 0));
    proof {
        account_layout(balance, 0);
    }
    out
}

/// The accounts that valid entries stand for, among the first `n`.
pub open spec fn accounts_of(entries: Seq<String>, n: int) -> Seq<Seq<u8>>
    decreases n,
{
    if n <= 0 {
        Seq::empty()
    } else {
        let d = account_digits(entries[n - 1]@);
        let front = accounts_of(entries, n - 1);
        if d.len() > 0 && crypto::is_hex_text(d) && crypto::hex_bytes(d).len() == 32 {
            front.push(crypto::hex_bytes(d))
        } else {
            front
        }
    }
}

/// The accounts to be made at genesis; entries that are empty or not valid are passed over.
pub fn genesis_accounts(entries: &[String]) -> (r: Vec<[u8; 32]>)
    ensures
        r@.map_values(|a: [u8; 32]| a@) == accounts_of(entries@, entries@.len() as int),
{
    let ghost view = |a: [u8; 32]| a@;
    let mut out: Vec<[u8; 32]> = Vec::new();
    let mut i: usize = 0;
    assert(out@.map_values(view) =~= accounts_of(entries@, 0));
    while i < entries.len()
        invariant
            i <= entries@.len(),
            view == (|a: [u8; 32]| a@),
            out@.map_values(view) == accounts_of(entries@, i as int),
        decreases entries@.len() - i,
    {
        let ghost before = out@;
        match parse_account(entries[i].as_str()) {
            AccountEntry::Account(a) => {
                out.push(a);
                assert(out@.map_values(view) =~= before.map_values(view).push(a@));
            },
            _ => {},
        }
        i += 1;
    }
    out
}

/// The address that rewards go to where the settings name one: 32 bytes in hexadecimal.
pub open spec fn is_reward_address(setting: Seq<char>, r: Option<[u8; 32]>) -> bool {
    let d = text::trimmed_right(text::trimmed_left(setting));
    match r {
        Some(a) => crypto::is_hex_text(d) && crypto::hex_bytes(d) == a@,
        None => !(crypto::is_hex_text(d) && crypto::hex_bytes(d).len() == 32),
    }
}

/// Reads the address that rewards go to.
pub fn parse_reward_address(setting: &str) -> (r: Option<[u8; 32]>)
    ensures
        is_reward_address(setting@, r),
{
    match hex_decode(trim(setting)) {
        Some(data) => if data.len() == 32 {
            Some(to_array32(data.as_slice()))
        } else {
            None
        },
        None => None,
    }
}

/// The address that a masternode's rewards go to: the one in the settings for this node, or else
/// the hash of its identifier.
pub fn reward_address(masternode_id: &str, local_id: &str, configured: Option<[u8; 32]>) -> (r: [u8;
    32])
    ensures
        masternode_id@ == local_id@ && configured is Some ==> r == configured->0,
        !(masternode_id@ == local_id@ && configured is Some) ==> r@ == crypto::sha256_of(
            text::utf8(masternode_id@),
        ),
{
    if same_text(masternode_id, local_id) {
        if let Some(address) = configured {
            return address;
        }
    }
    sha256(masternode_id.as_bytes())
}

/// How many masternodes vote on the blocks of a group: all of them, and at least one.
pub fn voters_of_a_group(masternodes: usize) -> (r: usize)
    ensures
        r == if masternodes == 0 {
            1
        } else {
            masternodes as int
        },
{
    if masternodes == 0 {
        1
    } else {
        masternodes
    }
}

/// Whether texts come in dictionary order.
pub open spec fn in_dictionary_order(list: Seq<Seq<char>>) -> bool {
    forall|i: int, j: int|
        0 <= i < j < list.len() ==> !bytes::lex_before(
            text::utf8(#[trigger] list[j]),
            text::utf8(#[trigger] list[i]),
        )
}

proof fn not_before_is_transitive(a: Seq<u8>, b: Seq<u8>, c: Seq<u8>)
    requires
        !bytes::lex_before(b, a),
        !bytes::lex_before(c, b),
    ensures
        !bytes::lex_before(c, a),
{
    bytes::lex_total(a, b);
    bytes::lex_total(b, c);
    bytes::lex_total(a, c);
    if bytes::lex_before(a, b) && bytes::lex_before(b, c) {
        bytes::lex_transitive(a, b, c);
    }
}

proof fn insertion_keeps_order(list: Seq<Seq<char>>, p: int, x: Seq<char>)
    requires
        in_dictionary_order(list),
        0 <= p <= list.len(),
        forall|k: int|
            0 <= k < p ==> !bytes::lex_before(text::utf8(x), text::utf8(#[trigger] list[k])),
        p < list.len() ==> bytes::lex_before(text::utf8(x), text::utf8(list[p])),
    ensures
        in_dictionary_order(list.insert(p, x)),
        list.insert(p, x).to_multiset() == list.to_multiset().insert(x),
{
    let t = list.insert(p, x);
    assert(t.remove(p) =~= list);
    assert(t[p] == x);
    assert(t.contains(x));
    vstd::seq_lib::to_multiset_remove(t, p);
    vstd::seq_lib::to_multiset_contains(t, x);
    assert(t.to_multiset() =~= list.to_multiset().insert(x));
    assert forall|a: int, b: int| 0 <= a < b < t.len() implies !bytes::lex_before(
        text::utf8(#[trigger] t[b]),
        text::utf8(#[trigger] t[a]),
    ) by {
        let a0 = if a < p {
            a
        } else {
            a - 1
        };
        let b0 = if b < p {
            b
        } else {
            b - 1
        };
        if a != p {
            assert(t[a] == list[a0]);
        }
        if b != p {
            assert(t[b] == list[b0]);
        }
        if a == p {
            bytes::lex_total(text::utf8(x), text::utf8(list[p]));
            if b0 > p {
                assert(!bytes::lex_before(text::utf8(list[b0]), text::utf8(list[p])));
                not_before_is_transitive(
                    text::utf8(x),
                    text::utf8(list[p]),
                    text::utf8(list[b0]),
                );
            }
        }
    }
}

/// The validators in dictionary order, which is the same on every node.
pub fn order_validators(validators: Vec<String>) -> (r: Vec<String>)
    ensures
        in_dictionary_order(text_set::texts(r@)),
        text_set::texts(r@).to_multiset() == text_set::texts(validators@).to_multiset(),
{
    let ghost v = validators@;
    let ghost all = text_set::texts(v);
    let mut out: Vec<String> = Vec::new();
    assert(text_set::texts(out@) =~= all.take(0));
    for id in it: validators
        invariant
            it.seq() == v,
            all == text_set::texts(v),
            in_dictionary_order(text_set::texts(out@)),
            text_set::texts(out@).to_multiset() == all.take(it.index() as int).to_multiset(),
    {
        let ghost n = it.index() as int;
        let ghost l = text_set::texts(out@);
        let mut p: usize = 0;
        while p < out.len() && !comes_before(id.as_str().as_bytes(), out[p].as_str().as_bytes())
            invariant
                p <= out@.len(),
                l == text_set::texts(out@),
                forall|k: int|
                    0 <= k < p ==> !bytes::lex_before(
                        text::utf8(id@),
                        text::utf8(#[trigger] l[k]),
                    ),
            decreases out@.len() - p,
        {
            assert(l[p as int] == out@[p as int]@);
            p += 1;
        }
        let ghost x = id@;
        proof {
            if p < out@.len() {
                assert(l[p as int] == out@[p as int]@);
            }
            insertion_keeps_order(l, p as int, x);
            assert(all.take(n + 1) =~= all.take(n).push(x));
            vstd::seq_lib::to_multiset_build(all.take(n), x);
        }
        out.insert(p, id);
        assert(text_set::texts(out@) =~= l.insert(p as int, x));
    }
    assert(all.take(v.len() as int) =~= all);
    out
}

proof fn last_in_order(list: Seq<Seq<char>>, x: Seq<char>)
    requires
        in_dictionary_order(list),
        list.contains(x),
    ensures
        !bytes::lex_before(text::utf8(list.last()), text::utf8(x)),
{
    let i = choose|i: int| 0 <= i < list.len() && list[i] == x;
    bytes::lex_total(text::utf8(x), text::utf8(x));
    if i < list.len() - 1 {
        assert(!bytes::lex_before(text::utf8(list[list.len() - 1]), text::utf8(list[i])));
    }
}

/// Every node that knows the same validators puts them in the same order.
pub proof fn validators_are_ordered_alike(first: Seq<Seq<char>>, second: Seq<Seq<char>>)
    requires
        in_dictionary_order(first),
        in_dictionary_order(second),
        first.to_multiset() == second.to_multiset(),
    ensures
        first == second,
    decreases first.len(),
{
    broadcast use vstd::seq_lib::group_to_multiset_ensures;

    assert(first.len() == first.to_multiset().len());
    assert(second.len() == second.to_multiset().len());
    if first.len() > 0 {
        let n = first.len() - 1;
        let x = first[n];
        let y = second[n];
        assert(first.contains(x));
        assert(second.to_multiset().count(x) > 0);
        assert(second.contains(y));
        assert(first.to_multiset().count(y) > 0);
        last_in_order(second, x);
        last_in_order(first, y);
        bytes::lex_total(text::utf8(x), text::utf8(y));
        text::utf8_injective(x, y);
        assert(first.remove(n) =~= first.drop_last());
        assert(second.remove(n) =~= second.drop_last());
        validators_are_ordered_alike(first.drop_last(), second.drop_last());
        assert(first =~= first.drop_last().push(x));
        assert(second =~= second.drop_last().push(y));
    } else {
        assert(first =~= second);
    }
}

/// What a call asks for is told by its first argument: help, the path behind the word for it, or
/// the path that the argument itself is; without arguments the usual path counts.
pub proof fn the_first_argument_decides(args: Seq<String>, r: Invocation)
    requires
        asks_for(args, r),
    ensures
        args.len() == 0 ==> r is Run && r->Run_0@ == "masternode/masternode.toml"@,
        args.len() > 0 && (args[0]@ == "--help"@ || args[0]@ == "-h"@) ==> r is Help,
        args.len() > 1 && (args[0]@ == "--config"@ || args[0]@ == "-c"@) ==> r is Run
            && r->Run_0@ == args[1]@,
        args.len() == 1 && (args[0]@ == "--config"@ || args[0]@ == "-c"@) ==> r is MissingPath,
        args.len() > 0 && args[0]@ != "--help"@ && args[0]@ != "-h"@ && args[0]@ != "--config"@
            && args[0]@ != "-c"@ ==> r is Run && r->Run_0@ == args[0]@,
{
    reveal_strlit("--help");
    reveal_strlit("-h");
    reveal_strlit("--config");
    reveal_strlit("-c");
    assert("--help"@.len() == 6 && "-h"@.len() == 2 && "--config"@.len() == 8 && "-c"@.len() == 2);
    assert("-h"@[1] == 'h' && "-c"@[1] == 'c');
}

/// The height that is stored is the number that the first eight bytes are.
pub proof fn heights_are_the_first_bytes(data: Seq<u8>, r: Option<u64>)
    requires
        is_latest_height(data, r),
    ensures
        r is Some <==> data.len() >= 8,
        r matches Some(h) ==> h == vstd::bytes::spec_u64_from_le_bytes(data.subrange(0, 8)),
{
    if let Some(h) = r {
        bytes::numbers_are_read_back(h, 0, 0);
    }
}

/// The time of the genesis is that of the environment, or else the stored one, or else that of
/// the settings, or else now. It is an error only that the environment and what is stored differ,
/// and it is stored exactly where none was.
pub proof fn the_genesis_has_one_time(env: Option<u64>, db: Option<u64>, cfg: u64, now: u64)
    ensures
        ({
            let r = genesis_time(env, db, cfg, now);
            &&& r is Err <==> env is Some && db is Some && env != db
            &&& r matches Err(e) ==> Some(e.env) == env && Some(e.db) == db
            &&& r matches Ok(t) ==> {
                &&& t.persist <==> db is None
                &&& env is Some ==> Some(t.timestamp_ms) == env
                &&& env is None && db is Some ==> Some(t.timestamp_ms) == db
                &&& env is None && db is None && cfg > 0 ==> t.timestamp_ms == cfg
                &&& env is None && db is None && cfg == 0 ==> t.timestamp_ms == now
            }
        }),
{
}

/// An account is stored in 24 bytes: its balance and then its nonce.
pub proof fn account_layout(balance: u128, nonce: u64)
    ensures
        account_bytes(balance, nonce).len() == 24,
        vstd::bytes::spec_u128_from_le_bytes(account_bytes(balance, nonce).subrange(0, 16))
            == balance,
        vstd::bytes::spec_u64_from_le_bytes(account_bytes(balance, nonce).subrange(16, 24))
            == nonce,
{
    bytes::numbers_are_read_back(nonce, 0, balance);
    assert(account_bytes(balance, nonce).subrange(0, 16) =~= bytes::u128_le(balance));
    assert(account_bytes(balance, nonce).subrange(16, 24) =~= bytes::u64_le(nonce));
}

/// An entry is an account exactly if it is 32 bytes in hexadecimal, with or without `0x`; the
/// white space around it does not count. `d` is what is left of it.
pub proof fn accounts_are_written_in_hexadecimal(entry: Seq<char>, d: Seq<char>, r: AccountEntry)
    requires
        is_account(entry, r),
        text::trimmed_right(text::trimmed_left(entry)) == d || text::trimmed_right(
            text::trimmed_left(entry),
        ) == "0x"@ + d,
        !"0x"@.is_prefix_of(d),
    ensures
        r is Empty <==> d.len() == 0,
        r is Account <==> d.len() > 0 && crypto::is_hex_text(d) && crypto::hex_bytes(d).len() == 32,
        r matches AccountEntry::Account(a) ==> a@ == crypto::hex_bytes(d),
{
    reveal_strlit("0x");
    assert("0x"@.len() == 2);
    if text::trimmed_right(text::trimmed_left(entry)) == "0x"@ + d {
        assert(("0x"@ + d).skip(2) =~= d);
        assert("0x"@.is_prefix_of("0x"@ + d));
    }
}

/// The accounts of the genesis are those of the entries that are accounts, in order.
pub proof fn genesis_accounts_come_in_order(entries: Seq<String>, n: int, r: AccountEntry)
    requires
        0 <= n < entries.len(),
        is_account(entries[n]@, r),
    ensures
        accounts_of(entries, 0).len() == 0,
        r matches AccountEntry::Account(a) ==> accounts_of(entries, n + 1) == accounts_of(
            entries,
            n,
        ).push(a@),
        !(r is Account) ==> accounts_of(entries, n + 1) == accounts_of(entries, n),
{
}

/// An address for rewards is the 32 bytes of a setting in hexadecimal, and there is none where
/// the setting is anything else.
pub proof fn rewards_go_to_the_configured_address(setting: Seq<char>, r: Option<[u8; 32]>)
    requires
        is_reward_address(setting, r),
    ensures
        ({
            let d = text::trimmed_right(text::trimmed_left(setting));
            &&& r is Some <==> crypto::is_hex_text(d) && crypto::hex_bytes(d).len() == 32
            &&& r matches Some(a) ==> a@ == crypto::hex_bytes(d)
        }),
{
}

/// The hash of the genesis is that of a word and the time. `data` is what is hashed.
pub proof fn the_genesis_is_known_by_its_time(timestamp_ms: u64, data: Seq<u8>)
    requires
        data.len() >= 8,
        data.take(data.len() - 8) == text::utf8("SAVITRI_GENESIS_v1"@),
        vstd::bytes::spec_u64_from_le_bytes(data.skip(data.len() - 8)) == timestamp_ms,
    ensures
        genesis_hash_of(timestamp_ms) == crypto::sha512_of(data),
{
    vstd::bytes::lemma_auto_spec_u64_to_from_le_bytes();
    assert(data.skip(data.len() - 8) == bytes::u64_le(timestamp_ms));
    assert(data =~= text::utf8("SAVITRI_GENESIS_v1"@) + bytes::u64_le(timestamp_ms));
}

} // verus!
