//! Validation of the transactions of a block proposal.
use vstd::prelude::*;
use vstd::string::StringExecFns;

use crate::bytes;
use crate::bytes::contains_hash;
use crate::bytes::is_zero;
use crate::bytes::push_bytes;
use crate::bytes::push_u64;
use crate::clock::unix_seconds;
use crate::crypto;
use crate::crypto::ed25519_sign;
use crate::crypto::ed25519_verify;
use crate::crypto::hex_encode;
use crate::crypto::sha256;
use crate::crypto::sha512;
use crate::messages::BlockProposal;
use crate::messages::LocalTransaction;
use crate::text;
use crate::text::push_decimal;

verus! {

/// How far the execution of a transaction has come.
#[derive(Debug, Clone, Copy, PartialEq, Eq, Structural)]
pub enum ExecutionStatus {
    Pending,
}

/// A transaction on its way through validation.
#[derive(Debug, Clone)]
pub struct ValidatedTransaction {
    pub tx_hash: [u8; 32],
    pub sender: [u8; 32],
    pub receiver: [u8; 32],
    pub amount: u64,
    pub nonce: u64,
    pub signature: [u8; 64],
    pub processing_group_id: Option<String>,
    pub execution_status: ExecutionStatus,
    pub processed_at: Option<u64>,
    pub block_hash: Option<[u8; 64]>,
    pub is_duplicate: bool,
}

/// What came of the transactions of a block.
#[derive(Debug, Clone)]
pub struct ValidationResult {
    pub is_accepted: bool,
    pub validated_transactions: Vec<ValidatedTransaction>,
    pub duplicate_hashes: Vec<[u8; 32]>,
    pub total_transactions: usize,
    pub unique_transactions: usize,
}

impl From<LocalTransaction> for ValidatedTransaction {
    fn from(tx: LocalTransaction) -> (r: Self) {
        ValidatedTransaction {
            tx_hash: tx.tx_hash,
            sender: tx.sender,
            receiver: tx.receiver,
            amount: tx.amount,
            nonce: tx.nonce,
            signature: tx.signature,
            processing_group_id: None,
            execution_status: ExecutionStatus::Pending,
            processed_at: None,
            block_hash: None,
            is_duplicate: false,
        }
    }
}

impl vstd::std_specs::convert::FromSpecImpl<LocalTransaction> for ValidatedTransaction {
    open spec fn obeys_from_spec() -> bool {
        true
    }

    open spec fn from_spec(tx: LocalTransaction) -> ValidatedTransaction {
        fresh_transaction(tx)
    }
}

/// A transaction of a proposal, before anything is known of it.
pub open spec fn fresh_transaction(tx: LocalTransaction) -> ValidatedTransaction {
    ValidatedTransaction {
        tx_hash: tx.tx_hash,
        sender: tx.sender,
        receiver: tx.receiver,
        amount: tx.amount,
        nonce: tx.nonce,
        signature: tx.signature,
        processing_group_id: None,
        execution_status: ExecutionStatus::Pending,
        processed_at: None,
        block_hash: None,
        is_duplicate: false,
    }
}

/// What the sender of a transaction signs: its hash with that of the block where the block is
/// known, or else with the amount, the receiver and the nonce.
pub open spec fn transaction_message(tx: ValidatedTransaction) -> Seq<u8> {
    match tx.block_hash {
        Some(block_hash) => tx.tx_hash@ + block_hash@,
        None => tx.tx_hash@ + bytes::u64_le(tx.amount) + tx.receiver@ + bytes::u64_le(tx.nonce),
    }
}

/// Whether a transaction is valid: it moves something between two accounts, and its sender signed
/// the digest of its message.
pub open spec fn transaction_valid(tx: ValidatedTransaction) -> bool {
    &&& tx.amount != 0
    &&& tx.sender@ != bytes::zeros(32)
    &&& tx.receiver@ != bytes::zeros(32)
    &&& tx.signature@ != bytes::zeros(64)
    &&& crypto::ed25519_accepts(
        tx.sender@,
        crypto::sha256_of(transaction_message(tx)),
        tx.signature@,
    )
}

/// Whether a transaction with this hash is among the given ones.
pub open spec fn seen(txs: Seq<ValidatedTransaction>, hash: [u8; 32]) -> bool {
    exists|i: int| 0 <= i < txs.len() && (#[trigger] txs[i]).tx_hash == hash
}

/// The valid ones among the transactions that come for the first time.
pub open spec fn validated_of(txs: Seq<ValidatedTransaction>) -> Seq<ValidatedTransaction>
    decreases txs.len(),
{
    if txs.len() == 0 {
        Seq::empty()
    } else {
        let front = txs.drop_last();
        if !seen(front, txs.last().tx_hash) && transaction_valid(txs.last()) {
            validated_of(front).push(txs.last())
        } else {
            validated_of(front)
        }
    }
}

/// The hashes of the transactions that come again.
pub open spec fn duplicates_of(txs: Seq<ValidatedTransaction>) -> Seq<[u8; 32]>
    decreases txs.len(),
{
    if txs.len() == 0 {
        Seq::empty()
    } else {
        let front = txs.drop_last();
        if seen(front, txs.last().tx_hash) {
            duplicates_of(front).push(txs.last().tx_hash)
        } else {
            duplicates_of(front)
        }
    }
}

/// Whether `result` is what comes of the transactions of a block: it is accepted if at least four
/// fifths of those that count are unique.
pub open spec fn is_result_of(result: ValidationResult, txs: Seq<ValidatedTransaction>) -> bool {
    &&& result.validated_transactions@ == validated_of(txs)
    &&& result.duplicate_hashes@ == duplicates_of(txs)
    &&& result.unique_transactions == validated_of(txs).len()
    &&& result.total_transactions == validated_of(txs).len() + duplicates_of(txs).len()
    &&& result.is_accepted == (result.total_transactions > 0 && 5 * result.unique_transactions >= 4
        * result.total_transactions)
}

/// No two validated transactions have the same hash: a transaction is not spent twice in a block.
pub proof fn validated_are_distinct(txs: Seq<ValidatedTransaction>)
    ensures
        forall|i: int, j: int|
            0 <= i < j < validated_of(txs).len() ==> (#[trigger] validated_of(txs)[i]).tx_hash != (
            #[trigger] validated_of(txs)[j]).tx_hash,
        forall|i: int|
            0 <= i < validated_of(txs).len() ==> transaction_valid(
                #[trigger] validated_of(txs)[i],
            ) && seen(txs, validated_of(txs)[i].tx_hash),
        validated_of(txs).len() + duplicates_of(txs).len() <= txs.len(),
    decreases txs.len(),
{
    if txs.len() > 0 {
        let front = txs.drop_last();
        validated_are_distinct(front);
        let v = validated_of(front);
        let w = validated_of(txs);
        assert forall|i: int| 0 <= i < w.len() implies transaction_valid(#[trigger] w[i]) && seen(
            txs,
            w[i].tx_hash,
        ) by {
            if i < v.len() {
                assert(w[i] == v[i]);
                let k = choose|k: int| 0 <= k < front.len() && (#[trigger] front[k]).tx_hash
                    == v[i].tx_hash;
                assert(txs[k].tx_hash == w[i].tx_hash);
            } else {
                assert(txs[txs.len() - 1].tx_hash == w[i].tx_hash);
            }
        }
        assert forall|i: int, j: int| 0 <= i < j < w.len() implies (#[trigger] w[i]).tx_hash != (
        #[trigger] w[j]).tx_hash by {
            assert(w[i] == v[i]);
            if j < v.len() {
                assert(w[j] == v[j]);
            } else {
                assert(seen(front, v[i].tx_hash));
            }
        }
    }
}

/// Validates transactions, and knows the height that they are validated at.
#[derive(Debug, Clone, Copy)]
pub struct TransactionValidator {
    current_block_height: u64,
}

impl TransactionValidator {
    /// The height that transactions are validated at.
    pub closed spec fn height(&self) -> u64 {
        self.current_block_height
    }

    /// A validator at height zero.
    pub fn new() -> (r: Self)
        ensures
            r.height() == 0,
    {
        TransactionValidator { current_block_height: 0 }
    }

    /// Validates the transactions of a block.
    pub fn validate_block_transactions(&mut self, txs: Vec<ValidatedTransaction>, _group_id: String) -> (r:
        ValidationResult)
        ensures
            is_result_of(r, txs@),
            *final(self) == *old(self),
    {
        let ghost s = txs@;
        let count: usize = txs.len();
        let mut validated_transactions: Vec<ValidatedTransaction> = Vec::new();
        let mut duplicate_hashes: Vec<[u8; 32]> = Vec::new();
        let mut seen_hashes: Vec<[u8; 32]> = Vec::new();
        for tx in it: txs
            invariant
                it.seq() == s,
                *self == *old(self),
                validated_transactions@ == validated_of(s.take(it.index() as int)),
                duplicate_hashes@ == duplicates_of(s.take(it.index() as int)),
                forall|h: [u8; 32]|
                    seen_hashes@.contains(h) == seen(s.take(it.index() as int), h),
        {
            let ghost k = it.index() as int;
            let ghost front = s.take(k);
            let ghost next = s.take(k + 1);
            let ghost hashes = seen_hashes@;
            proof {
                assert(next.drop_last() =~= front);
                assert(next.last() == tx);
                assert forall|h: [u8; 32]| seen(next, h) == (seen(front, h) || h == tx.tx_hash) by {
                    if seen(front, h) {
                        let i = choose|i: int| 0 <= i < front.len() && (
                        #[trigger] front[i]).tx_hash == h;
                        assert(next[i].tx_hash == h);
                    }
                    if h == tx.tx_hash {
                        assert(next[k].tx_hash == h);
                    }
                    if seen(next, h) {
                        let i = choose|i: int| 0 <= i < next.len() && (#[trigger] next[i]).tx_hash
                            == h;
                        if i < k {
                            assert(front[i].tx_hash == h);
                        }
                    }
                }
            }
            if contains_hash(seen_hashes.as_slice(), &tx.tx_hash) {
                duplicate_hashes.push(tx.tx_hash);
            } else {
                seen_hashes.push(tx.tx_hash);
                proof {
                    assert forall|h: [u8; 32]|
                        seen_hashes@.contains(h) == (hashes.contains(h) || h == tx.tx_hash) by {
                        if hashes.contains(h) {
                            let i = choose|i: int| 0 <= i < hashes.len() && hashes[i] == h;
                            assert(seen_hashes@[i] == h);
                        }
                        if h == tx.tx_hash {
                            assert(seen_hashes@[hashes.len() as int] == h);
                        }
                        if seen_hashes@.contains(h) {
                            let i = choose|i: int|
                                0 <= i < seen_hashes@.len() && seen_hashes@[i] == h;
                            if i < hashes.len() {
                                assert(hashes[i] == h);
                            }
                        }
                    }
                }
                if self.validate_transaction(&tx) {
                    validated_transactions.push(tx);
                }
            }
            assert forall|h: [u8; 32]| seen_hashes@.contains(h) == seen(next, h) by {
                assert(hashes.contains(h) == seen(front, h));
            }
        }
        proof {
            assert(s.take(s.len() as int) =~= s);
            validated_are_distinct(s);
            assert(s.len() == count);
        }
        let unique_transactions: usize = validated_transactions.len();
        let total_transactions: usize = unique_transactions + duplicate_hashes.len();
        let is_accepted = total_transactions > 0 && 5u128 * (unique_transactions as u128) >= 4u128
            * (total_transactions as u128);
        ValidationResult {
            is_accepted,
            validated_transactions,
            duplicate_hashes,
            total_transactions,
            unique_transactions,
        }
    }

    /// Whether a transaction is valid.
    pub fn validate_transaction(&self, tx: &ValidatedTransaction) -> (r: bool)
        ensures
            r == transaction_valid(*tx),
    {
        if tx.amount == 0 || is_zero(tx.sender.as_slice()) || is_zero(tx.receiver.as_slice()) {
            return false;
        }
        if is_zero(tx.signature.as_slice()) {
            return false;
        }
        let mut message: Vec<u8> = Vec::new();
        push_bytes(&mut message, tx.tx_hash.as_slice());
        assert(message@ =~= tx.tx_hash@);
        match &tx.block_hash {
            Some(block_hash) => {
                push_bytes(&mut message, block_hash.as_slice());
            },
            None => {
                push_u64(&mut message, tx.amount);
                push_bytes(&mut message, tx.receiver.as_slice());
                push_u64(&mut message, tx.nonce);
            },
        }
        let digest = sha256(message.as_slice());
        ed25519_verify(&tx.sender, digest.as_slice(), &tx.signature)
    }

    /// Sets the height that transactions are validated at.
    pub fn set_current_block_height(&mut self, height: u64)
        ensures
            final(self).height() == height,
    {
        self.current_block_height = height;
    }

    /// The height that transactions are validated at.
    pub fn get_current_block_height(&self) -> (r: u64)
        ensures
            r == self.height(),
    {
        self.current_block_height
    }
}

/// What a masternode says of a block proposal.
#[derive(Debug, Clone)]
pub struct BlockValidationResult {
    pub block_hash: [u8; 64],
    pub proposer_group_id: String,
    pub validation_result: ValidationResult,
    pub is_accepted: bool,
    pub timestamp: u64,
}

/// A verdict in short: the start of the hash, whether it was accepted, and how many transactions
/// are unique.
pub open spec fn verdict_text(v: BlockValidationResult) -> Seq<char> {
    crypto::hex_text(v.block_hash@.subrange(0, 8)) + ": accepted="@ + (if v.is_accepted {
        "true"@
    } else {
        "false"@
    }) + ", unique_txs="@ + text::decimal(v.validation_result.unique_transactions as nat) + "/"@
        + text::decimal(v.validation_result.total_transactions as nat)
}

impl BlockValidationResult {
    /// A verdict as of now.
    pub fn new(
        block_hash: [u8; 64],
        proposer_group_id: String,
        validation_result: ValidationResult,
        is_accepted: bool,
    ) -> (r: Self)
        ensures
            r.block_hash == block_hash,
            r.proposer_group_id@ == proposer_group_id@,
            r.validation_result == validation_result,
            r.is_accepted == is_accepted,
    {
        BlockValidationResult {
            block_hash,
            proposer_group_id,
            validation_result,
            is_accepted,
            timestamp: unix_seconds(),
        }
    }

    /// The verdict in short.
    pub fn get_summary(&self) -> (r: String)
        ensures
            r@ == verdict_text(*self),
    {
        let mut s = hex_encode(
            vstd::slice::slice_subrange(self.block_hash.as_slice(), 0, 8),
        );
        s.append(": accepted=");
        if self.is_accepted {
            s.append("true");
        } else {
            s.append("false");
        }
        s.append(", unique_txs=");
        push_decimal(&mut s, self.validation_result.unique_transactions as u64);
        s.append("/");
        push_decimal(&mut s, self.validation_result.total_transactions as u64);
        s
    }
}

/// Whether a payload on the topic for blocks is a block or the news of one, and no proposal.
pub fn looks_like_block_gossip(data: &[u8]) -> (r: bool)
    ensures
        r == (data@.len() > 8 && (text::utf8("{\"Block\""@).is_prefix_of(data@) || text::utf8(
            "{\"HaveBlock\""@,
        ).is_prefix_of(data@))),
{
    data.len() > 8 && (bytes::starts_with(data, "{\"Block\"".as_bytes()) || bytes::starts_with(
        data,
        "{\"HaveBlock\"".as_bytes(),
    ))
}

/// The transactions of a proposal, before anything is known of them.
pub open spec fn proposal_transactions(p: BlockProposal) -> Seq<ValidatedTransaction> {
    Seq::new(p.transactions@.len(), |i: int| fresh_transaction(p.transactions@[i]))
}

/// Whether the transactions of a proposal are accepted: some are valid, and none comes twice.
pub open spec fn proposal_accepted(p: BlockProposal) -> bool {
    let txs = proposal_transactions(p);
    duplicates_of(txs).len() == 0 && validated_of(txs).len() > 0
}

/// Judges a block proposal.
pub fn review_block_proposal(validator: &mut TransactionValidator, proposal: &BlockProposal) -> (r:
    BlockValidationResult)
    ensures
        *final(validator) == *old(validator),
        r.block_hash == proposal.block_hash,
        r.proposer_group_id@ == proposal.proposer_group_id@,
        is_result_of(r.validation_result, proposal_transactions(*proposal)),
        r.is_accepted == proposal_accepted(*proposal),
{
    let mut txs: Vec<ValidatedTransaction> = Vec::new();
    let mut i: usize = 0;
    while i < proposal.transactions.len()
        invariant
            i <= proposal.transactions@.len(),
            txs@ == proposal_transactions(*proposal).take(i as int),
        decreases proposal.transactions@.len() - i,
    {
        txs.push(ValidatedTransaction::from(proposal.transactions[i]));
        i += 1;
        assert(txs@ =~= proposal_transactions(*proposal).take(i as int));
    }
    assert(txs@ =~= proposal_transactions(*proposal));
    let result = validator.validate_block_transactions(txs, proposal.proposer_group_id.clone());
    let is_accepted = result.is_accepted && result.duplicate_hashes.len() == 0
        && result.validated_transactions.len() > 0;
    BlockValidationResult::new(
        proposal.block_hash,
        proposal.proposer_group_id.clone(),
        result,
        is_accepted,
    )
}

/// The secret that a masternode with these identifier bytes signs with.
pub open spec fn masternode_secret(peer_id: Seq<u8>) -> Seq<u8> {
    crypto::sha512_of(text::utf8("MASTERNODE-KEYPAIR"@) + peer_id).subrange(0, 32)
}

/// The secret that a masternode signs with, derived from the bytes of its peer identifier.
pub fn get_masternode_keypair(peer_id: &[u8]) -> (r: [u8; 32])
    ensures
        r@ == masternode_secret(peer_id@),
{
    let mut data: Vec<u8> = Vec::new();
    push_bytes(&mut data, "MASTERNODE-KEYPAIR".as_bytes());
    assert(data@ =~= text::utf8("MASTERNODE-KEYPAIR"@));
    push_bytes(&mut data, peer_id);
    let digest = sha512(data.as_slice());
    bytes::to_array32(vstd::slice::slice_subrange(digest.as_slice(), 0, 32))
}

/// What a masternode signs of a verdict; `ratio_bits` are the bits of the share of unique
/// transactions as a floating-point number.
pub open spec fn verdict_bytes(
    block_hash: Seq<u8>,
    ratio_bits: u64,
    validated: u64,
    is_accepted: bool,
) -> Seq<u8> {
    block_hash + bytes::u64_le(ratio_bits) + bytes::u64_le(validated) + seq![
        if is_accepted {
            1u8
        } else {
            0u8
        },
    ]
}

/// A masternode's signature of a verdict.
pub fn generate_masternode_signature(
    peer_id: &[u8],
    block_hash: &[u8; 64],
    ratio_bits: u64,
    validated: u64,
    is_accepted: bool,
) -> (r: [u8; 64])
    ensures
        r@ == crypto::ed25519_signature_of(
            masternode_secret(peer_id@),
            crypto::sha256_of(verdict_bytes(block_hash@, ratio_bits, validated, is_accepted)),
        ),
{
    let mut message: Vec<u8> = Vec::new();
    push_bytes(&mut message, block_hash.as_slice());
    assert(message@ =~= block_hash@);
    push_u64(&mut message, ratio_bits);
    push_u64(&mut message, validated);
    message.push(if is_accepted { 1u8 } else { 0u8 });
    assert(message@ =~= verdict_bytes(block_hash@, ratio_bits, validated, is_accepted));
    let digest = sha256(message.as_slice());
    let secret = get_masternode_keypair(peer_id);
    ed25519_sign(&secret, digest.as_slice())
}

/// What the sender of a transaction signs where no block is known: 80 bytes, with the hash, the
/// amount, the receiver and the nonce in their places.
pub proof fn transfer_layout(tx: ValidatedTransaction)
    requires
        tx.block_hash is None,
    ensures
        transaction_message(tx).len() == 80,
        transaction_message(tx).subrange(0, 32) == tx.tx_hash@,
        transaction_message(tx).subrange(32, 40) == bytes::u64_le(tx.amount),
        transaction_message(tx).subrange(40, 72) == tx.receiver@,
        transaction_message(tx).subrange(72, 80) == bytes::u64_le(tx.nonce),
{
    bytes::numbers_are_read_back(tx.amount, 0, 0);
    bytes::numbers_are_read_back(tx.nonce, 0, 0);
    let m = transaction_message(tx);
    assert(m.subrange(0, 32) =~= tx.tx_hash@);
    assert(m.subrange(32, 40) =~= bytes::u64_le(tx.amount));
    assert(m.subrange(40, 72) =~= tx.receiver@);
    assert(m.subrange(72, 80) =~= bytes::u64_le(tx.nonce));
}

/// What the sender of a transaction signs where its block is known: 96 bytes, the hash of the
/// transaction and that of the block.
pub proof fn execution_layout(tx: ValidatedTransaction, block_hash: [u8; 64])
    requires
        tx.block_hash == Some(block_hash),
    ensures
        transaction_message(tx).len() == 96,
        transaction_message(tx).subrange(0, 32) == tx.tx_hash@,
        transaction_message(tx).subrange(32, 96) == block_hash@,
{
    let m = transaction_message(tx);
    assert(m.subrange(0, 32) =~= tx.tx_hash@);
    assert(m.subrange(32, 96) =~= block_hash@);
}

/// A signature on a transaction is for that transaction alone: where the messages of two are the
/// same, so are the hashes, and either the blocks or the amounts, receivers and nonces.
pub proof fn messages_bind_their_transaction(a: ValidatedTransaction, b: ValidatedTransaction)
    requires
        transaction_message(a) == transaction_message(b),
    ensures
        a.tx_hash@ == b.tx_hash@,
        a.block_hash is Some <==> b.block_hash is Some,
        a.block_hash is Some ==> a.block_hash->0@ == b.block_hash->0@,
        a.block_hash is None ==> a.amount == b.amount && a.receiver@ == b.receiver@ && a.nonce
            == b.nonce,
{
    bytes::numbers_are_read_back(a.amount, 0, 0);
    bytes::numbers_are_read_back(b.amount, 0, 0);
    bytes::numbers_are_read_back(a.nonce, 0, 0);
    bytes::numbers_are_read_back(b.nonce, 0, 0);
    if a.block_hash is Some {
        execution_layout(a, a.block_hash->0);
    } else {
        transfer_layout(a);
    }
    if b.block_hash is Some {
        execution_layout(b, b.block_hash->0);
    } else {
        transfer_layout(b);
    }
}

/// A transaction is valid exactly if it moves something, its sender, receiver and signature are
/// not blank, and the signature is the sender's on the digest of its message.
pub proof fn what_makes_a_transaction_valid(tx: ValidatedTransaction)
    ensures
        transaction_valid(tx) <==> {
            &&& tx.amount >= 1
            &&& exists|i: int| 0 <= i < 32 && #[trigger] tx.sender@[i] != 0
            &&& exists|i: int| 0 <= i < 32 && #[trigger] tx.receiver@[i] != 0
            &&& exists|i: int| 0 <= i < 64 && #[trigger] tx.signature@[i] != 0
            &&& crypto::ed25519_accepts(
                tx.sender@,
                crypto::sha256_of(transaction_message(tx)),
                tx.signature@,
            )
        },
{
    bytes::not_zeros(tx.sender@, 32);
    bytes::not_zeros(tx.receiver@, 32);
    bytes::not_zeros(tx.signature@, 64);
}

/// A valid transaction is kept if none before it has its hash.
pub proof fn first_valid_transactions_are_kept(txs: Seq<ValidatedTransaction>, i: int)
    requires
        0 <= i < txs.len(),
        transaction_valid(txs[i]),
        forall|j: int| 0 <= j < i ==> (#[trigger] txs[j]).tx_hash != txs[i].tx_hash,
    ensures
        validated_of(txs).contains(txs[i]),
    decreases txs.len(),
{
    let front = txs.drop_last();
    let v = validated_of(front);
    let w = validated_of(txs);
    if i < front.len() {
        assert forall|j: int| 0 <= j < i implies (#[trigger] front[j]).tx_hash
            != front[i].tx_hash by {
            assert(txs[j].tx_hash != txs[i].tx_hash);
        }
        first_valid_transactions_are_kept(front, i);
        let k = choose|k: int| 0 <= k < v.len() && v[k] == front[i];
        assert(w[k] == txs[i]);
    } else {
        assert(!seen(front, txs[i].tx_hash)) by {
            if seen(front, txs[i].tx_hash) {
                let j = choose|j: int|
                    0 <= j < front.len() && (#[trigger] front[j]).tx_hash == txs[i].tx_hash;
                assert(txs[j].tx_hash == txs[i].tx_hash);
            }
        }
        assert(w[v.len() as int] == txs[i]);
    }
}

/// A transaction that is kept is a valid one, and none before it has its hash; `i` is its place.
pub proof fn kept_transactions_come_first(txs: Seq<ValidatedTransaction>, k: int) -> (i: int)
    requires
        0 <= k < validated_of(txs).len(),
    ensures
        0 <= i < txs.len(),
        txs[i] == validated_of(txs)[k],
        transaction_valid(txs[i]),
        forall|j: int| 0 <= j < i ==> (#[trigger] txs[j]).tx_hash != txs[i].tx_hash,
    decreases txs.len(),
{
    let front = txs.drop_last();
    if k < validated_of(front).len() {
        let i = kept_transactions_come_first(front, k);
        assert forall|j: int| 0 <= j < i implies (#[trigger] txs[j]).tx_hash
            != txs[i].tx_hash by {
            assert(front[j].tx_hash != front[i].tx_hash);
        }
        i
    } else {
        let i = front.len() as int;
        assert forall|j: int| 0 <= j < i implies (#[trigger] txs[j]).tx_hash
            != txs[i].tx_hash by {
            assert(front[j] == txs[j]);
        }
        i
    }
}

/// A hash is told as a duplicate exactly if two of the transactions have it.
pub proof fn repeated_hashes_are_told(txs: Seq<ValidatedTransaction>, hash: [u8; 32])
    ensures
        duplicates_of(txs).contains(hash) <==> exists|i: int, j: int|
            0 <= i < j < txs.len() && (#[trigger] txs[i]).tx_hash == hash && (
            #[trigger] txs[j]).tx_hash == hash,
    decreases txs.len(),
{
    if txs.len() > 0 {
        let front = txs.drop_last();
        let n = front.len() as int;
        repeated_hashes_are_told(front, hash);
        let v = duplicates_of(front);
        let w = duplicates_of(txs);
        if w.contains(hash) {
            let k = choose|k: int| 0 <= k < w.len() && w[k] == hash;
            if k < v.len() {
                assert(v[k] == hash);
                let (i, j) = choose|i: int, j: int|
                    0 <= i < j < front.len() && (#[trigger] front[i]).tx_hash == hash && (
                    #[trigger] front[j]).tx_hash == hash;
                assert(txs[i].tx_hash == hash && txs[j].tx_hash == hash);
            } else {
                let i = choose|i: int|
                    0 <= i < front.len() && (#[trigger] front[i]).tx_hash == hash;
                assert(txs[i].tx_hash == hash && txs[n].tx_hash == hash);
            }
        }
        if exists|i: int, j: int|
            0 <= i < j < txs.len() && (#[trigger] txs[i]).tx_hash == hash && (
            #[trigger] txs[j]).tx_hash == hash {
            let (i, j) = choose|i: int, j: int|
                0 <= i < j < txs.len() && (#[trigger] txs[i]).tx_hash == hash && (
                #[trigger] txs[j]).tx_hash == hash;
            assert(front[i].tx_hash == hash);
            if j < n {
                assert(front[j].tx_hash == hash);
                assert(v.contains(hash));
                let k = choose|k: int| 0 <= k < v.len() && v[k] == hash;
                assert(w[k] == hash);
            } else {
                assert(seen(front, hash));
                assert(w[v.len() as int] == hash);
            }
        }
    }
}

/// Transactions that come later take nothing from what is found of the earlier ones: they are
/// kept, and told, in the order in which they come.
pub proof fn results_come_in_order(txs: Seq<ValidatedTransaction>, more: Seq<ValidatedTransaction>)
    ensures
        validated_of(txs).is_prefix_of(validated_of(txs + more)),
        duplicates_of(txs).is_prefix_of(duplicates_of(txs + more)),
    decreases more.len(),
{
    if more.len() == 0 {
        assert(txs + more =~= txs);
    } else {
        results_come_in_order(txs, more.drop_last());
        assert((txs + more).drop_last() =~= txs + more.drop_last());
    }
}

/// Where all transactions are valid, each is either kept or told as a duplicate.
pub proof fn valid_transactions_are_kept_or_told(txs: Seq<ValidatedTransaction>)
    requires
        forall|i: int| 0 <= i < txs.len() ==> transaction_valid(#[trigger] txs[i]),
    ensures
        validated_of(txs).len() + duplicates_of(txs).len() == txs.len(),
    decreases txs.len(),
{
    if txs.len() > 0 {
        let front = txs.drop_last();
        assert forall|i: int| 0 <= i < front.len() implies transaction_valid(
            #[trigger] front[i],
        ) by {
            assert(transaction_valid(txs[i]));
        }
        valid_transactions_are_kept_or_told(front);
        assert(transaction_valid(txs[front.len() as int]));
    }
}

/// Transactions are accepted exactly if there are any and at least 80 of a hundred are fresh.
pub proof fn four_fifths_must_be_fresh(
    result: ValidationResult,
    txs: Seq<ValidatedTransaction>,
)
    requires
        is_result_of(result, txs),
    ensures
        result.unique_transactions == result.validated_transactions@.len(),
        result.total_transactions == result.validated_transactions@.len()
            + result.duplicate_hashes@.len(),
        result.is_accepted <==> result.total_transactions > 0 && 100 * result.unique_transactions
            >= 80 * result.total_transactions,
{
}

/// A proposal is accepted exactly if no two of its transactions have the same hash and one at
/// least is valid. A transaction of a proposal is judged by what it is in the proposal.
pub proof fn proposals_hold_no_transaction_twice(p: BlockProposal)
    ensures
        proposal_accepted(p) <==> {
            &&& forall|i: int, j: int|
                0 <= i < j < p.transactions@.len() ==> (#[trigger] p.transactions@[i]).tx_hash != (
                #[trigger] p.transactions@[j]).tx_hash
            &&& exists|i: int|
                0 <= i < p.transactions@.len() && transaction_valid(
                    fresh_transaction(#[trigger] p.transactions@[i]),
                )
        },
{
    let txs = proposal_transactions(p);
    let ts = p.transactions@;
    let distinct = forall|i: int, j: int|
        0 <= i < j < ts.len() ==> (#[trigger] ts[i]).tx_hash != (#[trigger] ts[j]).tx_hash;
    let one = exists|i: int|
        0 <= i < ts.len() && transaction_valid(fresh_transaction(#[trigger] ts[i]));
    if duplicates_of(txs).len() > 0 {
        let h = duplicates_of(txs)[0];
        assert(duplicates_of(txs).contains(h));
        repeated_hashes_are_told(txs, h);
        let (i, j) = choose|i: int, j: int|
            0 <= i < j < txs.len() && (#[trigger] txs[i]).tx_hash == h && (
            #[trigger] txs[j]).tx_hash == h;
        assert(ts[i].tx_hash == ts[j].tx_hash);
        assert(!distinct);
    } else if !distinct {
        let (i, j) = choose|i: int, j: int|
            0 <= i < j < ts.len() && (#[trigger] ts[i]).tx_hash == (#[trigger] ts[j]).tx_hash;
        assert(txs[i].tx_hash == txs[j].tx_hash);
        repeated_hashes_are_told(txs, ts[i].tx_hash);
        assert(duplicates_of(txs).contains(ts[i].tx_hash));
    }
    if distinct && one {
        let i = choose|i: int|
            0 <= i < ts.len() && transaction_valid(fresh_transaction(#[trigger] ts[i]));
        assert(txs[i] == fresh_transaction(ts[i]));
        assert forall|j: int| 0 <= j < i implies (#[trigger] txs[j]).tx_hash
            != txs[i].tx_hash by {
            assert(ts[j].tx_hash != ts[i].tx_hash);
        }
        first_valid_transactions_are_kept(txs, i);
    }
    if validated_of(txs).len() > 0 {
        let i = kept_transactions_come_first(txs, 0);
        assert(transaction_valid(fresh_transaction(ts[i])));
        assert(one);
    }
}

/// What is taken of a transaction is what it says of itself; of its execution nothing is known.
pub proof fn transactions_come_as_they_are(tx: LocalTransaction)
    ensures
        ({
            let t = fresh_transaction(tx);
            &&& t.tx_hash@ == tx.tx_hash@
            &&& t.sender@ == tx.sender@
            &&& t.receiver@ == tx.receiver@
            &&& t.amount == tx.amount
            &&& t.nonce == tx.nonce
            &&& t.signature@ == tx.signature@
            &&& t.block_hash is None
            &&& t.processing_group_id is None
            &&& t.processed_at is None
            &&& !t.is_duplicate
        }),
{
}

/// The bytes that a masternode signs when it has judged a block hold the hash of the block, the
/// bits of the ratio, the number of transactions and one byte for the outcome, in their places.
pub proof fn verdict_layout(
    block_hash: Seq<u8>,
    ratio_bits: u64,
    validated: u64,
    is_accepted: bool,
)
    ensures
        ({
            let v = verdict_bytes(block_hash, ratio_bits, validated, is_accepted);
            let n = block_hash.len() as int;
            &&& v.len() == n + 17
            &&& v.subrange(0, n) == block_hash
            &&& v.subrange(n, n + 8) == bytes::u64_le(ratio_bits)
            &&& v.subrange(n + 8, n + 16) == bytes::u64_le(validated)
            &&& v[n + 16] == 1u8 <==> is_accepted
            &&& v[n + 16] == 0u8 <==> !is_accepted
        }),
{
    bytes::numbers_are_read_back(ratio_bits, 0, 0);
    bytes::numbers_are_read_back(validated, 0, 0);
    let v = verdict_bytes(block_hash, ratio_bits, validated, is_accepted);
    let n = block_hash.len() as int;
    assert(v.subrange(0, n) =~= block_hash);
    assert(v.subrange(n, n + 8) =~= bytes::u64_le(ratio_bits));
    assert(v.subrange(n + 8, n + 16) =~= bytes::u64_le(validated));
}

/// The secret that a masternode signs with is the first half of the digest of a word and its
/// peer. `data` is what is digested.
pub proof fn secrets_are_of_the_peer(peer_id: Seq<u8>, data: Seq<u8>, i: int)
    requires
        data == text::utf8("MASTERNODE-KEYPAIR"@) + peer_id,
        crypto::sha512_of(data).len() == 64,
        0 <= i < 32,
    ensures
        masternode_secret(peer_id).len() == 32,
        masternode_secret(peer_id)[i] == crypto::sha512_of(data)[i],
{
}

} // verus!
