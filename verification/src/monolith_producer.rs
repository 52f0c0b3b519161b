//! Monolith blocks: what they commit to, how they are made and checked.
use vstd::prelude::*;

use crate::bytes;
use crate::bytes::bytes_equal;
use crate::bytes::push_bytes;
use crate::bytes::push_u64;
use crate::clock::unix_millis;
use crate::clock::unix_seconds;
use crate::crypto;
use crate::crypto::sha256;
use crate::crypto::sha512;
use crate::text;
use crate::text::same_text;

verus! {

/// How monoliths are made.
#[derive(Debug, Clone)]
pub struct MonolithProducerConfig {
    pub enable_zkp: bool,
    pub zkp_backend: String,
    pub max_block_range: u64,
    pub cache_proofs: bool,
    pub min_blocks_per_monolith: u64,
}

impl Default for MonolithProducerConfig {
    fn default() -> (r: Self)
        ensures
            r.enable_zkp,
            r.zkp_backend@ == "mock"@,
            r.max_block_range == 86400,
            r.cache_proofs,
            r.min_blocks_per_monolith == 100,
    {
        MonolithProducerConfig {
            enable_zkp: true,
            zkp_backend: "mock".to_string(),
            max_block_range: 86400,
            cache_proofs: true,
            min_blocks_per_monolith: 100,
        }
    }
}

/// The head of a monolith, with what it commits to.
#[derive(Debug, Clone)]
pub struct MonolithHeader {
    pub monolith_id: [u8; 64],
    pub prev_monolith_id: [u8; 64],
    pub headers_commit: [u8; 64],
    pub state_commit: [u8; 64],
    pub proof_commit: [u8; 64],
    pub exec_height: u64,
    pub window_start: u64,
    pub epoch_id: u64,
    pub produced_at_ms: u64,
    pub producer: [u8; 32],
    pub cosignatures: Vec<Vec<u8>>,
    pub merkle_proof: Option<Vec<u8>>,
    pub aggregate_receipt: Option<Vec<u8>>,
    pub generation_time_ms: u64,
    pub size_bytes: u64,
    pub serve_count: u64,
    pub zkp_proof: Option<Vec<u8>>,
}

/// A monolith: the blocks from one height to another, compressed.
#[derive(Debug, Clone)]
pub struct MonolithBlock {
    pub header: MonolithHeader,
    pub start_height: u64,
    pub end_height: u64,
    pub block_count: u64,
    pub total_transactions: u64,
    pub created_at: u64,
    pub creator_id: String,
    pub zkp_proof: Vec<u8>,
}

/// Whether two optional byte strings are the same.
pub open spec fn same_bytes(a: Option<Vec<u8>>, b: Option<Vec<u8>>) -> bool {
    match a {
        Some(x) => b is Some && x@ == b->0@,
        None => b is None,
    }
}

/// Whether two heads have the same contents.
pub open spec fn same_header(a: MonolithHeader, b: MonolithHeader) -> bool {
    &&& a.monolith_id == b.monolith_id
    &&& a.prev_monolith_id == b.prev_monolith_id
    &&& a.headers_commit == b.headers_commit
    &&& a.state_commit == b.state_commit
    &&& a.proof_commit == b.proof_commit
    &&& a.exec_height == b.exec_height
    &&& a.window_start == b.window_start
    &&& a.epoch_id == b.epoch_id
    &&& a.produced_at_ms == b.produced_at_ms
    &&& a.producer == b.producer
    &&& a.cosignatures@.len() == b.cosignatures@.len()
    &&& forall|i: int|
        0 <= i < a.cosignatures@.len() ==> (#[trigger] a.cosignatures@[i])@ == b.cosignatures@[i]@
    &&& same_bytes(a.merkle_proof, b.merkle_proof)
    &&& same_bytes(a.aggregate_receipt, b.aggregate_receipt)
    &&& a.generation_time_ms == b.generation_time_ms
    &&& a.size_bytes == b.size_bytes
    &&& a.serve_count == b.serve_count
    &&& same_bytes(a.zkp_proof, b.zkp_proof)
}

/// Whether two monoliths have the same contents.
pub open spec fn same_monolith(a: MonolithBlock, b: MonolithBlock) -> bool {
    &&& same_header(a.header, b.header)
    &&& a.start_height == b.start_height
    &&& a.end_height == b.end_height
    &&& a.block_count == b.block_count
    &&& a.total_transactions == b.total_transactions
    &&& a.created_at == b.created_at
    &&& a.creator_id@ == b.creator_id@
    &&& a.zkp_proof@ == b.zkp_proof@
}

fn copy_bytes(bytes: &Option<Vec<u8>>) -> (r: Option<Vec<u8>>)
    ensures
        same_bytes(*bytes, r),
{
    match bytes {
        Some(b) => Some(vstd::slice::slice_to_vec(b.as_slice())),
        None => None,
    }
}

fn copy_header(header: &MonolithHeader) -> (r: MonolithHeader)
    ensures
        same_header(*header, r),
{
    let mut cosignatures: Vec<Vec<u8>> = Vec::new();
    let mut i: usize = 0;
    while i < header.cosignatures.len()
        invariant
            i <= header.cosignatures@.len(),
            cosignatures@.len() == i,
            forall|k: int|
                0 <= k < i ==> (#[trigger] header.cosignatures@[k])@ == cosignatures@[k]@,
        decreases header.cosignatures@.len() - i,
    {
        cosignatures.push(vstd::slice::slice_to_vec(header.cosignatures[i].as_slice()));
        i += 1;
    }
    MonolithHeader {
        monolith_id: header.monolith_id,
        prev_monolith_id: header.prev_monolith_id,
        headers_commit: header.headers_commit,
        state_commit: header.state_commit,
        proof_commit: header.proof_commit,
        exec_height: header.exec_height,
        window_start: header.window_start,
        epoch_id: header.epoch_id,
        produced_at_ms: header.produced_at_ms,
        producer: header.producer,
        cosignatures,
        merkle_proof: copy_bytes(&header.merkle_proof),
        aggregate_receipt: copy_bytes(&header.aggregate_receipt),
        generation_time_ms: header.generation_time_ms,
        size_bytes: header.size_bytes,
        serve_count: header.serve_count,
        zkp_proof: copy_bytes(&header.zkp_proof),
    }
}

/// A monolith with the same contents.
pub fn copy_monolith(block: &MonolithBlock) -> (r: MonolithBlock)
    ensures
        same_monolith(*block, r),
{
    MonolithBlock {
        header: copy_header(&block.header),
        start_height: block.start_height,
        end_height: block.end_height,
        block_count: block.block_count,
        total_transactions: block.total_transactions,
        created_at: block.created_at,
        creator_id: block.creator_id.clone(),
        zkp_proof: vstd::slice::slice_to_vec(block.zkp_proof.as_slice()),
    }
}

/// What a proof is about.
#[derive(Debug, Clone, Copy)]
pub struct Statement {
    pub a: [u8; 32],
    pub b: [u8; 32],
    pub c: [u8; 32],
    pub d: [u8; 32],
    pub e: u64,
    pub f: u64,
}

/// A proof, with what it takes to check it.
#[derive(Debug, Clone)]
pub struct ZkProof {
    pub proof: Vec<u8>,
    pub public_inputs: Vec<u8>,
    pub verification_key: Vec<u8>,
}

/// The roots of a monolith in 32 bytes each: of the state before it, of its headers and of its
/// state.
#[derive(Debug, Clone, Copy)]
pub struct CompressedRoots {
    pub prev_state: [u8; 32],
    pub headers: [u8; 32],
    pub state: [u8; 32],
}

/// What makes and checks proofs.
#[derive(Debug, Clone, Copy, PartialEq, Eq, Structural)]
pub enum ZkpBackend {
    Mock,
    Plonk,
    Arkworks,
}

/// Which backends besides the mock are there.
#[derive(Debug, Clone, Copy, PartialEq, Eq, Structural)]
pub struct ZkpFeatures {
    pub plonk: bool,
    pub arkworks: bool,
}

/// The text in lower case.
pub uninterp spec fn lowercase_of(text: Seq<char>) -> Seq<char>;

/// `str::to_lowercase`: the text in lower case, a function of the text alone.
#[verifier::external_body]
fn to_lowercase(text: &str) -> (r: String)
    ensures
        r@ == lowercase_of(text@),
{
    text.to_lowercase()
}

/// A byte string with its length before it, in eight little-endian bytes.
pub open spec fn framed(data: Seq<u8>) -> Seq<u8> {
    bytes::u64_le(data.len() as u64) + data
}

/// `bincode::serialize` on three byte strings: each with its length before it.
#[verifier::external_body]
fn encode_three(a: &[u8], b: &[u8], c: &[u8]) -> (r: Vec<u8>)
    ensures
        r@ == framed(a@) + framed(b@) + framed(c@),
{
    bincode::serialize(&(a, b, c)).unwrap_or_default()
}

/// The backend of a name in lower case; the mock where there is none.
pub open spec fn backend_of(name: Seq<char>, features: ZkpFeatures) -> ZkpBackend {
    if name == "plonk"@ && features.plonk {
        ZkpBackend::Plonk
    } else if name == "arkworks"@ && features.arkworks {
        ZkpBackend::Arkworks
    } else {
        ZkpBackend::Mock
    }
}

/// Finds the backend of a name in lower case.
pub fn backend_named(name: &str, features: ZkpFeatures) -> (r: ZkpBackend)
    ensures
        r == backend_of(name@, features),
{
    if same_text(name, "plonk") && features.plonk {
        ZkpBackend::Plonk
    } else if same_text(name, "arkworks") && features.arkworks {
        ZkpBackend::Arkworks
    } else {
        ZkpBackend::Mock
    }
}

/// The statement about a monolith of this height with these roots, as bytes.
pub open spec fn statement_about(roots: CompressedRoots, exec_height: u64) -> Seq<u8> {
    roots.prev_state@ + roots.headers@ + roots.state@ + bytes::zeros(32) + bytes::u64_le(
        exec_height,
    ) + bytes::u64_le(0)
}

/// A statement as bytes.
pub open spec fn statement_bytes(s: Statement) -> Seq<u8> {
    s.a@ + s.b@ + s.c@ + s.d@ + bytes::u64_le(s.e) + bytes::u64_le(s.f)
}

/// What a backend's proofs start from.
pub open spec fn proof_tag(backend: ZkpBackend) -> Seq<char> {
    match backend {
        ZkpBackend::Mock => "ZKP-PROOF"@,
        ZkpBackend::Plonk => "PLONK-REAL-PROOF"@,
        ZkpBackend::Arkworks => "ARKWORKS-REAL-PROOF"@,
    }
}

/// What a backend's verification keys start from.
pub open spec fn key_tag(backend: ZkpBackend) -> Seq<char> {
    match backend {
        ZkpBackend::Mock => "ZKP-VK"@,
        ZkpBackend::Plonk => "PLONK-VK"@,
        ZkpBackend::Arkworks => "ARKWORKS-VK"@,
    }
}

/// The proof bytes of a backend for a statement.
pub open spec fn proof_bytes(backend: ZkpBackend, statement: Seq<u8>) -> Seq<u8> {
    crypto::sha256_of(text::utf8(proof_tag(backend)) + statement)
}

/// The verification key of a backend for these roots.
pub open spec fn key_bytes(backend: ZkpBackend, roots: CompressedRoots) -> Seq<u8> {
    crypto::sha256_of(
        text::utf8(key_tag(backend)) + roots.prev_state@ + roots.headers@ + roots.state@,
    )
}

/// What stands for a proof where proofs are switched off.
pub open spec fn placeholder_bytes(header: MonolithHeader) -> Seq<u8> {
    crypto::sha256_of(
        text::utf8("MOCK-ZKP"@) + header.monolith_id@ + header.headers_commit@
            + header.state_commit@ + bytes::u64_le(header.exec_height),
    )
}

fn push_statement(out: &mut Vec<u8>, s: &Statement)
    ensures
        final(out)@ == old(out)@ + statement_bytes(*s),
{
    let ghost o = out@;
    push_bytes(out, s.a.as_slice());
    push_bytes(out, s.b.as_slice());
    push_bytes(out, s.c.as_slice());
    push_bytes(out, s.d.as_slice());
    push_u64(out, s.e);
    push_u64(out, s.f);
    assert(out@ =~= o + statement_bytes(*s));
}

/// The statement about a monolith of this height with these roots.
pub fn statement_for(roots: &CompressedRoots, exec_height: u64) -> (r: Statement)
    ensures
        r.a == roots.prev_state,
        r.b == roots.headers,
        r.c == roots.state,
        r.d@ == bytes::zeros(32),
        r.e == exec_height,
        r.f == 0,
        statement_bytes(r) == statement_about(*roots, exec_height),
{
    let r = Statement {
        a: roots.prev_state,
        b: roots.headers,
        c: roots.state,
        d: [0u8;32],
        e: exec_height,
        f: 0,
    };
    assert(r.d@ =~= bytes::zeros(32));
    r
}

/// Makes and checks the proofs of monoliths.
#[derive(Debug, Clone, Copy)]
pub struct ZkpProofGenerator {
    pub enabled: bool,
    pub backend: ZkpBackend,
}

impl ZkpProofGenerator {
    /// A generator with the mock backend.
    pub fn new() -> (r: Self)
        ensures
            r == (ZkpProofGenerator { enabled: true, backend: ZkpBackend::Mock }),
    {
        ZkpProofGenerator { enabled: true, backend: ZkpBackend::Mock }
    }

    /// A generator with this backend.
    pub fn new_with_backend(backend: ZkpBackend) -> (r: Self)
        ensures
            r == (ZkpProofGenerator { enabled: true, backend }),
    {
        ZkpProofGenerator { enabled: true, backend }
    }

    /// The generator that a setting names, in upper or lower case; the mock where the backend is
    /// not known or not there.
    pub fn from_config(backend_str: &str, features: ZkpFeatures) -> (r: Self)
        ensures
            r == (ZkpProofGenerator {
                enabled: true,
                backend: backend_of(lowercase_of(backend_str@), features),
            }),
    {
        let lowered = to_lowercase(backend_str);
        Self::new_with_backend(backend_named(lowered.as_str(), features))
    }

    /// The name of the backend.
    pub fn backend_name(&self) -> (r: &'static str)
        ensures
            r@ == (match self.backend {
                ZkpBackend::Mock => "mock"@,
                ZkpBackend::Plonk => "plonk"@,
                ZkpBackend::Arkworks => "arkworks"@,
            }),
    {
        match self.backend {
            ZkpBackend::Mock => "mock",
            ZkpBackend::Plonk => "plonk",
            ZkpBackend::Arkworks => "arkworks",
        }
    }

    fn proof_data(&self, statement: &Statement) -> (r: [u8; 32])
        ensures
            r@ == proof_bytes(self.backend, statement_bytes(*statement)),
    {
        let tag = match self.backend {
            ZkpBackend::Mock => "ZKP-PROOF",
            ZkpBackend::Plonk => "PLONK-REAL-PROOF",
            ZkpBackend::Arkworks => "ARKWORKS-REAL-PROOF",
        };
        let mut data: Vec<u8> = Vec::new();
        push_bytes(&mut data, tag.as_bytes());
        push_statement(&mut data, statement);
        assert(data@ =~= text::utf8(proof_tag(self.backend)) + statement_bytes(*statement));
        sha256(data.as_slice())
    }

    /// The proof for a monolith with this header and these roots: of its backend, or a
    /// placeholder where proofs are switched off.
    pub fn generate_proof(&self, header: &MonolithHeader, roots: &CompressedRoots) -> (r: ZkProof)
        ensures
            !self.enabled ==> r.proof@ == placeholder_bytes(*header) && r.public_inputs@.len() == 0
                && r.verification_key@.len() == 0,
            self.enabled ==> {
                let s = statement_about(*roots, header.exec_height);
                &&& r.proof@ == proof_bytes(self.backend, s)
                &&& self.backend == ZkpBackend::Mock ==> mock_accepts(
                    *roots,
                    header.exec_height,
                    r.proof@,
                )
                &&& r.public_inputs@ == s
                &&& r.verification_key@ == key_bytes(self.backend, *roots)
            },
    {
        if !self.enabled {
            let mut data: Vec<u8> = Vec::new();
            push_bytes(&mut data, "MOCK-ZKP".as_bytes());
            push_bytes(&mut data, header.monolith_id.as_slice());
            push_bytes(&mut data, header.headers_commit.as_slice());
            push_bytes(&mut data, header.state_commit.as_slice());
            push_u64(&mut data, header.exec_height);
            assert(data@ =~= text::utf8("MOCK-ZKP"@) + header.monolith_id@ + header.headers_commit@
                + header.state_commit@ + bytes::u64_le(header.exec_height));
            return ZkProof {
                proof: vstd::slice::slice_to_vec(sha256(data.as_slice()).as_slice()),
                public_inputs: Vec::new(),
                verification_key: Vec::new(),
            };
        }
        let statement = statement_for(roots, header.exec_height);
        let proof = vstd::slice::slice_to_vec(self.proof_data(&statement).as_slice());
        let mut public_inputs: Vec<u8> = Vec::new();
        push_statement(&mut public_inputs, &statement);
        assert(public_inputs@ =~= statement_bytes(statement));
        let tag = match self.backend {
            ZkpBackend::Mock => "ZKP-VK",
            ZkpBackend::Plonk => "PLONK-VK",
            ZkpBackend::Arkworks => "ARKWORKS-VK",
        };
        let mut key: Vec<u8> = Vec::new();
        push_bytes(&mut key, tag.as_bytes());
        push_bytes(&mut key, statement.a.as_slice());
        push_bytes(&mut key, statement.b.as_slice());
        push_bytes(&mut key, statement.c.as_slice());
        assert(key@ =~= text::utf8(key_tag(self.backend)) + statement.a@ + statement.b@
            + statement.c@);
        ZkProof {
            proof,
            public_inputs,
            verification_key: vstd::slice::slice_to_vec(sha256(key.as_slice()).as_slice()),
        }
    }

    /// Whether a proof holds for a monolith with this header and these roots. The mock backend
    /// compares it with the proof that it would make; for the others, `verdict` is what their
    /// own verifier says.
    pub fn verify_proof(
        &self,
        header: &MonolithHeader,
        roots: &CompressedRoots,
        proof: &ZkProof,
        verdict: bool,
    ) -> (r: bool)
        ensures
            r == (if self.backend == ZkpBackend::Mock {
                mock_accepts(*roots, header.exec_height, proof.proof@)
            } else {
                verdict
            }),
    {
        match self.backend {
            ZkpBackend::Mock => {
                let statement = statement_for(roots, header.exec_height);
                bytes_equal(proof.proof.as_slice(), self.proof_data(&statement).as_slice())
            },
            _ => verdict,
        }
    }
}

/// Whether the mock backend accepts a proof.
pub open spec fn mock_accepts(roots: CompressedRoots, exec_height: u64, proof: Seq<u8>) -> bool {
    proof == proof_bytes(ZkpBackend::Mock, statement_about(roots, exec_height))
}

/// The height that monoliths are made at.
pub const CURRENT_HEIGHT: u64 = 10000;

/// How many blocks a day has.
pub const BLOCKS_PER_DAY: u64 = 8640;

/// How many transactions a block is taken to hold.
pub const TRANSACTIONS_PER_BLOCK: u64 = 150;

/// The hash of the block header at a height.
pub open spec fn block_header_hash(height: u64) -> Seq<u8> {
    crypto::sha512_of(bytes::u64_le(height) + text::utf8("block_header"@))
}

/// The hashes of `n` block headers, from a height on, one after the other.
pub open spec fn header_hashes(start: u64, n: nat) -> Seq<u8>
    decreases n,
{
    if n == 0 {
        Seq::empty()
    } else {
        header_hashes(start, (n - 1) as nat) + block_header_hash((start + n - 1) as u64)
    }
}

/// How many heights there are from one to another, both included.
pub open spec fn range_len(start: u64, end: u64) -> nat {
    if start <= end {
        (end - start + 1) as nat
    } else {
        0
    }
}

/// What a monolith commits to for the blocks of a range.
pub open spec fn headers_commitment(start: u64, end: u64) -> Seq<u8> {
    crypto::sha512_of(header_hashes(start, range_len(start, end)))
}

/// What a monolith commits to for the state at a height.
pub open spec fn state_commitment(height: u64) -> Seq<u8> {
    crypto::sha512_of(bytes::u64_le(height) + text::utf8("state_root"@))
}

/// The first `n` hashes, one after the other.
pub open spec fn joined(headers: Seq<[u8; 64]>, n: int) -> Seq<u8>
    decreases n,
{
    if n <= 0 {
        Seq::empty()
    } else {
        joined(headers, n - 1) + headers[n - 1]@
    }
}

/// Why no monolith was made: there are too few blocks.
#[derive(Debug, Clone, Copy, PartialEq, Eq, Structural)]
pub struct InsufficientBlocks {
    pub block_count: u64,
    pub required: u64,
}

/// The header of a monolith of a range before anything else is known of it.
pub open spec fn is_fresh_header(
    h: MonolithHeader,
    start: u64,
    end: u64,
    epoch_id: u64,
    produced_at_ms: u64,
) -> bool {
    &&& h.monolith_id@ == bytes::zeros(64)
    &&& h.prev_monolith_id@ == bytes::zeros(64)
    &&& h.headers_commit@ == headers_commitment(start, end)
    &&& h.state_commit@ == state_commitment(end)
    &&& h.proof_commit@ == bytes::zeros(64)
    &&& h.exec_height == end
    &&& h.window_start == start
    &&& h.epoch_id == epoch_id
    &&& h.produced_at_ms == produced_at_ms
    &&& h.producer@ == bytes::zeros(32)
    &&& h.cosignatures@.len() == 0
    &&& h.merkle_proof is None
    &&& h.aggregate_receipt is None
    &&& h.generation_time_ms == 0
    &&& h.size_bytes == 0
    &&& h.serve_count == 0
    &&& h.zkp_proof is None
}

/// A proof as it is stored.
pub open spec fn stored_proof(
    backend: ZkpBackend,
    roots: CompressedRoots,
    exec_height: u64,
) -> Seq<u8> {
    let s = statement_about(roots, exec_height);
    framed(proof_bytes(backend, s)) + framed(s) + framed(key_bytes(backend, roots))
}

/// Whether `roots` are what `compress` makes of the roots of a header.
pub open spec fn compressed_by<F: Fn(&[u8; 64]) -> [u8; 32]>(
    compress: F,
    header: MonolithHeader,
    roots: CompressedRoots,
) -> bool {
    &&& exists|zero: [u8; 64]|
        zero@ == bytes::zeros(64) && #[trigger] compress.ensures((&zero,), roots.prev_state)
    &&& compress.ensures((&header.headers_commit,), roots.headers)
    &&& compress.ensures((&header.state_commit,), roots.state)
}

/// Makes and checks monoliths.
#[derive(Debug, Clone)]
pub struct MonolithProducer {
    config: MonolithProducerConfig,
    features: ZkpFeatures,
}

impl MonolithProducer {
    /// How monoliths are made.
    pub closed spec fn settings(&self) -> MonolithProducerConfig {
        self.config
    }

    /// Which backends besides the mock are there.
    pub closed spec fn features(&self) -> ZkpFeatures {
        self.features
    }

    /// The backend that the settings name, as far as it is there.
    pub open spec fn backend(&self) -> ZkpBackend {
        backend_of(lowercase_of(self.settings().zkp_backend@), self.features())
    }

    /// A producer with these settings, where only the mock is there.
    pub fn new(config: MonolithProducerConfig) -> (r: Self)
        ensures
            r.settings() == config,
            r.features() == (ZkpFeatures { plonk: false, arkworks: false }),
    {
        Self::with_features(config, ZkpFeatures { plonk: false, arkworks: false })
    }

    /// A producer with these settings, where these backends are there.
    pub fn with_features(config: MonolithProducerConfig, features: ZkpFeatures) -> (r: Self)
        ensures
            r.settings() == config,
            r.features() == features,
    {
        MonolithProducer { config, features }
    }

    /// Where the next monolith starts: a day of blocks back, or as far as the settings let it
    /// reach.
    pub open spec fn range_start(&self) -> u64 {
        if self.settings().max_block_range < BLOCKS_PER_DAY {
            (CURRENT_HEIGHT - self.settings().max_block_range) as u64
        } else {
            (CURRENT_HEIGHT - BLOCKS_PER_DAY) as u64
        }
    }

    /// How many blocks the next monolith covers.
    pub open spec fn blocks_in_range(&self) -> int {
        CURRENT_HEIGHT - self.range_start() + 1
    }

    /// The range that the next monolith covers: a day of blocks, within the largest range of the
    /// settings.
    pub fn calculate_block_range(&self) -> (r: (u64, u64))
        ensures
            r == (self.range_start(), CURRENT_HEIGHT),
            r.1 - r.0 <= self.settings().max_block_range,
    {
        let reach: u64 = if self.config.max_block_range < BLOCKS_PER_DAY {
            self.config.max_block_range
        } else {
            BLOCKS_PER_DAY
        };
        (CURRENT_HEIGHT - reach, CURRENT_HEIGHT)
    }

    /// The hash of the block header at a height.
    pub fn simulate_block_header_hash(&self, height: u64) -> (r: [u8; 64])
        ensures
            r@ == block_header_hash(height),
    {
        let mut data: Vec<u8> = Vec::new();
        push_u64(&mut data, height);
        push_bytes(&mut data, "block_header".as_bytes());
        assert(data@ =~= bytes::u64_le(height) + text::utf8("block_header"@));
        sha512(data.as_slice())
    }

    /// The hashes of the block headers of a range, both ends included.
    pub fn collect_block_headers(&self, start_height: u64, end_height: u64) -> (r: Vec<[u8; 64]>)
        ensures
            r@.len() == range_len(start_height, end_height),
            forall|i: int|
                0 <= i < r@.len() ==> (#[trigger] r@[i])@ == block_header_hash(
                    (start_height + i) as u64,
                ),
    {
        let mut headers: Vec<[u8; 64]> = Vec::new();
        if start_height > end_height {
            return headers;
        }
        let mut height: u64 = start_height;
        while height < end_height
            invariant
                start_height <= height <= end_height,
                headers@.len() == height - start_height,
                forall|i: int|
                    0 <= i < headers@.len() ==> (#[trigger] headers@[i])@ == block_header_hash(
                        (start_height + i) as u64,
                    ),
            decreases end_height - height,
        {
            headers.push(self.simulate_block_header_hash(height));
            height += 1;
        }
        headers.push(self.simulate_block_header_hash(height));
        headers
    }

    /// What a monolith commits to for these block headers.
    pub fn calculate_headers_commitment(&self, headers: &[[u8; 64]]) -> (r: [u8; 64])
        ensures
            r@ == crypto::sha512_of(joined(headers@, headers@.len() as int)),
    {
        let mut data: Vec<u8> = Vec::new();
        let mut i: usize = 0;
        while i < headers.len()
            invariant
                i <= headers@.len(),
                data@ == joined(headers@, i as int),
            decreases headers@.len() - i,
        {
            push_bytes(&mut data, headers[i].as_slice());
            i += 1;
        }
        sha512(data.as_slice())
    }

    /// What a monolith commits to for the state at a height.
    pub fn calculate_state_commitment(&self, height: u64) -> (r: [u8; 64])
        ensures
            r@ == state_commitment(height),
    {
        let mut data: Vec<u8> = Vec::new();
        push_u64(&mut data, height);
        push_bytes(&mut data, "state_root".as_bytes());
        assert(data@ =~= bytes::u64_le(height) + text::utf8("state_root"@));
        sha512(data.as_slice())
    }

    /// How many transactions the blocks of a range are taken to hold.
    pub fn count_transactions_in_range(&self, start_height: u64, end_height: u64) -> (r: u64)
        requires
            start_height <= end_height,
            (end_height - start_height + 1) * 150 <= u64::MAX,
        ensures
            r == (end_height - start_height + 1) * 150,
    {
        let block_count: u64 = end_height - start_height + 1;
        block_count * TRANSACTIONS_PER_BLOCK
    }

    /// The proof of a header with these roots, as it is stored.
    pub fn generate_zkp_proof(&self, header: &MonolithHeader, roots: &CompressedRoots) -> (r: Vec<
        u8,
    >)
        ensures
            r@ == stored_proof(self.backend(), *roots, header.exec_height),
    {
        let generator = ZkpProofGenerator::from_config(
            self.config.zkp_backend.as_str(),
            self.features,
        );
        let proof = generator.generate_proof(header, roots);
        encode_three(
            proof.proof.as_slice(),
            proof.public_inputs.as_slice(),
            proof.verification_key.as_slice(),
        )
    }

    /// Makes the monolith of the current range. `compress` brings a root down to 32 bytes;
    /// `epoch_id` and `validators` are those of the schedule, and the first validator is the
    /// creator.
    pub fn create_monolith_block_at<F: Fn(&[u8; 64]) -> [u8; 32]>(
        &self,
        epoch_id: u64,
        validators: &[String],
        compress: F,
        now_secs: u64,
        now_ms: u64,
    ) -> (r: Result<MonolithBlock, InsufficientBlocks>)
        requires
            forall|root: [u8; 64]| #[trigger] compress.requires((&root,)),
        ensures
            match r {
                Ok(b) => {
                    &&& self.settings().min_blocks_per_monolith <= self.blocks_in_range()
                    &&& is_fresh_header(
                        b.header,
                        self.range_start(),
                        CURRENT_HEIGHT,
                        epoch_id,
                        now_ms,
                    )
                    &&& b.start_height == self.range_start()
                    &&& b.end_height == CURRENT_HEIGHT
                    &&& b.block_count == self.blocks_in_range()
                    &&& b.total_transactions == self.blocks_in_range() * 150
                    &&& b.created_at == now_secs
                    &&& b.creator_id@ == if validators@.len() > 0 {
                        validators@[0]@
                    } else {
                        Seq::empty()
                    }
                    &&& !self.settings().enable_zkp ==> b.zkp_proof@.len() == 0
                    &&& self.settings().enable_zkp ==> exists|roots: CompressedRoots|
                        #[trigger] compressed_by(compress, b.header, roots) && b.zkp_proof@
                            == stored_proof(self.backend(), roots, CURRENT_HEIGHT)
                },
                Err(e) => {
                    &&& self.settings().min_blocks_per_monolith > self.blocks_in_range()
                    &&& e.block_count == self.blocks_in_range()
                    &&& e.required == self.settings().min_blocks_per_monolith
                },
            },
    {
        let (start_height, end_height) = self.calculate_block_range();
        let block_headers = self.collect_block_headers(start_height, end_height);
        let block_count: u64 = block_headers.len() as u64;
        if block_count < self.config.min_blocks_per_monolith {
            return Err(
                InsufficientBlocks { block_count, required: self.config.min_blocks_per_monolith },
            );
        }
        let headers_commit = self.calculate_headers_commitment(block_headers.as_slice());
        proof {
            joined_is_range(block_headers@, start_height, block_headers@.len());
        }
        let state_commit = self.calculate_state_commitment(end_height);
        let header = MonolithHeader {
            monolith_id: [0u8;64],
            prev_monolith_id: [0u8;64],
            headers_commit,
            state_commit,
            proof_commit: [0u8;64],
            exec_height: end_height,
            window_start: start_height,
            epoch_id,
            produced_at_ms: now_ms,
            producer: [0u8;32],
            cosignatures: Vec::new(),
            merkle_proof: None,
            aggregate_receipt: None,
            generation_time_ms: 0,
            size_bytes: 0,
            serve_count: 0,
            zkp_proof: None,
        };
        assert(header.monolith_id@ =~= bytes::zeros(64));
        assert(header.producer@ =~= bytes::zeros(32));
        let zkp_proof: Vec<u8> = if self.config.enable_zkp {
            let no_state = [0u8;64];
            assert(no_state@ =~= bytes::zeros(64));
            let roots = CompressedRoots {
                prev_state: compress(&no_state),
                headers: compress(&header.headers_commit),
                state: compress(&header.state_commit),
            };
            assert(compress.ensures((&no_state,), roots.prev_state));
            assert(compress.ensures((&header.headers_commit,), roots.headers));
            assert(compress.ensures((&header.state_commit,), roots.state));
            assert(compressed_by(compress, header, roots));
            self.generate_zkp_proof(&header, &roots)
        } else {
            Vec::new()
        };
        let total_transactions: u64 = self.count_transactions_in_range(start_height, end_height);
        let creator_id: String = if validators.len() > 0 {
            validators[0].clone()
        } else {
            String::new()
        };
        Ok(
            MonolithBlock {
                header,
                start_height,
                end_height,
                block_count,
                total_transactions,
                created_at: now_secs,
                creator_id,
                zkp_proof,
            },
        )
    }

    /// Makes the monolith of the current range now.
    pub fn create_monolith_block<F: Fn(&[u8; 64]) -> [u8; 32]>(
        &self,
        epoch_id: u64,
        validators: &[String],
        compress: F,
    ) -> (r: Result<MonolithBlock, InsufficientBlocks>)
        requires
            forall|root: [u8; 64]| #[trigger] compress.requires((&root,)),
        ensures
            match r {
                Ok(b) => {
                    &&& self.settings().min_blocks_per_monolith <= self.blocks_in_range()
                    &&& is_fresh_header(
                        b.header,
                        self.range_start(),
                        CURRENT_HEIGHT,
                        epoch_id,
                        b.header.produced_at_ms,
                    )
                    &&& b.start_height == self.range_start()
                    &&& b.end_height == CURRENT_HEIGHT
                    &&& b.block_count == self.blocks_in_range()
                    &&& b.total_transactions == self.blocks_in_range() * 150
                    &&& b.creator_id@ == if validators@.len() > 0 {
                        validators@[0]@
                    } else {
                        Seq::empty()
                    }
                    &&& !self.settings().enable_zkp ==> b.zkp_proof@.len() == 0
                    &&& self.settings().enable_zkp ==> exists|roots: CompressedRoots|
                        #[trigger] compressed_by(compress, b.header, roots) && b.zkp_proof@
                            == stored_proof(self.backend(), roots, CURRENT_HEIGHT)
                },
                Err(e) => {
                    &&& self.settings().min_blocks_per_monolith > self.blocks_in_range()
                    &&& e.block_count == self.blocks_in_range()
                    &&& e.required == self.settings().min_blocks_per_monolith
                },
            },
    {
        self.create_monolith_block_at(
            epoch_id,
            validators,
            compress,
            unix_seconds(),
            unix_millis(),
        )
    }

    /// Whether a monolith commits to the block headers of its range.
    pub fn verify_monolith_block(&self, block: &MonolithBlock) -> (r: bool)
        ensures
            r == is_committed(*block),
    {
        let headers = self.collect_block_headers(block.start_height, block.end_height);
        let expected = self.calculate_headers_commitment(headers.as_slice());
        proof {
            joined_is_range(headers@, block.start_height, headers@.len());
        }
        bytes_equal(expected.as_slice(), block.header.headers_commit.as_slice())
    }
}

/// Whether a monolith commits to the block headers of its range.
pub open spec fn is_committed(block: MonolithBlock) -> bool {
    block.header.headers_commit@ == headers_commitment(block.start_height, block.end_height)
}

proof fn joined_is_range(headers: Seq<[u8; 64]>, start: u64, n: nat)
    requires
        n <= headers.len(),
        start + headers.len() <= u64::MAX + 1,
        forall|i: int|
            0 <= i < headers.len() ==> (#[trigger] headers[i])@ == block_header_hash(
                (start + i) as u64,
            ),
    ensures
        joined(headers, n as int) == header_hashes(start, n),
    decreases n,
{
    if n > 0 {
        joined_is_range(headers, start, (n - 1) as nat);
        assert(headers[n - 1]@ == block_header_hash((start + (n - 1)) as u64));
    }
}

/// A monolith that was made is found to be good.
pub proof fn created_monoliths_verify(block: MonolithBlock, epoch_id: u64, produced_at_ms: u64)
    requires
        is_fresh_header(
            block.header,
            block.start_height,
            block.end_height,
            epoch_id,
            produced_at_ms,
        ),
    ensures
        is_committed(block),
{
}

/// A frame is the length of its contents and then the contents; what follows it does not change
/// how it is read.
pub proof fn frames_are_read_back(data: Seq<u8>, rest: Seq<u8>)
    requires
        data.len() <= u64::MAX,
    ensures
        framed(data).len() == 8 + data.len(),
        vstd::bytes::spec_u64_from_le_bytes((framed(data) + rest).subrange(0, 8)) == data.len(),
        (framed(data) + rest).subrange(8, 8 + data.len() as int) == data,
        (framed(data) + rest).skip(8 + data.len() as int) == rest,
{
    bytes::numbers_are_read_back(data.len() as u64, 0, 0);
    let f = framed(data) + rest;
    assert(f.subrange(0, 8) =~= bytes::u64_le(data.len() as u64));
    assert(f.subrange(8, 8 + data.len() as int) =~= data);
    assert(f.skip(8 + data.len() as int) =~= rest);
}

/// A stored proof is three frames: the proof, what it is a proof of, and the key to check it.
pub proof fn stored_proofs_are_three_frames(
    backend: ZkpBackend,
    roots: CompressedRoots,
    exec_height: u64,
)
    requires
        proof_bytes(backend, statement_about(roots, exec_height)).len() == 32,
        key_bytes(backend, roots).len() == 32,
    ensures
        ({
            let p = stored_proof(backend, roots, exec_height);
            &&& p.len() == 232
            &&& vstd::bytes::spec_u64_from_le_bytes(p.subrange(0, 8)) == 32
            &&& p.subrange(8, 40) == proof_bytes(backend, statement_about(roots, exec_height))
            &&& vstd::bytes::spec_u64_from_le_bytes(p.subrange(40, 48)) == 144
            &&& p.subrange(48, 192) == statement_about(roots, exec_height)
            &&& vstd::bytes::spec_u64_from_le_bytes(p.subrange(192, 200)) == 32
            &&& p.subrange(200, 232) == key_bytes(backend, roots)
        }),
{
    statement_layout(roots, exec_height);
    let s = statement_about(roots, exec_height);
    let a = proof_bytes(backend, s);
    let k = key_bytes(backend, roots);
    let p = stored_proof(backend, roots, exec_height);
    bytes::numbers_are_read_back(32, 0, 0);
    bytes::numbers_are_read_back(144, 0, 0);
    assert(p.subrange(0, 8) =~= bytes::u64_le(32));
    assert(p.subrange(8, 40) =~= a);
    assert(p.subrange(40, 48) =~= bytes::u64_le(144));
    assert(p.subrange(48, 192) =~= s);
    assert(p.subrange(192, 200) =~= bytes::u64_le(32));
    assert(p.subrange(200, 232) =~= k);
}

/// What a proof is about: the state before, the headers, the state after, a blank, the height and
/// a zero, in their places.
pub proof fn statement_layout(roots: CompressedRoots, exec_height: u64)
    ensures
        ({
            let s = statement_about(roots, exec_height);
            &&& s.len() == 144
            &&& s.subrange(0, 32) == roots.prev_state@
            &&& s.subrange(32, 64) == roots.headers@
            &&& s.subrange(64, 96) == roots.state@
            &&& forall|i: int| 96 <= i < 128 ==> #[trigger] s[i] == 0
            &&& vstd::bytes::spec_u64_from_le_bytes(s.subrange(128, 136)) == exec_height
            &&& vstd::bytes::spec_u64_from_le_bytes(s.subrange(136, 144)) == 0
        }),
{
    bytes::numbers_are_read_back(exec_height, 0, 0);
    bytes::numbers_are_read_back(0, 0, 0);
    let s = statement_about(roots, exec_height);
    assert(s.subrange(0, 32) =~= roots.prev_state@);
    assert(s.subrange(32, 64) =~= roots.headers@);
    assert(s.subrange(64, 96) =~= roots.state@);
    assert(s.subrange(128, 136) =~= bytes::u64_le(exec_height));
    assert(s.subrange(136, 144) =~= bytes::u64_le(0));
}

/// Statements with the same bytes are the same.
pub proof fn statements_are_told_apart(s: Statement, t: Statement)
    requires
        statement_bytes(s) == statement_bytes(t),
    ensures
        s.a@ == t.a@ && s.b@ == t.b@ && s.c@ == t.c@ && s.d@ == t.d@,
        s.e == t.e && s.f == t.f,
        statement_bytes(s).len() == 144,
{
    bytes::numbers_are_read_back(s.e, 0, 0);
    bytes::numbers_are_read_back(s.f, 0, 0);
    bytes::numbers_are_read_back(t.e, 0, 0);
    bytes::numbers_are_read_back(t.f, 0, 0);
    let x = statement_bytes(s);
    let y = statement_bytes(t);
    assert(x.subrange(0, 32) =~= s.a@ && y.subrange(0, 32) =~= t.a@);
    assert(x.subrange(32, 64) =~= s.b@ && y.subrange(32, 64) =~= t.b@);
    assert(x.subrange(64, 96) =~= s.c@ && y.subrange(64, 96) =~= t.c@);
    assert(x.subrange(96, 128) =~= s.d@ && y.subrange(96, 128) =~= t.d@);
    assert(x.subrange(128, 136) =~= bytes::u64_le(s.e));
    assert(y.subrange(128, 136) =~= bytes::u64_le(t.e));
    assert(x.subrange(136, 144) =~= bytes::u64_le(s.f));
    assert(y.subrange(136, 144) =~= bytes::u64_le(t.f));
}

/// A backend is the one that is named, where it is built in; any other name, and any that is not
/// built in, means the plain one.
pub proof fn backends_are_named(name: Seq<char>, features: ZkpFeatures)
    ensures
        backend_of(name, features) is Plonk <==> name == "plonk"@ && features.plonk,
        backend_of(name, features) is Arkworks <==> name == "arkworks"@ && features.arkworks,
        !features.plonk && !features.arkworks ==> backend_of(name, features) is Mock,
{
    reveal_strlit("plonk");
    reveal_strlit("arkworks");
    assert("plonk"@.len() == 5);
    assert("arkworks"@.len() == 8);
}

/// A plain proof is the digest of a tag of the backend and the statement, and the check accepts
/// that one alone. `tagged` is what is digested.
pub proof fn plain_proofs_are_digests(
    roots: CompressedRoots,
    exec_height: u64,
    tagged: Seq<u8>,
    given: Seq<u8>,
)
    requires
        tagged == text::utf8("ZKP-PROOF"@) + statement_about(roots, exec_height),
    ensures
        mock_accepts(roots, exec_height, given) <==> given == crypto::sha256_of(tagged),
        mock_accepts(
            roots,
            exec_height,
            proof_bytes(ZkpBackend::Mock, statement_about(roots, exec_height)),
        ),
{
}

/// Each backend marks its proofs and keys with tags of its own.
pub proof fn backends_have_their_tags(a: ZkpBackend, b: ZkpBackend)
    ensures
        proof_tag(a) == proof_tag(b) <==> a == b,
        key_tag(a) == key_tag(b) <==> a == b,
        proof_tag(a) != key_tag(b),
{
    reveal_strlit("ZKP-PROOF");
    reveal_strlit("PLONK-REAL-PROOF");
    reveal_strlit("ARKWORKS-REAL-PROOF");
    reveal_strlit("ZKP-VK");
    reveal_strlit("PLONK-VK");
    reveal_strlit("ARKWORKS-VK");
    assert("ZKP-PROOF"@.len() == 9 && "PLONK-REAL-PROOF"@.len() == 16);
    assert("ARKWORKS-REAL-PROOF"@.len() == 19 && "ZKP-VK"@.len() == 6);
    assert("PLONK-VK"@.len() == 8 && "ARKWORKS-VK"@.len() == 11);
}

/// The hashes of the headers of two ranges, one after the other, are those of the range that they
/// make up: each height from the first on has its one.
pub proof fn header_hashes_follow_each_other(start: u64, n: nat, m: nat)
    requires
        start + n + m <= u64::MAX,
    ensures
        header_hashes(start, n + m) == header_hashes(start, n) + header_hashes(
            (start + n) as u64,
            m,
        ),
        header_hashes(start, 1) == block_header_hash(start),
        header_hashes(start, 0).len() == 0,
    decreases m,
{
    assert(header_hashes(start, 0) + block_header_hash(start) =~= block_header_hash(start));
    assert(header_hashes(start, 1) == header_hashes(start, 0) + block_header_hash(start));
    if m == 0 {
        assert(header_hashes(start, n) + header_hashes((start + n) as u64, 0) =~= header_hashes(
            start,
            n,
        ));
    } else {
        let k = (m - 1) as nat;
        header_hashes_follow_each_other(start, n, k);
        assert((n + m - 1) as nat == n + k);
        assert(header_hashes(start, n + m) =~= header_hashes(start, n) + header_hashes(
            (start + n) as u64,
            m,
        ));
    }
}

/// The commitment to a range of headers is the digest of their hashes, both ends among them; that
/// to a range that ends before it begins is the digest of nothing.
pub proof fn commitments_are_to_whole_ranges(start: u64, end: u64, hashes: Seq<u8>)
    requires
        end < u64::MAX,
        start <= end ==> hashes == header_hashes(start, (end - start) as nat) + block_header_hash(
            end,
        ),
        start > end ==> hashes.len() == 0,
    ensures
        headers_commitment(start, end) == crypto::sha512_of(hashes),
{
    if start <= end {
        let n = (end - start) as nat;
        assert(header_hashes(start, n + 1) == header_hashes(start, n) + block_header_hash(end));
    } else {
        assert(hashes =~= Seq::<u8>::empty());
    }
}

/// The hash of a header, and the commitment to a state, are of the height and a word for which of
/// the two it is.
pub proof fn heights_are_hashed_with_their_word(height: u64, header: Seq<u8>, state: Seq<u8>)
    requires
        header.len() >= 8 && vstd::bytes::spec_u64_from_le_bytes(header.subrange(0, 8)) == height,
        state.len() >= 8 && vstd::bytes::spec_u64_from_le_bytes(state.subrange(0, 8)) == height,
        header.skip(8) == text::utf8("block_header"@),
        state.skip(8) == text::utf8("state_root"@),
    ensures
        block_header_hash(height) == crypto::sha512_of(header),
        state_commitment(height) == crypto::sha512_of(state),
{
    bytes::numbers_are_read_back(height, 0, 0);
    vstd::bytes::lemma_auto_spec_u64_to_from_le_bytes();
    assert(header.subrange(0, 8) == bytes::u64_le(height));
    assert(state.subrange(0, 8) == bytes::u64_le(height));
    assert(header =~= bytes::u64_le(height) + text::utf8("block_header"@));
    assert(state =~= bytes::u64_le(height) + text::utf8("state_root"@));
}

/// Headers that are joined follow each other, 64 bytes each.
pub proof fn joined_headers_follow_each_other(headers: Seq<[u8; 64]>, n: int, i: int)
    requires
        0 <= i < n <= headers.len(),
    ensures
        joined(headers, n).len() == 64 * n,
        joined(headers, n).subrange(64 * i, 64 * i + 64) == headers[i]@,
    decreases n,
{
    let front = joined(headers, n - 1);
    if n == 1 {
        assert(front.len() == 0);
    } else {
        joined_headers_follow_each_other(headers, n - 1, if i < n - 1 { i } else { 0 });
    }
    if i == n - 1 {
        assert(joined(headers, n).subrange(64 * i, 64 * i + 64) =~= headers[i]@);
    } else {
        assert(joined(headers, n).subrange(64 * i, 64 * i + 64) =~= front.subrange(
            64 * i,
            64 * i + 64,
        ));
    }
}

/// A monolith covers the blocks of the last day, or as many as one may cover where that is fewer,
/// and the one that they start from.
pub proof fn monoliths_cover_a_day_at_most(p: MonolithProducer)
    ensures
        p.settings().max_block_range >= 8640 ==> p.range_start() == 1360 && p.blocks_in_range()
            == 8641,
        p.settings().max_block_range < 8640 ==> p.range_start() == 10000
            - p.settings().max_block_range && p.blocks_in_range() == p.settings().max_block_range
            + 1,
{
}

/// A new header is committed to its headers and to the state at its end. All that is not known
/// yet is blank.
pub proof fn new_headers_are_blank_but_for_their_range(
    h: MonolithHeader,
    start: u64,
    end: u64,
    epoch_id: u64,
    produced_at_ms: u64,
)
    requires
        is_fresh_header(h, start, end, epoch_id, produced_at_ms),
    ensures
        h.window_start == start && h.exec_height == end,
        h.epoch_id == epoch_id && h.produced_at_ms == produced_at_ms,
        h.headers_commit@ == headers_commitment(start, end),
        h.state_commit@ == state_commitment(end),
        forall|i: int| 0 <= i < 64 ==> #[trigger] h.monolith_id@[i] == 0,
        forall|i: int| 0 <= i < 64 ==> #[trigger] h.prev_monolith_id@[i] == 0,
        forall|i: int| 0 <= i < 64 ==> #[trigger] h.proof_commit@[i] == 0,
        forall|i: int| 0 <= i < 32 ==> #[trigger] h.producer@[i] == 0,
        h.cosignatures@.len() == 0,
        h.merkle_proof is None && h.aggregate_receipt is None && h.zkp_proof is None,
        h.generation_time_ms == 0 && h.size_bytes == 0 && h.serve_count == 0,
{
}

/// The same monolith has the same heights, counts, creator and proof, and the same header.
pub proof fn copies_are_the_same(a: MonolithBlock, b: MonolithBlock)
    requires
        same_monolith(a, b),
    ensures
        same_monolith(b, a),
        a.start_height == b.start_height && a.end_height == b.end_height,
        a.block_count == b.block_count && a.total_transactions == b.total_transactions,
        a.created_at == b.created_at && a.creator_id@ == b.creator_id@,
        a.zkp_proof@ == b.zkp_proof@,
        a.header.headers_commit == b.header.headers_commit,
        a.header.state_commit == b.header.state_commit,
        a.header.monolith_id == b.header.monolith_id,
        a.header.prev_monolith_id == b.header.prev_monolith_id,
        a.header.proof_commit == b.header.proof_commit,
        a.header.exec_height == b.header.exec_height,
        a.header.epoch_id == b.header.epoch_id,
        is_committed(a) <==> is_committed(b),
{
    assert forall|i: int| 0 <= i < b.header.cosignatures@.len() implies (
    #[trigger] b.header.cosignatures@[i])@ == a.header.cosignatures@[i]@ by {
        assert(a.header.cosignatures@[i]@ == b.header.cosignatures@[i]@);
    }
}

/// A placeholder for a proof is the digest of a word, the monolith, its two commitments and its
/// height. `data` is what is digested, and `word` how long the word is.
pub proof fn placeholders_are_of_their_header(h: MonolithHeader, data: Seq<u8>, word: int)
    requires
        word == text::utf8("MOCK-ZKP"@).len(),
        data.len() == word + 200,
        data.subrange(0, word) == text::utf8("MOCK-ZKP"@),
        data.subrange(word, word + 64) == h.monolith_id@,
        data.subrange(word + 64, word + 128) == h.headers_commit@,
        data.subrange(word + 128, word + 192) == h.state_commit@,
        vstd::bytes::spec_u64_from_le_bytes(data.subrange(word + 192, word + 200)) == h.exec_height,
    ensures
        placeholder_bytes(h) == crypto::sha256_of(data),
{
    vstd::bytes::lemma_auto_spec_u64_to_from_le_bytes();
    assert(data.subrange(word + 192, word + 200) == bytes::u64_le(h.exec_height));
    assert(data =~= text::utf8("MOCK-ZKP"@) + h.monolith_id@ + h.headers_commit@ + h.state_commit@
        + bytes::u64_le(h.exec_height)) by {
        bytes::numbers_are_read_back(h.exec_height, 0, 0);
        assert forall|i: int| 0 <= i < 64 implies data[word + i] == h.monolith_id@[i] by {
            assert(data.subrange(word, word + 64)[i] == h.monolith_id@[i]);
        }
        let parts = text::utf8("MOCK-ZKP"@) + h.monolith_id@ + h.headers_commit@ + h.state_commit@
            + bytes::u64_le(h.exec_height);
        assert(parts.len() == data.len());
        assert forall|i: int| 0 <= i < data.len() implies #[trigger] data[i] == parts[i] by {
            if i < word {
                assert(data.subrange(0, word)[i] == data[i]);
            } else if i < word + 64 {
                assert(data.subrange(word, word + 64)[i - word] == data[i]);
            } else if i < word + 128 {
                assert(data.subrange(word + 64, word + 128)[i - word - 64] == data[i]);
            } else if i < word + 192 {
                assert(data.subrange(word + 128, word + 192)[i - word - 128] == data[i]);
            } else {
                assert(data.subrange(word + 192, word + 200)[i - word - 192] == data[i]);
            }
        }
    }
}

} // verus!
