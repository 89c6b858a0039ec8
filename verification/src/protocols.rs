//! Identities of workers and blocks, and what the router knows about them.

use crate::key_map::{KeyMap, MapKey};
use vstd::prelude::*;

verus! {

pub type WorkerId = u64;

pub type DpRank = u32;

/// A worker together with one of its data-parallel ranks.
#[derive(Debug, Clone, Copy, PartialEq, Eq, Hash, PartialOrd, Ord, Structural)]
pub struct WorkerWithDpRank {
    pub worker_id: WorkerId,
    pub dp_rank: DpRank,
}

impl View for WorkerWithDpRank {
    type V = WorkerWithDpRank;

    open spec fn view(&self) -> WorkerWithDpRank {
        *self
    }
}

impl MapKey for WorkerWithDpRank {
    fn same_key(&self, other: &Self) -> (same: bool) {
        *self == *other
    }
}

/// Workers in order of their id, then of their rank.
pub open spec fn worker_before(a: WorkerWithDpRank, b: WorkerWithDpRank) -> bool {
    a.worker_id < b.worker_id || (a.worker_id == b.worker_id && a.dp_rank < b.dp_rank)
}

impl WorkerWithDpRank {
    pub fn new(worker_id: WorkerId, dp_rank: DpRank) -> (worker: Self)
        ensures
            worker.worker_id == worker_id,
            worker.dp_rank == dp_rank,
    {
        WorkerWithDpRank { worker_id, dp_rank }
    }

    /// The worker's rank zero.
    pub fn from_worker_id(worker_id: WorkerId) -> (worker: Self)
        ensures
            worker.worker_id == worker_id,
            worker.dp_rank == 0,
    {
        WorkerWithDpRank { worker_id, dp_rank: 0 }
    }

    pub fn precedes(&self, other: &Self) -> (r: bool)
        ensures
            r == worker_before(*self, *other),
    {
        self.worker_id < other.worker_id || (self.worker_id == other.worker_id && self.dp_rank
            < other.dp_rank)
    }
}

/// The hash of the tokens of one block, independent of what precedes it.
#[derive(Debug, Clone, Copy, PartialEq, Eq, Hash, PartialOrd, Ord, Structural)]
pub struct LocalBlockHash(pub u64);

impl View for LocalBlockHash {
    type V = LocalBlockHash;

    open spec fn view(&self) -> LocalBlockHash {
        *self
    }
}

impl MapKey for LocalBlockHash {
    fn same_key(&self, other: &Self) -> (same: bool) {
        *self == *other
    }
}

/// For each worker, how many leading blocks of a request it holds, by storage tier.
pub struct OverlapScores {
    pub cpu_scores: KeyMap<WorkerWithDpRank, u32>,
    pub gpu_and_cpu_scores: KeyMap<WorkerWithDpRank, u32>,
    pub cxl_scores: KeyMap<WorkerWithDpRank, u32>,
    pub cpu_and_cxl_scores: KeyMap<WorkerWithDpRank, u32>,
    pub cxl_resident_scores: KeyMap<WorkerWithDpRank, u32>,
}

impl OverlapScores {
    pub fn new() -> (scores: Self)
        ensures
            scores.cpu_scores@ == Map::<WorkerWithDpRank, u32>::empty(),
            scores.gpu_and_cpu_scores@ == Map::<WorkerWithDpRank, u32>::empty(),
            scores.cxl_scores@ == Map::<WorkerWithDpRank, u32>::empty(),
            scores.cpu_and_cxl_scores@ == Map::<WorkerWithDpRank, u32>::empty(),
            scores.cxl_resident_scores@ == Map::<WorkerWithDpRank, u32>::empty(),
    {
        OverlapScores {
            cpu_scores: KeyMap::new(),
            gpu_and_cpu_scores: KeyMap::new(),
            cxl_scores: KeyMap::new(),
            cpu_and_cxl_scores: KeyMap::new(),
            cxl_resident_scores: KeyMap::new(),
        }
    }
}

/// The seed under which block hashes are computed.
pub const BLOCK_HASH_SEED: u64 = 1337;

/// The 64-bit XXH3 digest of some bytes under a seed.
pub uninterp spec fn xxh3_64(input: Seq<u8>, seed: u64) -> u64;

/// Calls `xxhash_rust::xxh3::xxh3_64_with_seed`. Its result is the XXH3 digest,
/// named here: a function of the bytes and the seed alone.
#[verifier::external_body]
fn xxh3_digest(input: &[u8], seed: u64) -> (digest: u64)
    ensures
        digest == xxh3_64(input@, seed),
{
    xxhash_rust::xxh3::xxh3_64_with_seed(input, seed)
}

/// The four bytes of a token, least significant first.
pub open spec fn token_bytes(token: u32) -> Seq<u8> {
    seq![
        (token % 256) as u8,
        (token / 256 % 256) as u8,
        (token / 65536 % 256) as u8,
        (token / 16777216) as u8,
    ]
}

/// The bytes of all tokens, one after the other.
pub open spec fn tokens_bytes(tokens: Seq<u32>) -> Seq<u8>
    decreases tokens.len(),
{
    if tokens.len() == 0 {
        Seq::empty()
    } else {
        tokens_bytes(tokens.drop_last()) + token_bytes(tokens.last())
    }
}

/// The hash of one block of tokens.
pub open spec fn block_hash(tokens: Seq<u32>) -> u64 {
    xxh3_64(tokens_bytes(tokens), BLOCK_HASH_SEED)
}

/// The tokens of block `i`.
pub open spec fn block_tokens(tokens: Seq<u32>, block_size: int, i: int) -> Seq<u32> {
    tokens.subrange(i * block_size, i * block_size + block_size)
}

/// The hashes of all complete blocks; a shorter rest at the end has none.
pub open spec fn block_hashes(tokens: Seq<u32>, block_size: int) -> Seq<u64> {
    Seq::new(
        (tokens.len() as int / block_size) as nat,
        |i: int| block_hash(block_tokens(tokens, block_size, i)),
    )
}

pub open spec fn hash_values(hashes: Seq<LocalBlockHash>) -> Seq<u64> {
    Seq::new(hashes.len(), |i: int| hashes[i].0)
}

fn push_token(bytes: &mut Vec<u8>, token: u32)
    ensures
        final(bytes)@ == old(bytes)@ + token_bytes(token),
{
    bytes.push((token % 256) as u8);
    bytes.push((token / 256 % 256) as u8);
    bytes.push((token / 65536 % 256) as u8);
    bytes.push((token / 16777216) as u8);
    assert(bytes@ =~= old(bytes)@ + token_bytes(token));
}

/// Every complete block lies inside the sequence.
pub proof fn lemma_block_bounds(len: int, block_size: int, i: int)
    requires
        len >= 0,
        block_size > 0,
        0 <= i < len / block_size,
    ensures
        0 <= i * block_size,
        i * block_size + block_size <= len,
{
    assert(0 <= i * block_size) by (nonlinear_arith)
        requires
            0 <= i,
            block_size > 0,
    ;
    assert(i * block_size + block_size <= (len / block_size) * block_size) by (nonlinear_arith)
        requires
            i + 1 <= len / block_size,
            block_size > 0,
    ;
    vstd::arithmetic::div_mod::lemma_fundamental_div_mod(len, block_size);
    vstd::arithmetic::mul::lemma_mul_is_commutative(len / block_size, block_size);
    vstd::arithmetic::div_mod::lemma_mod_bound(len, block_size);
}

/// Hashes a token sequence block by block.
pub fn compute_block_hash_for_seq(tokens: &[u32], block_size: u32) -> (hashes: Vec<LocalBlockHash>)
    requires
        block_size > 0,
    ensures
        hash_values(hashes@) == block_hashes(tokens@, block_size as int),
{
    let size: usize = block_size as usize;
    let len: usize = tokens.len();
    let count: usize = len / size;
    let mut hashes: Vec<LocalBlockHash> = Vec::new();
    let mut i: usize = 0;
    while i < count
        invariant
            size == block_size,
            size > 0,
            len == tokens@.len(),
            count == tokens@.len() as int / size as int,
            i <= count,
            hashes@.len() == i,
            forall|j: int|
                0 <= j < i ==> (#[trigger] hashes@[j]).0 == block_hash(
                    block_tokens(tokens@, size as int, j),
                ),
        decreases count - i,
    {
        proof {
            lemma_block_bounds(tokens@.len() as int, size as int, i as int);
        }
        let start: usize = i * size;
        let ghost block = block_tokens(tokens@, size as int, i as int);
        let mut bytes: Vec<u8> = Vec::new();
        let mut k: usize = 0;
        assert(tokens_bytes(block.take(0)) =~= bytes@);
        while k < size
            invariant
                k <= size,
                len == tokens@.len(),
                start + size <= tokens@.len(),
                block == tokens@.subrange(start as int, start + size),
                bytes@ == tokens_bytes(block.take(k as int)),
            decreases size - k,
        {
            push_token(&mut bytes, tokens[start + k]);
            assert(block.take(k + 1).drop_last() =~= block.take(k as int));
            assert(block.take(k + 1).last() == tokens@[start + k]);
            k += 1;
        }
        assert(block.take(size as int) =~= block);
        let digest: u64 = xxh3_digest(bytes.as_slice(), BLOCK_HASH_SEED);
        hashes.push(LocalBlockHash(digest));
        i += 1;
    }
    assert(hash_values(hashes@) =~= block_hashes(tokens@, block_size as int));
    hashes
}

/// The hash of a block depends on the tokens of that block alone: not on what
/// precedes it in the request, nor on what follows.
pub proof fn law_block_hash_is_local(a: Seq<u32>, b: Seq<u32>, block_size: int, i: int, j: int)
    requires
        block_size > 0,
        0 <= i < a.len() as int / block_size,
        0 <= j < b.len() as int / block_size,
        block_tokens(a, block_size, i) == block_tokens(b, block_size, j),
    ensures
        block_hashes(a, block_size)[i] == block_hashes(b, block_size)[j],
{
}

} // verus!
