//! What the identities of blocks, chunks and segments promise.

use crate::chunks::{
    chunk_before, chunk_descriptors, describe_chunks, described, distinct,
    lemma_chunk_before_total, lemma_distinct, request_chunks, ChunkDescriptor, ChunkId, ChunkKey,
};
use crate::protocols::{
    block_hash, block_hashes, block_tokens, compute_block_hash_for_seq, hash_values, token_bytes,
    tokens_bytes, LocalBlockHash, WorkerWithDpRank,
};
use crate::segment_id::{namespace_text, SegmentId, SegmentNamespace};
use crate::text::{decimal, hex};
use vstd::prelude::*;

verus! {

/// Every complete block of tokens has a hash, of its own tokens alone and in its place; an
/// incomplete one at the end has none.
pub proof fn law_complete_blocks_are_hashed(
    tokens: &[u32],
    block_size: u32,
    hashes: Vec<LocalBlockHash>,
    i: int,
)
    requires
        call_ensures(compute_block_hash_for_seq, (tokens, block_size), hashes),
        block_size > 0,
    ensures
        hashes@.len() * block_size <= tokens@.len(),
        (hashes@.len() + 1) * block_size > tokens@.len(),
        0 <= i < hashes@.len() ==> hashes@[i].0 == block_hash(
            tokens@.subrange(i * block_size, (i + 1) * block_size),
        ),
{
    let size = block_size as int;
    let count = tokens@.len() as int / size;
    vstd::arithmetic::div_mod::lemma_fundamental_div_mod(tokens@.len() as int, size);
    assert(hash_values(hashes@).len() == hashes@.len());
    assert(hashes@.len() == count);
    assert(count * size <= tokens@.len() && (count + 1) * size > tokens@.len())
        by (nonlinear_arith)
        requires
            tokens@.len() == size * count + tokens@.len() as int % size,
            0 <= tokens@.len() as int % size < size,
    ;
    if 0 <= i < hashes@.len() {
        assert(hash_values(hashes@)[i] == block_hashes(tokens@, size)[i]);
        assert((i + 1) * size == i * size + size) by (nonlinear_arith);
        assert(block_tokens(tokens@, size, i) == tokens@.subrange(i * size, i * size + size));
    }
}

/// The bytes of a token give it back, least significant first, and the bytes of tokens are
/// those of one after another.
pub proof fn law_bytes_give_back_the_token(token: u32, before: Seq<u32>)
    ensures
        token_bytes(token).len() == 4,
        token == token_bytes(token)[0] + 256 * token_bytes(token)[1] + 65536 * token_bytes(
            token,
        )[2] + 16777216 * token_bytes(token)[3],
        tokens_bytes(before.push(token)) == tokens_bytes(before) + token_bytes(token),
        tokens_bytes(before).len() == 4 * before.len(),
    decreases before.len(),
{
    assert(before.push(token).drop_last() =~= before);
    if before.len() > 0 {
        law_bytes_give_back_the_token(before.last(), before.drop_last());
        assert(before.drop_last().push(before.last()) =~= before);
    }
}

/// The chunks of a request are its complete blocks of tokens, in order: each belongs to the
/// model, has the hash in its place, and is described by the whole prefix and its place in
/// it.
pub proof fn law_chunks_are_described(
    model_id: &str,
    tokens: &[u32],
    chunk_size: usize,
    hashes: &Vec<LocalBlockHash>,
    chunks: Vec<(ChunkKey, ChunkDescriptor)>,
    i: int,
)
    requires
        call_ensures(describe_chunks, (model_id, tokens, chunk_size, hashes), chunks),
        chunk_size > 0,
    ensures
        chunks@.len() <= hashes@.len(),
        chunks@.len() == hashes@.len() || chunks@.len() == tokens@.len() as int
            / chunk_size as int,
        chunks@.len() * chunk_size <= tokens@.len(),
        0 <= i < chunks@.len() && i < u32::MAX ==> {
            &&& chunks@[i].0@.0 == model_id@
            &&& chunks@[i].0@.1 == hashes@[i].0
            &&& chunks@[i].1@.prefix_tokens == tokens@
            &&& chunks@[i].1@.start_chunk == i
            &&& chunks@[i].1@.end_chunk == i + 1
        },
{
    let size = chunk_size as int;
    let count = tokens@.len() as int / size;
    vstd::arithmetic::div_mod::lemma_fundamental_div_mod(tokens@.len() as int, size);
    let all = request_chunks(model_id@, tokens@, size, hash_values(hashes@));
    assert(described(chunks@).len() == chunks@.len());
    assert(count >= 0 && count * size <= tokens@.len()) by (nonlinear_arith)
        requires
            tokens@.len() == size * count + tokens@.len() as int % size,
            0 <= tokens@.len() as int % size < size,
            count == tokens@.len() as int / size,
            size > 0,
    ;
    assert(chunks@.len() * size <= count * size) by (nonlinear_arith)
        requires
            0 <= chunks@.len() <= count,
            size > 0,
    ;
    if 0 <= i < chunks@.len() {
        assert(described(chunks@)[i] == all[i]);
    }
}

/// The same with the hashes of the chunks' own tokens.
pub proof fn law_chunks_have_their_own_hash(
    model_id: &str,
    tokens: &[u32],
    chunk_size: usize,
    chunks: Vec<(ChunkKey, ChunkDescriptor)>,
    i: int,
)
    requires
        call_ensures(chunk_descriptors, (model_id, tokens, chunk_size), chunks),
        0 < chunk_size <= u32::MAX,
    ensures
        chunks@.len() == tokens@.len() as int / chunk_size as int,
        0 <= i < chunks@.len() && i < u32::MAX ==> {
            &&& chunks@[i].0@.0 == model_id@
            &&& chunks@[i].0@.1 == block_hash(
                tokens@.subrange(i * chunk_size, i * chunk_size + chunk_size),
            )
            &&& chunks@[i].1@.prefix_tokens == tokens@
            &&& chunks@[i].1@.start_chunk == i
            &&& chunks@[i].1@.end_chunk == i + 1
        },
{
    let size = chunk_size as int;
    let all = request_chunks(model_id@, tokens@, size, block_hashes(tokens@, size));
    assert(tokens@.len() as int / size >= 0) by (nonlinear_arith)
        requires
            size > 0,
            tokens@.len() >= 0,
    ;
    assert(described(chunks@).len() == chunks@.len());
    if 0 <= i < chunks@.len() {
        assert(described(chunks@)[i] == all[i]);
        assert(block_tokens(tokens@, size, i) == tokens@.subrange(i * size, i * size + size));
    }
}

/// Repeated items are dropped: the first occurrence of each stays, in its order.
pub proof fn law_first_occurrences_stay<A>(s: Seq<A>, x: A)
    ensures
        distinct(Seq::<A>::empty()).len() == 0,
        s.contains(x) ==> distinct(s.push(x)) == distinct(s),
        !s.contains(x) ==> distinct(s.push(x)) == distinct(s).push(x),
{
    lemma_distinct(s);
    assert(s.push(x).drop_last() =~= s);
}

/// Chunks are ordered by model, and within a model by hash.
pub proof fn law_chunks_are_ordered(a: ChunkId, b: ChunkId)
    ensures
        a.0 == b.0 ==> chunk_before(a, b) == (a.1 < b.1),
        !(chunk_before(a, b) && chunk_before(b, a)),
        a != b ==> chunk_before(a, b) || chunk_before(b, a),
{
    lemma_chunk_before_total(a, b);
}

/// Workers are ordered by id, and those of one id by rank.
pub proof fn law_workers_are_ordered(a: &WorkerWithDpRank, b: &WorkerWithDpRank, r: bool)
    requires
        call_ensures(WorkerWithDpRank::precedes, (a, b), r),
    ensures
        a.worker_id < b.worker_id ==> r,
        a.worker_id > b.worker_id ==> !r,
        a.worker_id == b.worker_id ==> r == (a.dp_rank < b.dp_rank),
{
}

/// The text of a namespace is its fields in this order, with colons between them.
pub proof fn law_namespaces_are_written_out(namespace: &SegmentNamespace, text: String)
    requires
        call_ensures(SegmentNamespace::canonical, (namespace,), text),
    ensures
        ({
            let n = *namespace;
            let end = n.kv_dtype@ + seq![':'] + decimal(n.chunk_size as nat) + seq![':'] + decimal(
                n.layer_group as nat,
            );
            let layout = decimal(n.kv_layout_version as nat) + (seq![':'] + end);
            let pipeline = decimal(n.pipeline_parallel_rank as nat) + (seq![':'] + layout);
            let tensor = decimal(n.tensor_parallel_rank as nat) + (seq![':'] + pipeline);
            let revision = decimal(n.model_revision as nat) + (seq![':'] + tensor);
            text@ == decimal(n.model_hash as nat) + (seq![':'] + revision)
        }),
{
}

/// The text of a segment is that of its namespace, a colon, and its hash as sixteen
/// hexadecimal digits.
pub proof fn law_segments_are_written_out(segment: &SegmentId, text: String)
    requires
        call_ensures(SegmentId::canonical, (segment,), text),
    ensures
        text@ == namespace_text(segment.namespace@) + seq![':'] + hex(
            segment.token_chunk_hash as nat,
            16,
        ),
        hex(segment.token_chunk_hash as nat, 16).len() == 16,
{
    lemma_hex_len(segment.token_chunk_hash as nat, 16);
}

proof fn lemma_hex_len(n: nat, width: nat)
    ensures
        hex(n, width).len() == width,
    decreases width,
{
    if width > 0 {
        lemma_hex_len(n / 16, (width - 1) as nat);
    }
}

/// A worker named by its id alone has rank zero, and a segment named by a block has its
/// namespace and its hash.
pub proof fn law_names_are_taken_over(
    worker_id: u64,
    worker: WorkerWithDpRank,
    namespace: SegmentNamespace,
    hash: LocalBlockHash,
    segment: SegmentId,
)
    requires
        call_ensures(WorkerWithDpRank::from_worker_id, (worker_id,), worker),
        call_ensures(SegmentId::from_block_hash, (namespace, hash), segment),
    ensures
        worker.worker_id == worker_id,
        worker.dp_rank == 0,
        segment.namespace == namespace,
        segment.token_chunk_hash == hash.0,
{
}

} // verus!
