//! What the planner of background copies promises of every request and every round.

use crate::byte_rate::ByteRateLimiter;
use crate::clock::Instant;
use crate::environment::{bool_setting, lookup, Environment};
use crate::key_map::KeyMap;
use crate::offload::{
    capped_sum, is_eligible, load_of, recent_prefixes, source_score, sum_of, swept,
    BackgroundOffloadPlanner, OffloadJob, OffloadRpcResult, PrefixKey, PrefixModel,
};
use crate::offload_config::{KvRouterConfig, PlannerConfig};
use crate::prefetch_hint::instance_names;
use crate::protocols::{block_hash, block_hashes, block_tokens, OverlapScores, WorkerWithDpRank};
use crate::text::fields;
use vstd::prelude::*;

verus! {

/// Rounding up: `n` blocks of `size` hold `tokens`, and no fewer blocks do.
proof fn lemma_least_blocks(tokens: int, size: int, n: int)
    requires
        tokens >= 0,
        size > 0,
        n == tokens / size + if tokens % size == 0 {
            0int
        } else {
            1int
        },
    ensures
        n >= 0,
        n * size >= tokens,
        n == 0 || (n - 1) * size < tokens,
        forall|k: int| #![trigger k * size] k * size >= tokens ==> n <= k,
{
    vstd::arithmetic::div_mod::lemma_fundamental_div_mod(tokens, size);
    let whole = tokens / size;
    assert(whole >= 0 && n * size >= tokens && (n == 0 || (n - 1) * size < tokens))
        by (nonlinear_arith)
        requires
            tokens >= 0,
            size > 0,
            tokens == size * whole + tokens % size,
            0 <= tokens % size < size,
            n == whole + if tokens % size == 0 {
                0int
            } else {
                1int
            },
    ;
    assert forall|k: int| #![trigger k * size] k * size >= tokens implies n <= k by {
        if k < n {
            if n == 0 {
                assert(k * size < 0) by (nonlinear_arith)
                    requires
                        k < 0,
                        size > 0,
                ;
            } else {
                assert(k * size <= (n - 1) * size) by (nonlinear_arith)
                    requires
                        k <= n - 1,
                        size > 0,
                ;
            }
        }
    }
}

/// The load of a worker is what it decodes, and the least number of blocks that hold the
/// tokens that wait for it. One more block to decode raises it by one, and so do as many
/// more waiting tokens as a block holds.
pub proof fn law_load_counts_blocks(
    decode_blocks: Map<WorkerWithDpRank, usize>,
    prefill_tokens: Map<WorkerWithDpRank, usize>,
    block_size: int,
    worker: WorkerWithDpRank,
    more_decoding: usize,
    more_waiting: usize,
)
    requires
        block_size > 0,
    ensures
        ({
            let decoding = if decode_blocks.contains_key(worker) {
                decode_blocks[worker] as int
            } else {
                0
            };
            let waiting = if prefill_tokens.contains_key(worker) {
                prefill_tokens[worker] as int
            } else {
                0
            };
            let load = load_of(decode_blocks, prefill_tokens, block_size, worker);
            let blocks = load - decoding;
            &&& blocks >= 0
            &&& blocks * block_size >= waiting
            &&& forall|k: int| #![trigger k * block_size] k * block_size >= waiting ==> blocks <= k
            &&& more_decoding == decoding + 1 ==> load_of(
                decode_blocks.insert(worker, more_decoding),
                prefill_tokens,
                block_size,
                worker,
            ) == load + 1
            &&& more_waiting == waiting + block_size ==> load_of(
                decode_blocks,
                prefill_tokens.insert(worker, more_waiting),
                block_size,
                worker,
            ) == load + 1
        }),
{
    let waiting = if prefill_tokens.contains_key(worker) {
        prefill_tokens[worker] as int
    } else {
        0
    };
    let decoding = if decode_blocks.contains_key(worker) {
        decode_blocks[worker] as int
    } else {
        0
    };
    let load = load_of(decode_blocks, prefill_tokens, block_size, worker);
    lemma_least_blocks(waiting, block_size, load - decoding);
    if more_waiting == waiting + block_size {
        vstd::arithmetic::div_mod::lemma_div_plus_one(waiting, block_size);
        vstd::arithmetic::div_mod::lemma_mod_add_multiples_vanish(waiting, block_size);
        assert((waiting + block_size) / block_size == waiting / block_size + 1);
        assert((waiting + block_size) % block_size == waiting % block_size);
    }
}

/// Counts are added up, each once.
pub proof fn law_counts_add_up(
    pairs: Seq<(WorkerWithDpRank, usize)>,
    more: Seq<(WorkerWithDpRank, usize)>,
    i: int,
)
    ensures
        sum_of(Seq::empty()) == 0,
        sum_of(pairs + more) == sum_of(pairs) + sum_of(more),
        pairs.len() == 1 ==> sum_of(pairs) == pairs[0].1,
        0 <= i < pairs.len() ==> sum_of(pairs) >= pairs[i].1,
        capped_sum(pairs) == if sum_of(pairs) < 0x1_0000_0000_0000_0000 {
            sum_of(pairs) as int
        } else {
            0xFFFF_FFFF_FFFF_FFFF
        },
    decreases pairs.len() + more.len(),
{
    if more.len() > 0 {
        law_counts_add_up(pairs, more.drop_last(), i);
        assert((pairs + more).drop_last() =~= pairs + more.drop_last());
        assert((pairs + more).last() == more.last());
    } else {
        assert(pairs + more =~= pairs);
        if pairs.len() > 0 {
            law_counts_add_up(pairs.drop_last(), Seq::empty(), i);
            if pairs.len() == 1 {
                assert(pairs.drop_last() =~= Seq::empty());
            }
        }
    }
}

/// A request whose first blocks some worker holds in CPU memory is recorded under the
/// hashes of those blocks. Its owner is a worker that holds the most of them, its load is
/// what that worker decodes plus the least number of blocks that hold the tokens waiting
/// for it, and it counts as copied if that worker has some of it in CXL memory. A request
/// within the window counts as one more; the first one after it starts a new window.
pub proof fn law_request_is_recorded(
    planner: &mut BackgroundOffloadPlanner,
    tokens: &[u32],
    block_size: u32,
    best_worker: WorkerWithDpRank,
    overlaps: &OverlapScores,
    decode_blocks: &KeyMap<WorkerWithDpRank, usize>,
    prefill_tokens: &KeyMap<WorkerWithDpRank, usize>,
    now: Instant,
    holder: WorkerWithDpRank,
)
    requires
        call_ensures(
            BackgroundOffloadPlanner::observe,
            (
                planner,
                tokens,
                block_size,
                best_worker,
                overlaps,
                decode_blocks,
                prefill_tokens,
                now,
            ),
            (),
        ),
        0 < block_size <= tokens@.len(),
        old(planner).config.max_chunks > 0,
        overlaps.cpu_scores@.contains_key(holder) && overlaps.cpu_scores@[holder] > 0
            || overlaps.gpu_and_cpu_scores@.contains_key(holder)
            && overlaps.gpu_and_cpu_scores@[holder] > 0,
    ensures
        ({
            let size = block_size as int;
            let most = old(planner).config.max_chunks as int;
            let complete = tokens@.len() as int / size;
            let count = if complete < most {
                complete
            } else {
                most
            };
            let key = Seq::new(
                count as nat,
                |i: int| block_hash(tokens@.subrange(i * size, i * size + size)),
            );
            let before = old(planner).state@.prefixes;
            let after = final(planner).state@.prefixes;
            let stat = after[key];
            let owner = stat.owner_worker;
            let cpu = |w: WorkerWithDpRank|
                if overlaps.cpu_scores@.contains_key(w) {
                    overlaps.cpu_scores@[w] as int
                } else {
                    0
                };
            let both = |w: WorkerWithDpRank|
                if overlaps.gpu_and_cpu_scores@.contains_key(w) {
                    overlaps.gpu_and_cpu_scores@[w] as int
                } else {
                    0
                };
            let decoding = if decode_blocks@.contains_key(owner) {
                decode_blocks@[owner] as int
            } else {
                0
            };
            let waiting = if prefill_tokens@.contains_key(owner) {
                prefill_tokens@[owner] as int
            } else {
                0
            };
            let continued = before.contains_key(key) && now.nanos
                <= before[key].window_start.nanos + old(planner).config.window.nanos;
            &&& after.contains_key(key)
            &&& forall|other: Seq<u64>|
                other != key ==> (#[trigger] after.contains_key(other) == before.contains_key(other)
                    && after[other] == before[other])
            &&& stat.tokens == tokens@.take(count * size)
            &&& cpu(owner) + both(owner) > 0
            &&& cpu(holder) + both(holder) <= cpu(owner) + both(owner) || cpu(owner) + both(owner)
                >= 0xFFFF_FFFF
            &&& exists|blocks: int| #[trigger] (blocks * size) >= waiting && (blocks == 0 || (blocks
                - 1) * size < waiting) && (decoding + blocks < 0x1_0000_0000_0000_0000
                ==> stat.owner_load == decoding + blocks)
            &&& stat.cxl_ready <==> (overlaps.cxl_resident_scores@.contains_key(owner)
                && overlaps.cxl_resident_scores@[owner] > 0 || overlaps.cxl_scores@.contains_key(
                owner,
            ) && overlaps.cxl_scores@[owner] > 0 || overlaps.cpu_and_cxl_scores@.contains_key(owner)
                && overlaps.cpu_and_cxl_scores@[owner] > 0)
            &&& stat.last_seen == now
            &&& continued ==> stat.window_start == before[key].window_start
            &&& continued ==> stat.recent_requests == before[key].recent_requests + 1
                || stat.recent_requests == before[key].recent_requests == 0xFFFF_FFFF
            &&& !continued ==> stat.window_start == now && stat.recent_requests == 1
            &&& before.contains_key(key) ==> stat.last_offload == before[key].last_offload
                && stat.inflight == before[key].inflight
            &&& !before.contains_key(key) ==> stat.last_offload is None && !stat.inflight
        }),
{
    let size = block_size as int;
    let most = old(planner).config.max_chunks as int;
    let complete = tokens@.len() as int / size;
    let count = if complete < most {
        complete
    } else {
        most
    };
    let hashes = block_hashes(tokens@, size);
    let key = Seq::new(
        count as nat,
        |i: int| block_hash(tokens@.subrange(i * size, i * size + size)),
    );
    assert(complete >= 1) by (nonlinear_arith)
        requires
            0 < size <= tokens@.len(),
            complete == tokens@.len() as int / size,
    ;
    assert forall|i: int| 0 <= i < hashes.len() implies #[trigger] hashes[i] == block_hash(
        tokens@.subrange(i * size, i * size + size),
    ) by {
        assert(block_tokens(tokens@, size, i) == tokens@.subrange(i * size, i * size + size));
    }
    assert(hashes.take(count) =~= key);
    assert(source_score(*overlaps, holder) > 0);
    let stat = final(planner).state@.prefixes[key];
    let owner = stat.owner_worker;
    assert(source_score(*overlaps, holder) <= source_score(*overlaps, owner));
    let waiting = if prefill_tokens@.contains_key(owner) {
        prefill_tokens@[owner] as int
    } else {
        0
    };
    let decoding = if decode_blocks@.contains_key(owner) {
        decode_blocks@[owner] as int
    } else {
        0
    };
    let blocks = load_of(decode_blocks@, prefill_tokens@, size, owner) - decoding;
    lemma_least_blocks(waiting, size, blocks);
    assert(blocks * size >= waiting);
}

/// How busy serving is comes from the request at hand alone: the sum over all workers of
/// the blocks they decode, and of the tokens that wait for them.
pub proof fn law_serving_load_is_recorded(
    planner: &mut BackgroundOffloadPlanner,
    tokens: &[u32],
    block_size: u32,
    best_worker: WorkerWithDpRank,
    overlaps: &OverlapScores,
    decode_blocks: &KeyMap<WorkerWithDpRank, usize>,
    prefill_tokens: &KeyMap<WorkerWithDpRank, usize>,
    now: Instant,
)
    requires
        call_ensures(
            BackgroundOffloadPlanner::observe,
            (
                planner,
                tokens,
                block_size,
                best_worker,
                overlaps,
                decode_blocks,
                prefill_tokens,
                now,
            ),
            (),
        ),
    ensures
        final(planner).config == old(planner).config,
        final(planner).busy == old(planner).busy,
        final(planner).byte_limiter == old(planner).byte_limiter,
        sum_of(decode_blocks.pairs()) < 0x1_0000_0000_0000_0000
            ==> final(planner).state@.serving_decode_blocks == sum_of(decode_blocks.pairs()),
        sum_of(decode_blocks.pairs()) >= 0x1_0000_0000_0000_0000
            ==> final(planner).state@.serving_decode_blocks == 0xFFFF_FFFF_FFFF_FFFF,
        sum_of(prefill_tokens.pairs()) < 0x1_0000_0000_0000_0000
            ==> final(planner).state@.serving_prefill_tokens == sum_of(prefill_tokens.pairs()),
        sum_of(prefill_tokens.pairs()) >= 0x1_0000_0000_0000_0000
            ==> final(planner).state@.serving_prefill_tokens == 0xFFFF_FFFF_FFFF_FFFF,
{
}

/// A request without a complete block, or of which no worker holds blocks in CPU memory,
/// is not recorded.
pub proof fn law_request_without_source_is_not_recorded(
    planner: &mut BackgroundOffloadPlanner,
    tokens: &[u32],
    block_size: u32,
    best_worker: WorkerWithDpRank,
    overlaps: &OverlapScores,
    decode_blocks: &KeyMap<WorkerWithDpRank, usize>,
    prefill_tokens: &KeyMap<WorkerWithDpRank, usize>,
    now: Instant,
)
    requires
        call_ensures(
            BackgroundOffloadPlanner::observe,
            (
                planner,
                tokens,
                block_size,
                best_worker,
                overlaps,
                decode_blocks,
                prefill_tokens,
                now,
            ),
            (),
        ),
        block_size == 0 || tokens@.len() < block_size || forall|w: WorkerWithDpRank|
            (#[trigger] overlaps.cpu_scores@.contains_key(w) ==> overlaps.cpu_scores@[w] == 0) && (
            overlaps.gpu_and_cpu_scores@.contains_key(w) ==> overlaps.gpu_and_cpu_scores@[w] == 0),
    ensures
        final(planner).state@.prefixes == old(planner).state@.prefixes,
{
    if block_size != 0 && tokens@.len() < block_size {
        assert(tokens@.len() as int / block_size as int == 0) by (nonlinear_arith)
            requires
                0 <= tokens@.len() < block_size,
        ;
    } else if block_size != 0 {
        assert forall|w: WorkerWithDpRank| source_score(*overlaps, w) == 0 by {
            assert(overlaps.cpu_scores@.contains_key(w) ==> overlaps.cpu_scores@[w] == 0);
        }
    }
}

/// A round admits a copy only of a prefix that is hot and whose owner is busy, that is not
/// in CXL memory nor on its way there, and that has cooled down; only while serving is
/// calm and no other copy runs; and of several such prefixes one that was requested most
/// often, the longest of those.
pub proof fn law_admitted_copy_is_due(
    planner: &mut BackgroundOffloadPlanner,
    now: Instant,
    job: OffloadJob,
    other: Seq<u64>,
)
    requires
        call_ensures(BackgroundOffloadPlanner::plan_once, (planner, now), Some(job)),
    ensures
        ({
            let config = old(planner).config;
            let before = old(planner).state@;
            let stat = before.prefixes[job.key@];
            let rival = before.prefixes[other];
            &&& before.serving_decode_blocks <= config.max_serving_decode_blocks
            &&& before.serving_prefill_tokens <= config.max_serving_prefill_tokens
            &&& !old(planner).busy
            &&& before.prefixes.contains_key(job.key@)
            &&& stat.recent_requests >= config.hot_threshold
            &&& stat.owner_load >= config.owner_load_threshold
            &&& !stat.cxl_ready
            &&& !stat.inflight
            &&& now.nanos <= stat.window_start.nanos + config.window.nanos
            &&& now.nanos <= stat.last_seen.nanos + 3 * config.window.nanos
            &&& stat.last_offload matches Some(last) ==> now.nanos >= last.nanos
                + config.cooldown.nanos || config.cooldown.nanos == 0
            &&& (*job.tokens)@ == stat.tokens
            &&& job.owner == stat.owner_worker
            &&& before.prefixes.contains_key(other) && rival.recent_requests
                >= config.hot_threshold && rival.owner_load >= config.owner_load_threshold
                && !rival.cxl_ready && !rival.inflight && (rival.last_offload matches Some(
                last,
            ) ==> now.nanos >= last.nanos + config.cooldown.nanos) && now.nanos
                <= rival.window_start.nanos + config.window.nanos && now.nanos
                <= rival.last_seen.nanos + 3 * config.window.nanos ==> rival.recent_requests
                < stat.recent_requests || rival.recent_requests == stat.recent_requests
                && rival.tokens.len() <= stat.tokens.len()
        }),
{
    let config = old(planner).config;
    let before = old(planner).state@;
    let recent = recent_prefixes(config, before.prefixes, now);
    assert(recent.contains_key(job.key@));
    if before.prefixes.contains_key(other) && now.nanos <= before.prefixes[other].last_seen.nanos
        + 3 * config.window.nanos {
        assert(recent.contains_key(other));
    }
}

/// An admitted copy marks its prefix as on its way since now, keeps the planner from
/// admitting another, and takes from the budget what it may write: no more than its chunks
/// are estimated at, and no more than accrues in a second unless a chunk is larger.
pub proof fn law_admitted_copy_is_marked(
    planner: &mut BackgroundOffloadPlanner,
    now: Instant,
    job: OffloadJob,
    other: Seq<u64>,
)
    requires
        call_ensures(BackgroundOffloadPlanner::plan_once, (planner, now), Some(job)),
    ensures
        ({
            let config = old(planner).config;
            let before = old(planner).state@;
            let after = final(planner).state@;
            let window = config.window.nanos;
            let estimate = config.max_chunks * config.chunk_bytes;
            let allowance = if config.bytes_per_sec < config.chunk_bytes {
                config.chunk_bytes as int
            } else {
                config.bytes_per_sec as int
            };
            &&& final(planner).busy
            &&& final(planner).config == config
            &&& after.serving_decode_blocks == before.serving_decode_blocks
            &&& after.serving_prefill_tokens == before.serving_prefill_tokens
            &&& after.prefixes.contains_key(job.key@)
            &&& after.prefixes[job.key@] == (PrefixModel {
                inflight: true,
                last_offload: Some(now),
                ..before.prefixes[job.key@]
            })
            &&& other != job.key@ ==> (after.prefixes.contains_key(other) <==> (
            before.prefixes.contains_key(other) && now.nanos
                <= before.prefixes[other].last_seen.nanos + 3 * window))
            &&& other != job.key@ && after.prefixes.contains_key(other) ==> after.prefixes[other]
                == if now.nanos <= before.prefixes[other].window_start.nanos + window {
                before.prefixes[other]
            } else {
                PrefixModel { recent_requests: 0, window_start: now, ..before.prefixes[other] }
            }
            &&& config.bytes_per_sec == 0 ==> job.reserved_bytes == 0
            &&& config.bytes_per_sec > 0 && estimate < allowance ==> job.reserved_bytes == estimate
            &&& config.bytes_per_sec > 0 && estimate >= allowance ==> job.reserved_bytes
                == allowance
        }),
{
    let config = old(planner).config;
    let before = old(planner).state@;
    let recent = recent_prefixes(config, before.prefixes, now);
    let all = swept(config, before.prefixes, now);
    if other != job.key@ {
        assert(final(planner).state@.prefixes.contains_key(other) == all.contains_key(other));
        assert(all.contains_key(other) == recent.contains_key(other));
    }
}

/// While serving is calm and no copy runs, a round that admits none had no prefix that was
/// due, or not the bytes for its copy.
pub proof fn law_due_prefix_is_copied(
    planner: &mut BackgroundOffloadPlanner,
    now: Instant,
    key: Seq<u64>,
)
    requires
        call_ensures(BackgroundOffloadPlanner::plan_once, (planner, now), None),
        !old(planner).busy,
        old(planner).config.top_k > 0,
        old(planner).config.chunk_bytes > 0,
        old(planner).config.max_chunks > 0,
        old(planner).byte_limiter.bytes_per_sec == old(planner).config.bytes_per_sec,
        old(planner).byte_limiter.tokens <= old(planner).byte_limiter.capacity * 1_000_000_000,
        old(planner).state@.serving_decode_blocks <= old(planner).config.max_serving_decode_blocks,
        old(planner).state@.serving_prefill_tokens
            <= old(planner).config.max_serving_prefill_tokens,
        old(planner).state@.prefixes.contains_key(key),
    ensures
        ({
            let config = old(planner).config;
            let limiter = old(planner).byte_limiter;
            let stat = old(planner).state@.prefixes[key];
            let due = {
                &&& stat.recent_requests >= config.hot_threshold
                &&& stat.owner_load >= config.owner_load_threshold
                &&& !stat.cxl_ready
                &&& !stat.inflight
                &&& now.nanos <= stat.window_start.nanos + config.window.nanos
                &&& now.nanos <= stat.last_seen.nanos + 3 * config.window.nanos
                &&& stat.last_offload matches Some(last) ==> now.nanos >= last.nanos
                    + config.cooldown.nanos
            };
            let estimate = config.max_chunks * config.chunk_bytes;
            let allowance = if config.bytes_per_sec < config.chunk_bytes {
                config.chunk_bytes as int
            } else {
                config.bytes_per_sec as int
            };
            let bytes = if estimate < allowance {
                estimate
            } else {
                allowance
            };
            let age = if now.nanos >= limiter.last_refill.nanos {
                now.nanos - limiter.last_refill.nanos
            } else {
                0
            };
            due ==> {
                &&& config.bytes_per_sec > 0
                &&& limiter.tokens < bytes * 1_000_000_000
                &&& limiter.tokens + age * config.bytes_per_sec < bytes * 1_000_000_000
                    || limiter.capacity < bytes
            }
        }),
{
    let config = old(planner).config;
    let limiter = old(planner).byte_limiter;
    let stat = old(planner).state@.prefixes[key];
    let recent = recent_prefixes(config, old(planner).state@.prefixes, now);
    if now.nanos <= stat.last_seen.nanos + 3 * config.window.nanos {
        assert(recent.contains_key(key));
    }
    assert(config.max_chunks * config.chunk_bytes > 0) by (nonlinear_arith)
        requires
            config.max_chunks > 0,
            config.chunk_bytes > 0,
    ;
    let age = if now.nanos >= limiter.last_refill.nanos {
        now.nanos - limiter.last_refill.nanos
    } else {
        0
    };
    assert(age * config.bytes_per_sec >= 0) by (nonlinear_arith)
        requires
            age >= 0,
    ;
}

/// Serving comes first: while it is busy, or while a copy runs, none is admitted.
pub proof fn law_serving_comes_first(
    planner: &mut BackgroundOffloadPlanner,
    now: Instant,
    job: Option<OffloadJob>,
)
    requires
        call_ensures(BackgroundOffloadPlanner::plan_once, (planner, now), job),
        old(planner).busy || old(planner).state@.serving_decode_blocks
            > old(planner).config.max_serving_decode_blocks
            || old(planner).state@.serving_prefill_tokens
            > old(planner).config.max_serving_prefill_tokens,
    ensures
        job is None,
        final(planner).busy == old(planner).busy,
        final(planner).byte_limiter@ == old(planner).byte_limiter@,
{
}

/// A prefix that is due stays due if only the load of its owner grows, or only the number
/// of its requests.
pub proof fn law_busier_and_hotter_stay_eligible(
    config: PlannerConfig,
    stat: PrefixModel,
    load: u64,
    requests: u32,
    now: Instant,
)
    requires
        is_eligible(config, stat, now),
        load >= stat.owner_load,
        requests >= stat.recent_requests,
    ensures
        is_eligible(
            config,
            PrefixModel { owner_load: load, recent_requests: requests, ..stat },
            now,
        ),
{
}

/// When a copy ends, its prefix is no longer on its way and the planner is free. What the
/// copy reserved and did not write goes back to the budget, all of it if it failed to
/// answer, up to what the budget can hold; nothing else changes.
pub proof fn law_finished_copy_frees_the_planner(
    planner: &mut BackgroundOffloadPlanner,
    job: &OffloadJob,
    result: Option<OffloadRpcResult>,
    now: Instant,
    other: Seq<u64>,
)
    requires
        call_ensures(BackgroundOffloadPlanner::finish, (planner, job, result, now), ()),
        old(planner).byte_limiter.tokens <= old(planner).byte_limiter.capacity * 1_000_000_000,
    ensures
        ({
            let before = old(planner).state@.prefixes;
            let after = final(planner).state@.prefixes;
            let written = match result {
                Some(result) => result.bytes_written as int,
                None => 0,
            };
            let age = if now.nanos >= old(planner).byte_limiter.last_refill.nanos {
                now.nanos - old(planner).byte_limiter.last_refill.nanos
            } else {
                0
            };
            let budget = old(planner).byte_limiter@;
            let left = final(planner).byte_limiter@;
            let load_before = old(planner).state@;
            let load_after = final(planner).state@;
            &&& !final(planner).busy
            &&& after.contains_key(other) == before.contains_key(other)
            &&& after.contains_key(job.key@) ==> !after[job.key@].inflight
            &&& before.contains_key(other) ==> after[other] == (PrefixModel {
                inflight: before[other].inflight && other != job.key@,
                ..before[other]
            })
            &&& load_after.serving_decode_blocks == load_before.serving_decode_blocks
            &&& load_after.serving_prefill_tokens == load_before.serving_prefill_tokens
            &&& budget.rate == 0 || written >= job.reserved_bytes ==> left == budget
            &&& budget.rate > 0 && written < job.reserved_bytes ==> left.tokens == ({
                let all = budget.tokens + age * budget.rate + (job.reserved_bytes - written)
                    * 1_000_000_000;
                if all > budget.capacity {
                    budget.capacity
                } else {
                    all
                }
            })
        }),
{
    let age = if now.nanos >= old(planner).byte_limiter.last_refill.nanos {
        now.nanos - old(planner).byte_limiter.last_refill.nanos
    } else {
        0
    };
    let rate = old(planner).byte_limiter@.rate;
    assert(age * rate >= 0) by (nonlinear_arith)
        requires
            age >= 0,
            rate >= 0,
    ;
    if age == 0 {
        assert(age * rate == 0) by (nonlinear_arith)
            requires
                age == 0,
        ;
    }
}

/// The budget accrues at its rate up to its capacity, and grants exactly what it holds:
/// a request is granted if it asks for no more, and then that much is gone. Without a
/// limit everything is granted and nothing is counted.
pub proof fn law_budget_grants_what_it_holds(
    limiter: &mut ByteRateLimiter,
    bytes: u64,
    now: Instant,
    granted: bool,
)
    requires
        call_ensures(ByteRateLimiter::try_reserve, (limiter, bytes, now), granted),
        old(limiter).tokens <= old(limiter).capacity * 1_000_000_000,
    ensures
        ({
            let age = if now.nanos >= old(limiter).last_refill.nanos {
                now.nanos - old(limiter).last_refill.nanos
            } else {
                0
            };
            let accrued = old(limiter).tokens + age * old(limiter).bytes_per_sec;
            let most = old(limiter).capacity * 1_000_000_000;
            let held = if accrued < most {
                accrued
            } else {
                most
            };
            let unlimited = old(limiter).bytes_per_sec == 0 || bytes == 0;
            &&& granted == (unlimited || bytes * 1_000_000_000 <= held)
            &&& unlimited ==> final(limiter)@ == old(limiter)@
            &&& !unlimited && granted ==> final(limiter).tokens == held - bytes * 1_000_000_000
            &&& !granted ==> final(limiter).tokens == held
            &&& !unlimited && age > 0 ==> final(limiter).last_refill == now
            &&& final(limiter).capacity == old(limiter).capacity
            &&& final(limiter).bytes_per_sec == old(limiter).bytes_per_sec
        }),
{
    let age = if now.nanos >= old(limiter).last_refill.nanos {
        now.nanos - old(limiter).last_refill.nanos
    } else {
        0
    };
    let rate = old(limiter)@.rate;
    assert(age * rate >= 0 && (age == 0 ==> age * rate == 0)) by (nonlinear_arith)
        requires
            age >= 0,
            rate >= 0,
    ;
}

/// A budget starts full: with the bytes of one second, or with a single burst if that is
/// larger.
pub proof fn law_budget_starts_full(
    bytes_per_sec: u64,
    burst_bytes: u64,
    now: Instant,
    limiter: ByteRateLimiter,
)
    requires
        call_ensures(ByteRateLimiter::new, (bytes_per_sec, burst_bytes, now), limiter),
    ensures
        limiter.bytes_per_sec == bytes_per_sec,
        bytes_per_sec > 0 ==> limiter.capacity >= bytes_per_sec && limiter.capacity >= burst_bytes
            && (limiter.capacity == bytes_per_sec || limiter.capacity == burst_bytes),
        limiter.tokens == limiter.capacity * 1_000_000_000,
        limiter.last_refill == now,
{
}

/// There is a planner exactly if background copies are switched on, and they are only
/// reported or it is known where the controller and the instances are. It starts with no
/// prefix, no copy under way, and a full budget.
pub proof fn law_planners_start_empty(
    router: KvRouterConfig,
    env: &Environment,
    now: Instant,
    planner: Option<BackgroundOffloadPlanner>,
    key: Seq<u64>,
)
    requires
        call_ensures(BackgroundOffloadPlanner::from_config, (router, env, now), planner),
    ensures
        ({
            let vars = env@;
            let on = bool_setting(
                vars,
                "DYN_BACKGROUND_OFFLOAD_ENABLED"@,
                router.enable_background_offload,
            );
            let dry = bool_setting(
                vars,
                "DYN_BACKGROUND_OFFLOAD_DRY_RUN"@,
                router.background_offload_dry_run,
            );
            let listed = match lookup(vars, "DYN_BACKGROUND_OFFLOAD_INSTANCE_MAP"@) {
                Some(list) => instance_names(fields(list, ',')),
                None => instance_names(fields(Seq::empty(), ',')),
            };
            let reachable = lookup(vars, "DYN_LMCACHE_CONTROLLER_ENDPOINT"@) is Some && (lookup(
                vars,
                "DYN_BACKGROUND_OFFLOAD_INSTANCE_TEMPLATE"@,
            ) is Some || listed != Map::<u64, Seq<char>>::empty());
            &&& planner is Some <==> on && (dry || reachable)
            &&& planner matches Some(planner) ==> {
                &&& !planner.state@.prefixes.contains_key(key)
                &&& planner.state@.serving_decode_blocks == 0
                &&& planner.state@.serving_prefill_tokens == 0
                &&& !planner.busy
                &&& planner.config.dry_run == dry
                &&& planner.byte_limiter.bytes_per_sec == planner.config.bytes_per_sec
                &&& planner.byte_limiter.tokens == planner.byte_limiter.capacity * 1_000_000_000
                &&& planner.byte_limiter.last_refill == now
                &&& planner.config.bytes_per_sec > 0 ==> planner.byte_limiter.capacity
                    >= planner.config.bytes_per_sec && planner.byte_limiter.capacity
                    >= planner.config.chunk_bytes && (planner.byte_limiter.capacity
                    == planner.config.bytes_per_sec || planner.byte_limiter.capacity
                    == planner.config.chunk_bytes)
            }
        }),
{
}

/// A prefix that is cleared is no longer on its way; nothing else changes.
pub proof fn law_cleared_prefixes_are_not_under_way(
    planner: &mut BackgroundOffloadPlanner,
    key: &PrefixKey,
    other: Seq<u64>,
)
    requires
        call_ensures(BackgroundOffloadPlanner::clear_inflight, (planner, key), ()),
    ensures
        ({
            let before = old(planner).state@.prefixes;
            let after = final(planner).state@.prefixes;
            &&& after.contains_key(other) == before.contains_key(other)
            &&& before.contains_key(other) ==> after[other] == (PrefixModel {
                inflight: before[other].inflight && other != key@,
                ..before[other]
            })
            &&& final(planner).busy == old(planner).busy
            &&& final(planner).byte_limiter == old(planner).byte_limiter
        }),
{
}

/// A round changes nothing but what it admits, and what it forgets or counts anew: serving
/// and the settings stay, and so does every prefix that was seen lately and whose window is
/// not over, unless it is copied.
pub proof fn law_rounds_leave_the_rest(
    planner: &mut BackgroundOffloadPlanner,
    now: Instant,
    job: Option<OffloadJob>,
    key: Seq<u64>,
)
    requires
        call_ensures(BackgroundOffloadPlanner::plan_once, (planner, now), job),
    ensures
        ({
            let config = old(planner).config;
            let before = old(planner).state@;
            let after = final(planner).state@;
            let stat = before.prefixes[key];
            let chosen = job is Some && (job->0).key@ == key;
            &&& final(planner).config == config
            &&& after.serving_decode_blocks == before.serving_decode_blocks
            &&& after.serving_prefill_tokens == before.serving_prefill_tokens
            &&& after.prefixes.contains_key(key) ==> before.prefixes.contains_key(key)
            &&& before.prefixes.contains_key(key) && now.nanos <= stat.last_seen.nanos + 3
                * config.window.nanos ==> after.prefixes.contains_key(key)
            &&& after.prefixes.contains_key(key) && !chosen ==> {
                let left = after.prefixes[key];
                &&& left.tokens == stat.tokens
                &&& left.owner_worker == stat.owner_worker
                &&& left.owner_load == stat.owner_load
                &&& left.last_seen == stat.last_seen
                &&& left.cxl_ready == stat.cxl_ready
                &&& left.inflight == stat.inflight
                &&& left.last_offload == stat.last_offload
                &&& now.nanos <= stat.window_start.nanos + config.window.nanos ==> left == stat
            }
        }),
{
    let config = old(planner).config;
    let before = old(planner).state@.prefixes;
    let recent = recent_prefixes(config, before, now);
    let all = swept(config, before, now);
    assert(recent.contains_key(key) ==> before.contains_key(key));
    assert(all.contains_key(key) == recent.contains_key(key));
}

/// A copy may take as many bytes as its chunks are estimated at, but no more than accrue in
/// a second unless a chunk is larger; without a limit on the rate it takes none.
pub proof fn law_copies_take_what_accrues(config: &PlannerConfig, bytes: u64)
    requires
        call_ensures(PlannerConfig::max_bytes_per_operation, (config,), bytes),
    ensures
        config.bytes_per_sec == 0 ==> bytes == 0,
        config.bytes_per_sec > 0 ==> {
            &&& bytes <= config.max_chunks * config.chunk_bytes
            &&& bytes <= config.bytes_per_sec || bytes <= config.chunk_bytes
            &&& bytes == config.max_chunks * config.chunk_bytes || bytes >= config.bytes_per_sec
                && bytes >= config.chunk_bytes
        },
{
}

} // verus!
