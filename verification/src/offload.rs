//! Planning of background copies from CPU memory to CXL memory.
//!
//! Requests only record observations. From time to time the planner looks for a
//! prefix that is hot, held by a busy worker and not in CXL memory yet, and admits
//! one copy of it. Copies never run side by side, yield to serving, and keep to a
//! byte rate.

use crate::byte_rate::{ByteRateLimiter, LimiterModel};
use crate::chunks::copy_tokens;
use crate::clock::{elapsed, Duration, Instant};
use crate::environment::{bool_setting, lookup, Environment};
use crate::key_map::{has_key, kept, lemma_pair_in_map, position_of, KeyMap, MapKey};
use crate::offload_config::{KvRouterConfig, PlannerConfig};
use crate::prefetch_hint::{instance_names, names, text_setting};
use crate::protocols::{
    block_hashes, compute_block_hash_for_seq, hash_values, LocalBlockHash, OverlapScores,
    WorkerWithDpRank,
};
use crate::text::fields;
use std::sync::Arc;
use vstd::prelude::*;

verus! {

broadcast use vstd::std_specs::hash::group_hash_axioms;

/// The hashes of the blocks of a prefix.
#[derive(Debug, Hash)]
pub struct PrefixKey {
    pub hashes: Vec<u64>,
}

impl View for PrefixKey {
    type V = Seq<u64>;

    open spec fn view(&self) -> Seq<u64> {
        self.hashes@
    }
}

impl MapKey for PrefixKey {
    fn same_key(&self, other: &Self) -> (same: bool) {
        if self.hashes.len() != other.hashes.len() {
            return false;
        }
        let mut i: usize = 0;
        while i < self.hashes.len()
            invariant
                i <= self.hashes@.len(),
                self.hashes@.len() == other.hashes@.len(),
                forall|j: int| 0 <= j < i ==> self.hashes@[j] == other.hashes@[j],
            decreases self.hashes@.len() - i,
        {
            if self.hashes[i] != other.hashes[i] {
                return false;
            }
            i += 1;
        }
        assert(self.hashes@ =~= other.hashes@);
        true
    }
}

fn clone_hashes(hashes: &Vec<u64>) -> (copy: Vec<u64>)
    ensures
        copy@ == hashes@,
{
    let mut copy: Vec<u64> = Vec::new();
    let mut i: usize = 0;
    while i < hashes.len()
        invariant
            i <= hashes@.len(),
            copy@ == hashes@.take(i as int),
        decreases hashes@.len() - i,
    {
        copy.push(hashes[i]);
        assert(copy@ =~= hashes@.take(i + 1));
        i += 1;
    }
    assert(copy@ =~= hashes@);
    copy
}

/// What is known of a prefix.
#[derive(Debug)]
pub struct PrefixStat {
    pub tokens: Arc<Vec<u32>>,
    /// A worker that holds the prefix in CPU memory.
    pub owner_worker: WorkerWithDpRank,
    pub owner_load: u64,
    /// The prefix is in CXL memory already.
    pub cxl_ready: bool,
    pub recent_requests: u32,
    pub window_start: Instant,
    pub last_seen: Instant,
    pub last_offload: Option<Instant>,
    pub inflight: bool,
}

#[verifier::ext_equal]
pub struct PrefixModel {
    pub tokens: Seq<u32>,
    pub owner_worker: WorkerWithDpRank,
    pub owner_load: u64,
    pub cxl_ready: bool,
    pub recent_requests: u32,
    pub window_start: Instant,
    pub last_seen: Instant,
    pub last_offload: Option<Instant>,
    pub inflight: bool,
}

impl View for PrefixStat {
    type V = PrefixModel;

    open spec fn view(&self) -> PrefixModel {
        PrefixModel {
            tokens: (*self.tokens)@,
            owner_worker: self.owner_worker,
            owner_load: self.owner_load,
            cxl_ready: self.cxl_ready,
            recent_requests: self.recent_requests,
            window_start: self.window_start,
            last_seen: self.last_seen,
            last_offload: self.last_offload,
            inflight: self.inflight,
        }
    }
}

/// What the planner has observed.
pub struct PlannerState {
    pub prefixes: KeyMap<PrefixKey, PrefixStat>,
    pub serving_decode_blocks: u64,
    pub serving_prefill_tokens: u64,
}

#[verifier::ext_equal]
pub struct PlannerModel {
    pub prefixes: Map<Seq<u64>, PrefixModel>,
    pub serving_decode_blocks: u64,
    pub serving_prefill_tokens: u64,
}

impl View for PlannerState {
    type V = PlannerModel;

    open spec fn view(&self) -> PlannerModel {
        PlannerModel {
            prefixes: self.prefixes@,
            serving_decode_blocks: self.serving_decode_blocks,
            serving_prefill_tokens: self.serving_prefill_tokens,
        }
    }
}

impl Default for PlannerState {
    fn default() -> (state: Self)
        ensures
            state@.prefixes == Map::<Seq<u64>, PrefixModel>::empty(),
            state@.serving_decode_blocks == 0,
            state@.serving_prefill_tokens == 0,
    {
        PlannerState {
            prefixes: KeyMap::new(),
            serving_decode_blocks: 0,
            serving_prefill_tokens: 0,
        }
    }
}

/// The sum of all values.
pub open spec fn sum_of(pairs: Seq<(WorkerWithDpRank, usize)>) -> nat
    decreases pairs.len(),
{
    if pairs.len() == 0 {
        0
    } else {
        sum_of(pairs.drop_last()) + pairs.last().1 as nat
    }
}

/// The sum of all values, or the largest 64-bit number if it is more.
pub open spec fn capped_sum(pairs: Seq<(WorkerWithDpRank, usize)>) -> u64 {
    if sum_of(pairs) <= u64::MAX {
        sum_of(pairs) as u64
    } else {
        u64::MAX
    }
}

fn add_up(counts: &KeyMap<WorkerWithDpRank, usize>) -> (total: u64)
    ensures
        total == capped_sum(counts.pairs()),
{
    let ghost pairs = counts.pairs();
    let len: usize = counts.len();
    let mut total: u64 = 0;
    let mut i: usize = 0;
    assert(pairs.take(0).len() == 0);
    while i < len
        invariant
            pairs == counts.pairs(),
            len == pairs.len(),
            i <= len,
            total == capped_sum(pairs.take(i as int)),
        decreases len - i,
    {
        let count: u64 = *counts.value_at(i) as u64;
        proof {
            assert(pairs.take(i + 1).drop_last() =~= pairs.take(i as int));
            assert(pairs.take(i + 1).last() == pairs[i as int]);
        }
        if count > u64::MAX - total {
            total = u64::MAX;
        } else {
            total = total + count;
        }
        i += 1;
    }
    assert(pairs.take(len as int) =~= pairs);
    total
}

/// The value of a worker, or zero.
pub open spec fn score_of(scores: Map<WorkerWithDpRank, u32>, worker: WorkerWithDpRank) -> u32 {
    if scores.contains_key(worker) {
        scores[worker]
    } else {
        0
    }
}

pub open spec fn count_of(counts: Map<WorkerWithDpRank, usize>, worker: WorkerWithDpRank) -> usize {
    if counts.contains_key(worker) {
        counts[worker]
    } else {
        0
    }
}

/// The blocks that a worker holds in CPU memory, alone or beside the GPU, capped at
/// the largest 32-bit number.
pub open spec fn source_score(overlaps: OverlapScores, worker: WorkerWithDpRank) -> u32 {
    let total = score_of(overlaps.cpu_scores@, worker) + score_of(
        overlaps.gpu_and_cpu_scores@,
        worker,
    );
    if total <= u32::MAX {
        total as u32
    } else {
        u32::MAX
    }
}

/// `worker` holds some blocks in CPU memory, and no worker holds more. Which of
/// several such workers becomes the source of a copy is left open.
pub open spec fn is_source(overlaps: OverlapScores, worker: WorkerWithDpRank) -> bool {
    &&& source_score(overlaps, worker) > 0
    &&& forall|other: WorkerWithDpRank| #[trigger]
        source_score(overlaps, other) <= source_score(overlaps, worker)
}

/// Some worker holds blocks in CPU memory.
pub open spec fn has_source(overlaps: OverlapScores) -> bool {
    exists|worker: WorkerWithDpRank| #[trigger] source_score(overlaps, worker) > 0
}

/// Some of the blocks are in CXL memory.
pub open spec fn is_cxl_ready(overlaps: OverlapScores, worker: WorkerWithDpRank) -> bool {
    ||| score_of(overlaps.cxl_resident_scores@, worker) > 0
    ||| score_of(overlaps.cxl_scores@, worker) > 0
    ||| score_of(overlaps.cpu_and_cxl_scores@, worker) > 0
}

/// The load of a worker in blocks: those it decodes, and those that wait for prefill.
pub open spec fn load_of(
    decode_blocks: Map<WorkerWithDpRank, usize>,
    prefill_tokens: Map<WorkerWithDpRank, usize>,
    block_size: int,
    worker: WorkerWithDpRank,
) -> int {
    let waiting = count_of(prefill_tokens, worker) as int;
    count_of(decode_blocks, worker) + waiting / block_size + if waiting % block_size == 0 {
        0int
    } else {
        1int
    }
}

fn read_score(scores: &KeyMap<WorkerWithDpRank, u32>, worker: WorkerWithDpRank) -> (score: u32)
    ensures
        score == score_of(scores@, worker),
{
    match scores.get(&worker) {
        Some(score) => *score,
        None => 0,
    }
}

fn read_count(counts: &KeyMap<WorkerWithDpRank, usize>, worker: WorkerWithDpRank) -> (count: usize)
    ensures
        count == count_of(counts@, worker),
{
    match counts.get(&worker) {
        Some(count) => *count,
        None => 0,
    }
}

fn read_source_score(overlaps: &OverlapScores, worker: WorkerWithDpRank) -> (score: u32)
    ensures
        score == source_score(*overlaps, worker),
{
    let cpu: u32 = read_score(&overlaps.cpu_scores, worker);
    let gpu_and_cpu: u32 = read_score(&overlaps.gpu_and_cpu_scores, worker);
    if gpu_and_cpu > u32::MAX - cpu {
        u32::MAX
    } else {
        cpu + gpu_and_cpu
    }
}

/// None of the first `count` workers of a list is a better source than `best`.
spec fn best_so_far(
    overlaps: OverlapScores,
    pairs: Seq<(WorkerWithDpRank, u32)>,
    count: int,
    best: Option<(WorkerWithDpRank, u32)>,
) -> bool {
    &&& best matches Some(b) ==> b.1 == source_score(overlaps, b.0) && b.1 > 0
    &&& forall|i: int|
        0 <= i < count ==> match best {
            Some(b) => source_score(overlaps, (#[trigger] pairs[i]).0) <= b.1,
            None => source_score(overlaps, pairs[i].0) == 0,
        }
}

fn scan_sources(
    overlaps: &OverlapScores,
    scores: &KeyMap<WorkerWithDpRank, u32>,
    before: Option<(WorkerWithDpRank, u32)>,
) -> (best: Option<(WorkerWithDpRank, u32)>)
    requires
        before matches Some(b) ==> b.1 == source_score(*overlaps, b.0) && b.1 > 0,
    ensures
        best_so_far(*overlaps, scores.pairs(), scores.pairs().len() as int, best),
        before matches Some(b) ==> best matches Some(a) && a.1 >= b.1,
{
    let ghost pairs = scores.pairs();
    let len: usize = scores.len();
    let mut best: Option<(WorkerWithDpRank, u32)> = before;
    let mut i: usize = 0;
    while i < len
        invariant
            pairs == scores.pairs(),
            len == pairs.len(),
            i <= len,
            best_so_far(*overlaps, pairs, i as int, best),
            before matches Some(b) ==> best matches Some(a) && a.1 >= b.1,
        decreases len - i,
    {
        let worker: WorkerWithDpRank = *scores.key_at(i);
        let score: u32 = read_source_score(overlaps, worker);
        let better: bool = match best {
            Some((_, reached)) => score > reached,
            None => score > 0,
        };
        if better {
            best = Some((worker, score));
        }
        i += 1;
    }
    best
}

proof fn lemma_in_pairs(
    scores: KeyMap<WorkerWithDpRank, u32>,
    worker: WorkerWithDpRank,
)
    requires
        scores@.contains_key(worker),
    ensures
        exists|i: int| 0 <= i < scores.pairs().len() && (#[trigger] scores.pairs()[i]).0 == worker,
{
    assert(has_key(scores.pairs(), worker));
}

fn find_source(overlaps: &OverlapScores) -> (source: Option<WorkerWithDpRank>)
    ensures
        match source {
            Some(worker) => is_source(*overlaps, worker),
            None => !has_source(*overlaps),
        },
{
    let first = scan_sources(overlaps, &overlaps.cpu_scores, None);
    let best = scan_sources(overlaps, &overlaps.gpu_and_cpu_scores, first);
    proof {
        assert forall|other: WorkerWithDpRank| match best {
            Some(b) => #[trigger] source_score(*overlaps, other) <= b.1,
            None => source_score(*overlaps, other) == 0,
        } by {
            if overlaps.cpu_scores@.contains_key(other) {
                lemma_in_pairs(overlaps.cpu_scores, other);
                let i = choose|i: int|
                    0 <= i < overlaps.cpu_scores.pairs().len() && (
                    #[trigger] overlaps.cpu_scores.pairs()[i]).0 == other;
                assert(overlaps.cpu_scores.pairs()[i].0 == other);
            } else if overlaps.gpu_and_cpu_scores@.contains_key(other) {
                lemma_in_pairs(overlaps.gpu_and_cpu_scores, other);
                let i = choose|i: int|
                    0 <= i < overlaps.gpu_and_cpu_scores.pairs().len() && (
                    #[trigger] overlaps.gpu_and_cpu_scores.pairs()[i]).0 == other;
                assert(overlaps.gpu_and_cpu_scores.pairs()[i].0 == other);
            }
        }
    }
    match best {
        Some((worker, _)) => Some(worker),
        None => None,
    }
}

/// A prefix after one more request for it.
pub open spec fn requested(
    known: Option<PrefixModel>,
    tokens: Seq<u32>,
    owner: WorkerWithDpRank,
    load: u64,
    cxl_ready: bool,
    now: Instant,
    window: Duration,
) -> PrefixModel {
    let fresh = match known {
        Some(stat) => elapsed(now, stat.window_start) > window.nanos,
        None => true,
    };
    let earlier = if fresh {
        0u32
    } else {
        known->0.recent_requests
    };
    PrefixModel {
        tokens,
        owner_worker: owner,
        owner_load: load,
        cxl_ready,
        recent_requests: if earlier < u32::MAX {
            (earlier + 1) as u32
        } else {
            u32::MAX
        },
        window_start: if fresh {
            now
        } else {
            known->0.window_start
        },
        last_seen: now,
        last_offload: match known {
            Some(stat) => stat.last_offload,
            None => None,
        },
        inflight: match known {
            Some(stat) => stat.inflight,
            None => false,
        },
    }
}

pub open spec fn known_prefix(
    prefixes: Map<Seq<u64>, PrefixModel>,
    key: Seq<u64>,
) -> Option<PrefixModel> {
    if prefixes.contains_key(key) {
        Some(prefixes[key])
    } else {
        None
    }
}

/// How many blocks of a request count as its prefix.
pub open spec fn prefix_blocks(hashes: Seq<u64>, max_chunks: int) -> int {
    if hashes.len() < max_chunks {
        hashes.len() as int
    } else {
        max_chunks
    }
}

/// What a request with these block hashes does to the observations. Only complete
/// blocks count, and nothing is recorded if no worker holds the prefix in CPU memory.
pub open spec fn observed(
    config: PlannerConfig,
    before: PlannerModel,
    tokens: Seq<u32>,
    block_size: u32,
    hashes: Seq<u64>,
    overlaps: OverlapScores,
    decode_blocks: KeyMap<WorkerWithDpRank, usize>,
    prefill_tokens: KeyMap<WorkerWithDpRank, usize>,
    now: Instant,
    after: PlannerModel,
) -> bool {
    let count = prefix_blocks(hashes, config.max_chunks as int);
    let key = hashes.take(count);
    &&& after.serving_decode_blocks == capped_sum(decode_blocks.pairs())
    &&& after.serving_prefill_tokens == capped_sum(prefill_tokens.pairs())
    &&& if tokens.len() == 0 || block_size == 0 || count == 0 || !has_source(overlaps) {
        after.prefixes == before.prefixes
    } else {
        exists|owner: WorkerWithDpRank| #[trigger]
            is_source(overlaps, owner) && after.prefixes == before.prefixes.insert(
                key,
                requested(
                    known_prefix(before.prefixes, key),
                    tokens.take(count * block_size),
                    owner,
                    load_of(
                        decode_blocks@,
                        prefill_tokens@,
                        block_size as int,
                        owner,
                    ) as u64,
                    is_cxl_ready(overlaps, owner),
                    now,
                    config.window,
                ),
            )
    }
}

/// The load of every possible source fits in 64 bits.
pub open spec fn loads_fit(
    overlaps: OverlapScores,
    decode_blocks: Map<WorkerWithDpRank, usize>,
    prefill_tokens: Map<WorkerWithDpRank, usize>,
    block_size: u32,
) -> bool {
    block_size > 0 ==> forall|worker: WorkerWithDpRank| #[trigger]
        is_source(overlaps, worker) ==> load_of(
            decode_blocks,
            prefill_tokens,
            block_size as int,
            worker,
        ) <= u64::MAX
}

fn measure_load(
    decode_blocks: &KeyMap<WorkerWithDpRank, usize>,
    prefill_tokens: &KeyMap<WorkerWithDpRank, usize>,
    block_size: u32,
    worker: WorkerWithDpRank,
) -> (load: u64)
    requires
        block_size > 0,
        load_of(decode_blocks@, prefill_tokens@, block_size as int, worker) <= u64::MAX,
    ensures
        load == load_of(decode_blocks@, prefill_tokens@, block_size as int, worker),
{
    let decoding: u64 = read_count(decode_blocks, worker) as u64;
    let waiting: u64 = read_count(prefill_tokens, worker) as u64;
    let size: u64 = block_size as u64;
    let whole: u64 = waiting / size;
    let rest: u64 = waiting % size;
    proof {
        assert(waiting as int / block_size as int >= 0) by (nonlinear_arith)
            requires
                waiting >= 0,
                block_size > 0,
        ;
    }
    if rest == 0 {
        decoding + whole
    } else {
        decoding + (whole + 1)
    }
}

/// Serving is calm enough for a background copy.
pub open spec fn is_calm(config: PlannerConfig, m: PlannerModel) -> bool {
    &&& m.serving_decode_blocks <= config.max_serving_decode_blocks
    &&& m.serving_prefill_tokens <= config.max_serving_prefill_tokens
}

/// The prefixes requested within the last three windows.
pub open spec fn recent_prefixes(
    config: PlannerConfig,
    prefixes: Map<Seq<u64>, PrefixModel>,
    now: Instant,
) -> Map<Seq<u64>, PrefixModel> {
    kept(prefixes, is_recent(config.window, now))
}

pub open spec fn is_recent(window: Duration, now: Instant) -> spec_fn(
    Seq<u64>,
    PrefixModel,
) -> bool {
    |key: Seq<u64>, stat: PrefixModel| elapsed(now, stat.last_seen) <= 3 * window.nanos
}

/// The window in which requests for a prefix are counted is over.
pub open spec fn window_is_over(stat: PrefixModel, window: Duration, now: Instant) -> bool {
    elapsed(now, stat.window_start) > window.nanos
}

/// Starts a new window where the last one is over.
pub open spec fn with_current_window(window: Duration, now: Instant) -> spec_fn(
    PrefixModel,
) -> PrefixModel {
    |stat: PrefixModel|
        if window_is_over(stat, window, now) {
            PrefixModel { recent_requests: 0, window_start: now, ..stat }
        } else {
            stat
        }
}

/// The prefixes after old ones were forgotten and windows were renewed.
pub open spec fn swept(
    config: PlannerConfig,
    prefixes: Map<Seq<u64>, PrefixModel>,
    now: Instant,
) -> Map<Seq<u64>, PrefixModel> {
    recent_prefixes(config, prefixes, now).map_values(with_current_window(config.window, now))
}

/// The prefix is worth a copy now: it is hot, its owner is busy, it is neither in CXL
/// memory nor on its way there, and the last attempt is long enough ago.
pub open spec fn is_eligible(config: PlannerConfig, stat: PrefixModel, now: Instant) -> bool {
    &&& !window_is_over(stat, config.window, now)
    &&& stat.recent_requests >= config.hot_threshold
    &&& stat.owner_load >= config.owner_load_threshold
    &&& !stat.cxl_ready
    &&& !stat.inflight
    &&& stat.last_offload matches Some(last) ==> elapsed(now, last) >= config.cooldown.nanos
}

/// `a` is requested more often than `b`, or as often and longer.
pub open spec fn is_hotter(a: PrefixModel, b: PrefixModel) -> bool {
    a.recent_requests > b.recent_requests || (a.recent_requests == b.recent_requests
        && a.tokens.len() > b.tokens.len())
}

/// The prefix of `key` is eligible, and no eligible prefix is hotter. Which of several
/// such prefixes is copied is left open.
pub open spec fn is_hottest(
    config: PlannerConfig,
    prefixes: Map<Seq<u64>, PrefixModel>,
    now: Instant,
    key: Seq<u64>,
) -> bool {
    &&& prefixes.contains_key(key)
    &&& is_eligible(config, prefixes[key], now)
    &&& forall|other: Seq<u64>| #[trigger]
        prefixes.contains_key(other) && is_eligible(config, prefixes[other], now) ==> !is_hotter(
            prefixes[other],
            prefixes[key],
        )
}

/// Some prefix is eligible.
pub open spec fn has_candidate(
    config: PlannerConfig,
    prefixes: Map<Seq<u64>, PrefixModel>,
    now: Instant,
) -> bool {
    exists|key: Seq<u64>| #[trigger]
        prefixes.contains_key(key) && is_eligible(config, prefixes[key], now)
}

/// The prefix after its copy was admitted.
pub open spec fn marked(stat: PrefixModel, now: Instant) -> PrefixModel {
    PrefixModel { inflight: true, last_offload: Some(now), ..stat }
}

/// An admitted copy.
#[derive(Debug)]
pub struct OffloadJob {
    pub key: PrefixKey,
    pub tokens: Arc<Vec<u32>>,
    pub owner: WorkerWithDpRank,
    pub reserved_bytes: u64,
}

/// A copy could be admitted: serving is calm, no copy runs, and some prefix is
/// eligible.
pub open spec fn wants_copy(
    config: PlannerConfig,
    m: PlannerModel,
    busy: bool,
    now: Instant,
) -> bool {
    &&& is_calm(config, m)
    &&& !busy
    &&& config.top_k > 0
    &&& has_candidate(config, recent_prefixes(config, m.prefixes, now), now)
}

/// What one round of planning does. Without enough budget the eligible prefixes stay
/// as they are.
pub open spec fn planned(
    config: PlannerConfig,
    before: PlannerModel,
    busy_before: bool,
    limiter_before: LimiterModel,
    now: Instant,
    after: PlannerModel,
    busy_after: bool,
    limiter_after: LimiterModel,
    job: Option<OffloadJob>,
) -> bool {
    let bytes = config.operation_bytes() as int;
    let recent = recent_prefixes(config, before.prefixes, now);
    let all = swept(config, before.prefixes, now);
    let wanted = wants_copy(config, before, busy_before, now);
    &&& after.serving_decode_blocks == before.serving_decode_blocks
    &&& after.serving_prefill_tokens == before.serving_prefill_tokens
    &&& limiter_after == if wanted {
        limiter_before.reserved(bytes, now)
    } else {
        limiter_before
    }
    &&& match job {
        Some(job) => {
            &&& wanted
            &&& limiter_before.affords(bytes, now)
            &&& is_hottest(config, recent, now, job.key@)
            &&& (*job.tokens)@ == recent[job.key@].tokens
            &&& job.owner == recent[job.key@].owner_worker
            &&& job.reserved_bytes == bytes
            &&& busy_after
            &&& after.prefixes == all.insert(job.key@, marked(recent[job.key@], now))
        },
        None => {
            &&& !(wanted && limiter_before.affords(bytes, now))
            &&& busy_after == busy_before
            &&& after.prefixes == if is_calm(config, before) {
                all
            } else {
                before.prefixes
            }
        },
    }
}

fn within_three_windows(age: Duration, window: Duration) -> (r: bool)
    ensures
        r == (age.nanos <= 3 * window.nanos),
{
    let third: u128 = u128::MAX / 3;
    window.nanos > third || age.nanos <= 3 * window.nanos
}

fn check_eligible(config: &PlannerConfig, stat: &PrefixStat, now: Instant) -> (eligible: bool)
    ensures
        eligible == is_eligible(*config, stat@, now),
{
    let cooled: bool = match stat.last_offload {
        Some(last) => now.duration_since(last).nanos >= config.cooldown.nanos,
        None => true,
    };
    now.duration_since(stat.window_start).nanos <= config.window.nanos && stat.recent_requests
        >= config.hot_threshold && stat.owner_load >= config.owner_load_threshold
        && !stat.cxl_ready && !stat.inflight && cooled
}

fn check_hotter(a: &PrefixStat, b: &PrefixStat) -> (hotter: bool)
    ensures
        hotter == is_hotter(a@, b@),
{
    a.recent_requests > b.recent_requests || (a.recent_requests == b.recent_requests
        && a.tokens.len() > b.tokens.len())
}

/// The position of an eligible prefix that none is hotter than.
fn find_hottest(
    config: &PlannerConfig,
    prefixes: &KeyMap<PrefixKey, PrefixStat>,
    now: Instant,
) -> (hottest: Option<usize>)
    ensures
        match hottest {
            Some(i) => {
                &&& i < prefixes.pairs().len()
                &&& prefixes@.contains_key(prefixes.pairs()[i as int].0)
                &&& prefixes@[prefixes.pairs()[i as int].0] == prefixes.pairs()[i as int].1
                &&& is_hottest(*config, prefixes@, now, prefixes.pairs()[i as int].0)
            },
            None => !has_candidate(*config, prefixes@, now),
        },
{
    let ghost pairs = prefixes.pairs();
    let len: usize = prefixes.len();
    let mut hottest: Option<usize> = None;
    let mut i: usize = 0;
    while i < len
        invariant
            pairs == prefixes.pairs(),
            len == pairs.len(),
            i <= len,
            match hottest {
                Some(h) => {
                    &&& h < i
                    &&& is_eligible(*config, pairs[h as int].1, now)
                    &&& forall|j: int|
                        0 <= j < i && is_eligible(*config, (#[trigger] pairs[j]).1, now)
                            ==> !is_hotter(pairs[j].1, pairs[h as int].1)
                },
                None => forall|j: int|
                    0 <= j < i ==> !is_eligible(*config, (#[trigger] pairs[j]).1, now),
            },
        decreases len - i,
    {
        let stat: &PrefixStat = prefixes.value_at(i);
        if check_eligible(config, stat, now) {
            let better: bool = match hottest {
                Some(h) => check_hotter(stat, prefixes.value_at(h)),
                None => true,
            };
            if better {
                hottest = Some(i);
            }
        }
        i += 1;
    }
    proof {
        assert forall|key: Seq<u64>| #[trigger] prefixes@.contains_key(key) && is_eligible(
            *config,
            prefixes@[key],
            now,
        ) implies (hottest matches Some(h) && !is_hotter(prefixes@[key], pairs[h as int].1)) by {
            let j = position_of(pairs, key);
            assert(has_key(pairs, key));
            lemma_pair_in_map(pairs, j);
            assert(pairs[j].1 == prefixes@[key]);
        }
        if let Some(h) = hottest {
            lemma_pair_in_map(pairs, h as int);
        }
    }
    hottest
}

/// The variables say where the controller and the workers' instances are.
pub open spec fn tells_where(vars: Seq<(Seq<char>, Seq<char>)>) -> bool {
    &&& lookup(vars, "DYN_LMCACHE_CONTROLLER_ENDPOINT"@) is Some
    &&& lookup(vars, "DYN_BACKGROUND_OFFLOAD_INSTANCE_TEMPLATE"@) is Some || instance_names(
        fields(text_setting(vars, "DYN_BACKGROUND_OFFLOAD_INSTANCE_MAP"@), ','),
    ) != Map::<u64, Seq<char>>::empty()
}

/// Plans background copies.
pub struct BackgroundOffloadPlanner {
    pub config: PlannerConfig,
    pub state: PlannerState,
    /// A copy is running.
    pub busy: bool,
    pub byte_limiter: ByteRateLimiter,
}

impl BackgroundOffloadPlanner {
    /// The planner that the settings describe; `None` when it is switched off, or when
    /// it is to copy and the settings do not say where the workers are.
    pub fn from_config(
        router_config: KvRouterConfig,
        env: &Environment,
        now: Instant,
    ) -> (planner: Option<Self>)
        ensures
            match planner {
                Some(planner) => {
                    &&& planner.config.configured(env@, router_config)
                    &&& planner.config.bounded()
                    &&& planner.config.enabled
                    &&& planner.config.dry_run || tells_where(env@)
                    &&& planner.config.dry_run || can_reach(planner.config)
                    &&& planner.state@.prefixes == Map::<Seq<u64>, PrefixModel>::empty()
                    &&& planner.state@.serving_decode_blocks == 0
                    &&& planner.state@.serving_prefill_tokens == 0
                    &&& !planner.busy
                    &&& planner.byte_limiter.bytes_per_sec == planner.config.bytes_per_sec
                    &&& planner.byte_limiter.capacity == if planner.config.bytes_per_sec == 0 {
                        0
                    } else if planner.config.bytes_per_sec < planner.config.chunk_bytes {
                        planner.config.chunk_bytes
                    } else {
                        planner.config.bytes_per_sec
                    }
                    &&& planner.byte_limiter@.tokens == planner.byte_limiter@.capacity
                    &&& planner.byte_limiter.last_refill == now
                },
                None => {
                    ||| !bool_setting(
                        env@,
                        "DYN_BACKGROUND_OFFLOAD_ENABLED"@,
                        router_config.enable_background_offload,
                    )
                    ||| !bool_setting(
                        env@,
                        "DYN_BACKGROUND_OFFLOAD_DRY_RUN"@,
                        router_config.background_offload_dry_run,
                    ) && !tells_where(env@)
                },
            },
    {
        let config = PlannerConfig::from_config(router_config, env);
        proof {
            let instances = names(config.instance_map@);
            if config.instance_map@.len() == 0 {
                assert(instances =~= Map::<u64, Seq<char>>::empty());
            } else {
                let worker = config.instance_map@.dom().choose();
                assert(config.instance_map@.contains_key(worker));
                assert(instances.contains_key(worker));
            }
        }
        if !config.enabled {
            return None;
        }
        if !config.dry_run && (config.endpoint.is_none() || (config.instance_template.is_none()
            && config.instance_map.len() == 0)) {
            return None;
        }
        let byte_limiter = ByteRateLimiter::new(config.bytes_per_sec, config.chunk_bytes, now);
        let state: PlannerState = PlannerState::default();
        Some(BackgroundOffloadPlanner { config, state, busy: false, byte_limiter })
    }

    /// Records a request whose blocks have these hashes.
    pub fn observe_hashed(
        &mut self,
        tokens: &[u32],
        block_size: u32,
        hashes: &Vec<LocalBlockHash>,
        overlaps: &OverlapScores,
        decode_blocks: &KeyMap<WorkerWithDpRank, usize>,
        prefill_tokens: &KeyMap<WorkerWithDpRank, usize>,
        now: Instant,
    )
        requires
            hashes@.len() * block_size <= tokens@.len(),
            loads_fit(*overlaps, decode_blocks@, prefill_tokens@, block_size),
        ensures
            final(self).config == old(self).config,
            final(self).busy == old(self).busy,
            final(self).byte_limiter == old(self).byte_limiter,
            observed(
                old(self).config,
                old(self).state@,
                tokens@,
                block_size,
                hash_values(hashes@),
                *overlaps,
                *decode_blocks,
                *prefill_tokens,
                now,
                final(self).state@,
            ),
    {
        self.state.serving_decode_blocks = add_up(decode_blocks);
        self.state.serving_prefill_tokens = add_up(prefill_tokens);
        let ghost values = hash_values(hashes@);
        if tokens.len() == 0 || block_size == 0 {
            return ;
        }
        let max_chunks: usize = self.config.max_chunks;
        let count: usize = if hashes.len() < max_chunks {
            hashes.len()
        } else {
            max_chunks
        };
        if count == 0 {
            return ;
        }
        let owner: WorkerWithDpRank = match find_source(overlaps) {
            Some(owner) => owner,
            None => {
                return ;
            },
        };
        proof {
            assert(is_source(*overlaps, owner));
            assert(source_score(*overlaps, owner) > 0);
            assert(0 <= count * block_size <= tokens@.len()) by (nonlinear_arith)
                requires
                    0 <= count <= hashes@.len(),
                    hashes@.len() * block_size <= tokens@.len(),
                    0 <= block_size,
            ;
        }
        let token_count: usize = count * block_size as usize;
        let prefix_tokens: Vec<u32> = copy_tokens(tokens, token_count);
        let key: PrefixKey = PrefixKey { hashes: first_hashes(hashes, count) };
        let owner_load: u64 = measure_load(decode_blocks, prefill_tokens, block_size, owner);
        let cxl_ready: bool = read_score(&overlaps.cxl_resident_scores, owner) > 0 || read_score(
            &overlaps.cxl_scores,
            owner,
        ) > 0 || read_score(&overlaps.cpu_and_cxl_scores, owner) > 0;
        let window: Duration = self.config.window;
        let ghost before = self.state.prefixes@;
        let ghost known = known_prefix(before, key@);
        let mut stat: PrefixStat = match self.state.prefixes.remove(&key) {
            Some(stat) => stat,
            None => PrefixStat {
                tokens: Arc::new(Vec::new()),
                owner_worker: owner,
                owner_load,
                cxl_ready,
                recent_requests: 0,
                window_start: now,
                last_seen: now,
                last_offload: None,
                inflight: false,
            },
        };
        if now.duration_since(stat.window_start).nanos > window.nanos {
            stat.recent_requests = 0;
            stat.window_start = now;
        }
        if stat.recent_requests < u32::MAX {
            stat.recent_requests = stat.recent_requests + 1;
        }
        stat.tokens = Arc::new(prefix_tokens);
        stat.owner_worker = owner;
        stat.owner_load = owner_load;
        stat.cxl_ready = cxl_ready;
        stat.last_seen = now;
        proof {
            assert(stat@ =~= requested(
                known,
                tokens@.take(count * block_size),
                owner,
                owner_load,
                is_cxl_ready(*overlaps, owner),
                now,
                window,
            ));
            assert(before.remove(key@).insert(key@, stat@) =~= before.insert(key@, stat@));
        }
        self.state.prefixes.insert(key, stat);
    }

    /// Records a request: how busy serving is, and who holds its prefix.
    pub fn observe(
        &mut self,
        tokens: &[u32],
        block_size: u32,
        _best_worker: WorkerWithDpRank,
        overlaps: &OverlapScores,
        decode_blocks: &KeyMap<WorkerWithDpRank, usize>,
        prefill_tokens: &KeyMap<WorkerWithDpRank, usize>,
        now: Instant,
    )
        requires
            loads_fit(*overlaps, decode_blocks@, prefill_tokens@, block_size),
        ensures
            final(self).config == old(self).config,
            final(self).busy == old(self).busy,
            final(self).byte_limiter == old(self).byte_limiter,
            observed(
                old(self).config,
                old(self).state@,
                tokens@,
                block_size,
                if block_size == 0 {
                    Seq::empty()
                } else {
                    block_hashes(tokens@, block_size as int)
                },
                *overlaps,
                *decode_blocks,
                *prefill_tokens,
                now,
                final(self).state@,
            ),
    {
        let hashes: Vec<LocalBlockHash> = if block_size == 0 {
            Vec::new()
        } else {
            compute_block_hash_for_seq(tokens, block_size)
        };
        proof {
            if block_size == 0 {
                assert(hash_values(hashes@) =~= Seq::<u64>::empty());
            } else {
                vstd::arithmetic::div_mod::lemma_fundamental_div_mod(
                    tokens@.len() as int,
                    block_size as int,
                );
                assert(hash_values(hashes@).len() == hashes@.len());
                assert(hashes@.len() == tokens@.len() as int / block_size as int);
                assert(hashes@.len() * block_size <= tokens@.len()) by (nonlinear_arith)
                    requires
                        tokens@.len() == block_size * (tokens@.len() as int / block_size as int)
                            + tokens@.len() as int % block_size as int,
                        hashes@.len() == tokens@.len() as int / block_size as int,
                        tokens@.len() as int % block_size as int >= 0,
                ;
            }
        }
        self.observe_hashed(
            tokens,
            block_size,
            &hashes,
            overlaps,
            decode_blocks,
            prefill_tokens,
            now,
        );
    }

    /// One round of planning: forgets old prefixes, and admits a copy of the hottest
    /// one if serving, the copy that may be running, and the byte budget allow it.
    pub fn plan_once(&mut self, now: Instant) -> (job: Option<OffloadJob>)
        requires
            old(self).byte_limiter@.valid(),
        ensures
            final(self).config == old(self).config,
            final(self).byte_limiter@.valid(),
            planned(
                old(self).config,
                old(self).state@,
                old(self).busy,
                old(self).byte_limiter@,
                now,
                final(self).state@,
                final(self).busy,
                final(self).byte_limiter@,
                job,
            ),
    {
        let ghost config = self.config;
        let ghost before = self.state@;
        if self.state.serving_decode_blocks > self.config.max_serving_decode_blocks
            || self.state.serving_prefill_tokens > self.config.max_serving_prefill_tokens {
            return None;
        }
        let window: Duration = self.config.window;
        let keep = |key: &PrefixKey, stat: &PrefixStat| -> (b: bool)
            ensures
                b == (elapsed(now, stat@.last_seen) <= 3 * window.nanos),
            { within_three_windows(now.duration_since(stat.last_seen), window) };
        self.state.prefixes.retain(keep, Ghost(is_recent(window, now)));
        let ghost recent = recent_prefixes(config, before.prefixes, now);
        assert(self.state.prefixes@ == recent);
        let hottest: Option<usize> = find_hottest(&self.config, &self.state.prefixes, now);
        let chosen: Option<(PrefixKey, Arc<Vec<u32>>, WorkerWithDpRank)> = match hottest {
            Some(i) => {
                let hashes: Vec<u64> = clone_hashes(&self.state.prefixes.key_at(i).hashes);
                let stat: &PrefixStat = self.state.prefixes.value_at(i);
                Some((PrefixKey { hashes }, Arc::clone(&stat.tokens), stat.owner_worker))
            },
            None => None,
        };
        let renew = |stat: PrefixStat| -> (r: PrefixStat)
            ensures
                r@ == with_current_window(window, now)(stat@),
            { renew_window(stat, window, now) };
        self.state.prefixes.change_values(renew, Ghost(with_current_window(window, now)));
        let ghost all = swept(config, before.prefixes, now);
        let (key, tokens, owner) = match chosen {
            Some(chosen) => chosen,
            None => {
                return None;
            },
        };
        proof {
            assert(recent.contains_key(key@) && is_eligible(config, recent[key@], now));
        }
        if self.busy || self.config.top_k == 0 {
            return None;
        }
        let reserved_bytes: u64 = self.config.max_bytes_per_operation();
        if !self.byte_limiter.try_reserve(reserved_bytes, now) {
            return None;
        }
        let mut stat: PrefixStat = match self.state.prefixes.remove(&key) {
            Some(stat) => stat,
            None => {
                assert(all.contains_key(key@));
                return None;
            },
        };
        stat.inflight = true;
        stat.last_offload = Some(now);
        proof {
            assert(stat@ =~= marked(recent[key@], now));
            assert(all.remove(key@).insert(key@, stat@) =~= all.insert(key@, stat@));
        }
        let copy: PrefixKey = PrefixKey { hashes: clone_hashes(&key.hashes) };
        self.state.prefixes.insert(copy, stat);
        self.busy = true;
        Some(OffloadJob { key, tokens, owner, reserved_bytes })
    }

    /// The prefix is not on its way any more.
    pub fn clear_inflight(&mut self, key: &PrefixKey)
        ensures
            final(self).config == old(self).config,
            final(self).busy == old(self).busy,
            final(self).byte_limiter == old(self).byte_limiter,
            final(self).state@ == (PlannerModel {
                prefixes: cleared(old(self).state@.prefixes, key@),
                ..old(self).state@
            }),
    {
        let ghost before = self.state.prefixes@;
        let found: Option<PrefixStat> = self.state.prefixes.remove(key);
        match found {
            Some(stat) => {
                let mut stat: PrefixStat = stat;
                stat.inflight = false;
                let copy: PrefixKey = PrefixKey { hashes: clone_hashes(&key.hashes) };
                self.state.prefixes.insert(copy, stat);
                assert(self.state.prefixes@ =~= cleared(before, key@));
            },
            None => {
                assert(self.state.prefixes@ =~= before);
            },
        }
    }

    /// Ends a copy: gives back the bytes it did not write, and frees its prefix and the
    /// place of the running copy. A copy that failed has written nothing.
    pub fn finish(&mut self, job: &OffloadJob, result: Option<OffloadRpcResult>, now: Instant)
        requires
            old(self).byte_limiter@.valid(),
        ensures
            final(self).config == old(self).config,
            !final(self).busy,
            final(self).byte_limiter@.valid(),
            final(self).byte_limiter@ == old(self).byte_limiter@.refunded(
                job.reserved_bytes as int,
                match result {
                    Some(result) => result.bytes_written as int,
                    None => 0,
                },
                now,
            ),
            final(self).state@ == (PlannerModel {
                prefixes: cleared(old(self).state@.prefixes, job.key@),
                ..old(self).state@
            }),
    {
        let used: u64 = match result {
            Some(result) => result.bytes_written,
            None => 0,
        };
        self.byte_limiter.refund(job.reserved_bytes, used, now);
        self.clear_inflight(&job.key);
        self.busy = false;
    }
}

/// The settings say where the controller and the workers' instances are.
pub open spec fn can_reach(config: PlannerConfig) -> bool {
    config.endpoint is Some && (config.instance_template is Some || config.instance_map@.len() > 0)
}

/// The prefixes with the one of `key`, if it is known, not on its way any more.
pub open spec fn cleared(
    prefixes: Map<Seq<u64>, PrefixModel>,
    key: Seq<u64>,
) -> Map<Seq<u64>, PrefixModel> {
    if prefixes.contains_key(key) {
        prefixes.insert(key, PrefixModel { inflight: false, ..prefixes[key] })
    } else {
        prefixes
    }
}

fn renew_window(stat: PrefixStat, window: Duration, now: Instant) -> (renewed: PrefixStat)
    ensures
        renewed@ == with_current_window(window, now)(stat@),
{
    let mut renewed: PrefixStat = stat;
    if now.duration_since(renewed.window_start).nanos > window.nanos {
        renewed.recent_requests = 0;
        renewed.window_start = now;
    }
    renewed
}

fn first_hashes(hashes: &Vec<LocalBlockHash>, count: usize) -> (values: Vec<u64>)
    requires
        count <= hashes@.len(),
    ensures
        values@ == hash_values(hashes@).take(count as int),
{
    let mut values: Vec<u64> = Vec::new();
    let mut i: usize = 0;
    while i < count
        invariant
            i <= count <= hashes@.len(),
            values@ == hash_values(hashes@).take(i as int),
        decreases count - i,
    {
        values.push(hashes[i].0);
        assert(values@ =~= hash_values(hashes@).take(i + 1));
        i += 1;
    }
    values
}

/// The outcome of a copy.
#[derive(Debug, Clone, Copy, PartialEq, Eq, Structural)]
pub struct OffloadRpcResult {
    pub success: bool,
    pub bytes_written: u64,
}

/// Only the prefix of the running copy, if any, is on its way to CXL memory.
pub open spec fn only_inflight(
    prefixes: Map<Seq<u64>, PrefixModel>,
    running: Option<Seq<u64>>,
) -> bool {
    forall|key: Seq<u64>| #[trigger]
        prefixes.contains_key(key) && prefixes[key].inflight ==> running == Some(key)
}

/// A round of planning keeps it so: it admits at most one copy, and none while one
/// runs.
pub proof fn law_planning_keeps_one_copy(
    config: PlannerConfig,
    before: PlannerModel,
    running: Option<Seq<u64>>,
    limiter_before: LimiterModel,
    now: Instant,
    after: PlannerModel,
    busy_after: bool,
    limiter_after: LimiterModel,
    job: Option<OffloadJob>,
)
    requires
        only_inflight(before.prefixes, running),
        planned(
            config,
            before,
            running is Some,
            limiter_before,
            now,
            after,
            busy_after,
            limiter_after,
            job,
        ),
    ensures
        running is Some ==> job is None,
        busy_after == (running is Some || job is Some),
        only_inflight(
            after.prefixes,
            match job {
                Some(job) => Some(job.key@),
                None => running,
            },
        ),
{
    let recent = recent_prefixes(config, before.prefixes, now);
    let all = swept(config, before.prefixes, now);
    assert forall|key: Seq<u64>| #[trigger] after.prefixes.contains_key(key)
        && after.prefixes[key].inflight implies (match job {
        Some(job) => Some(job.key@),
        None => running,
    }) == Some(key) by {
        if let Some(job) = job {
            if key != job.key@ {
                assert(all.contains_key(key) && all[key].inflight);
                assert(recent.contains_key(key) && recent[key].inflight);
                assert(before.prefixes.contains_key(key));
            }
        } else {
            assert(before.prefixes.contains_key(key) && before.prefixes[key].inflight);
        }
    }
}

/// Requests keep it so.
pub proof fn law_observing_keeps_one_copy(
    config: PlannerConfig,
    before: PlannerModel,
    running: Option<Seq<u64>>,
    tokens: Seq<u32>,
    block_size: u32,
    hashes: Seq<u64>,
    overlaps: OverlapScores,
    decode_blocks: KeyMap<WorkerWithDpRank, usize>,
    prefill_tokens: KeyMap<WorkerWithDpRank, usize>,
    now: Instant,
    after: PlannerModel,
)
    requires
        only_inflight(before.prefixes, running),
        observed(
            config,
            before,
            tokens,
            block_size,
            hashes,
            overlaps,
            decode_blocks,
            prefill_tokens,
            now,
            after,
        ),
    ensures
        only_inflight(after.prefixes, running),
{
    let key = hashes.take(prefix_blocks(hashes, config.max_chunks as int));
    assert forall|k: Seq<u64>| #[trigger] after.prefixes.contains_key(k)
        && after.prefixes[k].inflight implies running == Some(k) by {
        if k != key {
            assert(before.prefixes.contains_key(k));
        } else if before.prefixes.contains_key(key) {
            assert(before.prefixes[key].inflight);
        }
    }
}

/// When the running copy ends, nothing is on its way any more.
pub proof fn law_finishing_frees_the_planner(
    prefixes: Map<Seq<u64>, PrefixModel>,
    key: Seq<u64>,
)
    requires
        only_inflight(prefixes, Some(key)),
    ensures
        only_inflight(cleared(prefixes, key), None),
{
    let after = cleared(prefixes, key);
    assert forall|k: Seq<u64>| #[trigger] after.contains_key(k) && after[k].inflight implies None::<
        Seq<u64>,
    > == Some(k) by {
        assert(prefixes.contains_key(k) && prefixes[k].inflight);
    }
}

/// A round that admits no copy leaves every eligible prefix eligible.
pub proof fn law_refused_prefixes_stay_eligible(
    config: PlannerConfig,
    before: PlannerModel,
    busy: bool,
    limiter_before: LimiterModel,
    now: Instant,
    after: PlannerModel,
    busy_after: bool,
    limiter_after: LimiterModel,
    key: Seq<u64>,
)
    requires
        planned(
            config,
            before,
            busy,
            limiter_before,
            now,
            after,
            busy_after,
            limiter_after,
            None,
        ),
        recent_prefixes(config, before.prefixes, now).contains_key(key),
        is_eligible(config, before.prefixes[key], now),
    ensures
        after.prefixes.contains_key(key),
        after.prefixes[key] == before.prefixes[key],
        is_eligible(config, after.prefixes[key], now),
{
}

/// A prefix whose copy was admitted is not copied again while the copy runs, nor after
/// it until the cooldown is over.
pub proof fn law_copied_prefix_cools_down(
    config: PlannerConfig,
    stat: PrefixModel,
    admitted: Instant,
    later: Instant,
)
    ensures
        !is_eligible(config, marked(stat, admitted), later),
        elapsed(later, admitted) < config.cooldown.nanos ==> !is_eligible(
            config,
            PrefixModel { inflight: false, ..marked(stat, admitted) },
            later,
        ),
{
}

} // verus!
