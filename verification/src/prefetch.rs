//! Prefetch hints for requests that still wait for their route.

use crate::chunks::{copy_tokens, first, lemma_filter_next};
use crate::clock::{Duration, Instant};
use crate::environment::{
    bool_setting, env_bool, env_u64, env_usize, number_setting, Environment,
};
use crate::job_queue::{after_event, can_take, QueueEvent, QueueModel, QueueSettings};
use crate::lookahead::{
    admitted, held, with_reserved, without_blocks, LookaheadReservationTable, Reservations,
};
use crate::protocols::{LocalBlockHash, WorkerWithDpRank};
use std::collections::VecDeque;
use vstd::prelude::*;

verus! {

/// The index keeps at most this many residency entries per request.
pub const MAX_LOOKAHEAD_SCAN_CHUNKS: usize = 64;

/// What made the router send a hint.
#[derive(Debug, Clone, Copy, PartialEq, Eq, Structural)]
pub enum PrefetchSource {
    DynamoQueueLookahead,
}

impl PrefetchSource {
    pub fn as_str(self) -> (name: &'static str)
        ensures
            name@ == "dynamo_queue_lookahead"@,
    {
        match self {
            PrefetchSource::DynamoQueueLookahead => "dynamo_queue_lookahead",
        }
    }
}

/// When a hinted request was queued and admitted, in Unix nanoseconds, and how many
/// requests were waiting.
#[derive(Debug, Clone, Copy, PartialEq, Eq, Structural)]
pub struct PrefetchTrace {
    pub route_enqueued_unix_ns: Option<u128>,
    pub lookahead_admitted_unix_ns: Option<u128>,
    pub queue_depth: Option<usize>,
}

impl Default for PrefetchTrace {
    fn default() -> (trace: Self)
        ensures
            trace.route_enqueued_unix_ns is None,
            trace.lookahead_admitted_unix_ns is None,
            trace.queue_depth is None,
    {
        PrefetchTrace {
            route_enqueued_unix_ns: None,
            lookahead_admitted_unix_ns: None,
            queue_depth: None,
        }
    }
}

#[derive(Debug, Clone, Copy)]
pub struct CxlPrefetchConfig {
    pub lookahead_enabled: bool,
    pub min_tokens: usize,
    pub max_chunks: usize,
    /// The size of LMCache's chunks, which need not be that of the router's blocks.
    pub chunk_size: usize,
    pub rpc_timeout: Duration,
    pub queue_capacity: usize,
    /// How many requests behind the one being routed are looked at; zero for none.
    pub lookahead_window: usize,
    /// How long a reservation suppresses another hint for the same block.
    pub lookahead_reservation_ttl: Duration,
    pub lookahead_reservation_capacity: usize,
    /// The highest block position that a hint may ask for.
    pub max_scan_chunks: usize,
}

/// The number moved into the range from `least` to `most`.
pub open spec fn clamped(value: nat, least: nat, most: nat) -> nat {
    if value < least {
        least
    } else if value > most {
        most
    } else {
        value
    }
}

/// A count moved into the range from `least` to `most`.
pub open spec fn clamped_setting(
    vars: Seq<(Seq<char>, Seq<char>)>,
    name: Seq<char>,
    default: nat,
    least: nat,
    most: nat,
) -> nat {
    clamped(number_setting(vars, name, default, usize::MAX as nat), least, most)
}

fn env_clamped(
    env: &Environment,
    name: &str,
    default: usize,
    least: usize,
    most: usize,
) -> (value: usize)
    ensures
        value == clamped_setting(env@, name@, default as nat, least as nat, most as nat),
{
    let value: usize = env_usize(env, name, default);
    if value < least {
        least
    } else if value > most {
        most
    } else {
        value
    }
}

/// A number of milliseconds moved into the range from `least` to `most`.
pub open spec fn millis_setting(
    vars: Seq<(Seq<char>, Seq<char>)>,
    name: Seq<char>,
    default: nat,
    least: nat,
    most: nat,
) -> nat {
    clamped(number_setting(vars, name, default, u64::MAX as nat), least, most)
}

fn env_millis(env: &Environment, name: &str, default: u64, least: u64, most: u64) -> (span:
    Duration)
    ensures
        span.nanos == 1_000_000 * millis_setting(
            env@,
            name@,
            default as nat,
            least as nat,
            most as nat,
        ),
{
    let value: u64 = env_u64(env, name, default);
    if value < least {
        Duration::from_millis(least)
    } else if value > most {
        Duration::from_millis(most)
    } else {
        Duration::from_millis(value)
    }
}

impl CxlPrefetchConfig {
    /// What the variables say.
    pub open spec fn configured(self, vars: Seq<(Seq<char>, Seq<char>)>) -> bool {
        let most = usize::MAX as nat;
        &&& self.lookahead_enabled == bool_setting(
            vars,
            "DYN_CXL_PREFETCH_LOOKAHEAD_ENABLED"@,
            false,
        )
        &&& self.min_tokens == number_setting(vars, "DYN_CXL_PREFETCH_MIN_TOKENS"@, 256, most)
        &&& self.max_chunks == clamped_setting(vars, "DYN_CXL_PREFETCH_MAX_CHUNKS"@, 8, 1, most)
        &&& self.chunk_size == clamped_setting(vars, "DYN_CXL_PREFETCH_CHUNK_SIZE"@, 256, 1, most)
        &&& self.rpc_timeout.nanos == 1_000_000 * millis_setting(
            vars,
            "DYN_CXL_PREFETCH_RPC_TIMEOUT_MS"@,
            10,
            1,
            u64::MAX as nat,
        )
        &&& self.queue_capacity == clamped_setting(
            vars,
            "DYN_CXL_PREFETCH_QUEUE_CAPACITY"@,
            16,
            1,
            most,
        )
        &&& self.lookahead_window == clamped_setting(
            vars,
            "DYN_CXL_PREFETCH_LOOKAHEAD_WINDOW"@,
            0,
            0,
            16,
        )
        &&& self.lookahead_reservation_ttl.nanos == 1_000_000 * millis_setting(
            vars,
            "DYN_CXL_PREFETCH_LOOKAHEAD_RESERVATION_TTL_MS"@,
            5_000,
            1,
            60_000,
        )
        &&& self.lookahead_reservation_capacity == clamped_setting(
            vars,
            "DYN_CXL_PREFETCH_LOOKAHEAD_RESERVATION_CAPACITY"@,
            16_384,
            1,
            1_000_000,
        )
        &&& self.max_scan_chunks == clamped_setting(
            vars,
            "DYN_CXL_PREFETCH_MAX_SCAN_CHUNKS"@,
            64,
            1,
            64,
        )
    }

    /// Every setting lies within its bounds.
    pub open spec fn bounded(self) -> bool {
        &&& self.max_chunks > 0
        &&& self.chunk_size > 0
        &&& self.rpc_timeout.nanos > 0
        &&& self.queue_capacity > 0
        &&& self.lookahead_window <= 16
        &&& 0 < self.lookahead_reservation_ttl.nanos <= 60_000_000_000
        &&& 0 < self.lookahead_reservation_capacity <= 1_000_000
        &&& 0 < self.max_scan_chunks <= MAX_LOOKAHEAD_SCAN_CHUNKS
    }

    pub fn from_env(env: &Environment) -> (config: Self)
        ensures
            config.configured(env@),
            config.bounded(),
    {
        CxlPrefetchConfig {
            lookahead_enabled: env_bool(env, "DYN_CXL_PREFETCH_LOOKAHEAD_ENABLED", false),
            min_tokens: env_usize(env, "DYN_CXL_PREFETCH_MIN_TOKENS", 256),
            max_chunks: env_clamped(env, "DYN_CXL_PREFETCH_MAX_CHUNKS", 8, 1, usize::MAX),
            chunk_size: env_clamped(env, "DYN_CXL_PREFETCH_CHUNK_SIZE", 256, 1, usize::MAX),
            rpc_timeout: env_millis(env, "DYN_CXL_PREFETCH_RPC_TIMEOUT_MS", 10, 1, u64::MAX),
            queue_capacity: env_clamped(
                env,
                "DYN_CXL_PREFETCH_QUEUE_CAPACITY",
                16,
                1,
                usize::MAX,
            ),
            lookahead_window: env_clamped(env, "DYN_CXL_PREFETCH_LOOKAHEAD_WINDOW", 0, 0, 16),
            lookahead_reservation_ttl: env_millis(
                env,
                "DYN_CXL_PREFETCH_LOOKAHEAD_RESERVATION_TTL_MS",
                5_000,
                1,
                60_000,
            ),
            lookahead_reservation_capacity: env_clamped(
                env,
                "DYN_CXL_PREFETCH_LOOKAHEAD_RESERVATION_CAPACITY",
                16_384,
                1,
                1_000_000,
            ),
            max_scan_chunks: env_clamped(
                env,
                "DYN_CXL_PREFETCH_MAX_SCAN_CHUNKS",
                MAX_LOOKAHEAD_SCAN_CHUNKS,
                1,
                MAX_LOOKAHEAD_SCAN_CHUNKS,
            ),
        }
    }
}

/// The tokens of so many chunks, at least one of at least one token, capped at the
/// largest index.
pub open spec fn chunk_tokens(chunks: int, chunk_size: int) -> int {
    let tokens = if chunks < 1 && chunk_size < 1 {
        1
    } else if chunks < 1 {
        chunk_size
    } else if chunk_size < 1 {
        chunks
    } else {
        chunks * chunk_size
    };
    if tokens <= usize::MAX {
        tokens
    } else {
        usize::MAX as int
    }
}

/// The number of tokens that a hint for so many chunks holds.
pub fn hint_token_limit(max_chunks: usize, chunk_size: usize) -> (limit: usize)
    ensures
        limit == chunk_tokens(max_chunks as int, chunk_size as int),
{
    let chunks: u128 = if max_chunks == 0 {
        1
    } else {
        max_chunks as u128
    };
    let size: u128 = if chunk_size == 0 {
        1
    } else {
        chunk_size as u128
    };
    proof {
        assert(0 <= chunks * size <= u128::MAX) by (nonlinear_arith)
            requires
                0 <= chunks <= u64::MAX,
                0 <= size <= u64::MAX,
        ;
    }
    let tokens: u128 = chunks * size;
    if tokens <= usize::MAX as u128 {
        tokens as usize
    } else {
        usize::MAX
    }
}

/// The highest of some indices.
pub open spec fn highest(indices: Seq<u32>) -> u32
    decreases indices.len(),
{
    if indices.len() <= 1 {
        indices[0]
    } else {
        let before = highest(indices.drop_last());
        if before > indices.last() {
            before
        } else {
            indices.last()
        }
    }
}

/// The highest index is one of them, and none is higher.
pub proof fn law_highest_bounds_all(indices: Seq<u32>)
    requires
        indices.len() > 0,
    ensures
        indices.contains(highest(indices)),
        forall|i: int| 0 <= i < indices.len() ==> indices[i] <= highest(indices),
    decreases indices.len(),
{
    if indices.len() > 1 {
        let init = indices.drop_last();
        law_highest_bounds_all(init);
        assert forall|i: int| 0 <= i < indices.len() implies indices[i] <= highest(indices) by {
            if i < init.len() {
                assert(init[i] <= highest(init));
            }
        }
        let j = choose|j: int| 0 <= j < init.len() && init[j] == highest(init);
        assert(indices[j] == highest(init));
        assert(indices[indices.len() - 1] == indices.last());
    } else {
        assert(indices[0] == highest(indices));
    }
}

/// The number of tokens from which the blocks at these positions can be identified.
/// Block identities are cumulative, so that is everything up to the last of them.
pub open spec fn tokens_for(
    indices: Seq<u32>,
    chunk_size: int,
    max_scan_chunks: int,
) -> Option<int> {
    if indices.len() == 0 || highest(indices) + 1 > max_scan_chunks {
        None
    } else {
        Some(chunk_tokens(highest(indices) + 1, chunk_size))
    }
}

pub fn candidate_token_limit(
    candidate_indices: &[u32],
    chunk_size: usize,
    max_scan_chunks: usize,
) -> (limit: Option<usize>)
    ensures
        match limit {
            Some(limit) => tokens_for(
                candidate_indices@,
                chunk_size as int,
                max_scan_chunks as int,
            ) == Some(limit as int),
            None => tokens_for(
                candidate_indices@,
                chunk_size as int,
                max_scan_chunks as int,
            ) is None,
        },
{
    if candidate_indices.len() == 0 {
        return None;
    }
    let mut last: u32 = candidate_indices[0];
    let mut i: usize = 1;
    assert(candidate_indices@.take(1)[0] == candidate_indices@[0]);
    while i < candidate_indices.len()
        invariant
            1 <= i <= candidate_indices@.len(),
            last == highest(candidate_indices@.take(i as int)),
        decreases candidate_indices@.len() - i,
    {
        proof {
            assert(candidate_indices@.take(i + 1).drop_last() =~= candidate_indices@.take(
                i as int,
            ));
            assert(candidate_indices@.take(i + 1).last() == candidate_indices@[i as int]);
        }
        if candidate_indices[i] >= last {
            last = candidate_indices[i];
        }
        i += 1;
    }
    assert(candidate_indices@.take(candidate_indices@.len() as int) =~= candidate_indices@);
    if last as u64 + 1 > max_scan_chunks as u64 {
        return None;
    }
    let chunks: usize = (last as u64 + 1) as usize;
    Some(hint_token_limit(chunks, chunk_size))
}

/// A hint that is ready to be sent.
#[derive(Debug)]
pub struct PrefetchJob {
    pub request_id: String,
    pub token_ids: Vec<u32>,
    pub candidate_block_indices: Vec<u32>,
    pub worker: WorkerWithDpRank,
    pub source: PrefetchSource,
    pub trace: PrefetchTrace,
    pub reserved_blocks: Vec<LocalBlockHash>,
}

#[verifier::ext_equal]
pub struct JobModel {
    pub request_id: Seq<char>,
    pub token_ids: Seq<u32>,
    pub candidate_block_indices: Seq<u32>,
    pub worker: WorkerWithDpRank,
    pub source: PrefetchSource,
    pub trace: PrefetchTrace,
    pub reserved_blocks: Seq<LocalBlockHash>,
}

impl View for PrefetchJob {
    type V = JobModel;

    open spec fn view(&self) -> JobModel {
        JobModel {
            request_id: self.request_id@,
            token_ids: self.token_ids@,
            candidate_block_indices: self.candidate_block_indices@,
            worker: self.worker,
            source: self.source,
            trace: self.trace,
            reserved_blocks: self.reserved_blocks@,
        }
    }
}

/// What a sequence of jobs stands for.
pub open spec fn job_models(jobs: Seq<PrefetchJob>) -> Seq<JobModel> {
    Seq::new(jobs.len(), |i: int| jobs[i]@)
}

/// What an optional job stands for.
pub open spec fn optional_job(job: Option<PrefetchJob>) -> Option<JobModel> {
    match job {
        Some(job) => Some(job@),
        None => None,
    }
}

/// The body of a hint as it is sent to the worker.
#[derive(Debug)]
pub struct PrefetchPayload<'a> {
    pub request_id: &'a str,
    pub token_ids: &'a [u32],
    pub dp_rank: u32,
    pub max_chunks: usize,
    pub candidate_block_indices: &'a [u32],
    pub prefetch_kind: &'static str,
    pub route_enqueued_unix_ns: Option<u128>,
    pub lookahead_admitted_unix_ns: Option<u128>,
    pub lookahead_queue_depth: Option<usize>,
}

/// How sending a hint ended.
#[derive(Debug, Clone, Copy, PartialEq, Eq, Structural)]
pub enum SendOutcome {
    /// The worker's answer was read to its end; it held so many responses.
    Drained { responses: usize },
    /// The hint could not be sent, or the worker reported an error.
    Failed,
    TimedOut,
}

/// The worker has taken the hint.
pub open spec fn is_delivered(outcome: SendOutcome) -> bool {
    outcome matches SendOutcome::Drained { responses } && responses > 0
}

/// The candidates with their positions, up to `limit`.
pub open spec fn candidate_pairs(
    blocks: Seq<LocalBlockHash>,
    indices: Seq<u32>,
    limit: int,
) -> Seq<(LocalBlockHash, u32)> {
    let count = if blocks.len() <= indices.len() {
        blocks.len()
    } else {
        indices.len()
    };
    first(Seq::new(count, |i: int| (blocks[i], indices[i])), limit)
}

pub open spec fn blocks_of(pairs: Seq<(LocalBlockHash, u32)>) -> Seq<LocalBlockHash> {
    Seq::new(pairs.len(), |i: int| pairs[i].0)
}

/// The positions of those candidates that are among `reserved`.
pub open spec fn indices_of(
    pairs: Seq<(LocalBlockHash, u32)>,
    reserved: Seq<LocalBlockHash>,
) -> Seq<u32> {
    let chosen = pairs.filter(is_among(reserved));
    Seq::new(chosen.len(), |i: int| chosen[i].1)
}

pub open spec fn is_among(reserved: Seq<LocalBlockHash>) -> spec_fn((LocalBlockHash, u32)) -> bool {
    |pair: (LocalBlockHash, u32)| reserved.contains(pair.0)
}

fn pair_candidates(
    blocks: &Vec<LocalBlockHash>,
    indices: &Vec<u32>,
    limit: usize,
) -> (pairs: Vec<(LocalBlockHash, u32)>)
    ensures
        pairs@ == candidate_pairs(blocks@, indices@, limit as int),
{
    let mut pairs: Vec<(LocalBlockHash, u32)> = Vec::new();
    let mut i: usize = 0;
    while i < blocks.len() && i < indices.len() && i < limit
        invariant
            i <= blocks@.len(),
            i <= indices@.len(),
            i <= limit,
            pairs@.len() == i,
            forall|j: int| 0 <= j < i ==> #[trigger] pairs@[j] == (blocks@[j], indices@[j]),
        decreases blocks@.len() - i,
    {
        pairs.push((blocks[i], indices[i]));
        i += 1;
    }
    assert(pairs@ =~= candidate_pairs(blocks@, indices@, limit as int));
    pairs
}

fn list_blocks(pairs: &Vec<(LocalBlockHash, u32)>) -> (blocks: Vec<LocalBlockHash>)
    ensures
        blocks@ == blocks_of(pairs@),
{
    let mut blocks: Vec<LocalBlockHash> = Vec::new();
    let mut i: usize = 0;
    while i < pairs.len()
        invariant
            i <= pairs@.len(),
            blocks@.len() == i,
            forall|j: int| 0 <= j < i ==> #[trigger] blocks@[j] == pairs@[j].0,
        decreases pairs@.len() - i,
    {
        blocks.push(pairs[i].0);
        i += 1;
    }
    assert(blocks@ =~= blocks_of(pairs@));
    blocks
}

fn holds_block(blocks: &Vec<LocalBlockHash>, block: LocalBlockHash) -> (found: bool)
    ensures
        found == blocks@.contains(block),
{
    let mut i: usize = 0;
    while i < blocks.len()
        invariant
            i <= blocks@.len(),
            forall|j: int| 0 <= j < i ==> blocks@[j] != block,
        decreases blocks@.len() - i,
    {
        if blocks[i] == block {
            return true;
        }
        i += 1;
    }
    false
}

fn list_indices(
    pairs: &Vec<(LocalBlockHash, u32)>,
    reserved: &Vec<LocalBlockHash>,
) -> (indices: Vec<u32>)
    ensures
        indices@ == indices_of(pairs@, reserved@),
{
    let ghost keep = is_among(reserved@);
    let mut indices: Vec<u32> = Vec::new();
    let mut i: usize = 0;
    proof {
        reveal(Seq::filter);
        assert(indices@ =~= indices_of(pairs@.take(0), reserved@));
    }
    while i < pairs.len()
        invariant
            i <= pairs@.len(),
            keep == is_among(reserved@),
            indices@ == indices_of(pairs@.take(i as int), reserved@),
        decreases pairs@.len() - i,
    {
        proof {
            lemma_filter_next(pairs@, keep, i as int);
        }
        if holds_block(reserved, pairs[i].0) {
            indices.push(pairs[i].1);
        }
        assert(indices@ =~= indices_of(pairs@.take(i + 1), reserved@));
        i += 1;
    }
    assert(pairs@.take(pairs@.len() as int) =~= pairs@);
    indices
}

/// What a request for a hint leads to: the reservations afterwards, and the job.
pub open spec fn hinted(
    config: CxlPrefetchConfig,
    table: Reservations,
    capacity: nat,
    ttl: Duration,
    worker: WorkerWithDpRank,
    blocks: Seq<LocalBlockHash>,
    indices: Seq<u32>,
    now: Instant,
) -> (Reservations, Option<(Seq<LocalBlockHash>, Seq<u32>)>) {
    let pairs = candidate_pairs(blocks, indices, config.max_chunks as int);
    let current = held(table, now);
    let reserved = admitted(current, worker, blocks_of(pairs), capacity);
    if !(config.lookahead_enabled && config.lookahead_window > 0) || pairs.len() == 0 {
        (table, None)
    } else {
        (
            with_reserved(
                current,
                worker,
                reserved,
                Instant { nanos: (now.nanos + ttl.nanos) as u128 },
            ),
            if reserved.len() == 0 {
                None
            } else {
                Some((reserved, indices_of(pairs, reserved)))
            },
        )
    }
}

/// Decides which waiting requests are hinted, with what, and in which order.
///
/// A hint carries token ids only: the worker turns them into cache keys. The hints are
/// sent by one task, which takes up a job at a time.
pub struct CxlPrefetchClient {
    pub config: CxlPrefetchConfig,
    pub lookahead_reservations: LookaheadReservationTable,
    /// The task that sends jobs has been started.
    pub queue_worker_started: bool,
    /// The jobs that the task has not taken up, in the order in which they came.
    pub waiting: VecDeque<PrefetchJob>,
    /// The job that is being sent.
    pub sending: Option<PrefetchJob>,
}

impl CxlPrefetchClient {
    pub open spec fn queue(self) -> QueueModel {
        QueueModel {
            started: self.queue_worker_started,
            waiting: job_models(self.waiting@),
            sending: optional_job(self.sending),
            reservations: self.lookahead_reservations.entries@,
        }
    }

    pub open spec fn settings(self) -> QueueSettings {
        QueueSettings {
            config: self.config,
            capacity: self.lookahead_reservations.capacity as nat,
            ttl: self.lookahead_reservations.ttl,
        }
    }

    pub fn new(env: &Environment) -> (client: Self)
        ensures
            client.config.configured(env@),
            client.config.bounded(),
            client.queue() == (QueueModel {
                started: false,
                waiting: Seq::empty(),
                sending: None,
                reservations: Reservations::empty(),
            }),
            client.lookahead_reservations.ttl == client.config.lookahead_reservation_ttl,
            client.lookahead_reservations.capacity == client.config.lookahead_reservation_capacity,
    {
        let config = CxlPrefetchConfig::from_env(env);
        let lookahead_reservations = LookaheadReservationTable::new(
            config.lookahead_reservation_ttl,
            config.lookahead_reservation_capacity,
        );
        let client = CxlPrefetchClient {
            config,
            lookahead_reservations,
            queue_worker_started: false,
            waiting: VecDeque::new(),
            sending: None,
        };
        assert(client.queue().waiting =~= Seq::empty());
        client
    }

    pub fn chunk_size(&self) -> (size: usize)
        ensures
            size == self.config.chunk_size,
    {
        self.config.chunk_size
    }

    /// Waiting requests are hinted.
    pub open spec fn looks_ahead(self) -> bool {
        self.config.lookahead_enabled && self.config.lookahead_window > 0
    }

    pub fn lookahead_enabled(&self) -> (enabled: bool)
        ensures
            enabled == self.looks_ahead(),
    {
        self.config.lookahead_enabled && self.config.lookahead_window > 0
    }

    pub fn lookahead_window(&self) -> (window: usize)
        ensures
            window == if self.config.lookahead_enabled {
                self.config.lookahead_window
            } else {
                0
            },
    {
        if self.config.lookahead_enabled {
            self.config.lookahead_window
        } else {
            0
        }
    }

    pub fn max_chunks(&self) -> (chunks: usize)
        ensures
            chunks == self.config.max_chunks,
    {
        self.config.max_chunks
    }

    pub fn max_scan_chunks(&self) -> (chunks: usize)
        ensures
            chunks == self.config.max_scan_chunks,
    {
        self.config.max_scan_chunks
    }

    pub fn should_prefetch(&self, token_count: usize) -> (prefetch: bool)
        ensures
            prefetch == (self.looks_ahead() && token_count >= self.config.min_tokens),
    {
        self.lookahead_enabled() && token_count >= self.config.min_tokens
    }

    /// The shortest prefix from which the candidate blocks can be identified; `None`
    /// when the request is too short, or the blocks lie too far back.
    pub fn prepare_tokens(
        &self,
        token_ids: &[u32],
        candidate_block_indices: &[u32],
    ) -> (tokens: Option<Vec<u32>>)
        ensures
            ({
                let limit = tokens_for(
                    candidate_block_indices@,
                    self.config.chunk_size as int,
                    self.config.max_scan_chunks as int,
                );
                match tokens {
                    Some(tokens) => {
                        &&& self.looks_ahead()
                        &&& token_ids@.len() >= self.config.min_tokens
                        &&& limit is Some
                        &&& tokens@ == first(token_ids@, limit->0)
                    },
                    None => !self.looks_ahead() || token_ids@.len() < self.config.min_tokens
                        || limit is None,
                }
            }),
    {
        if !self.should_prefetch(token_ids.len()) {
            return None;
        }
        match candidate_token_limit(
            candidate_block_indices,
            self.config.chunk_size,
            self.config.max_scan_chunks,
        ) {
            Some(limit) => {
                let count: usize = if token_ids.len() <= limit {
                    token_ids.len()
                } else {
                    limit
                };
                let tokens: Vec<u32> = copy_tokens(token_ids, count);
                assert(tokens@ =~= first(token_ids@, limit as int));
                Some(tokens)
            },
            None => None,
        }
    }

    /// Reserves the candidate blocks that no other hint has asked for, and makes a
    /// hint for exactly those.
    pub fn dispatch_lookahead(
        &mut self,
        request_id: String,
        token_ids: Vec<u32>,
        worker: WorkerWithDpRank,
        candidate_blocks: Vec<LocalBlockHash>,
        candidate_block_indices: Vec<u32>,
        trace: PrefetchTrace,
        now: Instant,
    ) -> (job: Option<PrefetchJob>)
        requires
            now.nanos + old(self).lookahead_reservations.ttl.nanos <= u128::MAX,
        ensures
            final(self).settings() == old(self).settings(),
            final(self).queue() == after_event(
                old(self).settings(),
                old(self).queue(),
                QueueEvent::Request {
                    worker,
                    blocks: candidate_blocks@,
                    indices: candidate_block_indices@,
                    now,
                },
            ),
            ({
                let (table, planned) = hinted(
                    old(self).config,
                    old(self).lookahead_reservations.entries@,
                    old(self).lookahead_reservations.capacity as nat,
                    old(self).lookahead_reservations.ttl,
                    worker,
                    candidate_blocks@,
                    candidate_block_indices@,
                    now,
                );
                &&& final(self).lookahead_reservations.entries@ == table
                &&& optional_job(job) == match planned {
                    Some((reserved_blocks, candidate_block_indices)) => Some(
                        JobModel {
                            request_id: request_id@,
                            token_ids: token_ids@,
                            candidate_block_indices,
                            worker,
                            source: PrefetchSource::DynamoQueueLookahead,
                            trace,
                            reserved_blocks,
                        },
                    ),
                    None => None,
                }
            }),
    {
        if !self.lookahead_enabled() {
            return None;
        }
        let pairs = pair_candidates(
            &candidate_blocks,
            &candidate_block_indices,
            self.config.max_chunks,
        );
        if pairs.len() == 0 {
            return None;
        }
        let blocks = list_blocks(&pairs);
        let reserved_blocks = self.lookahead_reservations.reserve(worker, blocks.as_slice(), now);
        if reserved_blocks.len() == 0 {
            return None;
        }
        let candidate_block_indices = list_indices(&pairs, &reserved_blocks);
        Some(
            PrefetchJob {
                request_id,
                token_ids,
                candidate_block_indices,
                worker,
                source: PrefetchSource::DynamoQueueLookahead,
                trace,
                reserved_blocks,
            },
        )
    }

    /// What a hint says to its worker.
    pub fn payload<'a>(&self, job: &'a PrefetchJob) -> (payload: PrefetchPayload<'a>)
        ensures
            payload.request_id@ == job.request_id@,
            payload.token_ids@ == job.token_ids@,
            payload.dp_rank == job.worker.dp_rank,
            payload.max_chunks == self.config.max_chunks,
            payload.candidate_block_indices@ == job.candidate_block_indices@,
            payload.prefetch_kind@ == "dynamo_queue_lookahead"@,
            payload.route_enqueued_unix_ns == job.trace.route_enqueued_unix_ns,
            payload.lookahead_admitted_unix_ns == job.trace.lookahead_admitted_unix_ns,
            payload.lookahead_queue_depth == job.trace.queue_depth,
    {
        PrefetchPayload {
            request_id: job.request_id.as_str(),
            token_ids: job.token_ids.as_slice(),
            dp_rank: job.worker.dp_rank,
            max_chunks: self.config.max_chunks,
            candidate_block_indices: job.candidate_block_indices.as_slice(),
            prefetch_kind: job.source.as_str(),
            route_enqueued_unix_ns: job.trace.route_enqueued_unix_ns,
            lookahead_admitted_unix_ns: job.trace.lookahead_admitted_unix_ns,
            lookahead_queue_depth: job.trace.queue_depth,
        }
    }

    pub fn release_lookahead(&mut self, worker: WorkerWithDpRank, block_hashes: &[LocalBlockHash])
        ensures
            final(self).settings() == old(self).settings(),
            final(self).queue() == (QueueModel {
                reservations: without_blocks(
                    old(self).lookahead_reservations.entries@,
                    worker,
                    block_hashes@,
                ),
                ..old(self).queue()
            }),
    {
        self.lookahead_reservations.release(worker, block_hashes);
    }

    /// Whether the task that sends jobs is to be started now: only the first call says so.
    pub fn start_queue_worker(&mut self) -> (start: bool)
        ensures
            start == !old(self).queue().started,
            final(self).settings() == old(self).settings(),
            final(self).queue() == after_event(
                old(self).settings(),
                old(self).queue(),
                QueueEvent::Start,
            ),
    {
        let start: bool = !self.queue_worker_started;
        self.queue_worker_started = true;
        start
    }

    /// Queues a job if there was room for it. One for which there was none frees its
    /// blocks.
    pub fn on_enqueued(&mut self, job: PrefetchJob, admitted: bool) -> (taken: bool)
        ensures
            taken == admitted,
            final(self).settings() == old(self).settings(),
            final(self).queue() == after_event(
                old(self).settings(),
                old(self).queue(),
                QueueEvent::Enqueue { job: job@, admitted },
            ),
    {
        let ghost before = self.waiting@;
        if admitted {
            self.waiting.push_back(job);
            assert(job_models(self.waiting@) =~= job_models(before).push(job@));
        } else {
            self.release_lookahead(job.worker, job.reserved_blocks.as_slice());
        }
        admitted
    }

    /// Takes up the job that has waited longest, unless one is still being sent.
    pub fn take_job(&mut self) -> (taken: bool)
        ensures
            taken == can_take(old(self).queue()),
            final(self).settings() == old(self).settings(),
            final(self).queue() == after_event(
                old(self).settings(),
                old(self).queue(),
                QueueEvent::Take,
            ),
    {
        if self.sending.is_some() {
            return false;
        }
        let ghost before = self.waiting@;
        match self.waiting.pop_front() {
            Some(job) => {
                assert(job_models(self.waiting@) =~= job_models(before).drop_first());
                self.sending = Some(job);
                true
            },
            None => {
                assert(before.len() == 0);
                false
            },
        }
    }

    /// How the job that was being sent ended. One that the worker has not taken frees its
    /// blocks at once, for the worker knows nothing of it.
    pub fn on_sent(&mut self, outcome: SendOutcome) -> (delivered: bool)
        ensures
            delivered == (old(self).queue().sending is Some && is_delivered(outcome)),
            final(self).settings() == old(self).settings(),
            final(self).queue() == after_event(
                old(self).settings(),
                old(self).queue(),
                QueueEvent::Sent { outcome },
            ),
    {
        let job: PrefetchJob = match self.sending.take() {
            Some(job) => job,
            None => {
                return false;
            },
        };
        let delivered: bool = match outcome {
            SendOutcome::Drained { responses } => responses > 0,
            _ => false,
        };
        if !delivered {
            self.release_lookahead(job.worker, job.reserved_blocks.as_slice());
        }
        delivered
    }
}

} // verus!
