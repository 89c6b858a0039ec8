//! What the predictor promises of every committed route.

use crate::associations::{fresh_source, observed_sources, source_seen};
use crate::chunks::{
    differs_from, distinct, first, lemma_distinct, lemma_filter_membership,
    lemma_filter_no_duplicates, request_chunks, ChunkId, DescriptorModel,
};
use crate::clock::Instant;
use crate::global_config::GlobalPrefetchConfig;
use crate::global_prefetch::{
    chunk_ids, expired, lemma_staging_keeps_the_rest, predecessor, prepared, remembered,
    reserved_all, route_outcome, route_targets, session_of, session_seen, CommittedRoute,
    GlobalPrefetchManager, RoutePlan,
};
use crate::learning_laws::{
    lemma_distinct_is_shorter, lemma_observed_sources_finite, lemma_part_as_large,
    lemma_source_is_observed, lemma_transition_is_counted,
};
use crate::manager_invariant::{
    law_expiry_keeps_state_sound, law_reserving_stays_within_limit, law_route_targets_are_known,
    law_staging_keeps_catalog_sound, sound,
};
use crate::manager_state::{held_since, ManagerModel};
use crate::prediction::{
    best_scores, evidence, ignored_as_stable, law_predictions_are_likely,
    law_predictions_are_the_ranking, law_score_is_the_highest, lemma_scores_are_finite, observable,
};
use crate::protocols::{
    block_hash, block_hashes, block_tokens, LocalBlockHash, WorkerWithDpRank,
};
use crate::ranking::{is_top, law_ranking_lists_once};
use crate::text::hex;
use crate::weights::{arithmetic_of, decayed, falls_short, reaches, Weight, WeightOp};
use crate::worker_choice::{
    best_worker, has_fewest_pending, is_best_worker, law_best_worker_exists,
    law_best_worker_is_unique, law_fewest_pending_chunks_win,
    WorkerPrefetchCandidate,
};
use vstd::prelude::*;

verus! {

/// The chunks of a request are those of its tokens, one after another.
proof fn lemma_route_chunks(model_id: Seq<char>, tokens: Seq<u32>, size: int)
    requires
        size > 0,
    ensures
        ({
            let complete = tokens.take(tokens.len() as int / size * size);
            let chunks = request_chunks(model_id, complete, size, block_hashes(complete, size));
            &&& 0 <= tokens.len() as int / size * size <= tokens.len()
            &&& chunks.len() == tokens.len() as int / size
            &&& chunk_ids(chunks).len() == chunks.len()
            &&& forall|q: int|
                0 <= q < chunks.len() ==> {
                    &&& chunk_ids(chunks)[q] == chunks[q].0
                    &&& (#[trigger] chunks[q]).0 == (
                        model_id,
                        block_hash(tokens.subrange(q * size, q * size + size)),
                    )
                    &&& chunks[q].1.prefix_tokens == complete
                    &&& chunks[q].1.start_chunk == q as u32
                    &&& chunks[q].1.end_chunk == (q + 1) as u32
                }
        }),
{
    let count = tokens.len() as int / size;
    vstd::arithmetic::div_mod::lemma_fundamental_div_mod(tokens.len() as int, size);
    assert(0 <= count * size <= tokens.len()) by (nonlinear_arith)
        requires
            tokens.len() == size * count + tokens.len() as int % size,
            0 <= tokens.len() as int % size < size,
            count == tokens.len() as int / size,
            size > 0,
            tokens.len() >= 0,
    ;
    assert(count >= 0) by (nonlinear_arith)
        requires
            0 <= count * size,
            size > 0,
    ;
    let complete = tokens.take(count * size);
    vstd::arithmetic::div_mod::lemma_div_multiples_vanish(count, size);
    assert(count * size == size * count) by (nonlinear_arith);
    assert(complete.len() as int / size == count);
    let hashes = block_hashes(complete, size);
    let chunks = request_chunks(model_id, complete, size, hashes);
    assert forall|q: int| 0 <= q < chunks.len() implies (#[trigger] chunks[q]).0 == (
        model_id,
        block_hash(tokens.subrange(q * size, q * size + size)),
    ) by {
        assert(0 <= q * size && q * size + size <= count * size) by (nonlinear_arith)
            requires
                0 <= q < count,
                size > 0,
        ;
        assert(complete.subrange(q * size, q * size + size) =~= tokens.subrange(
            q * size,
            q * size + size,
        ));
        assert(block_tokens(complete, size, q) == tokens.subrange(q * size, q * size + size));
    }
}

/// Each predicted chunk is either reserved or counted as dropped.
proof fn lemma_reserved_counts(
    config: GlobalPrefetchConfig,
    m: ManagerModel,
    targets: Seq<ChunkId>,
    worker: WorkerWithDpRank,
    started: Instant,
)
    requires
        forall|i: int| 0 <= i < targets.len() ==> m.catalog.contains_key(#[trigger] targets[i]),
        m.scheduled + targets.len() <= u64::MAX,
        m.predicted + targets.len() <= u64::MAX,
        m.dropped + targets.len() <= u64::MAX,
    ensures
        ({
            let (after, taken) = reserved_all(config, m, targets, worker, started);
            &&& taken.len() <= targets.len()
            &&& after.scheduled == m.scheduled + taken.len()
            &&& after.predicted == m.predicted + taken.len()
            &&& after.dropped == m.dropped + targets.len() - taken.len()
            &&& after.catalog == m.catalog
        }),
    decreases targets.len(),
{
    if targets.len() > 0 {
        let init = targets.drop_last();
        assert forall|i: int| 0 <= i < init.len() implies m.catalog.contains_key(
            #[trigger] init[i],
        ) by {
            assert(m.catalog.contains_key(targets[i]));
        }
        lemma_reserved_counts(config, m, init, worker, started);
        assert(m.catalog.contains_key(targets[targets.len() - 1]));
    }
}

/// A predicted chunk that is not reserved was so before, or too many were.
proof fn lemma_dropped_targets(
    config: GlobalPrefetchConfig,
    m: ManagerModel,
    targets: Seq<ChunkId>,
    worker: WorkerWithDpRank,
    started: Instant,
    i: int,
)
    requires
        m.inflight.dom().finite(),
        m.inflight.len() <= config.max_inflight,
        targets.no_duplicates(),
        0 <= i < targets.len(),
        m.catalog.contains_key(targets[i]),
    ensures
        ({
            let (after, taken) = reserved_all(config, m, targets, worker, started);
            &&& after.catalog == m.catalog
            &&& taken.contains(targets[i]) || m.inflight.contains_key((targets[i], worker))
                || after.inflight.len() >= config.max_inflight
        }),
    decreases targets.len(),
{
    let init = targets.drop_last();
    law_reserving_stays_within_limit(config, m, init, worker, started);
    law_reserving_stays_within_limit(config, m, targets, worker, started);
    let (before, some) = reserved_all(config, m, init, worker, started);
    let (after, taken) = reserved_all(config, m, targets, worker, started);
    assert(before.inflight.len() <= after.inflight.len());
    if i < init.len() {
        assert(init.no_duplicates()) by {
            assert forall|a: int, b: int| 0 <= a < init.len() && 0 <= b < init.len() && a
                != b implies init[a] != init[b] by {
                assert(targets[a] != targets[b]);
            }
        }
        assert(init[i] == targets[i]);
        lemma_dropped_targets(config, m, init, worker, started, i);
        if some.contains(targets[i]) {
            let k = choose|k: int| 0 <= k < some.len() && some[k] == targets[i];
            assert(taken[k] == targets[i]);
        }
    } else {
        let key = (targets[i], worker);
        if before.inflight.contains_key(key) && !m.inflight.contains_key(key) {
            lemma_reserved_only_targets(config, m, init, worker, started, key);
            let k = choose|k: int| 0 <= k < init.len() && init[k] == targets[i];
            assert(targets[k] != targets[i]);
        }
        if taken.len() > some.len() {
            assert(taken[some.len() as int] == targets[i]);
        }
    }
}

proof fn lemma_reserved_only_targets(
    config: GlobalPrefetchConfig,
    m: ManagerModel,
    targets: Seq<ChunkId>,
    worker: WorkerWithDpRank,
    started: Instant,
    key: (ChunkId, WorkerWithDpRank),
)
    requires
        reserved_all(config, m, targets, worker, started).0.inflight.contains_key(key),
        !m.inflight.contains_key(key),
    ensures
        targets.contains(key.0),
        key.1 == worker,
    decreases targets.len(),
{
    if targets.len() > 0 {
        let init = targets.drop_last();
        assert(targets[targets.len() - 1] == targets.last());
        if reserved_all(config, m, init, worker, started).0.inflight.contains_key(key) {
            lemma_reserved_only_targets(config, m, init, worker, started, key);
            let k = choose|k: int| 0 <= k < init.len() && init[k] == key.0;
            assert(targets[k] == key.0);
        }
    }
}

/// The worker of every hint for a predicted chunk, and of every reservation, is that of a
/// candidate with the fewest chunks to copy: those it is still copying, and those of the
/// predicted ones that it does not hold. Of several such candidates it is the first
/// worker. Without candidates it is the worker of the route.
pub proof fn law_predicted_chunks_go_to_the_idlest_worker<F: Fn(WeightOp) -> Weight>(
    manager: &mut GlobalPrefetchManager,
    request_id: &str,
    session_id: Option<&str>,
    model_id: &str,
    tokens: &[u32],
    worker: WorkerWithDpRank,
    candidates: &[WorkerPrefetchCandidate],
    route_epoch: u64,
    deadline_ns: Option<u64>,
    max_prefetch_bytes: Option<u64>,
    now: Instant,
    started: Instant,
    weigh: &F,
    plan: RoutePlan,
    i: int,
)
    requires
        call_ensures(
            GlobalPrefetchManager::on_route_committed::<F>,
            (
                manager,
                request_id,
                session_id,
                model_id,
                tokens,
                worker,
                candidates,
                route_epoch,
                deadline_ns,
                max_prefetch_bytes,
                now,
                started,
                weigh,
            ),
            plan,
        ),
        sound(old(manager).config, old(manager).state@),
        0 < old(manager).config.chunk_size <= u32::MAX,
        old(manager).config.top_k <= u32::MAX,
        old(manager).state@.scheduled + old(manager).config.top_k <= u64::MAX,
        old(manager).state@.predicted + old(manager).config.top_k <= u64::MAX,
        old(manager).state@.dropped + old(manager).config.top_k <= u64::MAX,
        0x07B0_0000_0000_0000 <= old(manager).config.chunks_per_second.bits
            <= 0x7830_0000_0000_0000,
        0 <= i < plan.temporal@.len(),
    ensures
        ({
            let state_before = old(manager).state@;
            let state_after = final(manager).state@;
            let predicted = plan.temporal@.len() + state_after.dropped - state_before.dropped;
            let chosen = plan.temporal@[i].worker;
            let cost = |c: WorkerPrefetchCandidate|
                c.prefetch_inflight_chunks + if predicted > c.resident_chunks {
                    predicted - c.resident_chunks
                } else {
                    0
                };
            &&& plan.dispatch.reservations@.len() == plan.temporal@.len()
            &&& plan.dispatch.reservations@[i].worker == chosen
            &&& candidates@.len() == 0 ==> chosen == worker
            &&& candidates@.len() > 0 ==> exists|c: int|
                {
                    &&& 0 <= c < candidates@.len()
                    &&& (#[trigger] candidates@[c]).worker == chosen
                    &&& forall|d: int|
                        0 <= d < candidates@.len() ==> {
                            ||| cost(candidates@[c]) < cost(#[trigger] candidates@[d])
                            ||| cost(candidates@[c]) == cost(candidates@[d]) && (
                            candidates@[d].worker.worker_id > chosen.worker_id
                                || candidates@[d].worker.worker_id == chosen.worker_id
                                && candidates@[d].worker.dp_rank >= chosen.dp_rank)
                        }
                }
        }),
{
    let w = arithmetic_of(*weigh);
    let config = old(manager).config;
    let before = old(manager).state@;
    let route = CommittedRoute {
        request_id,
        session_id,
        model_id,
        worker,
        route_epoch,
        deadline_ns,
        max_prefetch_bytes,
    };
    let size = config.chunk_size as int;
    let complete = tokens@.take(tokens@.len() as int / size * size);
    let chunks = request_chunks(model_id@, complete, size, block_hashes(complete, size));
    let session = session_of(route);
    let m = prepared(config, before, chunks, session, now);
    law_expiry_keeps_state_sound(config, before, now);
    law_staging_keeps_catalog_sound(
        config,
        expired(config, before, now),
        chunks,
        session,
    );
    law_route_targets_are_known(w, config, before, route, chunks, now);
    lemma_prepared_counters(config, before, chunks, session, now);
    let targets = route_targets(w, config, m, route, chunks, now);
    let chosen = best_worker(
        w,
        candidates@,
        targets.len() as usize,
        config.chunks_per_second,
        worker,
    );
    lemma_reserved_counts(config, m, targets, chosen, started);
    let (reserved, taken) = reserved_all(config, m, targets, chosen, started);
    assert(taken.len() == plan.temporal@.len());
    assert(targets.len() > 0);
    if candidates@.len() > 0 {
        law_best_worker_exists(
            w,
            candidates@,
            targets.len() as usize,
            config.chunks_per_second,
            worker,
        );
        law_fewest_pending_chunks_win(
            w,
            candidates@,
            targets.len() as usize,
            config.chunks_per_second,
            worker,
            chosen,
        );
        let c = choose|c: int| #[trigger]
            has_fewest_pending(candidates@, targets.len() as usize, c)
                && candidates@[c].worker == chosen;
        assert(candidates@[c].worker == chosen);
    } else {
        assert(is_best_worker(
            w,
            candidates@,
            targets.len() as usize,
            config.chunks_per_second,
            worker,
            worker,
        ));
        law_best_worker_is_unique(
            w,
            candidates@,
            targets.len() as usize,
            config.chunks_per_second,
            worker,
            worker,
            chosen,
        );
    }
}

/// Preparing a state leaves its counters, its prefetches and what it has learnt alone,
/// but for what has expired.
proof fn lemma_prepared_counters(
    config: GlobalPrefetchConfig,
    before: ManagerModel,
    chunks: Seq<(ChunkId, DescriptorModel)>,
    session: Option<Seq<char>>,
    now: Instant,
)
    ensures
        ({
            let m = prepared(config, before, chunks, session, now);
            &&& m.scheduled == before.scheduled
            &&& m.predicted == before.predicted
            &&& m.dropped == before.dropped
            &&& m.sources == before.sources
            &&& m.sessions == expired(config, before, now).sessions
        }),
{
    let start = expired(config, before, now);
    lemma_staging_keeps_the_rest(
        start,
        chunks,
        if config.filter_stable_chunks {
            session
        } else {
            None
        },
        config.stable_session_threshold as nat,
    );
}

/// After the route of a session that is kept, its model, its time and its first chunks
/// are remembered for it, as many of them as the limit says. A session is only forgotten
/// for more recent ones, when there are too many.
pub proof fn law_requests_are_remembered<F: Fn(WeightOp) -> Weight>(
    manager: &mut GlobalPrefetchManager,
    request_id: &str,
    session_id: Option<&str>,
    model_id: &str,
    tokens: &[u32],
    worker: WorkerWithDpRank,
    candidates: &[WorkerPrefetchCandidate],
    route_epoch: u64,
    deadline_ns: Option<u64>,
    max_prefetch_bytes: Option<u64>,
    now: Instant,
    started: Instant,
    weigh: &F,
    plan: RoutePlan,
    session: &str,
)
    requires
        call_ensures(
            GlobalPrefetchManager::on_route_committed::<F>,
            (
                manager,
                request_id,
                session_id,
                model_id,
                tokens,
                worker,
                candidates,
                route_epoch,
                deadline_ns,
                max_prefetch_bytes,
                now,
                started,
                weigh,
            ),
            plan,
        ),
        sound(old(manager).config, old(manager).state@),
        0 < old(manager).config.chunk_size <= u32::MAX,
        tokens@.len() >= old(manager).config.chunk_size,
        session_id == Some(session),
    ensures
        ({
            let size = old(manager).config.chunk_size as int;
            let limit = old(manager).config.max_observation_chunks as int;
            let after = final(manager).state@.sessions;
            let kept = after[session@];
            &&& after.contains_key(session@) ==> {
                &&& kept.model_id == model_id@
                &&& kept.last_seen == now
                &&& kept.last_chunks.len() == if tokens@.len() as int / size <= limit {
                    tokens@.len() as int / size
                } else {
                    limit
                }
                &&& forall|p: int|
                    0 <= p < tokens@.len() as int / size && p < limit ==> (
                    #[trigger] kept.last_chunks[p]) == (
                        model_id@,
                        block_hash(tokens@.subrange(p * size, p * size + size)),
                    )
            }
            &&& !after.contains_key(session@) ==> {
                &&& after.len() == old(manager).config.max_sessions
                &&& forall|other: Seq<char>| #[trigger]
                    after.contains_key(other) ==> after[other].last_seen.nanos >= now.nanos
            }
        }),
{
    let config = old(manager).config;
    let before = old(manager).state@;
    let size = config.chunk_size as int;
    let complete = tokens@.take(tokens@.len() as int / size * size);
    let chunks = request_chunks(model_id@, complete, size, block_hashes(complete, size));
    lemma_route_chunks(model_id@, tokens@, size);
    lemma_some_chunk(tokens@.len() as int, size);
    let m = prepared(config, before, chunks, Some(session@), now);
    law_expiry_keeps_state_sound(config, before, now);
    law_staging_keeps_catalog_sound(
        config,
        expired(config, before, now),
        chunks,
        Some(session@),
    );
    let last = remembered(config, model_id@, chunk_ids(chunks), now);
    let all = m.sessions.insert(session@, last);
    let after = final(manager).state@.sessions;
    assert(all.contains_key(session@) && all[session@] == last);
    if after.contains_key(session@) {
        assert(after.dom().contains(session@) && all.dom().contains(session@));
        assert(after[session@] == last);
        assert forall|p: int|
            0 <= p < tokens@.len() as int / size && p < config.max_observation_chunks implies (
        #[trigger] last.last_chunks[p]) == (
            model_id@,
            block_hash(tokens@.subrange(p * size, p * size + size)),
        ) by {
            assert(chunk_ids(chunks)[p] == chunks[p].0);
        }
    } else {
        assert forall|other: Seq<char>| #[trigger]
            after.contains_key(other) implies after[other].last_seen.nanos >= now.nanos by {
            assert(after.dom().contains(other) && all.dom().contains(other));
            assert(all[other] == after[other]);
            assert(session_seen()(all[session@]).nanos <= session_seen()(all[other]).nanos);
        }
        if after.len() == all.len() {
            lemma_part_as_large(after, all, session@);
        }
    }
}

proof fn lemma_some_chunk(length: int, size: int)
    requires
        0 < size <= length,
    ensures
        length / size >= 1,
{
    assert(length / size >= 1) by (nonlinear_arith)
        requires
            0 < size <= length,
    ;
}

/// Over two consecutive routes of a session, with the same model and not too far apart,
/// every chunk of the first request that is remembered and no shared template is left for
/// every different chunk of the second that counts for learning: it is a source last left
/// at the second route, and that chunk is among its targets, last seen then. A source is
/// missing only if there are too many, and all that are left are as recent; a target only
/// if its source had more than twice `top_k`, and just the `top_k` best are left.
pub proof fn law_consecutive_requests_are_associated<F: Fn(WeightOp) -> Weight>(
    first_route: &mut GlobalPrefetchManager,
    second_route: &mut GlobalPrefetchManager,
    session: &str,
    model_id: &str,
    weigh: &F,
    request_a: &str,
    tokens_a: &[u32],
    worker_a: WorkerWithDpRank,
    candidates_a: &[WorkerPrefetchCandidate],
    epoch_a: u64,
    deadline_a: Option<u64>,
    bytes_a: Option<u64>,
    now_a: Instant,
    started_a: Instant,
    plan_a: RoutePlan,
    request_b: &str,
    tokens_b: &[u32],
    worker_b: WorkerWithDpRank,
    candidates_b: &[WorkerPrefetchCandidate],
    epoch_b: u64,
    deadline_b: Option<u64>,
    bytes_b: Option<u64>,
    now_b: Instant,
    started_b: Instant,
    plan_b: RoutePlan,
    p: int,
    q: int,
)
    requires
        call_ensures(
            GlobalPrefetchManager::on_route_committed::<F>,
            (
                first_route,
                request_a,
                Some(session),
                model_id,
                tokens_a,
                worker_a,
                candidates_a,
                epoch_a,
                deadline_a,
                bytes_a,
                now_a,
                started_a,
                weigh,
            ),
            plan_a,
        ),
        call_ensures(
            GlobalPrefetchManager::on_route_committed::<F>,
            (
                second_route,
                request_b,
                Some(session),
                model_id,
                tokens_b,
                worker_b,
                candidates_b,
                epoch_b,
                deadline_b,
                bytes_b,
                now_b,
                started_b,
                weigh,
            ),
            plan_b,
        ),
        *old(second_route) == *final(first_route),
        sound(old(first_route).config, old(first_route).state@),
        0 < old(first_route).config.chunk_size <= u32::MAX,
        final(first_route).state@.sessions.contains_key(session@),
        now_b.nanos <= now_a.nanos + old(first_route).config.session_ttl.nanos,
        0 <= p < tokens_a@.len() as int / old(first_route).config.chunk_size as int,
        p < old(first_route).config.max_observation_chunks,
        0 <= q < tokens_b@.len() as int / old(first_route).config.chunk_size as int,
        q < old(first_route).config.max_observation_chunks,
    ensures
        ({
            let config = old(first_route).config;
            let size = config.chunk_size as int;
            let source = (
                model_id@,
                block_hash(tokens_a@.subrange(p * size, p * size + size)),
            );
            let target = (
                model_id@,
                block_hash(tokens_b@.subrange(q * size, q * size + size)),
            );
            let w = arithmetic_of(*weigh);
            let learnt = old(second_route).state@.sources;
            let after = final(second_route).state@;
            let shown = after.chunk_sessions;
            let counts = |id: ChunkId|
                !(config.filter_stable_chunks && shown.contains_key(id) && shown[id].len()
                    >= config.stable_session_threshold);
            source != target && counts(source) && counts(target) ==> {
                &&& after.sources.contains_key(source) ==> {
                    &&& after.sources[source].last_seen == now_b
                    &&& after.sources[source].total == w(
                        WeightOp::Increment {
                            value: if learnt.contains_key(source) {
                                decayed(
                                    w,
                                    learnt[source].total,
                                    learnt[source].last_seen,
                                    now_b,
                                    config.half_life,
                                )
                            } else {
                                Weight { bits: 0 }
                            },
                        },
                    )
                    &&& after.sources[source].targets.contains_key(target) ==> {
                        &&& after.sources[source].targets[target].last_seen == now_b
                        &&& after.sources[source].targets[target].support == w(
                            WeightOp::Increment {
                                value: if learnt.contains_key(source)
                                    && learnt[source].targets.contains_key(target) {
                                    decayed(
                                        w,
                                        learnt[source].targets[target].support,
                                        learnt[source].targets[target].last_seen,
                                        now_b,
                                        config.half_life,
                                    )
                                } else {
                                    Weight { bits: 0 }
                                },
                            },
                        )
                    }
                    &&& !after.sources[source].targets.contains_key(target) ==> {
                        &&& after.sources[source].targets.len() == config.top_k
                        &&& (if learnt.contains_key(source) {
                            learnt[source].targets.len()
                        } else {
                            0
                        }) + tokens_b@.len() as int / size > 2 * config.top_k
                    }
                }
                &&& !after.sources.contains_key(source) ==> {
                    &&& after.sources.len() == config.max_chunk_catalog
                    &&& forall|other: ChunkId| #[trigger]
                        after.sources.contains_key(other) ==> after.sources[other].last_seen.nanos
                            >= now_b.nanos
                }
            }
        }),
{
    let w = arithmetic_of(*weigh);
    let config = old(first_route).config;
    let size = config.chunk_size as int;
    let limit = config.max_observation_chunks as int;
    lemma_route_chunks(model_id@, tokens_a@, size);
    lemma_route_chunks(model_id@, tokens_b@, size);
    let complete_a = tokens_a@.take(tokens_a@.len() as int / size * size);
    let chunks_a = request_chunks(model_id@, complete_a, size, block_hashes(complete_a, size));
    let complete_b = tokens_b@.take(tokens_b@.len() as int / size * size);
    let chunks_b = request_chunks(model_id@, complete_b, size, block_hashes(complete_b, size));
    let source = (model_id@, block_hash(tokens_a@.subrange(p * size, p * size + size)));
    let target = (model_id@, block_hash(tokens_b@.subrange(q * size, q * size + size)));
    assert(chunks_a[p].0 == source && chunk_ids(chunks_a)[p] == source);
    assert(chunks_b[q].0 == target && chunk_ids(chunks_b)[q] == target);
    let before_a = old(first_route).state@;
    let before = old(second_route).state@;
    let after = final(second_route).state@;
    let m_a = prepared(config, before_a, chunks_a, Some(session@), now_a);
    let m = prepared(config, before, chunks_b, Some(session@), now_b);
    let previous = remembered(config, model_id@, chunk_ids(chunks_a), now_a);
    assert(before.sessions[session@] == previous) by {
        let all = m_a.sessions.insert(session@, previous);
        assert(before.sessions.dom().contains(session@) && all.dom().contains(session@));
    }
    assert(sound(config, before));
    law_expiry_keeps_state_sound(config, before, now_b);
    law_staging_keeps_catalog_sound(
        config,
        expired(config, before, now_b),
        chunks_b,
        Some(session@),
    );
    lemma_prepared_counters(config, before, chunks_b, Some(session@), now_b);
    assert(m.sessions.contains_key(session@) && m.sessions[session@] == previous);
    assert(predecessor(config, m, Some(session@), model_id@, now_b) == Some(previous));
    let route = CommittedRoute {
        request_id: request_b,
        session_id: Some(session),
        model_id,
        worker: worker_b,
        route_epoch: epoch_b,
        deadline_ns: deadline_b,
        max_prefetch_bytes: bytes_b,
    };
    let targets = route_targets(w, config, m, route, chunks_b, now_b);
    let chosen = best_worker(
        w,
        candidates_b@,
        targets.len() as usize,
        config.chunks_per_second,
        worker_b,
    );
    law_reserving_stays_within_limit(config, m, targets, chosen, started_b);
    assert(after.chunk_sessions == m.chunk_sessions);
    let kept_a = observable(config, m, previous.last_chunks);
    let kept_b = observable(config, m, chunk_ids(chunks_b));
    let left = distinct(first(kept_a, limit));
    let entered = distinct(first(kept_b, limit));
    if source != target && !ignored_as_stable(config, m, source) && !ignored_as_stable(
        config,
        m,
        target,
    ) {
        assert(previous.last_chunks[p] == source);
        lemma_observable_holds(config, m, previous.last_chunks, p);
        lemma_observable_holds(config, m, chunk_ids(chunks_b), q);
        lemma_distinct(first(kept_a, limit));
        lemma_distinct(first(kept_b, limit));
        let top_k = config.top_k as nat;
        let all = observed_sources(w, m.sources, left, entered, top_k, now_b, config.half_life);
        lemma_source_is_observed(
            w,
            m.sources,
            left,
            entered,
            top_k,
            now_b,
            config.half_life,
            source,
            target,
        );
        let base = if m.sources.contains_key(source) {
            m.sources[source]
        } else {
            fresh_source(now_b)
        };
        let seen = entered.filter(differs_from(source));
        lemma_filter_no_duplicates(entered, differs_from(source));
        lemma_filter_membership(entered, differs_from(source), target);
        lemma_transition_is_counted(w, base, seen, top_k, now_b, config.half_life, target);
        entered.lemma_filter_len(differs_from(source));
        lemma_distinct_is_shorter(first(kept_b, limit));
        first(chunk_ids(chunks_b), limit).lemma_filter_len(
            |chunk: ChunkId| !ignored_as_stable(config, m, chunk),
        );
        let zero = Weight { bits: 0 };
        assert(decayed(w, zero, now_b, now_b, config.half_life) == zero);
        if after.sources.contains_key(source) {
            assert(after.sources.dom().contains(source) && all.dom().contains(source));
            assert(after.sources[source] == all[source]);
        } else {
            assert forall|other: ChunkId| #[trigger]
                after.sources.contains_key(other) implies after.sources[other].last_seen.nanos
                >= now_b.nanos by {
                assert(after.sources.dom().contains(other) && all.dom().contains(other));
                assert(all[other] == after.sources[other]);
                assert(source_seen()(all[source]).nanos <= source_seen()(all[other]).nanos);
            }
            lemma_observed_sources_finite(
                w,
                m.sources,
                left,
                entered,
                top_k,
                now_b,
                config.half_life,
            );
            if after.sources.len() == all.len() {
                lemma_part_as_large(after.sources, all, source);
            }
        }
    }
}

/// A chunk near the start that is no shared template is kept for learning, and within
/// the limit.
proof fn lemma_observable_holds(
    config: GlobalPrefetchConfig,
    m: ManagerModel,
    chunks: Seq<ChunkId>,
    p: int,
)
    requires
        0 <= p < chunks.len(),
        p < config.max_observation_chunks,
        !ignored_as_stable(config, m, chunks[p]),
    ensures
        first(observable(config, m, chunks), config.max_observation_chunks as int).contains(
            chunks[p],
        ),
{
    let limit = config.max_observation_chunks as int;
    let keep = |chunk: ChunkId| !ignored_as_stable(config, m, chunk);
    let few = first(chunks, limit);
    assert(few[p] == chunks[p]);
    lemma_filter_membership(few, keep, chunks[p]);
    few.lemma_filter_len(keep);
    assert(observable(config, m, chunks) == few.filter(keep));
}

/// What could be reserved was not reserved before.
proof fn lemma_taken_were_free(
    config: GlobalPrefetchConfig,
    m: ManagerModel,
    targets: Seq<ChunkId>,
    worker: WorkerWithDpRank,
    started: Instant,
    i: int,
)
    requires
        m.inflight.dom().finite(),
        m.inflight.len() <= config.max_inflight,
        0 <= i < reserved_all(config, m, targets, worker, started).1.len(),
    ensures
        !m.inflight.contains_key(
            (reserved_all(config, m, targets, worker, started).1[i], worker),
        ),
    decreases targets.len(),
{
    if targets.len() > 0 {
        let init = targets.drop_last();
        law_reserving_stays_within_limit(config, m, init, worker, started);
        let (before, some) = reserved_all(config, m, init, worker, started);
        if i < some.len() {
            lemma_taken_were_free(config, m, init, worker, started, i);
        } else if m.inflight.contains_key((targets.last(), worker)) {
            assert(m.inflight.dom().contains((targets.last(), worker)));
            assert(before.inflight.dom().contains((targets.last(), worker)));
        }
    }
}

/// A hint for a predicted chunk is made only if predictions are switched on and the session
/// used the same model not too long ago; and only for a chunk that followed one of the
/// chunks remembered for the session often and probably enough, in what had been learnt
/// before the route. The chunk is known, no shared template and no part of the request.
pub proof fn law_hinted_chunks_are_likely<F: Fn(WeightOp) -> Weight>(
    manager: &mut GlobalPrefetchManager,
    request_id: &str,
    session_id: Option<&str>,
    model_id: &str,
    tokens: &[u32],
    worker: WorkerWithDpRank,
    candidates: &[WorkerPrefetchCandidate],
    route_epoch: u64,
    deadline_ns: Option<u64>,
    max_prefetch_bytes: Option<u64>,
    now: Instant,
    started: Instant,
    weigh: &F,
    plan: RoutePlan,
    i: int,
    q: int,
)
    requires
        call_ensures(
            GlobalPrefetchManager::on_route_committed::<F>,
            (
                manager,
                request_id,
                session_id,
                model_id,
                tokens,
                worker,
                candidates,
                route_epoch,
                deadline_ns,
                max_prefetch_bytes,
                now,
                started,
                weigh,
            ),
            plan,
        ),
        sound(old(manager).config, old(manager).state@),
        0 < old(manager).config.chunk_size <= u32::MAX,
        0 <= i < plan.temporal@.len(),
    ensures
        old(manager).config.temporal_enabled,
        session_id is Some,
        ({
            let w = arithmetic_of(*weigh);
            let config = old(manager).config;
            let size = config.chunk_size as int;
            let before = old(manager).state@;
            let after = final(manager).state@;
            let last = before.sessions[session_id->0@];
            let target = plan.temporal@[i].target@;
            &&& before.sessions.contains_key(session_id->0@)
            &&& last.model_id == model_id@
            &&& now.nanos <= last.last_seen.nanos + config.session_ttl.nanos
            &&& target.0 == model_id@
            &&& after.catalog.contains_key(target)
            &&& config.filter_stable_chunks && after.chunk_sessions.contains_key(target)
                ==> after.chunk_sessions[target].len() < config.stable_session_threshold
            &&& 0 <= q < tokens@.len() as int / size ==> target != (
                model_id@,
                block_hash(tokens@.subrange(q * size, q * size + size)),
            )
            &&& exists|j: int|
                {
                    let source = before.sources[#[trigger] last.last_chunks[j]];
                    let stats = source.targets[target];
                    let total = decayed(w, source.total, source.last_seen, now, config.half_life);
                    let support = decayed(
                        w,
                        stats.support,
                        stats.last_seen,
                        now,
                        config.half_life,
                    );
                    &&& 0 <= j < last.last_chunks.len()
                    &&& before.sources.contains_key(last.last_chunks[j])
                    &&& source.targets.contains_key(target)
                    &&& !falls_short(total, config.min_support)
                    &&& reaches(support, config.min_support)
                    &&& reaches(
                        w(WeightOp::Ratio { part: support, whole: total }),
                        config.min_probability,
                    )
                }
        }),
{
    let w = arithmetic_of(*weigh);
    let config = old(manager).config;
    let before = old(manager).state@;
    let after = final(manager).state@;
    let route = CommittedRoute {
        request_id,
        session_id,
        model_id,
        worker,
        route_epoch,
        deadline_ns,
        max_prefetch_bytes,
    };
    let size = config.chunk_size as int;
    let complete = tokens@.take(tokens@.len() as int / size * size);
    let chunks = request_chunks(model_id@, complete, size, block_hashes(complete, size));
    let session = session_of(route);
    let m = prepared(config, before, chunks, session, now);
    lemma_route_chunks(model_id@, tokens@, size);
    law_expiry_keeps_state_sound(config, before, now);
    law_staging_keeps_catalog_sound(config, expired(config, before, now), chunks, session);
    law_route_targets_are_known(w, config, before, route, chunks, now);
    lemma_prepared_counters(config, before, chunks, session, now);
    let targets = route_targets(w, config, m, route, chunks, now);
    let chosen = best_worker(
        w,
        candidates@,
        targets.len() as usize,
        config.chunks_per_second,
        worker,
    );
    law_reserving_stays_within_limit(config, m, targets, chosen, started);
    let (reserved, taken) = route_outcome(config, m, targets, chosen, started);
    assert(taken.len() == plan.temporal@.len());
    let id = taken[i];
    assert(targets.contains(id));
    let t = choose|t: int| 0 <= t < targets.len() && targets[t] == id;
    assert(plan.temporal@[i].target@ == (model_id@, id.1));
    assert(targets[t].0 == model_id@);
    assert(plan.temporal@[i].target@ == id);
    let previous = predecessor(config, m, session, model_id@, now)->0;
    assert(before.sessions.contains_key(session->0) && before.sessions[session->0] == previous);
    let kept = observable(config, m, previous.last_chunks);
    law_predictions_are_likely(w, config, m, kept, chunk_ids(chunks).to_set(), now);
    let j = choose|j: int|
        0 <= j < kept.len() && evidence(
            w,
            config,
            m,
            chunk_ids(chunks).to_set(),
            #[trigger] kept[j],
            now,
        ).contains_key(targets[t]);
    let keep = |chunk: ChunkId| !ignored_as_stable(config, m, chunk);
    let few = first(previous.last_chunks, config.max_observation_chunks as int);
    assert(kept == few.filter(keep));
    assert(kept.contains(kept[j]));
    lemma_filter_membership(few, keep, kept[j]);
    let k = choose|k: int| 0 <= k < few.len() && few[k] == kept[j];
    assert(previous.last_chunks[k] == kept[j]);
    assert(after.chunk_sessions == m.chunk_sessions);
    assert(after.catalog == m.catalog);
    if 0 <= q < tokens@.len() as int / size {
        assert(chunk_ids(chunks)[q] == chunks[q].0);
        assert(chunk_ids(chunks).to_set().contains(chunk_ids(chunks)[q]));
    }
}

/// A chunk that followed one of the session's remembered chunks often and probably enough,
/// that is known, no shared template and no part of the request, is hinted; unless there
/// are `top_k` predictions, or it is being prefetched already, or too many chunks are.
pub proof fn law_likely_chunks_are_hinted<F: Fn(WeightOp) -> Weight>(
    manager: &mut GlobalPrefetchManager,
    request_id: &str,
    session_id: Option<&str>,
    model_id: &str,
    tokens: &[u32],
    worker: WorkerWithDpRank,
    candidates: &[WorkerPrefetchCandidate],
    route_epoch: u64,
    deadline_ns: Option<u64>,
    max_prefetch_bytes: Option<u64>,
    now: Instant,
    started: Instant,
    weigh: &F,
    plan: RoutePlan,
    likely: ChunkId,
    j: int,
)
    requires
        call_ensures(
            GlobalPrefetchManager::on_route_committed::<F>,
            (
                manager,
                request_id,
                session_id,
                model_id,
                tokens,
                worker,
                candidates,
                route_epoch,
                deadline_ns,
                max_prefetch_bytes,
                now,
                started,
                weigh,
            ),
            plan,
        ),
        sound(old(manager).config, old(manager).state@),
        0 < old(manager).config.chunk_size <= u32::MAX,
        old(manager).state@.scheduled + old(manager).config.top_k <= u64::MAX,
        old(manager).state@.predicted + old(manager).config.top_k <= u64::MAX,
        old(manager).state@.dropped + old(manager).config.top_k <= u64::MAX,
        tokens@.len() >= old(manager).config.chunk_size,
        old(manager).config.temporal_enabled,
        session_id is Some,
        old(manager).state@.sessions.contains_key(session_id->0@),
        ({
            let w = arithmetic_of(*weigh);
            let config = old(manager).config;
            let size = config.chunk_size as int;
            let before = old(manager).state@;
            let shown = final(manager).state@.chunk_sessions;
            let last = before.sessions[session_id->0@];
            let source = before.sources[last.last_chunks[j]];
            let stats = source.targets[likely];
            let total = decayed(w, source.total, source.last_seen, now, config.half_life);
            let support = decayed(w, stats.support, stats.last_seen, now, config.half_life);
            let counts = |id: ChunkId|
                !(config.filter_stable_chunks && shown.contains_key(id) && shown[id].len()
                    >= config.stable_session_threshold);
            &&& last.model_id == model_id@
            &&& now.nanos <= last.last_seen.nanos + config.session_ttl.nanos
            &&& 0 <= j < last.last_chunks.len()
            &&& j < config.max_observation_chunks
            &&& before.sources.contains_key(last.last_chunks[j])
            &&& source.targets.contains_key(likely)
            &&& counts(last.last_chunks[j])
            &&& counts(likely)
            &&& final(manager).state@.catalog.contains_key(likely)
            &&& forall|q: int|
                0 <= q < tokens@.len() as int / size ==> likely != (
                    model_id@,
                    #[trigger] block_hash(tokens@.subrange(q * size, q * size + size)),
                )
            &&& !falls_short(total, config.min_support)
            &&& reaches(support, config.min_support)
            &&& reaches(
                w(WeightOp::Ratio { part: support, whole: total }),
                config.min_probability,
            )
        }),
    ensures
        ({
            let before = old(manager).state@;
            let after = final(manager).state@;
            ||| exists|i: int|
                0 <= i < plan.temporal@.len() && (#[trigger] plan.temporal@[i]).target@ == likely
            ||| plan.temporal@.len() + after.dropped - before.dropped == old(manager).config.top_k
            ||| exists|on: WorkerWithDpRank| #[trigger]
                before.inflight.contains_key((likely, on)) && now.nanos
                    <= before.inflight[(likely, on)].nanos + old(manager).config.ttl.nanos
            ||| after.inflight.len() >= old(manager).config.max_inflight
        }),
{
    let w = arithmetic_of(*weigh);
    let config = old(manager).config;
    let before = old(manager).state@;
    let after = final(manager).state@;
    let route = CommittedRoute {
        request_id,
        session_id,
        model_id,
        worker,
        route_epoch,
        deadline_ns,
        max_prefetch_bytes,
    };
    let size = config.chunk_size as int;
    let complete = tokens@.take(tokens@.len() as int / size * size);
    let chunks = request_chunks(model_id@, complete, size, block_hashes(complete, size));
    let session = session_of(route);
    let m = prepared(config, before, chunks, session, now);
    lemma_route_chunks(model_id@, tokens@, size);
    law_expiry_keeps_state_sound(config, before, now);
    law_staging_keeps_catalog_sound(config, expired(config, before, now), chunks, session);
    law_route_targets_are_known(w, config, before, route, chunks, now);
    lemma_prepared_counters(config, before, chunks, session, now);
    let targets = route_targets(w, config, m, route, chunks, now);
    let chosen = best_worker(
        w,
        candidates@,
        targets.len() as usize,
        config.chunks_per_second,
        worker,
    );
    law_reserving_stays_within_limit(config, m, targets, chosen, started);
    let (reserved, taken) = route_outcome(config, m, targets, chosen, started);
    lemma_some_chunk(tokens@.len() as int, size);
    lemma_reserved_counts(config, m, targets, chosen, started);
    assert(after.chunk_sessions == m.chunk_sessions);
    assert(after.catalog == m.catalog);
    let previous = before.sessions[session->0];
    assert(m.sessions.contains_key(session->0) && m.sessions[session->0] == previous);
    assert(predecessor(config, m, session, model_id@, now) == Some(previous));
    let kept = observable(config, m, previous.last_chunks);
    let current = chunk_ids(chunks).to_set();
    let limit = config.max_observation_chunks as int;
    let sources = first(kept, limit);
    let id = previous.last_chunks[j];
    lemma_observable_holds(config, m, previous.last_chunks, j);
    let k = choose|k: int| 0 <= k < sources.len() && sources[k] == id;
    assert(!current.contains(likely)) by {
        if current.contains(likely) {
            let q = choose|q: int|
                0 <= q < chunk_ids(chunks).len() && chunk_ids(chunks)[q] == likely;
            assert(chunks[q].0 == likely);
            assert(likely.1 == block_hash(tokens@.subrange(q * size, q * size + size)));
        }
    }
    assert(evidence(w, config, m, current, sources[k], now).contains_key(likely));
    let scores = best_scores(w, config, m, sources, current, now);
    law_score_is_the_highest(w, config, m, sources, current, now, likely);
    assert(scores.contains_key(likely));
    law_predictions_are_the_ranking(w, config, m, kept, current, now);
    assert(is_top(scores, config.top_k as nat, targets));
    if targets.len() < config.top_k {
        assert(targets.contains(likely)) by {
            lemma_scores_are_finite(w, config, m, sources, current, now);
            law_ranking_lists_once(scores, config.top_k as nat, targets);
            targets.unique_seq_to_set();
            assert forall|x: ChunkId| targets.to_set().contains(x) implies scores.dom().contains(
                x,
            ) by {
                let a = choose|a: int| 0 <= a < targets.len() && targets[a] == x;
                assert(scores.contains_key(targets[a]));
            }
            vstd::set_lib::lemma_subset_equality(targets.to_set(), scores.dom());
            assert(targets.to_set().contains(likely));
        }
        let t = choose|t: int| 0 <= t < targets.len() && targets[t] == likely;
        lemma_dropped_targets(config, m, targets, chosen, started, t);
        if taken.contains(likely) {
            let i = choose|i: int| 0 <= i < taken.len() && taken[i] == likely;
            assert(targets[t].0 == model_id@);
            assert(plan.temporal@[i].target@ == likely);
        } else if m.inflight.contains_key((likely, chosen)) {
            assert(before.inflight.contains_key((likely, chosen)));
        }
    }
}

/// Each hint for a predicted chunk carries the prefix that ends with it, and asks for that
/// chunk alone; its chunk is reserved on its worker from now on, and was not before.
pub proof fn law_hints_carry_the_prefix<F: Fn(WeightOp) -> Weight>(
    manager: &mut GlobalPrefetchManager,
    request_id: &str,
    session_id: Option<&str>,
    model_id: &str,
    tokens: &[u32],
    worker: WorkerWithDpRank,
    candidates: &[WorkerPrefetchCandidate],
    route_epoch: u64,
    deadline_ns: Option<u64>,
    max_prefetch_bytes: Option<u64>,
    now: Instant,
    started: Instant,
    weigh: &F,
    plan: RoutePlan,
    i: int,
)
    requires
        call_ensures(
            GlobalPrefetchManager::on_route_committed::<F>,
            (
                manager,
                request_id,
                session_id,
                model_id,
                tokens,
                worker,
                candidates,
                route_epoch,
                deadline_ns,
                max_prefetch_bytes,
                now,
                started,
                weigh,
            ),
            plan,
        ),
        sound(old(manager).config, old(manager).state@),
        0 < old(manager).config.chunk_size <= u32::MAX,
        0 <= i < plan.temporal@.len(),
    ensures
        ({
            let config = old(manager).config;
            let before = old(manager).state@;
            let after = final(manager).state@;
            let planned = plan.temporal@[i];
            let hint = planned.hint@;
            let known = after.catalog[planned.target@];
            &&& hint.tokens == known.prefix_tokens
            &&& hint.start_chunk == Some(known.start_chunk)
            &&& hint.end_chunk == Some(known.end_chunk)
            &&& hint.request_id == Some(request_id@)
            &&& hint.model_id == Some(model_id@)
            &&& session_id matches Some(session) ==> hint.session_id == Some(session@)
            &&& hint.worker == planned.worker
            &&& hint.route_epoch == route_epoch
            &&& hint.deadline_ns == deadline_ns
            &&& hint.max_prefetch_bytes == max_prefetch_bytes
            &&& hint.task_id == Some(
                "global-temporal-chunk-"@ + request_id@ + "-"@ + hex(planned.target@.1 as nat, 16),
            )
            &&& config.ttl.nanos / 1_000_000 <= u64::MAX ==> hint.ttl_ms == config.ttl.nanos
                / 1_000_000
            &&& planned.started == started
            &&& after.inflight.contains_key((planned.target@, planned.worker))
            &&& after.inflight[(planned.target@, planned.worker)] == started
            &&& before.inflight.contains_key((planned.target@, planned.worker)) ==> now.nanos
                > before.inflight[(planned.target@, planned.worker)].nanos + config.ttl.nanos
            &&& plan.dispatch.reservations@[i].worker == planned.worker
            &&& plan.dispatch.reservations@[i].block_hashes@ == seq![
                LocalBlockHash(planned.target@.1),
            ]
        }),
{
    let w = arithmetic_of(*weigh);
    let config = old(manager).config;
    let before = old(manager).state@;
    let after = final(manager).state@;
    let route = CommittedRoute {
        request_id,
        session_id,
        model_id,
        worker,
        route_epoch,
        deadline_ns,
        max_prefetch_bytes,
    };
    let size = config.chunk_size as int;
    let complete = tokens@.take(tokens@.len() as int / size * size);
    let chunks = request_chunks(model_id@, complete, size, block_hashes(complete, size));
    let session = session_of(route);
    let m = prepared(config, before, chunks, session, now);
    lemma_route_chunks(model_id@, tokens@, size);
    law_expiry_keeps_state_sound(config, before, now);
    law_staging_keeps_catalog_sound(config, expired(config, before, now), chunks, session);
    law_route_targets_are_known(w, config, before, route, chunks, now);
    lemma_prepared_counters(config, before, chunks, session, now);
    let targets = route_targets(w, config, m, route, chunks, now);
    let chosen = best_worker(
        w,
        candidates@,
        targets.len() as usize,
        config.chunks_per_second,
        worker,
    );
    law_reserving_stays_within_limit(config, m, targets, chosen, started);
    let (reserved, taken) = route_outcome(config, m, targets, chosen, started);
    assert(taken.len() == plan.temporal@.len());
    let id = taken[i];
    assert(targets.contains(id));
    let t = choose|t: int| 0 <= t < targets.len() && targets[t] == id;
    assert(targets[t].0 == model_id@);
    assert(plan.temporal@[i].target@ == id);
    assert(held_since(reserved.inflight, taken[i], chosen, started));
    lemma_taken_were_free(config, m, targets, chosen, started, i);
    assert(after.catalog == m.catalog);
    let key = (id, chosen);
    if before.inflight.contains_key(key) && now.nanos <= before.inflight[key].nanos
        + config.ttl.nanos {
        assert(m.inflight.contains_key(key));
    }
}

/// What a route adds to the counters and to the prefetches under way are its hints for
/// predicted chunks; a prefetch under way stays until its time to live is over. With
/// predictions switched off there are no such hints.
pub proof fn law_hints_are_counted<F: Fn(WeightOp) -> Weight>(
    manager: &mut GlobalPrefetchManager,
    request_id: &str,
    session_id: Option<&str>,
    model_id: &str,
    tokens: &[u32],
    worker: WorkerWithDpRank,
    candidates: &[WorkerPrefetchCandidate],
    route_epoch: u64,
    deadline_ns: Option<u64>,
    max_prefetch_bytes: Option<u64>,
    now: Instant,
    started: Instant,
    weigh: &F,
    plan: RoutePlan,
    key: (ChunkId, WorkerWithDpRank),
)
    requires
        call_ensures(
            GlobalPrefetchManager::on_route_committed::<F>,
            (
                manager,
                request_id,
                session_id,
                model_id,
                tokens,
                worker,
                candidates,
                route_epoch,
                deadline_ns,
                max_prefetch_bytes,
                now,
                started,
                weigh,
            ),
            plan,
        ),
        sound(old(manager).config, old(manager).state@),
        0 < old(manager).config.chunk_size <= u32::MAX,
        tokens@.len() >= old(manager).config.chunk_size,
        old(manager).state@.scheduled + old(manager).config.top_k <= u64::MAX,
        old(manager).state@.predicted + old(manager).config.top_k <= u64::MAX,
        old(manager).state@.dropped + old(manager).config.top_k <= u64::MAX,
    ensures
        ({
            let config = old(manager).config;
            let before = old(manager).state@;
            let after = final(manager).state@;
            let alive = before.inflight.contains_key(key) && now.nanos
                <= before.inflight[key].nanos + config.ttl.nanos;
            &&& after.scheduled == before.scheduled + plan.temporal@.len()
            &&& after.predicted == before.predicted + plan.temporal@.len()
            &&& before.dropped <= after.dropped
            &&& plan.temporal@.len() + after.dropped - before.dropped <= config.top_k
            &&& after.inflight.len() <= config.max_inflight
            &&& alive ==> after.inflight.contains_key(key) && after.inflight[key]
                == before.inflight[key]
            &&& after.inflight.contains_key(key) && !alive ==> exists|i: int|
                0 <= i < plan.temporal@.len() && (#[trigger] plan.temporal@[i]).target@ == key.0
                    && plan.temporal@[i].worker == key.1
            &&& !config.temporal_enabled ==> plan.temporal@.len() == 0 && after.dropped
                == before.dropped
        }),
{
    let w = arithmetic_of(*weigh);
    let config = old(manager).config;
    let before = old(manager).state@;
    let after = final(manager).state@;
    let route = CommittedRoute {
        request_id,
        session_id,
        model_id,
        worker,
        route_epoch,
        deadline_ns,
        max_prefetch_bytes,
    };
    let size = config.chunk_size as int;
    let complete = tokens@.take(tokens@.len() as int / size * size);
    let chunks = request_chunks(model_id@, complete, size, block_hashes(complete, size));
    let session = session_of(route);
    let m = prepared(config, before, chunks, session, now);
    lemma_route_chunks(model_id@, tokens@, size);
    law_expiry_keeps_state_sound(config, before, now);
    law_staging_keeps_catalog_sound(config, expired(config, before, now), chunks, session);
    law_route_targets_are_known(w, config, before, route, chunks, now);
    lemma_prepared_counters(config, before, chunks, session, now);
    let targets = route_targets(w, config, m, route, chunks, now);
    let chosen = best_worker(
        w,
        candidates@,
        targets.len() as usize,
        config.chunks_per_second,
        worker,
    );
    law_reserving_stays_within_limit(config, m, targets, chosen, started);
    let (reserved, taken) = route_outcome(config, m, targets, chosen, started);
    lemma_some_chunk(tokens@.len() as int, size);
    lemma_reserved_counts(config, m, targets, chosen, started);
    let alive = before.inflight.contains_key(key) && now.nanos <= before.inflight[key].nanos
        + config.ttl.nanos;
    assert(m.inflight.contains_key(key) == alive);
    if alive {
        assert(m.inflight.dom().contains(key));
        assert(reserved.inflight.dom().contains(key));
    } else if after.inflight.contains_key(key) {
        lemma_new_reservations_are_taken(config, m, targets, chosen, started, key);
        let i = choose|i: int| 0 <= i < taken.len() && taken[i] == key.0;
        let t = choose|t: int| 0 <= t < targets.len() && targets[t] == taken[i];
        assert(targets.contains(taken[i]));
        assert(targets[t].0 == model_id@);
        assert(plan.temporal@[i].target@ == key.0);
    }
}

proof fn lemma_new_reservations_are_taken(
    config: GlobalPrefetchConfig,
    m: ManagerModel,
    targets: Seq<ChunkId>,
    worker: WorkerWithDpRank,
    started: Instant,
    key: (ChunkId, WorkerWithDpRank),
)
    requires
        reserved_all(config, m, targets, worker, started).0.inflight.contains_key(key),
        !m.inflight.contains_key(key),
    ensures
        reserved_all(config, m, targets, worker, started).1.contains(key.0),
        key.1 == worker,
    decreases targets.len(),
{
    if targets.len() > 0 {
        let init = targets.drop_last();
        let (before, some) = reserved_all(config, m, init, worker, started);
        let (after, taken) = reserved_all(config, m, targets, worker, started);
        if before.inflight.contains_key(key) {
            lemma_new_reservations_are_taken(config, m, init, worker, started, key);
            let k = choose|k: int| 0 <= k < some.len() && some[k] == key.0;
            assert(taken[k] == key.0);
        } else {
            assert(taken[some.len() as int] == key.0);
        }
    }
}

/// If warming up is switched on, the request itself is hinted on its worker with all its
/// complete chunks, and its worker is the one whose work may be cancelled; otherwise
/// neither.
pub proof fn law_requests_are_warmed_up<F: Fn(WeightOp) -> Weight>(
    manager: &mut GlobalPrefetchManager,
    request_id: &str,
    session_id: Option<&str>,
    model_id: &str,
    tokens: &[u32],
    worker: WorkerWithDpRank,
    candidates: &[WorkerPrefetchCandidate],
    route_epoch: u64,
    deadline_ns: Option<u64>,
    max_prefetch_bytes: Option<u64>,
    now: Instant,
    started: Instant,
    weigh: &F,
    plan: RoutePlan,
)
    requires
        call_ensures(
            GlobalPrefetchManager::on_route_committed::<F>,
            (
                manager,
                request_id,
                session_id,
                model_id,
                tokens,
                worker,
                candidates,
                route_epoch,
                deadline_ns,
                max_prefetch_bytes,
                now,
                started,
                weigh,
            ),
            plan,
        ),
        0 < old(manager).config.chunk_size <= u32::MAX,
        tokens@.len() >= old(manager).config.chunk_size,
    ensures
        old(manager).config.current_request_enabled ==> {
            let size = old(manager).config.chunk_size as int;
            let hint = plan.current->0@;
            &&& plan.current is Some
            &&& hint.tokens == tokens@.take(tokens@.len() as int / size * size)
            &&& hint.request_id == Some(request_id@)
            &&& hint.model_id == Some(model_id@)
            &&& session_id matches Some(session) ==> hint.session_id == Some(session@)
            &&& session_id is None ==> hint.session_id is None
            &&& hint.task_id == Some("global-current-"@ + request_id@)
            &&& hint.worker == worker
            &&& hint.route_epoch == route_epoch
            &&& hint.deadline_ns == deadline_ns
            &&& hint.max_prefetch_bytes == max_prefetch_bytes
            &&& hint.start_chunk == Some(0u32)
            &&& hint.end_chunk is None
            &&& old(manager).config.ttl.nanos / 1_000_000 <= u64::MAX ==> hint.ttl_ms == old(
                manager,
            ).config.ttl.nanos / 1_000_000
            &&& plan.dispatch.cancel_workers@ == seq![worker]
        },
        !old(manager).config.current_request_enabled ==> plan.current is None
            && plan.dispatch.cancel_workers@.len() == 0,
{
    let size = old(manager).config.chunk_size as int;
    lemma_route_chunks(model_id@, tokens@, size);
    lemma_some_chunk(tokens@.len() as int, size);
}

/// A request without a complete chunk changes nothing, and nothing is planned for it.
pub proof fn law_short_requests_change_nothing<F: Fn(WeightOp) -> Weight>(
    manager: &mut GlobalPrefetchManager,
    request_id: &str,
    session_id: Option<&str>,
    model_id: &str,
    tokens: &[u32],
    worker: WorkerWithDpRank,
    candidates: &[WorkerPrefetchCandidate],
    route_epoch: u64,
    deadline_ns: Option<u64>,
    max_prefetch_bytes: Option<u64>,
    now: Instant,
    started: Instant,
    weigh: &F,
    plan: RoutePlan,
)
    requires
        call_ensures(
            GlobalPrefetchManager::on_route_committed::<F>,
            (
                manager,
                request_id,
                session_id,
                model_id,
                tokens,
                worker,
                candidates,
                route_epoch,
                deadline_ns,
                max_prefetch_bytes,
                now,
                started,
                weigh,
            ),
            plan,
        ),
        0 < old(manager).config.chunk_size <= u32::MAX,
        tokens@.len() < old(manager).config.chunk_size,
    ensures
        final(manager).state@ == old(manager).state@,
        plan.current is None,
        plan.temporal@.len() == 0,
        plan.dispatch.reservations@.len() == 0,
        plan.dispatch.cancel_workers@.len() == 0,
{
    let size = old(manager).config.chunk_size as int;
    lemma_route_chunks(model_id@, tokens@, size);
    assert(tokens@.len() as int / size == 0) by (nonlinear_arith)
        requires
            0 <= tokens@.len() < size,
    ;
}

/// A request that follows none of its session teaches nothing: one without a session, the
/// first of its session, one of another model, and one that comes too late. And no request
/// changes what is remembered of another session, but that it may be forgotten.
pub proof fn law_unrelated_requests_teach_nothing<F: Fn(WeightOp) -> Weight>(
    manager: &mut GlobalPrefetchManager,
    request_id: &str,
    session_id: Option<&str>,
    model_id: &str,
    tokens: &[u32],
    worker: WorkerWithDpRank,
    candidates: &[WorkerPrefetchCandidate],
    route_epoch: u64,
    deadline_ns: Option<u64>,
    max_prefetch_bytes: Option<u64>,
    now: Instant,
    started: Instant,
    weigh: &F,
    plan: RoutePlan,
    other: Seq<char>,
)
    requires
        call_ensures(
            GlobalPrefetchManager::on_route_committed::<F>,
            (
                manager,
                request_id,
                session_id,
                model_id,
                tokens,
                worker,
                candidates,
                route_epoch,
                deadline_ns,
                max_prefetch_bytes,
                now,
                started,
                weigh,
            ),
            plan,
        ),
    ensures
        ({
            let config = old(manager).config;
            let before = old(manager).state@;
            let after = final(manager).state@;
            let follows = session_id is Some && before.sessions.contains_key((session_id->0)@)
                && before.sessions[(session_id->0)@].model_id == model_id@ && now.nanos
                <= before.sessions[(session_id->0)@].last_seen.nanos + config.session_ttl.nanos;
            &&& !follows ==> after.sources == before.sources
            &&& (session_id is None || (session_id->0)@ != other) && after.sessions.contains_key(
                other,
            ) ==> before.sessions.contains_key(other) && after.sessions[other]
                == before.sessions[other]
            &&& session_id is None && before.sessions.contains_key(other) && now.nanos
                <= before.sessions[other].last_seen.nanos + config.session_ttl.nanos
                ==> after.sessions.contains_key(other)
            &&& final(manager).config == config
            &&& final(manager).dispatcher == old(manager).dispatcher
        }),
{
    let config = old(manager).config;
    let before = old(manager).state@;
    let after = final(manager).state@;
    let size = config.chunk_size as int;
    let complete = tokens@.take(tokens@.len() as int / size * size);
    let chunks = request_chunks(
        model_id@,
        complete,
        size,
        block_hashes(complete, (config.chunk_size as u32) as int),
    );
    let session = match session_id {
        Some(id) => Some(id@),
        None => None,
    };
    lemma_prepared_counters(config, before, chunks, session, now);
    let m = prepared(config, before, chunks, session, now);
    if chunks.len() > 0 && after.sessions.contains_key(other) {
        if let Some(id) = session {
            let all = m.sessions.insert(id, remembered(config, model_id@, chunk_ids(chunks), now));
            assert(after.sessions.dom().contains(other));
            assert(all.dom().contains(other));
        }
    }
}

} // verus!
