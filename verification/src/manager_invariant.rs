//! What every route leaves true of the predictor's state.

use crate::associations::{
    all_within_total, counted_targets, fresh_source, is_orderly, keeps_pace,
    law_learning_bounds_targets, law_learning_keeps_support_within_total, observed_sources,
    recorded, source_seen, support_within_total, targets_limited, SourceModel,
};
use crate::chunks::{
    differs_from, distinct, first, latest, lemma_distinct, lemma_filter_keeps_all,
    lemma_filter_membership, lemma_filter_no_duplicates, lemma_latest_push, lemma_not_listed_push,
    not_listed, ChunkId, DescriptorModel,
};
use crate::clock::{Duration, Instant};
use crate::global_config::GlobalPrefetchConfig;
use crate::global_prefetch::{
    after_reserving, can_reserve, catalogued, chunk_ids, committed, expired, is_expired, learned,
    learned_sources, predecessor, prepared, remembered, reserved_all, route_outcome, route_targets,
    session_of, session_seen, CommittedRoute, RoutePlan,
};
use crate::key_map::{keeps_youngest, kept};
use crate::manager_state::{
    catalog_trimmed, fresh_state, held_since, order_without, released_inflight, sessions_of,
    shown_by, staged_chunk, staged_chunks, ManagerModel, SessionModel,
};
use crate::prediction::{evidence, ignored_as_stable, law_predictions_are_likely, observable};
use crate::protocols::WorkerWithDpRank;
use crate::weights::{Weight, WeightOp};
use crate::worker_choice::{best_worker, WorkerPrefetchCandidate};
use vstd::prelude::*;

verus! {

/// The order lists the chunks of the catalog, each once, and sessions are only
/// counted for chunks of the catalog.
pub open spec fn catalog_consistent(m: ManagerModel) -> bool {
    &&& m.catalog_order.no_duplicates()
    &&& forall|id: ChunkId| #[trigger]
        m.catalog_order.contains(id) <==> m.catalog.contains_key(id)
    &&& forall|id: ChunkId| #[trigger]
        m.chunk_sessions.contains_key(id) ==> m.catalog.contains_key(id)
}

/// No more sessions are counted for a chunk than it takes to be stable.
pub open spec fn sessions_capped(m: ManagerModel, threshold: nat) -> bool {
    forall|id: ChunkId| #[trigger]
        m.chunk_sessions.contains_key(id) ==> m.chunk_sessions[id].finite()
            && m.chunk_sessions[id].len() <= threshold
}

/// Nothing has grown beyond its limit.
pub open spec fn within_limits(config: GlobalPrefetchConfig, m: ManagerModel) -> bool {
    &&& m.catalog_order.len() <= config.max_chunk_catalog
    &&& m.sessions.dom().finite()
    &&& m.sessions.len() <= config.max_sessions
    &&& m.sources.dom().finite()
    &&& m.sources.len() <= config.max_chunk_catalog
    &&& targets_limited(m.sources, 2 * config.top_k as nat)
    &&& m.inflight.dom().finite()
    &&& m.inflight.len() <= config.max_inflight
}

/// Every target belongs to the model of its source.
pub open spec fn sources_agree(sources: Map<ChunkId, SourceModel>) -> bool {
    forall|source: ChunkId, target: ChunkId|
        #![trigger sources.contains_key(source), sources[source].targets.contains_key(target)]
        sources.contains_key(source) && sources[source].targets.contains_key(target) ==> target.0
            == source.0
}

/// The chunks remembered for a session belong to its model.
pub open spec fn session_agrees(session: SessionModel) -> bool {
    forall|i: int|
        0 <= i < session.last_chunks.len() ==> (#[trigger] session.last_chunks[i]).0
            == session.model_id
}

pub open spec fn sessions_agree(sessions: Map<Seq<char>, SessionModel>) -> bool {
    forall|id: Seq<char>| #[trigger] sessions.contains_key(id) ==> session_agrees(sessions[id])
}

/// What holds of the state between two routes.
pub open spec fn sound(config: GlobalPrefetchConfig, m: ManagerModel) -> bool {
    &&& catalog_consistent(m)
    &&& sessions_capped(m, config.stable_session_threshold as nat)
    &&& within_limits(config, m)
    &&& sources_agree(m.sources)
    &&& sessions_agree(m.sessions)
}

/// All of the chunks belong to `model_id`.
pub open spec fn of_model(chunks: Seq<ChunkId>, model_id: Seq<char>) -> bool {
    forall|i: int| 0 <= i < chunks.len() ==> (#[trigger] chunks[i]).0 == model_id
}

/// The state of a new manager is sound.
pub proof fn law_fresh_state_is_sound(config: GlobalPrefetchConfig)
    ensures
        sound(config, fresh_state()),
{
}

/// The catalog holds as many chunks as its order lists.
pub proof fn law_catalog_is_as_long_as_its_order(m: ManagerModel)
    requires
        catalog_consistent(m),
    ensures
        m.catalog.dom().finite(),
        m.catalog.len() == m.catalog_order.len(),
{
    let listed = m.catalog_order.to_set();
    m.catalog_order.unique_seq_to_set();
    assert forall|id: ChunkId| listed.contains(id) <==> m.catalog.dom().contains(id) by {
        assert(m.catalog_order.contains(id) <==> m.catalog.contains_key(id));
    }
    assert(m.catalog.dom() =~= listed);
}

proof fn lemma_staged_chunk(
    m: ManagerModel,
    chunk: (ChunkId, DescriptorModel),
    session: Option<Seq<char>>,
    threshold: nat,
)
    requires
        catalog_consistent(m),
        sessions_capped(m, threshold),
    ensures
        catalog_consistent(staged_chunk(m, chunk, session, threshold)),
        sessions_capped(staged_chunk(m, chunk, session, threshold), threshold),
{
    let after = staged_chunk(m, chunk, session, threshold);
    let others = order_without(m.catalog_order, chunk.0);
    let keep = differs_from(chunk.0);
    lemma_filter_no_duplicates(m.catalog_order, keep);
    assert(others == m.catalog_order.filter(keep));
    assert forall|id: ChunkId| #[trigger]
        after.catalog_order.contains(id) <==> after.catalog.contains_key(id) by {
        lemma_filter_membership(m.catalog_order, keep, id);
        assert(m.catalog_order.contains(id) <==> m.catalog.contains_key(id));
        if others.contains(id) {
            let i = choose|i: int| 0 <= i < others.len() && others[i] == id;
            assert(after.catalog_order[i] == id);
        }
        assert(after.catalog_order[others.len() as int] == chunk.0);
        if after.catalog_order.contains(id) && id != chunk.0 {
            let i = choose|i: int|
                0 <= i < after.catalog_order.len() && after.catalog_order[i] == id;
            assert(others[i] == id);
        }
    }
    assert(!others.contains(chunk.0)) by {
        lemma_filter_membership(m.catalog_order, keep, chunk.0);
    }
    assert forall|id: ChunkId| #[trigger] after.chunk_sessions.contains_key(id) implies after.catalog.contains_key(
        id,
    ) && after.chunk_sessions[id].finite() && after.chunk_sessions[id].len() <= threshold by {
        if id != chunk.0 || session is None {
            assert(m.chunk_sessions.contains_key(id));
        }
    }
}

proof fn lemma_staged_chunks(
    m: ManagerModel,
    chunks: Seq<(ChunkId, DescriptorModel)>,
    session: Option<Seq<char>>,
    threshold: nat,
)
    requires
        catalog_consistent(m),
        sessions_capped(m, threshold),
    ensures
        catalog_consistent(staged_chunks(m, chunks, session, threshold)),
        sessions_capped(staged_chunks(m, chunks, session, threshold), threshold),
        staged_chunks(m, chunks, session, threshold).sessions == m.sessions,
        staged_chunks(m, chunks, session, threshold).sources == m.sources,
        staged_chunks(m, chunks, session, threshold).inflight == m.inflight,
    decreases chunks.len(),
{
    if chunks.len() > 0 {
        lemma_staged_chunks(m, chunks.drop_last(), session, threshold);
        lemma_staged_chunk(
            staged_chunks(m, chunks.drop_last(), session, threshold),
            chunks.last(),
            session,
            threshold,
        );
    }
}

proof fn lemma_catalog_trimmed(m: ManagerModel, limit: nat, threshold: nat)
    requires
        catalog_consistent(m),
        sessions_capped(m, threshold),
    ensures
        catalog_consistent(catalog_trimmed(m, limit)),
        sessions_capped(catalog_trimmed(m, limit), threshold),
        catalog_trimmed(m, limit).catalog_order.len() <= limit,
{
    if m.catalog_order.len() > limit {
        let order = m.catalog_order;
        let excess = order.len() - limit;
        let gone = order.take(excess);
        let left = order.skip(excess);
        let after = catalog_trimmed(m, limit);
        assert(left.no_duplicates()) by {
            assert forall|i: int, j: int| 0 <= i < left.len() && 0 <= j < left.len() && i
                != j implies left[i] != left[j] by {
                assert(order[i + excess] != order[j + excess]);
            }
        }
        assert forall|id: ChunkId| #[trigger] left.contains(id) <==> after.catalog.contains_key(
            id,
        ) by {
            assert(order.contains(id) <==> m.catalog.contains_key(id));
            if left.contains(id) {
                let i = choose|i: int| 0 <= i < left.len() && left[i] == id;
                assert(order[i + excess] == id);
                if gone.contains(id) {
                    let j = choose|j: int| 0 <= j < gone.len() && gone[j] == id;
                    assert(order[j] == id);
                }
            }
            if order.contains(id) && !gone.contains(id) {
                let i = choose|i: int| 0 <= i < order.len() && order[i] == id;
                if i < excess {
                    assert(gone[i] == id);
                }
                assert(left[i - excess] == id);
            }
        }
        assert forall|id: ChunkId| #[trigger] after.chunk_sessions.contains_key(id) implies after.catalog.contains_key(
            id,
        ) by {
            assert(m.chunk_sessions.contains_key(id));
        }
        assert forall|id: ChunkId| #[trigger] after.chunk_sessions.contains_key(id) implies after.chunk_sessions[id].finite()
            && after.chunk_sessions[id].len() <= threshold by {
            assert(m.chunk_sessions.contains_key(id));
        }
    }
}

pub proof fn lemma_staged_order(
    m: ManagerModel,
    chunks: Seq<(ChunkId, DescriptorModel)>,
    session: Option<Seq<char>>,
    threshold: nat,
)
    ensures
        staged_chunks(m, chunks, session, threshold).catalog_order == m.catalog_order.filter(
            not_listed(chunk_ids(chunks)),
        ) + latest(chunk_ids(chunks)),
    decreases chunks.len(),
{
    let listed = chunk_ids(chunks);
    if chunks.len() > 0 {
        let init = chunks.drop_last();
        let id = chunks.last().0;
        let others = m.catalog_order.filter(not_listed(chunk_ids(init)));
        lemma_staged_order(m, init, session, threshold);
        assert(listed =~= chunk_ids(init).push(id));
        lemma_latest_push(chunk_ids(init), id);
        lemma_not_listed_push(m.catalog_order, chunk_ids(init), id);
        Seq::filter_distributes_over_add(others, latest(chunk_ids(init)), differs_from(id));
    } else {
        assert(listed.reverse() =~= listed);
        assert(latest(listed) =~= Seq::<ChunkId>::empty());
        lemma_filter_keeps_all(m.catalog_order, not_listed(listed));
        assert(m.catalog_order + latest(listed) =~= m.catalog_order);
    }
}

/// The last items of a sequence, up to `limit`.
pub open spec fn newest<A>(s: Seq<A>, limit: nat) -> Seq<A> {
    if s.len() <= limit {
        s
    } else {
        s.skip(s.len() - limit)
    }
}

/// The chunks of a request become the most recent ones, in order of their last occurrence;
/// the others keep their order. What the catalog cannot hold is forgotten from the front.
pub proof fn law_staging_moves_chunks_to_the_end(
    config: GlobalPrefetchConfig,
    m: ManagerModel,
    chunks: Seq<(ChunkId, DescriptorModel)>,
    session: Option<Seq<char>>,
)
    ensures
        catalogued(config, m, chunks, session).catalog_order == newest(
            m.catalog_order.filter(not_listed(chunk_ids(chunks))) + latest(chunk_ids(chunks)),
            config.max_chunk_catalog as nat,
        ),
{
    lemma_staged_order(
        m,
        chunks,
        if config.filter_stable_chunks {
            session
        } else {
            None
        },
        config.stable_session_threshold as nat,
    );
}

/// Entering chunks keeps the catalog and its order in step, keeps the session counts
/// capped, and leaves no more chunks than the catalog may hold: the most recent ones.
pub proof fn law_staging_keeps_catalog_sound(
    config: GlobalPrefetchConfig,
    m: ManagerModel,
    chunks: Seq<(ChunkId, DescriptorModel)>,
    session: Option<Seq<char>>,
)
    requires
        catalog_consistent(m),
        sessions_capped(m, config.stable_session_threshold as nat),
    ensures
        ({
            let after = catalogued(config, m, chunks, session);
            &&& catalog_consistent(after)
            &&& sessions_capped(after, config.stable_session_threshold as nat)
            &&& after.catalog_order.len() <= config.max_chunk_catalog
            &&& after.catalog.len() <= config.max_chunk_catalog
            &&& after.catalog_order == newest(
                m.catalog_order.filter(not_listed(chunk_ids(chunks))) + latest(chunk_ids(chunks)),
                config.max_chunk_catalog as nat,
            )
            &&& after.sessions == m.sessions
            &&& after.sources == m.sources
            &&& after.inflight == m.inflight
        }),
{
    let counted = if config.filter_stable_chunks {
        session
    } else {
        None
    };
    let threshold = config.stable_session_threshold as nat;
    lemma_staged_chunks(m, chunks, counted, threshold);
    lemma_catalog_trimmed(
        staged_chunks(m, chunks, counted, threshold),
        config.max_chunk_catalog as nat,
        threshold,
    );
    law_catalog_is_as_long_as_its_order(catalogued(config, m, chunks, session));
    law_staging_moves_chunks_to_the_end(config, m, chunks, session);
}

/// A session that shows a chunk again is not counted again.
pub proof fn law_session_counts_once(
    chunk_sessions: Map<ChunkId, Set<Seq<char>>>,
    chunk: ChunkId,
    session: Seq<char>,
    threshold: nat,
)
    requires
        sessions_of(chunk_sessions, chunk).contains(session),
    ensures
        shown_by(chunk_sessions, chunk, session, threshold) == chunk_sessions,
{
    let seen = sessions_of(chunk_sessions, chunk);
    assert(seen.insert(session) =~= seen);
    assert(shown_by(chunk_sessions, chunk, session, threshold) =~= chunk_sessions);
}

proof fn lemma_kept_is_smaller<A, B>(map: Map<A, B>, keep: spec_fn(A, B) -> bool)
    requires
        map.dom().finite(),
    ensures
        kept(map, keep).dom().finite(),
        kept(map, keep).len() <= map.len(),
        kept(map, keep).submap_of(map),
{
    assert(kept(map, keep).dom().subset_of(map.dom()));
    vstd::set_lib::lemma_len_subset(kept(map, keep).dom(), map.dom());
}

/// Expiry keeps a sound state sound.
pub proof fn law_expiry_keeps_state_sound(
    config: GlobalPrefetchConfig,
    m: ManagerModel,
    now: Instant,
)
    requires
        sound(config, m),
    ensures
        sound(config, expired(config, m, now)),
{
    let after = expired(config, m, now);
    lemma_kept_is_smaller(
        m.sessions,
        |id: Seq<char>, session: SessionModel|
            !is_expired(session.last_seen, now, config.session_ttl),
    );
    lemma_kept_is_smaller(
        m.inflight,
        |key: (ChunkId, WorkerWithDpRank), started: Instant|
            !is_expired(started, now, config.ttl),
    );
    assert forall|id: Seq<char>| #[trigger] after.sessions.contains_key(id) implies session_agrees(
        after.sessions[id],
    ) by {
        assert(m.sessions.contains_key(id));
    }
}

/// Reserving keeps the number of prefetches under way within its limit, and changes
/// nothing but the prefetches and the counters.
pub proof fn law_reserving_stays_within_limit(
    config: GlobalPrefetchConfig,
    m: ManagerModel,
    targets: Seq<ChunkId>,
    worker: WorkerWithDpRank,
    started: Instant,
)
    requires
        m.inflight.dom().finite(),
        m.inflight.len() <= config.max_inflight,
    ensures
        ({
            let (after, taken) = reserved_all(config, m, targets, worker, started);
            &&& after.inflight.dom().finite()
            &&& after.inflight.len() <= config.max_inflight
            &&& after == (ManagerModel {
                inflight: after.inflight,
                scheduled: after.scheduled,
                predicted: after.predicted,
                dropped: after.dropped,
                ..m
            })
            &&& forall|i: int|
                0 <= i < taken.len() ==> held_since(
                    after.inflight,
                    #[trigger] taken[i],
                    worker,
                    started,
                ) && targets.contains(taken[i])
            &&& m.inflight.submap_of(after.inflight)
            &&& after.inflight.len() == m.inflight.len() + taken.len()
        }),
    decreases targets.len(),
{
    if targets.len() > 0 {
        law_reserving_stays_within_limit(config, m, targets.drop_last(), worker, started);
        let (init, taken) = reserved_all(config, m, targets.drop_last(), worker, started);
        let (after, all) = reserved_all(config, m, targets, worker, started);
        assert(targets[targets.len() - 1] == targets.last());
        assert forall|i: int| 0 <= i < all.len() implies held_since(
            after.inflight,
            #[trigger] all[i],
            worker,
            started,
        ) && targets.contains(all[i]) by {
            if i < taken.len() {
                assert(all[i] == taken[i]);
                assert(held_since(init.inflight, taken[i], worker, started));
                let j = choose|j: int|
                    0 <= j < targets.drop_last().len() && targets.drop_last()[j] == taken[i];
                assert(targets[j] == taken[i]);
            }
        }
        assert(m.inflight.submap_of(after.inflight)) by {
            assert(init.inflight.submap_of(after.inflight));
            assert forall|k: (ChunkId, WorkerWithDpRank)| #[trigger]
                m.inflight.dom().contains(k) implies after.inflight.dom().contains(k)
                && m.inflight[k] == after.inflight[k] by {
                assert(init.inflight.dom().contains(k));
            }
        }
    }
}

proof fn lemma_counted_targets_of_model(
    w: spec_fn(WeightOp) -> Weight,
    source: SourceModel,
    seen: Seq<ChunkId>,
    now: Instant,
    half_life: Duration,
    target: ChunkId,
)
    requires
        counted_targets(w, source.targets, seen, now, half_life).contains_key(target),
    ensures
        source.targets.contains_key(target) || seen.contains(target),
    decreases seen.len(),
{
    if seen.len() > 0 {
        assert(seen[seen.len() - 1] == seen.last());
        if target != seen.last() {
            lemma_counted_targets_of_model(w, source, seen.drop_last(), now, half_life, target);
            if seen.drop_last().contains(target) {
                let i = choose|i: int|
                    0 <= i < seen.drop_last().len() && seen.drop_last()[i] == target;
                assert(seen[i] == target);
            }
        }
    }
}

proof fn lemma_observed_sources_agree(
    w: spec_fn(WeightOp) -> Weight,
    sources: Map<ChunkId, SourceModel>,
    previous: Seq<ChunkId>,
    current: Seq<ChunkId>,
    top_k: nat,
    now: Instant,
    half_life: Duration,
    model_id: Seq<char>,
)
    requires
        sources_agree(sources),
        of_model(previous, model_id),
        of_model(current, model_id),
    ensures
        sources_agree(observed_sources(w, sources, previous, current, top_k, now, half_life)),
    decreases previous.len(),
{
    if previous.len() > 0 {
        let init = observed_sources(
            w,
            sources,
            previous.drop_last(),
            current,
            top_k,
            now,
            half_life,
        );
        let id = previous.last();
        assert(previous[previous.len() - 1] == id);
        assert(of_model(previous.drop_last(), model_id)) by {
            assert forall|i: int| 0 <= i < previous.drop_last().len() implies (
            #[trigger] previous.drop_last()[i]).0 == model_id by {
                assert(previous[i].0 == model_id);
            }
        }
        lemma_observed_sources_agree(
            w,
            sources,
            previous.drop_last(),
            current,
            top_k,
            now,
            half_life,
            model_id,
        );
        let after = observed_sources(w, sources, previous, current, top_k, now, half_life);
        let seen = current.filter(differs_from(id));
        assert forall|source: ChunkId, target: ChunkId|
            #![trigger after.contains_key(source), after[source].targets.contains_key(target)]
            after.contains_key(source) && after[source].targets.contains_key(target) implies target.0
            == source.0 by {
            if source != id || seen.len() == 0 {
                assert(init.contains_key(source) && init[source].targets.contains_key(target));
            } else {
                let stats = if init.contains_key(id) {
                    init[id]
                } else {
                    fresh_source(now)
                };
                assert(recorded(w, stats, seen, now, half_life).targets.contains_key(target));
                lemma_counted_targets_of_model(w, stats, seen, now, half_life, target);
                if seen.contains(target) {
                    lemma_filter_membership(current, differs_from(id), target);
                    let i = choose|i: int| 0 <= i < current.len() && current[i] == target;
                    assert(current[i].0 == model_id);
                } else {
                    assert(init.contains_key(id) && init[id].targets.contains_key(target));
                }
            }
        }
    }
}

proof fn lemma_observable_of_model(
    config: GlobalPrefetchConfig,
    m: ManagerModel,
    chunks: Seq<ChunkId>,
    model_id: Seq<char>,
)
    requires
        of_model(chunks, model_id),
    ensures
        of_model(observable(config, m, chunks), model_id),
        of_model(
            distinct(
                first(observable(config, m, chunks), config.max_observation_chunks as int),
            ),
            model_id,
        ),
{
    let limit = config.max_observation_chunks as int;
    let some = observable(config, m, chunks);
    assert forall|i: int| 0 <= i < some.len() implies (#[trigger] some[i]).0 == model_id by {
        assert(some.contains(some[i]));
        lemma_filter_membership(
            first(chunks, limit),
            |chunk: ChunkId| !ignored_as_stable(config, m, chunk),
            some[i],
        );
        let j = choose|j: int|
            0 <= j < first(chunks, limit).len() && first(chunks, limit)[j] == some[i];
        assert(chunks[j] == some[i]);
    }
    lemma_first_distinct_of_model(some, limit, model_id);
}

proof fn lemma_learning_keeps_agreement(
    w: spec_fn(WeightOp) -> Weight,
    config: GlobalPrefetchConfig,
    m: ManagerModel,
    session: Option<Seq<char>>,
    model_id: Seq<char>,
    current: Seq<ChunkId>,
    now: Instant,
    sources: Map<ChunkId, SourceModel>,
    sessions: Map<Seq<char>, SessionModel>,
)
    requires
        sources_agree(m.sources),
        sessions_agree(m.sessions),
        of_model(current, model_id),
        learned(w, config, m, session, model_id, current, now, sources, sessions),
    ensures
        sources_agree(sources),
        sessions_agree(sessions),
{
    match predecessor(config, m, session, model_id, now) {
        Some(previous) => {
            let all = learned_sources(w, config, m, previous, current, now);
            assert(session_agrees(previous));
            assert(of_model(previous.last_chunks, model_id));
            lemma_observable_of_model(config, m, previous.last_chunks, model_id);
            lemma_observable_of_model(config, m, current, model_id);
            lemma_observed_sources_agree(
                w,
                m.sources,
                distinct(
                    first(
                        observable(config, m, previous.last_chunks),
                        config.max_observation_chunks as int,
                    ),
                ),
                distinct(
                    first(observable(config, m, current), config.max_observation_chunks as int),
                ),
                config.top_k as nat,
                now,
                config.half_life,
                model_id,
            );
            assert forall|source: ChunkId, target: ChunkId|
                #![trigger sources.contains_key(source), sources[source].targets.contains_key(target)]
                sources.contains_key(source) && sources[source].targets.contains_key(
                    target,
                ) implies target.0 == source.0 by {
                assert(sources.dom().contains(source) && all.dom().contains(source));
                assert(all[source] == sources[source]);
                assert(all.contains_key(source) && all[source].targets.contains_key(target));
            }
        },
        None => {},
    }
    match session {
        Some(id) => {
            let last = remembered(config, model_id, current, now);
            let all = m.sessions.insert(id, last);
            assert(session_agrees(last));
            assert forall|k: Seq<char>| #[trigger] sessions.contains_key(k) implies session_agrees(
                sessions[k],
            ) by {
                assert(sessions.dom().contains(k) && all.dom().contains(k));
                assert(all[k] == sessions[k]);
                if k != id {
                    assert(m.sessions.contains_key(k));
                }
            }
        },
        None => {},
    }
}

proof fn lemma_learning_keeps_targets_limited(
    w: spec_fn(WeightOp) -> Weight,
    config: GlobalPrefetchConfig,
    m: ManagerModel,
    session: Option<Seq<char>>,
    model_id: Seq<char>,
    current: Seq<ChunkId>,
    now: Instant,
    sources: Map<ChunkId, SourceModel>,
    sessions: Map<Seq<char>, SessionModel>,
)
    requires
        targets_limited(m.sources, 2 * config.top_k as nat),
        learned(w, config, m, session, model_id, current, now, sources, sessions),
    ensures
        targets_limited(sources, 2 * config.top_k as nat),
{
    match predecessor(config, m, session, model_id, now) {
        Some(previous) => {
            let limit = config.max_observation_chunks as int;
            let all = learned_sources(w, config, m, previous, current, now);
            law_learning_bounds_targets(
                w,
                m.sources,
                distinct(first(observable(config, m, previous.last_chunks), limit)),
                distinct(first(observable(config, m, current), limit)),
                config.top_k as nat,
                now,
                config.half_life,
            );
            assert forall|id: ChunkId| #[trigger]
                sources.contains_key(id) implies sources[id].targets.dom().finite()
                && sources[id].targets.len() <= 2 * config.top_k by {
                assert(sources.dom().contains(id) && all.dom().contains(id));
                assert(all[id] == sources[id]);
                assert(all.contains_key(id));
            }
        },
        None => {},
    }
}

proof fn lemma_first_distinct_of_model(chunks: Seq<ChunkId>, limit: int, model_id: Seq<char>)
    requires
        0 <= limit,
        of_model(chunks, model_id),
    ensures
        of_model(distinct(first(chunks, limit)), model_id),
{
    let few = first(chunks, limit);
    lemma_distinct(few);
    assert forall|i: int| 0 <= i < distinct(few).len() implies (#[trigger] distinct(few)[i]).0
        == model_id by {
        assert(distinct(few).contains(distinct(few)[i]));
        let j = choose|j: int| 0 <= j < few.len() && few[j] == distinct(few)[i];
        assert(few[j] == chunks[j]);
    }
}

/// Learning from two requests that used the same model keeps a sound state sound.
pub proof fn law_transitions_keep_state_sound(
    w: spec_fn(WeightOp) -> Weight,
    config: GlobalPrefetchConfig,
    m: ManagerModel,
    previous: Seq<ChunkId>,
    current: Seq<ChunkId>,
    now: Instant,
    model_id: Seq<char>,
    sources: Map<ChunkId, SourceModel>,
)
    requires
        sound(config, m),
        of_model(previous, model_id),
        of_model(current, model_id),
        keeps_youngest(
            observed_sources(
                w,
                m.sources,
                distinct(first(previous, config.max_observation_chunks as int)),
                distinct(first(current, config.max_observation_chunks as int)),
                config.top_k as nat,
                now,
                config.half_life,
            ),
            source_seen(),
            config.max_chunk_catalog as nat,
            sources,
        ),
    ensures
        sound(config, ManagerModel { sources, ..m }),
{
    let limit = config.max_observation_chunks as int;
    let left = distinct(first(previous, limit));
    let entered = distinct(first(current, limit));
    let top_k = config.top_k as nat;
    let all = observed_sources(w, m.sources, left, entered, top_k, now, config.half_life);
    lemma_first_distinct_of_model(previous, limit, model_id);
    lemma_first_distinct_of_model(current, limit, model_id);
    lemma_observed_sources_agree(
        w,
        m.sources,
        left,
        entered,
        top_k,
        now,
        config.half_life,
        model_id,
    );
    law_learning_bounds_targets(w, m.sources, left, entered, top_k, now, config.half_life);
    assert forall|id: ChunkId| #[trigger] sources.contains_key(id) implies all.contains_key(id)
        && all[id] == sources[id] by {
        assert(sources.dom().contains(id) && all.dom().contains(id));
    }
    assert forall|source: ChunkId, target: ChunkId|
        #![trigger sources.contains_key(source), sources[source].targets.contains_key(target)]
        sources.contains_key(source) && sources[source].targets.contains_key(
            target,
        ) implies target.0 == source.0 by {
        assert(all.contains_key(source) && all[source].targets.contains_key(target));
    }
}

/// Forgetting the oldest sessions keeps a sound state sound.
pub proof fn law_eviction_keeps_state_sound(
    config: GlobalPrefetchConfig,
    m: ManagerModel,
    sessions: Map<Seq<char>, SessionModel>,
)
    requires
        sound(config, m),
        keeps_youngest(m.sessions, session_seen(), config.max_sessions as nat, sessions),
    ensures
        sound(config, ManagerModel { sessions, ..m }),
{
    assert forall|id: Seq<char>| #[trigger] sessions.contains_key(id) implies session_agrees(
        sessions[id],
    ) by {
        assert(sessions.dom().contains(id) && m.sessions.dom().contains(id));
        assert(m.sessions[id] == sessions[id]);
        assert(m.sessions.contains_key(id));
    }
}

/// Every route keeps a sound state sound: the catalog and its order stay in step,
/// and nothing grows beyond its limit.
pub proof fn law_routes_keep_state_sound(
    w: spec_fn(WeightOp) -> Weight,
    config: GlobalPrefetchConfig,
    before: ManagerModel,
    route: CommittedRoute,
    tokens: Seq<u32>,
    chunks: Seq<(ChunkId, DescriptorModel)>,
    candidates: Seq<WorkerPrefetchCandidate>,
    now: Instant,
    started: Instant,
    after: ManagerModel,
    plan: RoutePlan,
)
    requires
        sound(config, before),
        of_model(chunk_ids(chunks), route.model_id@),
        committed(
            w,
            config,
            before,
            route,
            tokens,
            chunks,
            candidates,
            now,
            started,
            after,
            plan,
        ),
    ensures
        sound(config, after),
{
    let session = session_of(route);
    law_expiry_keeps_state_sound(config, before, now);
    law_staging_keeps_catalog_sound(config, expired(config, before, now), chunks, session);
    let m = prepared(config, before, chunks, session, now);
    let targets = route_targets(w, config, m, route, chunks, now);
    let worker = best_worker(
        w,
        candidates,
        targets.len() as usize,
        config.chunks_per_second,
        route.worker,
    );
    law_reserving_stays_within_limit(config, m, targets, worker, started);
    lemma_learning_keeps_agreement(
        w,
        config,
        m,
        session,
        route.model_id@,
        chunk_ids(chunks),
        now,
        after.sources,
        after.sessions,
    );
    lemma_learning_keeps_targets_limited(
        w,
        config,
        m,
        session,
        route.model_id@,
        chunk_ids(chunks),
        now,
        after.sources,
        after.sessions,
    );
    let (reserved, taken) = route_outcome(config, m, targets, worker, started);
    assert(reserved.catalog == m.catalog);
    assert(reserved.catalog_order == m.catalog_order);
    assert(reserved.chunk_sessions == m.chunk_sessions);
    assert(catalog_consistent(after));
}

/// The chunks predicted for a route belong to its model and stand in the catalog. There
/// are no more of them than `top_k`, nor than the catalog may hold.
pub proof fn law_route_targets_are_known(
    w: spec_fn(WeightOp) -> Weight,
    config: GlobalPrefetchConfig,
    before: ManagerModel,
    route: CommittedRoute,
    chunks: Seq<(ChunkId, DescriptorModel)>,
    now: Instant,
)
    requires
        sound(config, before),
    ensures
        ({
            let m = prepared(config, before, chunks, session_of(route), now);
            let targets = route_targets(w, config, m, route, chunks, now);
            &&& of_model(targets, route.model_id@)
            &&& targets.no_duplicates()
            &&& forall|i: int|
                0 <= i < targets.len() ==> m.catalog.contains_key(#[trigger] targets[i])
            &&& targets.len() <= config.top_k
            &&& targets.len() <= config.max_chunk_catalog
        }),
{
    let session = session_of(route);
    law_expiry_keeps_state_sound(config, before, now);
    law_staging_keeps_catalog_sound(config, expired(config, before, now), chunks, session);
    let m = prepared(config, before, chunks, session, now);
    let targets = route_targets(w, config, m, route, chunks, now);
    match predecessor(config, m, session, route.model_id@, now) {
        Some(previous) => {
            let current = chunk_ids(chunks).to_set();
            let some = observable(config, m, previous.last_chunks);
            assert(session_agrees(previous));
            lemma_observable_of_model(config, m, previous.last_chunks, route.model_id@);
            law_predictions_are_likely(w, config, m, some, current, now);
            assert forall|i: int| 0 <= i < targets.len() implies (#[trigger] targets[i]).0
                == route.model_id@ by {
                let j = choose|j: int|
                    0 <= j < some.len() && evidence(
                        w,
                        config,
                        m,
                        current,
                        #[trigger] some[j],
                        now,
                    ).contains_key(targets[i]);
                assert(m.sources.contains_key(some[j]) && m.sources[some[j]].targets.contains_key(
                    targets[i],
                ));
            }
            targets.unique_seq_to_set();
            law_catalog_is_as_long_as_its_order(m);
            assert forall|id: ChunkId| targets.to_set().contains(
                id,
            ) implies m.catalog.dom().contains(id) by {
                assert(targets.contains(id));
                let i = choose|i: int| 0 <= i < targets.len() && targets[i] == id;
                assert(m.catalog.contains_key(targets[i]));
            }
            vstd::set_lib::lemma_len_subset(targets.to_set(), m.catalog.dom());
        },
        None => {},
    }
}

/// The most prefetches that a route can start, and so the most that its counters grow by.
pub open spec fn prediction_limit(config: GlobalPrefetchConfig, m: ManagerModel) -> nat {
    if sound(config, m) && config.max_chunk_catalog < config.top_k {
        config.max_chunk_catalog as nat
    } else {
        config.top_k as nat
    }
}

/// Each hint of the plan names the reservation that it holds, so that a failure of
/// the hint frees exactly that one.
pub open spec fn hints_hold_reservations(
    inflight: Map<(ChunkId, WorkerWithDpRank), Instant>,
    plan: RoutePlan,
) -> bool {
    forall|i: int|
        0 <= i < plan.temporal@.len() ==> held_since(
            inflight,
            (#[trigger] plan.temporal@[i]).target@,
            plan.temporal@[i].worker,
            plan.temporal@[i].started,
        )
}

/// The hints of a route hold reservations.
pub proof fn law_hints_hold_reservations(
    w: spec_fn(WeightOp) -> Weight,
    config: GlobalPrefetchConfig,
    before: ManagerModel,
    route: CommittedRoute,
    tokens: Seq<u32>,
    chunks: Seq<(ChunkId, DescriptorModel)>,
    candidates: Seq<WorkerPrefetchCandidate>,
    now: Instant,
    started: Instant,
    after: ManagerModel,
    plan: RoutePlan,
)
    requires
        sound(config, before),
        committed(
            w,
            config,
            before,
            route,
            tokens,
            chunks,
            candidates,
            now,
            started,
            after,
            plan,
        ),
    ensures
        hints_hold_reservations(after.inflight, plan),
{
    let session = session_of(route);
    law_expiry_keeps_state_sound(config, before, now);
    law_staging_keeps_catalog_sound(config, expired(config, before, now), chunks, session);
    law_route_targets_are_known(w, config, before, route, chunks, now);
    let m = prepared(config, before, chunks, session, now);
    let targets = route_targets(w, config, m, route, chunks, now);
    let worker = best_worker(
        w,
        candidates,
        targets.len() as usize,
        config.chunks_per_second,
        route.worker,
    );
    law_reserving_stays_within_limit(config, m, targets, worker, started);
    let (reserved, taken) = route_outcome(config, m, targets, worker, started);
    assert forall|i: int| 0 <= i < plan.temporal@.len() implies held_since(
        after.inflight,
        (#[trigger] plan.temporal@[i]).target@,
        plan.temporal@[i].worker,
        plan.temporal@[i].started,
    ) by {
        assert(held_since(reserved.inflight, taken[i], worker, started));
        assert(targets.contains(taken[i]));
        let j = choose|j: int| 0 <= j < targets.len() && targets[j] == taken[i];
        assert(targets[j].0 == route.model_id@);
        assert(plan.temporal@[i].target@ == taken[i]);
    }
}

/// A prefetch that failed can be started again at once; a late report about an
/// earlier attempt does not free a newer one.
pub proof fn law_release_allows_retry(
    config: GlobalPrefetchConfig,
    m: ManagerModel,
    target: ChunkId,
    worker: WorkerWithDpRank,
    started: Instant,
    restarted: Instant,
)
    requires
        m.inflight.dom().finite(),
        m.inflight.len() <= config.max_inflight,
        held_since(m.inflight, target, worker, started),
    ensures
        ({
            let freed = ManagerModel {
                inflight: released_inflight(m.inflight, target, worker, started),
                ..m
            };
            let again = after_reserving(config, freed, target, worker, restarted);
            &&& !freed.inflight.contains_key((target, worker))
            &&& released_inflight(freed.inflight, target, worker, started) == freed.inflight
            &&& can_reserve(config, freed, target, worker)
            &&& held_since(again.inflight, target, worker, restarted)
            &&& restarted != started ==> released_inflight(
                again.inflight,
                target,
                worker,
                started,
            ) == again.inflight
            &&& again.inflight == m.inflight.insert((target, worker), restarted)
        }),
{
    let freed = m.inflight.remove((target, worker));
    m.inflight.lemma_remove_key_len((target, worker));
    assert(freed.insert((target, worker), restarted) =~= m.inflight.insert(
        (target, worker),
        restarted,
    ));
}

/// Routes never make a target look more likely than certain: when no target had more
/// support than its source had transitions, that is still so afterwards.
pub proof fn law_routes_keep_support_within_total(
    w: spec_fn(WeightOp) -> Weight,
    config: GlobalPrefetchConfig,
    before: ManagerModel,
    route: CommittedRoute,
    tokens: Seq<u32>,
    chunks: Seq<(ChunkId, DescriptorModel)>,
    candidates: Seq<WorkerPrefetchCandidate>,
    now: Instant,
    started: Instant,
    after: ManagerModel,
    plan: RoutePlan,
    until: Instant,
)
    requires
        is_orderly(w, config.half_life),
        sound(config, before),
        all_within_total(w, before.sources, now, config.half_life, until),
        forall|id: ChunkId| #[trigger]
            before.sources.contains_key(id) ==> keeps_pace(
                w,
                before.sources[id],
                now,
                config.half_life,
                until,
            ),
        committed(
            w,
            config,
            before,
            route,
            tokens,
            chunks,
            candidates,
            now,
            started,
            after,
            plan,
        ),
    ensures
        all_within_total(w, after.sources, now, config.half_life, until),
{
    let session = session_of(route);
    law_expiry_keeps_state_sound(config, before, now);
    law_staging_keeps_catalog_sound(config, expired(config, before, now), chunks, session);
    let m = prepared(config, before, chunks, session, now);
    assert(m.sources == before.sources);
    match predecessor(config, m, session, route.model_id@, now) {
        Some(previous) => {
            let limit = config.max_observation_chunks as int;
            let left = distinct(first(observable(config, m, previous.last_chunks), limit));
            let entered = distinct(first(observable(config, m, chunk_ids(chunks)), limit));
            lemma_distinct(first(observable(config, m, chunk_ids(chunks)), limit));
            lemma_distinct(first(observable(config, m, previous.last_chunks), limit));
            law_learning_keeps_support_within_total(
                w,
                m.sources,
                left,
                entered,
                config.top_k as nat,
                now,
                config.half_life,
                until,
            );
            let all = learned_sources(w, config, m, previous, chunk_ids(chunks), now);
            assert forall|id: ChunkId| #[trigger] after.sources.contains_key(id) implies support_within_total(
                w,
                after.sources[id],
                config.half_life,
                until,
            ) && after.sources[id].last_seen.nanos <= now.nanos by {
                assert(after.sources.dom().contains(id) && all.dom().contains(id));
                assert(all[id] == after.sources[id]);
                assert(all.contains_key(id));
            }
        },
        None => {},
    }
}

} // verus!
