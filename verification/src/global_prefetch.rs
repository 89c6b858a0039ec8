//! The router-owned predictor of chunks that a session will need next.
//!
//! The manager holds no cache data. It learns which chunks follow which in
//! consecutive requests of a session, and plans hints to prefetch the likely
//! successors on some worker.

use crate::associations::{observe_transition, observed_sources, source_seen, SourceModel};
use crate::chunks::{
    chunk_descriptors, clone_key, clone_keys, copy_tokens, described, distinct, first, ids,
    request_chunks, ChunkDescriptor, ChunkId, ChunkKey, DescriptorModel,
};
use crate::clock::{elapsed, Duration, Instant};
use crate::environment::{bool_setting, Environment};
use crate::global_config::{FractionalSettings, GlobalPrefetchConfig};
use crate::key_map::{keeps_youngest, kept, KeySet};
use crate::manager_invariant::{
    hints_hold_reservations, law_eviction_keeps_state_sound, law_expiry_keeps_state_sound,
    law_fresh_state_is_sound, law_hints_hold_reservations, law_route_targets_are_known,
    law_routes_keep_state_sound, law_staging_keeps_catalog_sound, law_transitions_keep_state_sound,
    of_model, prediction_limit, sound,
};
use crate::manager_state::{
    catalog_trimmed, fresh_state, held_since, release_inflight_locked, released_inflight,
    stage_chunks, staged_chunks, ManagerModel, ManagerState, SessionModel, SessionState,
};
use crate::prediction::{
    best_candidates, best_scores, ignored_as_stable, ignores_as_stable, observable,
    observable_chunks, predict,
};
use crate::prefetch_hint::{HintModel, PrefetchHint, PrefetchHintDispatcher};
use crate::protocols::{block_hashes, LocalBlockHash, WorkerWithDpRank};
use crate::ranking::is_top;
use crate::text::{hex, joined, owned, push_hex, same_text};
use crate::weights::{arithmetic_of, is_arithmetic, Weight, WeightOp};
use crate::worker_choice::{best_worker, select_prefetch_worker, WorkerPrefetchCandidate};
use std::sync::Arc;
use vstd::prelude::*;

verus! {

/// Chunks that a worker is about to prefetch.
#[derive(Debug)]
pub struct PrefetchReservation {
    pub worker: WorkerWithDpRank,
    pub block_hashes: Vec<LocalBlockHash>,
}

/// The decisions of one route.
#[derive(Debug)]
pub struct GlobalPrefetchDispatch {
    /// The workers whose warm-up work may be cancelled when the request is done.
    /// Predicted chunks are not among it: they outlive the request.
    pub cancel_workers: Vec<WorkerWithDpRank>,
    pub reservations: Vec<PrefetchReservation>,
}

impl Default for GlobalPrefetchDispatch {
    fn default() -> (dispatch: Self)
        ensures
            dispatch.cancel_workers@.len() == 0,
            dispatch.reservations@.len() == 0,
    {
        GlobalPrefetchDispatch { cancel_workers: Vec::new(), reservations: Vec::new() }
    }
}

/// A hint for a predicted chunk, and the reservation that it holds.
#[derive(Debug)]
pub struct TemporalHint {
    pub hint: PrefetchHint,
    pub target: ChunkKey,
    pub worker: WorkerWithDpRank,
    pub started: Instant,
}

/// What is to be done for one route, in this order: install the reservations,
/// send the hint for the current request, send the hints for predicted chunks.
#[derive(Debug)]
pub struct RoutePlan {
    pub dispatch: GlobalPrefetchDispatch,
    pub current: Option<PrefetchHint>,
    pub temporal: Vec<TemporalHint>,
}

/// A request whose worker has been chosen.
#[derive(Debug, Clone, Copy)]
pub struct CommittedRoute<'a> {
    pub request_id: &'a str,
    pub session_id: Option<&'a str>,
    pub model_id: &'a str,
    pub worker: WorkerWithDpRank,
    pub route_epoch: u64,
    pub deadline_ns: Option<u64>,
    pub max_prefetch_bytes: Option<u64>,
}

/// The session that a route belongs to.
pub open spec fn session_of(route: CommittedRoute) -> Option<Seq<char>> {
    match route.session_id {
        Some(session) => Some(session@),
        None => None,
    }
}

pub open spec fn chunk_ids(chunks: Seq<(ChunkId, DescriptorModel)>) -> Seq<ChunkId> {
    Seq::new(chunks.len(), |i: int| chunks[i].0)
}

/// Not seen for longer than `ttl`.
pub open spec fn is_expired(seen: Instant, now: Instant, ttl: Duration) -> bool {
    elapsed(now, seen) > ttl.nanos
}

/// The state without sessions and prefetches that have expired.
pub open spec fn expired(
    config: GlobalPrefetchConfig,
    m: ManagerModel,
    now: Instant,
) -> ManagerModel {
    ManagerModel {
        sessions: kept(
            m.sessions,
            |id: Seq<char>, session: SessionModel|
                !is_expired(session.last_seen, now, config.session_ttl),
        ),
        inflight: kept(
            m.inflight,
            |key: (ChunkId, WorkerWithDpRank), started: Instant|
                !is_expired(started, now, config.ttl),
        ),
        ..m
    }
}

/// The state after the chunks of a request entered the catalog.
pub open spec fn catalogued(
    config: GlobalPrefetchConfig,
    m: ManagerModel,
    chunks: Seq<(ChunkId, DescriptorModel)>,
    session: Option<Seq<char>>,
) -> ManagerModel {
    catalog_trimmed(
        staged_chunks(
            m,
            chunks,
            if config.filter_stable_chunks {
                session
            } else {
                None
            },
            config.stable_session_threshold as nat,
        ),
        config.max_chunk_catalog as nat,
    )
}

/// The session's previous request, if it used the same model not too long ago.
pub open spec fn predecessor(
    config: GlobalPrefetchConfig,
    m: ManagerModel,
    session: Option<Seq<char>>,
    model_id: Seq<char>,
    now: Instant,
) -> Option<SessionModel> {
    match session {
        Some(id) => if m.sessions.contains_key(id) && m.sessions[id].model_id == model_id
            && !is_expired(m.sessions[id].last_seen, now, config.session_ttl) {
            Some(m.sessions[id])
        } else {
            None
        },
        None => None,
    }
}

/// The chunks that are predicted for the session of a route.
pub open spec fn predicted_chunks(
    w: spec_fn(WeightOp) -> Weight,
    config: GlobalPrefetchConfig,
    m: ManagerModel,
    previous: Option<SessionModel>,
    current: Seq<ChunkId>,
    now: Instant,
) -> Seq<ChunkId> {
    match previous {
        Some(previous) => best_candidates(
            w,
            config,
            m,
            observable(config, m, previous.last_chunks),
            current.to_set(),
            now,
        ),
        None => Seq::empty(),
    }
}

/// The sources after the transition from the session's previous request, before
/// the oldest ones are evicted.
pub open spec fn learned_sources(
    w: spec_fn(WeightOp) -> Weight,
    config: GlobalPrefetchConfig,
    m: ManagerModel,
    previous: SessionModel,
    current: Seq<ChunkId>,
    now: Instant,
) -> Map<ChunkId, SourceModel> {
    let limit = config.max_observation_chunks as int;
    observed_sources(
        w,
        m.sources,
        distinct(first(observable(config, m, previous.last_chunks), limit)),
        distinct(first(observable(config, m, current), limit)),
        config.top_k as nat,
        now,
        config.half_life,
    )
}

/// When a session was last seen.
pub open spec fn session_seen() -> spec_fn(SessionModel) -> Instant {
    |session: SessionModel| session.last_seen
}

/// What is remembered of a request for the next one of its session.
pub open spec fn remembered(
    config: GlobalPrefetchConfig,
    model_id: Seq<char>,
    current: Seq<ChunkId>,
    now: Instant,
) -> SessionModel {
    SessionModel {
        model_id,
        last_chunks: first(current, config.max_observation_chunks as int),
        last_seen: now,
    }
}

/// `sources` and `sessions` are what is left once the state `m` has learnt from a
/// route.
pub open spec fn learned(
    w: spec_fn(WeightOp) -> Weight,
    config: GlobalPrefetchConfig,
    m: ManagerModel,
    session: Option<Seq<char>>,
    model_id: Seq<char>,
    current: Seq<ChunkId>,
    now: Instant,
    sources: Map<ChunkId, SourceModel>,
    sessions: Map<Seq<char>, SessionModel>,
) -> bool {
    &&& match predecessor(config, m, session, model_id, now) {
        Some(previous) => keeps_youngest(
            learned_sources(w, config, m, previous, current, now),
            source_seen(),
            config.max_chunk_catalog as nat,
            sources,
        ),
        None => sources == m.sources,
    }
    &&& match session {
        Some(id) => keeps_youngest(
            m.sessions.insert(id, remembered(config, model_id, current, now)),
            session_seen(),
            config.max_sessions as nat,
            sessions,
        ),
        None => sessions == m.sessions,
    }
}

/// The prefetch of `target` on `worker` can start: it is not under way yet, and not
/// too many are.
pub open spec fn can_reserve(
    config: GlobalPrefetchConfig,
    m: ManagerModel,
    target: ChunkId,
    worker: WorkerWithDpRank,
) -> bool {
    m.inflight.len() < config.max_inflight && !m.inflight.contains_key((target, worker))
}

/// The state after an attempt to start a prefetch.
pub open spec fn after_reserving(
    config: GlobalPrefetchConfig,
    m: ManagerModel,
    target: ChunkId,
    worker: WorkerWithDpRank,
    started: Instant,
) -> ManagerModel {
    if can_reserve(config, m, target, worker) {
        ManagerModel {
            inflight: m.inflight.insert((target, worker), started),
            scheduled: (m.scheduled + 1) as u64,
            predicted: (m.predicted + 1) as u64,
            ..m
        }
    } else {
        ManagerModel { dropped: (m.dropped + 1) as u64, ..m }
    }
}

/// The state after an attempt for each of `targets` that the catalog describes, and
/// those that could start.
pub open spec fn reserved_all(
    config: GlobalPrefetchConfig,
    m: ManagerModel,
    targets: Seq<ChunkId>,
    worker: WorkerWithDpRank,
    started: Instant,
) -> (ManagerModel, Seq<ChunkId>)
    decreases targets.len(),
{
    if targets.len() == 0 {
        (m, Seq::empty())
    } else {
        let (init, taken) = reserved_all(config, m, targets.drop_last(), worker, started);
        let target = targets.last();
        if !init.catalog.contains_key(target) {
            (init, taken)
        } else {
            (
                after_reserving(config, init, target, worker, started),
                if can_reserve(config, init, target, worker) {
                    taken.push(target)
                } else {
                    taken
                },
            )
        }
    }
}

/// The milliseconds for which hints stay valid.
pub open spec fn ttl_ms(config: GlobalPrefetchConfig) -> u64 {
    if config.ttl.nanos / 1_000_000 <= u64::MAX {
        (config.ttl.nanos / 1_000_000) as u64
    } else {
        u64::MAX
    }
}

/// The hint that warms up the request itself.
pub open spec fn current_hint(
    config: GlobalPrefetchConfig,
    route: CommittedRoute,
    tokens: Seq<u32>,
) -> HintModel {
    HintModel {
        tokens,
        request_id: Some(route.request_id@),
        session_id: session_of(route),
        model_id: Some(route.model_id@),
        task_id: Some("global-current-"@ + route.request_id@),
        worker: route.worker,
        route_epoch: route.route_epoch,
        deadline_ns: route.deadline_ns,
        max_prefetch_bytes: route.max_prefetch_bytes,
        start_chunk: Some(0),
        end_chunk: None,
        ttl_ms: ttl_ms(config),
    }
}

/// The hint for one predicted chunk. It carries the whole prefix, of which only
/// that chunk is asked for.
pub open spec fn temporal_hint(
    config: GlobalPrefetchConfig,
    route: CommittedRoute,
    target: ChunkId,
    descriptor: DescriptorModel,
    worker: WorkerWithDpRank,
) -> HintModel {
    HintModel {
        tokens: descriptor.prefix_tokens,
        request_id: Some(route.request_id@),
        session_id: session_of(route),
        model_id: Some(route.model_id@),
        task_id: Some(
            "global-temporal-chunk-"@ + route.request_id@ + "-"@ + hex(target.1 as nat, 16),
        ),
        worker,
        route_epoch: route.route_epoch,
        deadline_ns: route.deadline_ns,
        max_prefetch_bytes: route.max_prefetch_bytes,
        start_chunk: Some(descriptor.start_chunk),
        end_chunk: Some(descriptor.end_chunk),
        ttl_ms: ttl_ms(config),
    }
}

/// The plan of a route that holds no complete chunk.
pub open spec fn is_empty_plan(plan: RoutePlan) -> bool {
    &&& plan.dispatch.cancel_workers@.len() == 0
    &&& plan.dispatch.reservations@.len() == 0
    &&& plan.current is None
    &&& plan.temporal@.len() == 0
}

/// One hint for each of `taken`, with what it takes to free its reservation.
pub open spec fn hints_planned(
    config: GlobalPrefetchConfig,
    m: ManagerModel,
    route: CommittedRoute,
    taken: Seq<ChunkId>,
    worker: WorkerWithDpRank,
    started: Instant,
    temporal: Seq<TemporalHint>,
) -> bool {
    &&& temporal.len() == taken.len()
    &&& forall|i: int|
        0 <= i < taken.len() ==> {
            &&& (#[trigger] temporal[i]).hint@ == temporal_hint(
                config,
                route,
                taken[i],
                m.catalog[taken[i]],
                worker,
            )
            &&& temporal[i].target@ == (route.model_id@, taken[i].1)
            &&& temporal[i].worker == worker
            &&& temporal[i].started == started
        }
}

/// One reservation for each of `taken`.
pub open spec fn chunks_reserved(
    taken: Seq<ChunkId>,
    worker: WorkerWithDpRank,
    reservations: Seq<PrefetchReservation>,
) -> bool {
    &&& reservations.len() == taken.len()
    &&& forall|i: int|
        0 <= i < taken.len() ==> {
            &&& (#[trigger] reservations[i]).worker == worker
            &&& reservations[i].block_hashes@ == seq![LocalBlockHash(taken[i].1)]
        }
}

/// The plan warms up the request itself if that is enabled, and then lists its
/// worker for cancellation.
pub open spec fn plans_current(
    config: GlobalPrefetchConfig,
    route: CommittedRoute,
    tokens: Seq<u32>,
    plan: RoutePlan,
) -> bool {
    if config.current_request_enabled {
        &&& plan.current matches Some(hint) && hint@ == current_hint(config, route, tokens)
        &&& plan.dispatch.cancel_workers@ == seq![route.worker]
    } else {
        &&& plan.current is None
        &&& plan.dispatch.cancel_workers@.len() == 0
    }
}

/// The state in which the chunks of a request are predicted and learnt from.
pub open spec fn prepared(
    config: GlobalPrefetchConfig,
    m: ManagerModel,
    chunks: Seq<(ChunkId, DescriptorModel)>,
    session: Option<Seq<char>>,
    now: Instant,
) -> ManagerModel {
    catalogued(config, expired(config, m, now), chunks, session)
}

/// The chunks that are predicted for a route, in the state prepared for it.
pub open spec fn route_targets(
    w: spec_fn(WeightOp) -> Weight,
    config: GlobalPrefetchConfig,
    m: ManagerModel,
    route: CommittedRoute,
    chunks: Seq<(ChunkId, DescriptorModel)>,
    now: Instant,
) -> Seq<ChunkId> {
    predicted_chunks(
        w,
        config,
        m,
        predecessor(config, m, session_of(route), route.model_id@, now),
        chunk_ids(chunks),
        now,
    )
}

/// The prepared state after the predicted chunks were reserved, and those that
/// could be.
pub open spec fn route_outcome(
    config: GlobalPrefetchConfig,
    m: ManagerModel,
    targets: Seq<ChunkId>,
    worker: WorkerWithDpRank,
    started: Instant,
) -> (ManagerModel, Seq<ChunkId>) {
    if config.temporal_enabled {
        reserved_all(config, m, targets, worker, started)
    } else {
        (m, Seq::empty())
    }
}

/// What a route does to the state, and what is planned for it.
pub open spec fn committed(
    w: spec_fn(WeightOp) -> Weight,
    config: GlobalPrefetchConfig,
    before: ManagerModel,
    route: CommittedRoute,
    tokens: Seq<u32>,
    chunks: Seq<(ChunkId, DescriptorModel)>,
    candidates: Seq<WorkerPrefetchCandidate>,
    now: Instant,
    started: Instant,
    after: ManagerModel,
    plan: RoutePlan,
) -> bool {
    let m = prepared(config, before, chunks, session_of(route), now);
    let targets = route_targets(w, config, m, route, chunks, now);
    let worker = best_worker(
        w,
        candidates,
        targets.len() as usize,
        config.chunks_per_second,
        route.worker,
    );
    let (reserved, taken) = route_outcome(config, m, targets, worker, started);
    &&& learned(
        w,
        config,
        m,
        session_of(route),
        route.model_id@,
        chunk_ids(chunks),
        now,
        after.sources,
        after.sessions,
    )
    &&& after == (ManagerModel { sources: after.sources, sessions: after.sessions, ..reserved })
    &&& plans_current(config, route, tokens, plan)
    &&& hints_planned(config, m, route, taken, worker, started, plan.temporal@)
    &&& chunks_reserved(taken, worker, plan.dispatch.reservations@)
}

/// A bounded predictor, with the dispatcher that its hints go to.
pub struct GlobalPrefetchManager {
    pub config: GlobalPrefetchConfig,
    pub state: ManagerState,
    pub dispatcher: Arc<PrefetchHintDispatcher>,
}

impl GlobalPrefetchManager {
    /// The manager that the settings describe; `None` when it is switched off or
    /// there is no dispatcher to send hints.
    pub fn from_env(
        env: &Environment,
        fractions: FractionalSettings,
        dispatcher: Option<Arc<PrefetchHintDispatcher>>,
    ) -> (manager: Option<Self>)
        ensures
            manager is Some <==> bool_setting(env@, "DYN_GLOBAL_PREFETCH_ENABLED"@, false)
                && dispatcher is Some,
            manager matches Some(manager) ==> {
                &&& manager.config.configured(env@, fractions)
                &&& manager.config.bounded()
                &&& manager.state@ == fresh_state()
                &&& sound(manager.config, manager.state@)
                &&& Some(manager.dispatcher) == dispatcher
            },
    {
        let config = GlobalPrefetchConfig::from_env(env, fractions);
        if !config.enabled {
            return None;
        }
        match dispatcher {
            Some(dispatcher) => {
                let state: ManagerState = ManagerState::default();
                proof {
                    law_fresh_state_is_sound(config);
                }
                Some(GlobalPrefetchManager { config, state, dispatcher })
            },
            None => None,
        }
    }

    pub fn chunk_is_stable(&self, chunk: &ChunkKey) -> (stable: bool)
        ensures
            stable == ignored_as_stable(self.config, self.state@, chunk@),
    {
        ignores_as_stable(&self.config, &self.state, chunk)
    }

    pub fn filter_stable_chunks(&self, chunks: &[ChunkKey]) -> (left: Vec<ChunkKey>)
        ensures
            ids(left@) == observable(self.config, self.state@, ids(chunks@)),
    {
        observable_chunks(&self.config, &self.state, chunks)
    }

    pub fn stage_chunks_locked(
        &mut self,
        chunks: &Vec<(ChunkKey, ChunkDescriptor)>,
        session_id: Option<&str>,
    )
        ensures
            final(self).config == old(self).config,
            final(self).dispatcher == old(self).dispatcher,
            final(self).state@ == catalogued(
                old(self).config,
                old(self).state@,
                described(chunks@),
                match session_id {
                    Some(session) => Some(session@),
                    None => None,
                },
            ),
            sound(old(self).config, old(self).state@) ==> sound(
                old(self).config,
                final(self).state@,
            ),
    {
        let counted: Option<&str> = if self.config.filter_stable_chunks {
            session_id
        } else {
            None
        };
        stage_chunks(
            &mut self.state,
            chunks,
            counted,
            self.config.stable_session_threshold,
            self.config.max_chunk_catalog,
        );
        proof {
            if sound(old(self).config, old(self).state@) {
                law_staging_keeps_catalog_sound(
                    old(self).config,
                    old(self).state@,
                    described(chunks@),
                    match session_id {
                        Some(session) => Some(session@),
                        None => None,
                    },
                );
            }
        }
    }

    /// Forgets sessions and prefetches that have expired.
    pub fn expire_locked(&mut self, now: Instant)
        ensures
            final(self).config == old(self).config,
            final(self).dispatcher == old(self).dispatcher,
            final(self).state@ == expired(old(self).config, old(self).state@, now),
            sound(old(self).config, old(self).state@) ==> sound(
                old(self).config,
                final(self).state@,
            ),
    {
        let session_ttl: Duration = self.config.session_ttl;
        let ttl: Duration = self.config.ttl;
        let fresh_session = |id: &String, session: &SessionState| -> (b: bool)
            ensures
                b == !is_expired(session@.last_seen, now, session_ttl),
            { now.duration_since(session.last_seen).nanos <= session_ttl.nanos };
        let fresh_prefetch = |key: &(ChunkKey, WorkerWithDpRank), started: &Instant| -> (b: bool)
            ensures
                b == !is_expired(*started, now, ttl),
            { now.duration_since(*started).nanos <= ttl.nanos };
        self.state.sessions.retain(
            fresh_session,
            Ghost(
                |id: Seq<char>, session: SessionModel|
                    !is_expired(session.last_seen, now, session_ttl),
            ),
        );
        self.state.inflight.retain(
            fresh_prefetch,
            Ghost(
                |key: (ChunkId, WorkerWithDpRank), started: Instant|
                    !is_expired(started, now, ttl),
            ),
        );
        proof {
            if sound(old(self).config, old(self).state@) {
                law_expiry_keeps_state_sound(old(self).config, old(self).state@, now);
            }
        }
    }

    /// Predicts the chunks that follow `previous_chunks`.
    pub fn best_candidates_locked<F: Fn(WeightOp) -> Weight>(
        &self,
        previous_chunks: &[ChunkKey],
        current_chunks: &KeySet<ChunkKey>,
        now: Instant,
        weigh: &F,
    ) -> (targets: Vec<ChunkKey>)
        requires
            is_arithmetic(*weigh),
        ensures
            ids(targets@) == best_candidates(
                arithmetic_of(*weigh),
                self.config,
                self.state@,
                ids(previous_chunks@),
                current_chunks@,
                now,
            ),
            is_top(
                best_scores(
                    arithmetic_of(*weigh),
                    self.config,
                    self.state@,
                    first(ids(previous_chunks@), self.config.max_observation_chunks as int),
                    current_chunks@,
                    now,
                ),
                self.config.top_k as nat,
                ids(targets@),
            ),
            best_scores(
                arithmetic_of(*weigh),
                self.config,
                self.state@,
                first(ids(previous_chunks@), self.config.max_observation_chunks as int),
                current_chunks@,
                now,
            ).dom().finite(),
            targets@.len() <= self.config.top_k,
    {
        predict(&self.config, &self.state, previous_chunks, current_chunks, now, weigh)
    }

    /// Learns from `current_chunks` following `previous_chunks`.
    pub fn observe_transition_locked<F: Fn(WeightOp) -> Weight>(
        &mut self,
        previous_chunks: &[ChunkKey],
        current_chunks: &[ChunkKey],
        now: Instant,
        weigh: &F,
    )
        requires
            is_arithmetic(*weigh),
        ensures
            final(self).config == old(self).config,
            final(self).dispatcher == old(self).dispatcher,
            final(self).state@ == (ManagerModel {
                sources: final(self).state@.sources,
                ..old(self).state@
            }),
            keeps_youngest(
                observed_sources(
                    arithmetic_of(*weigh),
                    old(self).state@.sources,
                    distinct(
                        first(
                            ids(previous_chunks@),
                            old(self).config.max_observation_chunks as int,
                        ),
                    ),
                    distinct(
                        first(ids(current_chunks@), old(self).config.max_observation_chunks as int),
                    ),
                    old(self).config.top_k as nat,
                    now,
                    old(self).config.half_life,
                ),
                source_seen(),
                old(self).config.max_chunk_catalog as nat,
                final(self).state@.sources,
            ),
            forall|model_id: Seq<char>|
                #![trigger of_model(ids(previous_chunks@), model_id)]
                sound(old(self).config, old(self).state@) && of_model(
                    ids(previous_chunks@),
                    model_id,
                ) && of_model(ids(current_chunks@), model_id) ==> sound(
                    old(self).config,
                    final(self).state@,
                ),
    {
        observe_transition(
            &mut self.state.sources,
            previous_chunks,
            current_chunks,
            self.config.max_observation_chunks,
            self.config.max_chunk_catalog,
            self.config.top_k,
            now,
            self.config.half_life,
            weigh,
        );
        proof {
            assert forall|model_id: Seq<char>|
                #![trigger of_model(ids(previous_chunks@), model_id)]
                sound(old(self).config, old(self).state@) && of_model(
                    ids(previous_chunks@),
                    model_id,
                ) && of_model(ids(current_chunks@), model_id) implies sound(
                old(self).config,
                self.state@,
            ) by {
                law_transitions_keep_state_sound(
                    arithmetic_of(*weigh),
                    old(self).config,
                    old(self).state@,
                    ids(previous_chunks@),
                    ids(current_chunks@),
                    now,
                    model_id,
                    self.state@.sources,
                );
            }
        }
    }

    /// Forgets the sessions seen longest ago while there are too many.
    pub fn trim_sessions_locked(&mut self)
        ensures
            final(self).config == old(self).config,
            final(self).dispatcher == old(self).dispatcher,
            final(self).state@ == (ManagerModel {
                sessions: final(self).state@.sessions,
                ..old(self).state@
            }),
            keeps_youngest(
                old(self).state@.sessions,
                session_seen(),
                old(self).config.max_sessions as nat,
                final(self).state@.sessions,
            ),
            sound(old(self).config, old(self).state@) ==> sound(
                old(self).config,
                final(self).state@,
            ),
    {
        let last_seen = |session: &SessionState| -> (t: Instant)
            ensures
                t == session@.last_seen,
            { session.last_seen };
        self.state.sessions.evict_oldest(self.config.max_sessions, last_seen, Ghost(session_seen()));
        proof {
            if sound(old(self).config, old(self).state@) {
                law_eviction_keeps_state_sound(
                    old(self).config,
                    old(self).state@,
                    self.state@.sessions,
                );
            }
        }
    }

    /// Starts a prefetch unless it is under way or too many are; returns when it
    /// was started.
    pub fn reserve_inflight(
        &mut self,
        target: ChunkKey,
        worker: WorkerWithDpRank,
        started: Instant,
    ) -> (reserved: Option<Instant>)
        requires
            old(self).state.scheduled < u64::MAX,
            old(self).state.predicted < u64::MAX,
            old(self).state.dropped < u64::MAX,
        ensures
            final(self).config == old(self).config,
            final(self).dispatcher == old(self).dispatcher,
            final(self).state@ == after_reserving(
                old(self).config,
                old(self).state@,
                target@,
                worker,
                started,
            ),
            reserved == if can_reserve(old(self).config, old(self).state@, target@, worker) {
                Some(started)
            } else {
                None
            },
            sound(old(self).config, old(self).state@) ==> sound(
                old(self).config,
                final(self).state@,
            ),
    {
        let key: (ChunkKey, WorkerWithDpRank) = (target, worker);
        if self.state.inflight.len() >= self.config.max_inflight || self.state.inflight.contains_key(
            &key,
        ) {
            self.state.dropped = self.state.dropped + 1;
            return None;
        }
        self.state.inflight.insert(key, started);
        self.state.scheduled = self.state.scheduled + 1;
        self.state.predicted = self.state.predicted + 1;
        Some(started)
    }

    /// Frees a failed prefetch, so that a later prediction can try again.
    pub fn release_inflight(
        &mut self,
        target: &ChunkKey,
        worker: WorkerWithDpRank,
        started: Instant,
    ) -> (released: bool)
        ensures
            final(self).config == old(self).config,
            final(self).dispatcher == old(self).dispatcher,
            released == held_since(old(self).state@.inflight, target@, worker, started),
            final(self).state@ == (ManagerModel {
                inflight: released_inflight(old(self).state@.inflight, target@, worker, started),
                ..old(self).state@
            }),
            sound(old(self).config, old(self).state@) ==> sound(
                old(self).config,
                final(self).state@,
            ),
    {
        release_inflight_locked(&mut self.state, target, worker, started)
    }

    /// Counts of scheduled, predicted and dropped prefetches, of sessions, and of
    /// chunks in the catalog.
    pub fn stats(&self) -> (counts: (u64, u64, u64, usize, usize))
        ensures
            counts.0 == self.state@.scheduled,
            counts.1 == self.state@.predicted,
            counts.2 == self.state@.dropped,
            counts.3 == self.state@.sessions.len(),
            counts.4 == self.state@.catalog.len(),
    {
        (
            self.state.scheduled,
            self.state.predicted,
            self.state.dropped,
            self.state.sessions.len(),
            self.state.catalog.len(),
        )
    }

    /// Reserves the predicted chunks and plans a hint for each that could be.
    fn reserve_targets(
        &mut self,
        route: &CommittedRoute,
        targets: &Vec<ChunkKey>,
        worker: WorkerWithDpRank,
        started: Instant,
        Ghost(m): Ghost<ManagerModel>,
    ) -> (planned: (Vec<TemporalHint>, Vec<PrefetchReservation>))
        requires
            old(self).state@ == (ManagerModel {
                sources: old(self).state@.sources,
                sessions: old(self).state@.sessions,
                ..m
            }),
            m.scheduled + targets@.len() <= u64::MAX,
            m.predicted + targets@.len() <= u64::MAX,
            m.dropped + targets@.len() <= u64::MAX,
        ensures
            final(self).config == old(self).config,
            final(self).dispatcher == old(self).dispatcher,
            ({
                let (reserved, taken) = reserved_all(
                    old(self).config,
                    m,
                    ids(targets@),
                    worker,
                    started,
                );
                &&& final(self).state@ == (ManagerModel {
                    sources: old(self).state@.sources,
                    sessions: old(self).state@.sessions,
                    ..reserved
                })
                &&& hints_planned(
                    old(self).config,
                    m,
                    *route,
                    taken,
                    worker,
                    started,
                    planned.0@,
                )
                &&& chunks_reserved(taken, worker, planned.1@)
            }),
    {
        let ghost config = self.config;
        let ghost sources = self.state@.sources;
        let ghost sessions = self.state@.sessions;
        let ghost all = ids(targets@);
        let mut temporal: Vec<TemporalHint> = Vec::new();
        let mut reservations: Vec<PrefetchReservation> = Vec::new();
        let mut i: usize = 0;
        assert(all.take(0).len() == 0);
        while i < targets.len()
            invariant
                i <= targets@.len(),
                all == ids(targets@),
                self.config == config,
                self.dispatcher == old(self).dispatcher,
                m.scheduled + targets@.len() <= u64::MAX,
                m.predicted + targets@.len() <= u64::MAX,
                m.dropped + targets@.len() <= u64::MAX,
                ({
                    let (reserved, taken) = reserved_all(
                        config,
                        m,
                        all.take(i as int),
                        worker,
                        started,
                    );
                    &&& reserved.catalog == m.catalog
                    &&& reserved.scheduled <= m.scheduled + i
                    &&& reserved.predicted <= m.predicted + i
                    &&& reserved.dropped <= m.dropped + i
                    &&& self.state@ == (ManagerModel { sources, sessions, ..reserved })
                    &&& hints_planned(config, m, *route, taken, worker, started, temporal@)
                    &&& chunks_reserved(taken, worker, reservations@)
                }),
            decreases targets@.len() - i,
        {
            let target: &ChunkKey = &targets[i];
            proof {
                assert(all.take(i + 1).drop_last() =~= all.take(i as int));
                assert(all.take(i + 1).last() == target@);
            }
            let ghost before = self.state@;
            let found: Option<ChunkDescriptor> = match self.state.catalog.get(target) {
                Some(descriptor) => Some(descriptor.clone()),
                None => None,
            };
            if let Some(descriptor) = found {
                let reserved = self.reserve_inflight(clone_key(target), worker, started);
                if reserved.is_some() {
                    let hint = plan_temporal_hint(
                        &self.config,
                        route,
                        target,
                        &descriptor,
                        worker,
                    );
                    let key: ChunkKey = (route.model_id.to_owned(), target.1);
                    let mut block_hashes: Vec<LocalBlockHash> = Vec::new();
                    block_hashes.push(LocalBlockHash(target.1));
                    assert(block_hashes@ =~= seq![LocalBlockHash(target@.1)]);
                    temporal.push(TemporalHint { hint, target: key, worker, started });
                    reservations.push(PrefetchReservation { worker, block_hashes });
                }
            }
            i += 1;
        }
        assert(all.take(all.len() as int) =~= all);
        (temporal, reservations)
    }

    /// Learns from a route whose chunks are `chunks`, and plans its hints.
    pub fn commit_route<F: Fn(WeightOp) -> Weight>(
        &mut self,
        route: &CommittedRoute,
        tokens: &[u32],
        chunks: &Vec<(ChunkKey, ChunkDescriptor)>,
        candidates: &[WorkerPrefetchCandidate],
        now: Instant,
        started: Instant,
        weigh: &F,
    ) -> (plan: RoutePlan)
        requires
            is_arithmetic(*weigh),
            old(self).state.scheduled + prediction_limit(old(self).config, old(self).state@)
                <= u64::MAX,
            old(self).state.predicted + prediction_limit(old(self).config, old(self).state@)
                <= u64::MAX,
            old(self).state.dropped + prediction_limit(old(self).config, old(self).state@)
                <= u64::MAX,
        ensures
            final(self).config == old(self).config,
            final(self).dispatcher == old(self).dispatcher,
            committed(
                arithmetic_of(*weigh),
                old(self).config,
                old(self).state@,
                *route,
                tokens@,
                described(chunks@),
                candidates@,
                now,
                started,
                final(self).state@,
                plan,
            ),
            sound(old(self).config, old(self).state@) && of_model(
                chunk_ids(described(chunks@)),
                route.model_id@,
            ) ==> sound(old(self).config, final(self).state@),
            sound(old(self).config, old(self).state@) ==> hints_hold_reservations(
                final(self).state@.inflight,
                plan,
            ),
    {
        let ghost w = arithmetic_of(*weigh);
        let ghost config = self.config;
        let ghost session = session_of(*route);
        let current: Vec<ChunkKey> = keys_of(chunks);
        let current_set: KeySet<ChunkKey> = set_of(&current);
        assert(ids(current@) == chunk_ids(described(chunks@)));

        self.expire_locked(now);
        self.stage_chunks_locked(chunks, route.session_id);
        let ghost m = self.state@;
        proof {
            lemma_staging_keeps_the_rest(
                expired(config, old(self).state@, now),
                described(chunks@),
                if config.filter_stable_chunks {
                    session
                } else {
                    None
                },
                config.stable_session_threshold as nat,
            );
        }

        let previous: Option<(Vec<ChunkKey>, bool)> = match route.session_id {
            Some(session) => {
                let id: String = session.to_owned();
                match self.state.sessions.get(&id) {
                    Some(previous) => {
                        let matches: bool = same_text(previous.model_id.as_str(), route.model_id)
                            && now.duration_since(previous.last_seen).nanos
                            <= self.config.session_ttl.nanos;
                        let chunks: Vec<ChunkKey> = self.filter_stable_chunks(
                            previous.last_chunks.as_slice(),
                        );
                        Some((chunks, matches))
                    },
                    None => None,
                }
            },
            None => None,
        };
        let learning: Vec<ChunkKey> = self.filter_stable_chunks(current.as_slice());
        let mut targets: Vec<ChunkKey> = Vec::new();
        match &previous {
            Some((previous_chunks, matches)) => if *matches {
                targets =
                self.best_candidates_locked(previous_chunks.as_slice(), &current_set, now, weigh);
                self.observe_transition_locked(
                    previous_chunks.as_slice(),
                    learning.as_slice(),
                    now,
                    weigh,
                );
            },
            None => {},
        }
        assert(ids(targets@) =~= route_targets(w, config, m, *route, described(chunks@), now));
        proof {
            if sound(config, old(self).state@) {
                law_route_targets_are_known(
                    w,
                    config,
                    old(self).state@,
                    *route,
                    described(chunks@),
                    now,
                );
            }
        }
        if let Some(session) = route.session_id {
            let last = SessionState {
                model_id: route.model_id.to_owned(),
                last_chunks: clone_keys(current.as_slice(), self.config.max_observation_chunks),
                last_seen: now,
            };
            assert(last@ =~= remembered(config, route.model_id@, ids(current@), now));
            self.state.sessions.insert(session.to_owned(), last);
            self.trim_sessions_locked();
        }

        let worker: WorkerWithDpRank = select_prefetch_worker(
            candidates,
            targets.len(),
            self.config.chunks_per_second,
            route.worker,
            weigh,
        );
        let planned: (Vec<TemporalHint>, Vec<PrefetchReservation>) = if self.config.temporal_enabled {
            self.reserve_targets(route, &targets, worker, started, Ghost(m))
        } else {
            (Vec::new(), Vec::new())
        };
        let mut cancel_workers: Vec<WorkerWithDpRank> = Vec::new();
        let mut hint: Option<PrefetchHint> = None;
        if self.config.current_request_enabled {
            hint =
            Some(plan_current_hint(&self.config, route, tokens));
            cancel_workers.push(route.worker);
            assert(cancel_workers@ =~= seq![route.worker]);
        }
        let plan = RoutePlan {
            dispatch: GlobalPrefetchDispatch { cancel_workers, reservations: planned.1 },
            current: hint,
            temporal: planned.0,
        };
        proof {
            if sound(config, old(self).state@) {
                if of_model(chunk_ids(described(chunks@)), route.model_id@) {
                    law_routes_keep_state_sound(
                        w,
                        config,
                        old(self).state@,
                        *route,
                        tokens@,
                        described(chunks@),
                        candidates@,
                        now,
                        started,
                        self.state@,
                        plan,
                    );
                }
                law_hints_hold_reservations(
                    w,
                    config,
                    old(self).state@,
                    *route,
                    tokens@,
                    described(chunks@),
                    candidates@,
                    now,
                    started,
                    self.state@,
                    plan,
                );
            }
        }
        plan
    }

    /// Observes a committed route: learns from it, and plans hints for the request
    /// itself and for the chunks that are likely to follow. Only complete chunks
    /// count; a request without any is passed over.
    ///
    /// `now` is the time of the route, `started` that of the reservations.
    pub fn on_route_committed<F: Fn(WeightOp) -> Weight>(
        &mut self,
        request_id: &str,
        session_id: Option<&str>,
        model_id: &str,
        tokens: &[u32],
        worker: WorkerWithDpRank,
        candidates: &[WorkerPrefetchCandidate],
        route_epoch: u64,
        deadline_ns: Option<u64>,
        max_prefetch_bytes: Option<u64>,
        now: Instant,
        started: Instant,
        weigh: &F,
    ) -> (plan: RoutePlan)
        requires
            is_arithmetic(*weigh),
            old(self).config.chunk_size > 0,
            tokens@.len() >= old(self).config.chunk_size ==> (old(self).config.chunk_size as u32)
                > 0,
            old(self).state.scheduled + prediction_limit(old(self).config, old(self).state@)
                <= u64::MAX,
            old(self).state.predicted + prediction_limit(old(self).config, old(self).state@)
                <= u64::MAX,
            old(self).state.dropped + prediction_limit(old(self).config, old(self).state@)
                <= u64::MAX,
        ensures
            final(self).config == old(self).config,
            final(self).dispatcher == old(self).dispatcher,
            ({
                let route = CommittedRoute {
                    request_id,
                    session_id,
                    model_id,
                    worker,
                    route_epoch,
                    deadline_ns,
                    max_prefetch_bytes,
                };
                let size = old(self).config.chunk_size as int;
                let complete = tokens@.take(tokens@.len() as int / size * size);
                let chunks = request_chunks(
                    model_id@,
                    complete,
                    size,
                    block_hashes(complete, (old(self).config.chunk_size as u32) as int),
                );
                if chunks.len() == 0 {
                    final(self).state@ == old(self).state@ && is_empty_plan(plan)
                } else {
                    committed(
                        arithmetic_of(*weigh),
                        old(self).config,
                        old(self).state@,
                        route,
                        complete,
                        chunks,
                        candidates@,
                        now,
                        started,
                        final(self).state@,
                        plan,
                    )
                }
            }),
            sound(old(self).config, old(self).state@) ==> sound(
                old(self).config,
                final(self).state@,
            ) && hints_hold_reservations(final(self).state@.inflight, plan),
    {
        let dispatch: GlobalPrefetchDispatch = GlobalPrefetchDispatch::default();
        let nothing = RoutePlan { dispatch, current: None, temporal: Vec::new() };
        let size: usize = self.config.chunk_size;
        let count: usize = tokens.len() / size;
        proof {
            vstd::arithmetic::div_mod::lemma_fundamental_div_mod(
                tokens@.len() as int,
                size as int,
            );
            assert(0 <= count * size <= tokens@.len() && (count > 0 ==> size <= tokens@.len())
                && (count == 0 ==> count * size == 0))
                by (nonlinear_arith)
                requires
                    tokens@.len() == size * count + tokens@.len() % size as nat,
                    count >= 0,
                    size > 0,
            ;
        }
        if count == 0 {
            assert(tokens@.take(0).len() as int / size as int == 0);
            return nothing;
        }
        let length: usize = count * size;
        let complete: &[u32] = vstd::slice::slice_subrange(tokens, 0, length);
        assert(complete@ =~= tokens@.take(length as int));
        let chunks = chunk_descriptors(model_id, complete, size);
        if chunks.len() == 0 {
            return nothing;
        }
        let route = CommittedRoute {
            request_id,
            session_id,
            model_id,
            worker,
            route_epoch,
            deadline_ns,
            max_prefetch_bytes,
        };
        self.commit_route(&route, complete, &chunks, candidates, now, started, weigh)
    }
}

fn keys_of(chunks: &Vec<(ChunkKey, ChunkDescriptor)>) -> (keys: Vec<ChunkKey>)
    ensures
        ids(keys@) == chunk_ids(described(chunks@)),
{
    let mut keys: Vec<ChunkKey> = Vec::new();
    let mut i: usize = 0;
    while i < chunks.len()
        invariant
            i <= chunks@.len(),
            keys@.len() == i,
            forall|j: int| 0 <= j < i ==> (#[trigger] keys@[j])@ == chunks@[j].0@,
        decreases chunks@.len() - i,
    {
        keys.push(clone_key(&chunks[i].0));
        i += 1;
    }
    assert(ids(keys@) =~= chunk_ids(described(chunks@)));
    keys
}

fn set_of(keys: &Vec<ChunkKey>) -> (set: KeySet<ChunkKey>)
    ensures
        set@ == ids(keys@).to_set(),
{
    let ghost all = ids(keys@);
    let mut set: KeySet<ChunkKey> = KeySet::new();
    let mut i: usize = 0;
    assert(set@ =~= all.take(0).to_set());
    while i < keys.len()
        invariant
            i <= keys@.len(),
            all == ids(keys@),
            set@ == all.take(i as int).to_set(),
        decreases keys@.len() - i,
    {
        set.insert(clone_key(&keys[i]));
        proof {
            let shorter = all.take(i as int);
            let longer = all.take(i + 1);
            assert(longer =~= shorter.push(all[i as int]));
            assert forall|x: ChunkId| #[trigger] longer.to_set().contains(x)
                <==> shorter.to_set().insert(all[i as int]).contains(x) by {
                if shorter.contains(x) {
                    let j = choose|j: int| 0 <= j < shorter.len() && shorter[j] == x;
                    assert(longer[j] == x);
                }
                assert(longer[i as int] == all[i as int]);
                if longer.contains(x) && x != all[i as int] {
                    let j = choose|j: int| 0 <= j < longer.len() && longer[j] == x;
                    assert(shorter[j] == x);
                }
            }
            assert(longer.to_set() =~= shorter.to_set().insert(all[i as int]));
        }
        i += 1;
    }
    assert(all.take(all.len() as int) =~= all);
    set
}

fn plan_current_hint(
    config: &GlobalPrefetchConfig,
    route: &CommittedRoute,
    tokens: &[u32],
) -> (hint: PrefetchHint)
    ensures
        hint@ == current_hint(*config, *route, tokens@),
{
    let mut task_id: String = "global-current-".to_owned();
    task_id.append(route.request_id);
    let hint = PrefetchHint {
        tokens: copy_tokens(tokens, tokens.len()),
        request_id: Some(route.request_id.to_owned()),
        session_id: owned(route.session_id),
        model_id: Some(route.model_id.to_owned()),
        task_id: Some(task_id),
        worker: route.worker,
        route_epoch: route.route_epoch,
        deadline_ns: route.deadline_ns,
        max_prefetch_bytes: route.max_prefetch_bytes,
        start_chunk: Some(0),
        end_chunk: None,
        ttl_ms: config.ttl.as_millis_capped(),
    };
    assert(hint@ =~= current_hint(*config, *route, tokens@));
    hint
}

fn plan_temporal_hint(
    config: &GlobalPrefetchConfig,
    route: &CommittedRoute,
    target: &ChunkKey,
    descriptor: &ChunkDescriptor,
    worker: WorkerWithDpRank,
) -> (hint: PrefetchHint)
    ensures
        hint@ == temporal_hint(*config, *route, target@, descriptor@, worker),
{
    let mut task_id: String = joined("global-temporal-chunk-", route.request_id, "-");
    push_hex(&mut task_id, target.1, 16);
    let hint = PrefetchHint {
        tokens: copy_tokens(descriptor.prefix_tokens.as_slice(), descriptor.prefix_tokens.len()),
        request_id: Some(route.request_id.to_owned()),
        session_id: owned(route.session_id),
        model_id: Some(route.model_id.to_owned()),
        task_id: Some(task_id),
        worker,
        route_epoch: route.route_epoch,
        deadline_ns: route.deadline_ns,
        max_prefetch_bytes: route.max_prefetch_bytes,
        start_chunk: Some(descriptor.start_chunk),
        end_chunk: Some(descriptor.end_chunk),
        ttl_ms: config.ttl.as_millis_capped(),
    };
    assert(hint@ =~= temporal_hint(*config, *route, target@, descriptor@, worker));
    hint
}

pub proof fn lemma_staging_keeps_the_rest(
    m: ManagerModel,
    chunks: Seq<(ChunkId, DescriptorModel)>,
    session: Option<Seq<char>>,
    threshold: nat,
)
    ensures
        ({
            let after = staged_chunks(m, chunks, session, threshold);
            after == (ManagerModel {
                catalog: after.catalog,
                catalog_order: after.catalog_order,
                chunk_sessions: after.chunk_sessions,
                ..m
            })
        }),
    decreases chunks.len(),
{
    if chunks.len() > 0 {
        lemma_staging_keeps_the_rest(m, chunks.drop_last(), session, threshold);
    }
}

} // verus!
