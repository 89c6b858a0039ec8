//! Which chunks are likely to be needed after the chunks of a request.

use crate::associations::{
    support_within_total, target_within_total, targets_finite, SourceModel, SourceStats,
    TargetStats,
};
use crate::chunks::{clone_key, first, ids, lemma_filter_next, ChunkId, ChunkKey};
use crate::clock::Instant;
use crate::global_config::{GlobalPrefetchConfig, CERTAINTY};
use crate::key_map::{lemma_take_next, pairs_map, unique_keys, KeyMap, KeySet};
use crate::manager_state::{chunk_is_stable, is_stable, ManagerModel, ManagerState};
use crate::ranking::{
    is_top, law_ranking_exists, law_ranking_lists_once, rank_top, top_of,
};
use crate::weights::{
    arithmetic_of, decay, decayed, evaluate, falls_short, has_reached, is_arithmetic, is_positive,
    is_short_of, rank, ranks_below, reaches, Weight, WeightOp,
};
use vstd::prelude::*;

verus! {

/// `chunk` counts as a shared template under this configuration.
pub open spec fn ignored_as_stable(
    config: GlobalPrefetchConfig,
    m: ManagerModel,
    chunk: ChunkId,
) -> bool {
    config.filter_stable_chunks && is_stable(
        m.chunk_sessions,
        chunk,
        config.stable_session_threshold as nat,
    )
}

pub fn ignores_as_stable(
    config: &GlobalPrefetchConfig,
    state: &ManagerState,
    chunk: &ChunkKey,
) -> (ignored: bool)
    ensures
        ignored == ignored_as_stable(*config, state@, chunk@),
{
    config.filter_stable_chunks && chunk_is_stable(state, chunk, config.stable_session_threshold)
}

/// The chunks that count for learning: the first of them, without shared templates.
pub open spec fn observable(
    config: GlobalPrefetchConfig,
    m: ManagerModel,
    chunks: Seq<ChunkId>,
) -> Seq<ChunkId> {
    first(chunks, config.max_observation_chunks as int).filter(
        |chunk: ChunkId| !ignored_as_stable(config, m, chunk),
    )
}

pub fn observable_chunks(
    config: &GlobalPrefetchConfig,
    state: &ManagerState,
    chunks: &[ChunkKey],
) -> (left: Vec<ChunkKey>)
    ensures
        ids(left@) == observable(*config, state@, ids(chunks@)),
{
    let ghost all = ids(chunks@);
    let ghost keep = |chunk: ChunkId| !ignored_as_stable(*config, state@, chunk);
    let limit: usize = config.max_observation_chunks;
    let mut left: Vec<ChunkKey> = Vec::new();
    let mut i: usize = 0;
    proof {
        reveal(Seq::filter);
        assert(ids(left@) =~= all.take(0).filter(keep));
    }
    while i < chunks.len() && i < limit
        invariant
            i <= chunks@.len(),
            i <= limit,
            limit == config.max_observation_chunks,
            all == ids(chunks@),
            keep == (|chunk: ChunkId| !ignored_as_stable(*config, state@, chunk)),
            ids(left@) == all.take(i as int).filter(keep),
        decreases chunks@.len() - i,
    {
        let ghost before = left@;
        proof {
            lemma_filter_next(all, keep, i as int);
        }
        if !ignores_as_stable(config, state, &chunks[i]) {
            left.push(clone_key(&chunks[i]));
            assert(ids(left@) =~= ids(before).push(chunks@[i as int]@));
        }
        i += 1;
    }
    assert(all.take(i as int) =~= first(all, limit as int));
    left
}

/// How often the source was left, decayed to `now`.
pub open spec fn source_total(
    w: spec_fn(WeightOp) -> Weight,
    config: GlobalPrefetchConfig,
    source: SourceModel,
    now: Instant,
) -> Weight {
    decayed(w, source.total, source.last_seen, now, config.half_life)
}

/// How often the source was left for a target, decayed to `now`.
pub open spec fn target_support(
    w: spec_fn(WeightOp) -> Weight,
    config: GlobalPrefetchConfig,
    stats: TargetStats,
    now: Instant,
) -> Weight {
    decayed(w, stats.support, stats.last_seen, now, config.half_life)
}

/// The share of the source's transitions that led to a target.
pub open spec fn transition_probability(
    w: spec_fn(WeightOp) -> Weight,
    config: GlobalPrefetchConfig,
    source: SourceModel,
    stats: TargetStats,
    now: Instant,
) -> Weight {
    w(
        WeightOp::Ratio {
            part: target_support(w, config, stats, now),
            whole: source_total(w, config, source, now),
        },
    )
}

/// A target of `source` with these statistics is worth prefetching: it is not part
/// of the current request and no shared template, its chunk is known, and both its
/// support and its probability are high enough.
pub open spec fn is_likely(
    w: spec_fn(WeightOp) -> Weight,
    config: GlobalPrefetchConfig,
    m: ManagerModel,
    current: Set<ChunkId>,
    source: SourceModel,
    target: ChunkId,
    stats: TargetStats,
    now: Instant,
) -> bool {
    &&& !falls_short(source_total(w, config, source, now), config.min_support)
    &&& !current.contains(target)
    &&& !ignored_as_stable(config, m, target)
    &&& reaches(target_support(w, config, stats, now), config.min_support)
    &&& reaches(transition_probability(w, config, source, stats, now), config.min_probability)
    &&& m.catalog.contains_key(target)
}

/// The likely ones among `targets` of a source, with their probabilities.
pub open spec fn likely_targets(
    w: spec_fn(WeightOp) -> Weight,
    config: GlobalPrefetchConfig,
    m: ManagerModel,
    current: Set<ChunkId>,
    source: SourceModel,
    targets: Map<ChunkId, TargetStats>,
    now: Instant,
) -> Map<ChunkId, Weight> {
    Map::new(
        |id: ChunkId|
            targets.contains_key(id) && is_likely(
                w,
                config,
                m,
                current,
                source,
                id,
                targets[id],
                now,
            ),
        |id: ChunkId| transition_probability(w, config, source, targets[id], now),
    )
}

/// The likely targets of one of the previous chunks.
pub open spec fn evidence(
    w: spec_fn(WeightOp) -> Weight,
    config: GlobalPrefetchConfig,
    m: ManagerModel,
    current: Set<ChunkId>,
    source: ChunkId,
    now: Instant,
) -> Map<ChunkId, Weight> {
    if m.sources.contains_key(source) {
        likely_targets(
            w,
            config,
            m,
            current,
            m.sources[source],
            m.sources[source].targets,
            now,
        )
    } else {
        Map::empty()
    }
}

/// All entries of both maps; where both have one, the higher weight.
pub open spec fn merged(a: Map<ChunkId, Weight>, b: Map<ChunkId, Weight>) -> Map<ChunkId, Weight> {
    Map::new(
        |id: ChunkId| a.contains_key(id) || b.contains_key(id),
        |id: ChunkId|
            if !b.contains_key(id) || (a.contains_key(id) && rank(a[id]) >= rank(b[id])) {
                a[id]
            } else {
                b[id]
            },
    )
}

/// For each likely target of any of `previous`, its highest probability.
pub open spec fn best_scores(
    w: spec_fn(WeightOp) -> Weight,
    config: GlobalPrefetchConfig,
    m: ManagerModel,
    previous: Seq<ChunkId>,
    current: Set<ChunkId>,
    now: Instant,
) -> Map<ChunkId, Weight>
    decreases previous.len(),
{
    if previous.len() == 0 {
        Map::empty()
    } else {
        merged(
            best_scores(w, config, m, previous.drop_last(), current, now),
            evidence(w, config, m, current, previous.last(), now),
        )
    }
}

/// The chunks to prefetch after `previous`, most probable first.
pub open spec fn best_candidates(
    w: spec_fn(WeightOp) -> Weight,
    config: GlobalPrefetchConfig,
    m: ManagerModel,
    previous: Seq<ChunkId>,
    current: Set<ChunkId>,
    now: Instant,
) -> Seq<ChunkId> {
    top_of(
        best_scores(
            w,
            config,
            m,
            first(previous, config.max_observation_chunks as int),
            current,
            now,
        ),
        config.top_k as nat,
    )
}

fn keep_best(best: &mut KeyMap<ChunkKey, Weight>, target: &ChunkKey, probability: Weight)
    ensures
        final(best)@ == merged(old(best)@, Map::empty().insert(target@, probability)),
{
    let ghost before = best@;
    let higher = match best.get(target) {
        Some(score) => ranks_below(*score, probability),
        None => true,
    };
    if higher {
        best.insert(clone_key(target), probability);
    }
    assert(best@ =~= merged(before, Map::empty().insert(target@, probability)));
}

fn add_evidence<F: Fn(WeightOp) -> Weight>(
    best: &mut KeyMap<ChunkKey, Weight>,
    config: &GlobalPrefetchConfig,
    state: &ManagerState,
    current: &KeySet<ChunkKey>,
    source: &SourceStats,
    now: Instant,
    weigh: &F,
)
    requires
        is_arithmetic(*weigh),
    ensures
        final(best)@ == merged(
            old(best)@,
            likely_targets(
                arithmetic_of(*weigh),
                *config,
                state@,
                current@,
                source@,
                source@.targets,
                now,
            ),
        ),
{
    let ghost w = arithmetic_of(*weigh);
    let ghost m = state@;
    let ghost before = best@;
    let ghost pairs = source.targets.pairs();
    let ghost empty = Map::<ChunkId, TargetStats>::empty();
    let total: Weight = decay(weigh, source.total, source.last_seen, now, config.half_life);
    if is_short_of(total, config.min_support) {
        assert(best@ =~= merged(
            before,
            likely_targets(w, *config, m, current@, source@, source@.targets, now),
        ));
        return ;
    }
    let len: usize = source.targets.len();
    let mut i: usize = 0;
    proof {
        assert(pairs_map(pairs.take(0)) =~= empty);
        assert(best@ =~= merged(
            before,
            likely_targets(w, *config, m, current@, source@, empty, now),
        ));
    }
    while i < len
        invariant
            is_arithmetic(*weigh),
            w == arithmetic_of(*weigh),
            m == state@,
            pairs == source.targets.pairs(),
            unique_keys(pairs),
            i <= len,
            len == pairs.len(),
            total == source_total(w, *config, source@, now),
            !falls_short(total, config.min_support),
            best@ == merged(
                before,
                likely_targets(
                    w,
                    *config,
                    m,
                    current@,
                    source@,
                    pairs_map(pairs.take(i as int)),
                    now,
                ),
            ),
        decreases len - i,
    {
        let target: &ChunkKey = source.targets.key_at(i);
        let stats: TargetStats = *source.targets.value_at(i);
        let ghost done = pairs_map(pairs.take(i as int));
        let ghost reached = best@;
        proof {
            lemma_take_next(pairs, i as int);
        }
        let ghost likely = is_likely(w, *config, m, current@, source@, target@, stats, now);
        if !current.contains(target) && !ignores_as_stable(config, state, target) {
            let support: Weight = decay(
                weigh,
                stats.support,
                stats.last_seen,
                now,
                config.half_life,
            );
            let probability: Weight = evaluate(
                weigh,
                WeightOp::Ratio { part: support, whole: total },
            );
            if has_reached(support, config.min_support) && has_reached(
                probability,
                config.min_probability,
            ) && state.catalog.contains_key(target) {
                keep_best(best, target, probability);
            }
        }
        proof {
            let more = likely_targets(
                w,
                *config,
                m,
                current@,
                source@,
                pairs_map(pairs.take(i + 1)),
                now,
            );
            let known = likely_targets(w, *config, m, current@, source@, done, now);
            if likely {
                assert(more =~= known.insert(
                    target@,
                    transition_probability(w, *config, source@, stats, now),
                ));
            } else {
                assert(more =~= known);
            }
            assert(best@ =~= merged(before, more));
        }
        i += 1;
    }
    assert(pairs.take(len as int) =~= pairs);
}

/// Predicts the chunks that are needed after `previous_chunks`.
pub fn predict<F: Fn(WeightOp) -> Weight>(
    config: &GlobalPrefetchConfig,
    state: &ManagerState,
    previous_chunks: &[ChunkKey],
    current_chunks: &KeySet<ChunkKey>,
    now: Instant,
    weigh: &F,
) -> (targets: Vec<ChunkKey>)
    requires
        is_arithmetic(*weigh),
    ensures
        ids(targets@) == best_candidates(
            arithmetic_of(*weigh),
            *config,
            state@,
            ids(previous_chunks@),
            current_chunks@,
            now,
        ),
        is_top(
            best_scores(
                arithmetic_of(*weigh),
                *config,
                state@,
                first(ids(previous_chunks@), config.max_observation_chunks as int),
                current_chunks@,
                now,
            ),
            config.top_k as nat,
            ids(targets@),
        ),
        best_scores(
            arithmetic_of(*weigh),
            *config,
            state@,
            first(ids(previous_chunks@), config.max_observation_chunks as int),
            current_chunks@,
            now,
        ).dom().finite(),
        targets@.len() <= config.top_k,
{
    let ghost w = arithmetic_of(*weigh);
    let ghost m = state@;
    let ghost all = ids(previous_chunks@);
    let mut best: KeyMap<ChunkKey, Weight> = KeyMap::new();
    let limit: usize = config.max_observation_chunks;
    let mut i: usize = 0;
    assert(all.take(0).len() == 0);
    while i < previous_chunks.len() && i < limit
        invariant
            is_arithmetic(*weigh),
            w == arithmetic_of(*weigh),
            m == state@,
            i <= previous_chunks@.len(),
            i <= limit,
            all == ids(previous_chunks@),
            best@ == best_scores(w, *config, m, all.take(i as int), current_chunks@, now),
        decreases previous_chunks@.len() - i,
    {
        let ghost reached = best@;
        proof {
            assert(all.take(i + 1).drop_last() =~= all.take(i as int));
            assert(all.take(i + 1).last() == previous_chunks@[i as int]@);
        }
        match state.sources.get(&previous_chunks[i]) {
            Some(source) => {
                add_evidence(&mut best, config, state, current_chunks, source, now, weigh);
            },
            None => {
                assert(merged(reached, Map::empty()) =~= reached);
            },
        }
        i += 1;
    }
    assert(all.take(i as int) =~= first(all, limit as int));
    proof {
        best.lemma_finite();
    }
    rank_top(&best, config.top_k)
}

/// A prediction counts with the highest probability that any of the previous
/// chunks gives it, and is made if any of them makes it likely.
pub proof fn law_score_is_the_highest(
    w: spec_fn(WeightOp) -> Weight,
    config: GlobalPrefetchConfig,
    m: ManagerModel,
    previous: Seq<ChunkId>,
    current: Set<ChunkId>,
    now: Instant,
    target: ChunkId,
)
    ensures
        best_scores(w, config, m, previous, current, now).contains_key(target) <==> exists|i: int|
            0 <= i < previous.len() && evidence(
                w,
                config,
                m,
                current,
                #[trigger] previous[i],
                now,
            ).contains_key(target),
        forall|i: int|
            0 <= i < previous.len() && evidence(
                w,
                config,
                m,
                current,
                #[trigger] previous[i],
                now,
            ).contains_key(target) ==> rank(
                evidence(w, config, m, current, previous[i], now)[target],
            ) <= rank(best_scores(w, config, m, previous, current, now)[target]),
        best_scores(w, config, m, previous, current, now).contains_key(target) ==> exists|i: int|
            0 <= i < previous.len() && evidence(
                w,
                config,
                m,
                current,
                #[trigger] previous[i],
                now,
            ).contains_key(target) && evidence(w, config, m, current, previous[i], now)[target]
                == best_scores(w, config, m, previous, current, now)[target],
    decreases previous.len(),
{
    if previous.len() > 0 {
        let init = previous.drop_last();
        law_score_is_the_highest(w, config, m, init, current, now, target);
        let before = best_scores(w, config, m, init, current, now);
        let last = evidence(w, config, m, current, previous.last(), now);
        assert(previous[previous.len() - 1] == previous.last());
        assert forall|i: int| 0 <= i < init.len() implies #[trigger] previous[i] == init[i] by {}
        if before.contains_key(target) {
            let i = choose|i: int|
                0 <= i < init.len() && evidence(
                    w,
                    config,
                    m,
                    current,
                    #[trigger] init[i],
                    now,
                ).contains_key(target) && evidence(w, config, m, current, init[i], now)[target]
                    == before[target];
            assert(previous[i] == init[i]);
        }
    }
}

pub proof fn lemma_scores_are_finite(
    w: spec_fn(WeightOp) -> Weight,
    config: GlobalPrefetchConfig,
    m: ManagerModel,
    previous: Seq<ChunkId>,
    current: Set<ChunkId>,
    now: Instant,
)
    requires
        targets_finite(m.sources),
    ensures
        best_scores(w, config, m, previous, current, now).dom().finite(),
    decreases previous.len(),
{
    if previous.len() > 0 {
        lemma_scores_are_finite(w, config, m, previous.drop_last(), current, now);
        let before = best_scores(w, config, m, previous.drop_last(), current, now);
        let last = evidence(w, config, m, current, previous.last(), now);
        if m.sources.contains_key(previous.last()) {
            let targets = m.sources[previous.last()].targets;
            assert(last.dom().subset_of(targets.dom()));
            vstd::set_lib::lemma_set_subset_finite(targets.dom(), last.dom());
        }
        assert(merged(before, last).dom() =~= before.dom().union(last.dom()));
    }
}

/// The predictions are the best-ranked ones among all likely targets.
pub proof fn law_predictions_are_the_ranking(
    w: spec_fn(WeightOp) -> Weight,
    config: GlobalPrefetchConfig,
    m: ManagerModel,
    previous: Seq<ChunkId>,
    current: Set<ChunkId>,
    now: Instant,
)
    requires
        targets_finite(m.sources),
    ensures
        is_top(
            best_scores(
                w,
                config,
                m,
                first(previous, config.max_observation_chunks as int),
                current,
                now,
            ),
            config.top_k as nat,
            best_candidates(w, config, m, previous, current, now),
        ),
{
    let sources = first(previous, config.max_observation_chunks as int);
    lemma_scores_are_finite(w, config, m, sources, current, now);
    law_ranking_exists(best_scores(w, config, m, sources, current, now), config.top_k as nat);
}

/// Only chunks that are known, no shared templates, and not part of the current
/// request are predicted; no more than `top_k`, each once, and each because some
/// previous chunk leads to it often and probably enough.
pub proof fn law_predictions_are_likely(
    w: spec_fn(WeightOp) -> Weight,
    config: GlobalPrefetchConfig,
    m: ManagerModel,
    previous: Seq<ChunkId>,
    current: Set<ChunkId>,
    now: Instant,
)
    requires
        targets_finite(m.sources),
    ensures
        ({
            let targets = best_candidates(w, config, m, previous, current, now);
            &&& targets.len() <= config.top_k
            &&& targets.no_duplicates()
            &&& forall|i: int|
                0 <= i < targets.len() ==> m.catalog.contains_key(#[trigger] targets[i])
                    && !current.contains(targets[i]) && !ignored_as_stable(config, m, targets[i])
                    && exists|j: int|
                    0 <= j < previous.len() && evidence(
                        w,
                        config,
                        m,
                        current,
                        #[trigger] previous[j],
                        now,
                    ).contains_key(targets[i])
        }),
{
    let targets = best_candidates(w, config, m, previous, current, now);
    let sources = first(previous, config.max_observation_chunks as int);
    let scores = best_scores(w, config, m, sources, current, now);
    law_predictions_are_the_ranking(w, config, m, previous, current, now);
    law_ranking_lists_once(scores, config.top_k as nat, targets);
    assert forall|i: int| 0 <= i < targets.len() implies m.catalog.contains_key(
        #[trigger] targets[i],
    ) && !current.contains(targets[i]) && !ignored_as_stable(config, m, targets[i]) && exists|
        j: int,
    |
        0 <= j < previous.len() && evidence(
            w,
            config,
            m,
            current,
            #[trigger] previous[j],
            now,
        ).contains_key(targets[i]) by {
        law_score_is_the_highest(w, config, m, sources, current, now, targets[i]);
        let j = choose|j: int|
            0 <= j < sources.len() && evidence(
                w,
                config,
                m,
                current,
                #[trigger] sources[j],
                now,
            ).contains_key(targets[i]);
        assert(sources[j] == previous[j]);
    }
}

/// A target with no more support than its source has transitions has a probability of
/// at most one, for any arithmetic in which a part of a positive whole is at most one.
pub proof fn law_probability_is_at_most_one(
    w: spec_fn(WeightOp) -> Weight,
    config: GlobalPrefetchConfig,
    source: SourceModel,
    target: ChunkId,
    now: Instant,
    until: Instant,
)
    requires
        support_within_total(w, source, config.half_life, until),
        source.targets.contains_key(target),
        source.last_seen.nanos <= now.nanos <= until.nanos,
        is_positive(source_total(w, config, source, now)),
        forall|part: Weight, whole: Weight|
            is_positive(whole) && part.bits <= whole.bits ==> (#[trigger] w(
                WeightOp::Ratio { part, whole },
            )).bits <= CERTAINTY,
    ensures
        transition_probability(w, config, source, source.targets[target], now).bits <= CERTAINTY,
{
    assert(target_within_total(w, source, target, now, config.half_life));
}

} // verus!
