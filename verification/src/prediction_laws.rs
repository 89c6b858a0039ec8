//! What the predictor promises of every prediction.

use crate::chunks::{
    chunk_before, first, ids, lemma_filter_membership, ChunkId, ChunkKey,
};
use crate::clock::{Duration, Instant};
use crate::global_prefetch::GlobalPrefetchManager;
use crate::key_map::{KeyMap, KeySet};
use crate::prediction::{best_scores, evidence, ignored_as_stable, law_score_is_the_highest};
use crate::ranking::{law_ranking_lists_once, outranks, rank_top, scored};
use crate::weights::{
    arithmetic_of, decayed, falls_short, rank, reaches, Weight, WeightOp,
};
use vstd::prelude::*;

verus! {

/// A weight that is not above zero decays to zero. Any other decays over the time since it
/// was last seen.
pub proof fn law_weights_decay_with_time(
    w: spec_fn(WeightOp) -> Weight,
    value: Weight,
    last_seen: Instant,
    now: Instant,
    half_life: Duration,
    age: Duration,
)
    ensures
        value.bits == 0 || 0x8000_0000_0000_0000 <= value.bits <= 0xFFF0_0000_0000_0000
            ==> decayed(w, value, last_seen, now, half_life).bits == 0,
        (0 < value.bits < 0x8000_0000_0000_0000 || value.bits > 0xFFF0_0000_0000_0000)
            && last_seen.nanos + age.nanos == now.nanos ==> decayed(
            w,
            value,
            last_seen,
            now,
            half_life,
        ) == w(WeightOp::Decay { value, age, half_life }),
        (0 < value.bits < 0x8000_0000_0000_0000 || value.bits > 0xFFF0_0000_0000_0000) && now.nanos
            < last_seen.nanos && age.nanos == 0 ==> decayed(w, value, last_seen, now, half_life)
            == w(WeightOp::Decay { value, age, half_life }),
{
}

/// Finite weights that are not negative are compared by their bits: one reaches another if
/// it is as large, and falls short of it if it is smaller. Nothing is below, nor as large
/// as, what is no number; negative numbers come before, in reverse.
pub proof fn law_weights_are_ordered_by_their_bits(a: Weight, b: Weight)
    ensures
        a.bits <= 0x7FF0_0000_0000_0000 && b.bits <= 0x7FF0_0000_0000_0000 ==> reaches(a, b) == (
        a.bits >= b.bits) && falls_short(a, b) == (a.bits < b.bits),
        0x8000_0000_0000_0000 <= a.bits <= 0xFFF0_0000_0000_0000 && 0x8000_0000_0000_0000 <= b.bits
            <= 0xFFF0_0000_0000_0000 ==> reaches(a, b) == (a.bits <= b.bits) && falls_short(a, b)
            == (a.bits > b.bits),
        0x8000_0000_0000_0000 < a.bits <= 0xFFF0_0000_0000_0000 && b.bits <= 0x7FF0_0000_0000_0000
            ==> falls_short(a, b) && !reaches(a, b) && reaches(b, a) && !falls_short(b, a),
        0x7FF0_0000_0000_0000 < a.bits < 0x8000_0000_0000_0000 || a.bits > 0xFFF0_0000_0000_0000
            ==> !reaches(a, b) && !reaches(b, a) && !falls_short(a, b) && !falls_short(b, a),
        a.bits < 0x8000_0000_0000_0000 && b.bits < 0x8000_0000_0000_0000 ==> (rank(a) < rank(b)) == (
        a.bits < b.bits),
        a.bits >= 0x8000_0000_0000_0000 && b.bits < 0x8000_0000_0000_0000 ==> rank(a) < rank(b),
        a.bits >= 0x8000_0000_0000_0000 && b.bits >= 0x8000_0000_0000_0000 ==> (rank(a) < rank(b))
            == (a.bits > b.bits),
{
}

/// Every predicted chunk followed one of the previous chunks often enough: that chunk was
/// left at least as often as the minimum support asks for, the predicted one followed it
/// at least that often, and the share of the two reaches the minimum probability, all
/// counts decayed to now. The predicted chunk is known, it is no shared template, and the
/// current request does not hold it.
pub proof fn law_predictions_have_support<F: Fn(WeightOp) -> Weight>(
    manager: &GlobalPrefetchManager,
    previous_chunks: &[ChunkKey],
    current_chunks: &KeySet<ChunkKey>,
    now: Instant,
    weigh: &F,
    targets: Vec<ChunkKey>,
    i: int,
)
    requires
        call_ensures(
            GlobalPrefetchManager::best_candidates_locked::<F>,
            (manager, previous_chunks, current_chunks, now, weigh),
            targets,
        ),
        0 <= i < targets@.len(),
    ensures
        ({
            let w = arithmetic_of(*weigh);
            let config = manager.config;
            let m = manager.state@;
            let target = targets@[i]@;
            &&& exists|j: int|
                {
                    let source = m.sources[(#[trigger] previous_chunks@[j])@];
                    let stats = source.targets[target];
                    let total = decayed(w, source.total, source.last_seen, now, config.half_life);
                    let support = decayed(
                        w,
                        stats.support,
                        stats.last_seen,
                        now,
                        config.half_life,
                    );
                    &&& 0 <= j < previous_chunks@.len()
                    &&& j < config.max_observation_chunks
                    &&& m.sources.contains_key(previous_chunks@[j]@)
                    &&& source.targets.contains_key(target)
                    &&& !falls_short(total, config.min_support)
                    &&& reaches(support, config.min_support)
                    &&& reaches(
                        w(WeightOp::Ratio { part: support, whole: total }),
                        config.min_probability,
                    )
                }
            &&& m.catalog.contains_key(target)
            &&& !current_chunks@.contains(target)
            &&& config.filter_stable_chunks && m.chunk_sessions.contains_key(target)
                ==> m.chunk_sessions[target].len() < config.stable_session_threshold
            &&& targets@.len() <= config.top_k
            &&& forall|k: int| 0 <= k < i ==> (#[trigger] targets@[k])@ != target
        }),
{
    let w = arithmetic_of(*weigh);
    let config = manager.config;
    let m = manager.state@;
    let all = ids(previous_chunks@);
    let sources = first(all, config.max_observation_chunks as int);
    let scores = best_scores(w, config, m, sources, current_chunks@, now);
    let top = ids(targets@);
    let target = targets@[i]@;
    assert(top[i] == target);
    assert(scores.contains_key(top[i]));
    law_score_is_the_highest(w, config, m, sources, current_chunks@, now, target);
    let j = choose|j: int|
        0 <= j < sources.len() && evidence(
            w,
            config,
            m,
            current_chunks@,
            #[trigger] sources[j],
            now,
        ).contains_key(target);
    assert(sources[j] == previous_chunks@[j]@);
    law_ranking_lists_once(scores, config.top_k as nat, top);
    assert forall|k: int| 0 <= k < i implies (#[trigger] targets@[k])@ != target by {
        assert(top[k] != top[i]);
    }
}

/// A chunk that followed none of the previous chunks often enough is never predicted.
pub proof fn law_weak_chunks_are_not_predicted<F: Fn(WeightOp) -> Weight>(
    manager: &GlobalPrefetchManager,
    previous_chunks: &[ChunkKey],
    current_chunks: &KeySet<ChunkKey>,
    now: Instant,
    weigh: &F,
    targets: Vec<ChunkKey>,
    weak: ChunkId,
)
    requires
        call_ensures(
            GlobalPrefetchManager::best_candidates_locked::<F>,
            (manager, previous_chunks, current_chunks, now, weigh),
            targets,
        ),
        forall|j: int|
            0 <= j < previous_chunks@.len() && manager.state@.sources.contains_key(
                (#[trigger] previous_chunks@[j])@,
            ) && manager.state@.sources[previous_chunks@[j]@].targets.contains_key(weak) ==> !reaches(
                decayed(
                    arithmetic_of(*weigh),
                    manager.state@.sources[previous_chunks@[j]@].targets[weak].support,
                    manager.state@.sources[previous_chunks@[j]@].targets[weak].last_seen,
                    now,
                    manager.config.half_life,
                ),
                manager.config.min_support,
            ),
    ensures
        forall|i: int| 0 <= i < targets@.len() ==> (#[trigger] targets@[i])@ != weak,
{
    assert forall|i: int| 0 <= i < targets@.len() implies (#[trigger] targets@[i])@ != weak by {
        law_predictions_have_support(
            manager,
            previous_chunks,
            current_chunks,
            now,
            weigh,
            targets,
            i,
        );
    }
}

/// A known chunk that followed some previous chunk often and probably enough, that is no
/// shared template and that the current request does not hold, is predicted unless there
/// are `top_k` predictions, each of them at least as probable.
pub proof fn law_likely_chunks_are_predicted<F: Fn(WeightOp) -> Weight>(
    manager: &GlobalPrefetchManager,
    previous_chunks: &[ChunkKey],
    current_chunks: &KeySet<ChunkKey>,
    now: Instant,
    weigh: &F,
    targets: Vec<ChunkKey>,
    likely: ChunkId,
    j: int,
)
    requires
        call_ensures(
            GlobalPrefetchManager::best_candidates_locked::<F>,
            (manager, previous_chunks, current_chunks, now, weigh),
            targets,
        ),
        0 <= j < previous_chunks@.len(),
        j < manager.config.max_observation_chunks,
        manager.state@.sources.contains_key(previous_chunks@[j]@),
        manager.state@.sources[previous_chunks@[j]@].targets.contains_key(likely),
        manager.state@.catalog.contains_key(likely),
        !current_chunks@.contains(likely),
        !(manager.config.filter_stable_chunks && manager.state@.chunk_sessions.contains_key(likely)
            && manager.state@.chunk_sessions[likely].len()
            >= manager.config.stable_session_threshold),
    ensures
        ({
            let w = arithmetic_of(*weigh);
            let config = manager.config;
            let m = manager.state@;
            let source = m.sources[previous_chunks@[j]@];
            let stats = source.targets[likely];
            let total = decayed(w, source.total, source.last_seen, now, config.half_life);
            let support = decayed(w, stats.support, stats.last_seen, now, config.half_life);
            let probability = w(WeightOp::Ratio { part: support, whole: total });
            !falls_short(total, config.min_support) && reaches(support, config.min_support)
                && reaches(probability, config.min_probability) ==> {
                ||| exists|i: int| 0 <= i < targets@.len() && (#[trigger] targets@[i])@ == likely
                ||| targets@.len() == config.top_k && forall|i: int|
                    0 <= i < targets@.len() ==> exists|k: int|
                        {
                            let other = m.sources[(#[trigger] previous_chunks@[k])@];
                            let known = other.targets[(#[trigger] targets@[i])@];
                            &&& 0 <= k < previous_chunks@.len()
                            &&& rank(probability) <= rank(
                                w(
                                    WeightOp::Ratio {
                                        part: decayed(
                                            w,
                                            known.support,
                                            known.last_seen,
                                            now,
                                            config.half_life,
                                        ),
                                        whole: decayed(
                                            w,
                                            other.total,
                                            other.last_seen,
                                            now,
                                            config.half_life,
                                        ),
                                    },
                                ),
                            )
                        }
            }
        }),
{
    let w = arithmetic_of(*weigh);
    let config = manager.config;
    let m = manager.state@;
    let all = ids(previous_chunks@);
    let sources = first(all, config.max_observation_chunks as int);
    let scores = best_scores(w, config, m, sources, current_chunks@, now);
    let top = ids(targets@);
    let source = m.sources[previous_chunks@[j]@];
    let stats = source.targets[likely];
    let total = decayed(w, source.total, source.last_seen, now, config.half_life);
    let support = decayed(w, stats.support, stats.last_seen, now, config.half_life);
    let probability = w(WeightOp::Ratio { part: support, whole: total });
    if !falls_short(total, config.min_support) && reaches(support, config.min_support) && reaches(
        probability,
        config.min_probability,
    ) {
        assert(sources[j] == previous_chunks@[j]@);
        let found = evidence(w, config, m, current_chunks@, sources[j], now);
        assert(found.contains_key(likely) && found[likely] == probability);
        law_score_is_the_highest(w, config, m, sources, current_chunks@, now, likely);
        assert(scores.contains_key(likely));
        assert(rank(found[likely]) <= rank(scores[likely]));
        if top.contains(likely) {
            let i = choose|i: int| 0 <= i < top.len() && top[i] == likely;
            assert(targets@[i]@ == likely);
        } else {
            if top.len() == scores.len() {
                law_ranking_lists_once(scores, config.top_k as nat, top);
                top.unique_seq_to_set();
                assert(top.to_set().subset_of(scores.dom())) by {
                    assert forall|id: ChunkId| top.to_set().contains(id) implies scores.dom().contains(
                        id,
                    ) by {
                        let i = choose|i: int| 0 <= i < top.len() && top[i] == id;
                        assert(scores.contains_key(top[i]));
                    }
                }
                if config.top_k != targets@.len() {
                    vstd::set_lib::lemma_subset_equality(top.to_set(), scores.dom());
                    assert(top.to_set().contains(likely));
                }
            }
            assert forall|i: int| 0 <= i < targets@.len() implies exists|k: int|
                {
                    let other = m.sources[(#[trigger] previous_chunks@[k])@];
                    let known = other.targets[(#[trigger] targets@[i])@];
                    &&& 0 <= k < previous_chunks@.len()
                    &&& rank(probability) <= rank(
                        w(
                            WeightOp::Ratio {
                                part: decayed(
                                    w,
                                    known.support,
                                    known.last_seen,
                                    now,
                                    config.half_life,
                                ),
                                whole: decayed(
                                    w,
                                    other.total,
                                    other.last_seen,
                                    now,
                                    config.half_life,
                                ),
                            },
                        ),
                    )
                } by {
                let target = targets@[i]@;
                assert(top[i] == target);
                assert(scores.contains_key(top[i]));
                assert(outranks(scored(scores, top[i]), scored(scores, likely)));
                law_score_is_the_highest(w, config, m, sources, current_chunks@, now, target);
                let k = choose|k: int|
                    0 <= k < sources.len() && evidence(
                        w,
                        config,
                        m,
                        current_chunks@,
                        #[trigger] sources[k],
                        now,
                    ).contains_key(target) && evidence(
                        w,
                        config,
                        m,
                        current_chunks@,
                        sources[k],
                        now,
                    )[target] == scores[target];
                assert(sources[k] == previous_chunks@[k]@);
            }
        }
    }
}

/// Predictions come in order of their probability: of two, no previous chunk gives the
/// later one a higher probability than some previous chunk gives the earlier one.
pub proof fn law_predictions_are_ranked<F: Fn(WeightOp) -> Weight>(
    manager: &GlobalPrefetchManager,
    previous_chunks: &[ChunkKey],
    current_chunks: &KeySet<ChunkKey>,
    now: Instant,
    weigh: &F,
    targets: Vec<ChunkKey>,
    a: int,
    b: int,
    j: int,
)
    requires
        call_ensures(
            GlobalPrefetchManager::best_candidates_locked::<F>,
            (manager, previous_chunks, current_chunks, now, weigh),
            targets,
        ),
        0 <= a < b < targets@.len(),
        0 <= j < previous_chunks@.len(),
        j < manager.config.max_observation_chunks,
        manager.state@.sources.contains_key(previous_chunks@[j]@),
        manager.state@.sources[previous_chunks@[j]@].targets.contains_key(targets@[b]@),
    ensures
        ({
            let w = arithmetic_of(*weigh);
            let config = manager.config;
            let m = manager.state@;
            let source = m.sources[previous_chunks@[j]@];
            let stats = source.targets[targets@[b]@];
            let total = decayed(w, source.total, source.last_seen, now, config.half_life);
            let support = decayed(w, stats.support, stats.last_seen, now, config.half_life);
            let probability = w(WeightOp::Ratio { part: support, whole: total });
            !falls_short(total, config.min_support) && reaches(support, config.min_support)
                && reaches(probability, config.min_probability) ==> exists|k: int|
                {
                    let other = m.sources[(#[trigger] previous_chunks@[k])@];
                    let known = other.targets[targets@[a]@];
                    &&& 0 <= k < previous_chunks@.len()
                    &&& m.sources.contains_key(previous_chunks@[k]@)
                    &&& other.targets.contains_key(targets@[a]@)
                    &&& rank(probability) <= rank(
                        w(
                            WeightOp::Ratio {
                                part: decayed(
                                    w,
                                    known.support,
                                    known.last_seen,
                                    now,
                                    config.half_life,
                                ),
                                whole: decayed(
                                    w,
                                    other.total,
                                    other.last_seen,
                                    now,
                                    config.half_life,
                                ),
                            },
                        ),
                    )
                }
        }),
{
    let w = arithmetic_of(*weigh);
    let config = manager.config;
    let m = manager.state@;
    let sources = first(ids(previous_chunks@), config.max_observation_chunks as int);
    let scores = best_scores(w, config, m, sources, current_chunks@, now);
    let top = ids(targets@);
    assert(top[a] == targets@[a]@ && top[b] == targets@[b]@);
    assert(scores.contains_key(top[a]) && scores.contains_key(top[b]));
    assert(outranks(scored(scores, top[a]), scored(scores, top[b])));
    law_predictions_have_support(manager, previous_chunks, current_chunks, now, weigh, targets, b);
    law_score_is_the_highest(w, config, m, sources, current_chunks@, now, top[a]);
    law_score_is_the_highest(w, config, m, sources, current_chunks@, now, top[b]);
    assert(sources[j] == previous_chunks@[j]@);
    let source = m.sources[previous_chunks@[j]@];
    let stats = source.targets[targets@[b]@];
    let total = decayed(w, source.total, source.last_seen, now, config.half_life);
    let support = decayed(w, stats.support, stats.last_seen, now, config.half_life);
    let probability = w(WeightOp::Ratio { part: support, whole: total });
    if !falls_short(total, config.min_support) && reaches(support, config.min_support) && reaches(
        probability,
        config.min_probability,
    ) {
        let found = evidence(w, config, m, current_chunks@, sources[j], now);
        assert(found.contains_key(top[b]) && found[top[b]] == probability);
        let k = choose|k: int|
            0 <= k < sources.len() && evidence(
                w,
                config,
                m,
                current_chunks@,
                #[trigger] sources[k],
                now,
            ).contains_key(top[a]) && evidence(
                w,
                config,
                m,
                current_chunks@,
                sources[k],
                now,
            )[top[a]] == scores[top[a]];
        assert(sources[k] == previous_chunks@[k]@);
    }
}

/// A chunk counts as a shared template exactly when templates are to be left out and at
/// least as many sessions as the threshold says have shown it.
pub proof fn law_templates_are_shown_by_many(
    manager: &GlobalPrefetchManager,
    chunk: &ChunkKey,
    stable: bool,
)
    requires
        call_ensures(GlobalPrefetchManager::chunk_is_stable, (manager, chunk), stable),
    ensures
        stable == (manager.config.filter_stable_chunks && manager.state@.chunk_sessions.contains_key(
            chunk@,
        ) && manager.state@.chunk_sessions[chunk@].len()
            >= manager.config.stable_session_threshold),
{
}

/// What is left for learning are the first chunks, as many as the limit says, without the
/// shared templates and in their order.
pub proof fn law_templates_are_left_out(
    manager: &GlobalPrefetchManager,
    chunks: &[ChunkKey],
    left: Vec<ChunkKey>,
    i: int,
)
    requires
        call_ensures(GlobalPrefetchManager::filter_stable_chunks, (manager, chunks), left),
    ensures
        0 <= i < chunks@.len() && i < manager.config.max_observation_chunks ==> (!(
        manager.config.filter_stable_chunks && manager.state@.chunk_sessions.contains_key(
            chunks@[i]@,
        ) && manager.state@.chunk_sessions[chunks@[i]@].len()
            >= manager.config.stable_session_threshold) <==> exists|k: int|
            0 <= k < left@.len() && (#[trigger] left@[k])@ == chunks@[i]@),
        0 <= i < left@.len() ==> exists|k: int|
            0 <= k < chunks@.len() && k < manager.config.max_observation_chunks && (
            #[trigger] chunks@[k])@ == left@[i]@,
        left@.len() <= chunks@.len(),
        left@.len() <= manager.config.max_observation_chunks,
{
    let config = manager.config;
    let m = manager.state@;
    let limit = config.max_observation_chunks as int;
    let all = ids(chunks@);
    let some = first(all, limit);
    let keep = |chunk: ChunkId| !ignored_as_stable(config, m, chunk);
    assert(ids(left@) == some.filter(keep));
    some.lemma_filter_len(keep);
    if 0 <= i < chunks@.len() && i < limit {
        let id = chunks@[i]@;
        assert(some[i] == id);
        lemma_filter_membership(some, keep, id);
        if ids(left@).contains(id) {
            let k = choose|k: int| 0 <= k < ids(left@).len() && ids(left@)[k] == id;
            assert(left@[k]@ == id);
        }
        if exists|k: int| 0 <= k < left@.len() && (#[trigger] left@[k])@ == id {
            let k = choose|k: int| 0 <= k < left@.len() && (#[trigger] left@[k])@ == id;
            assert(ids(left@)[k] == id);
        }
    }
    if 0 <= i < left@.len() {
        let id = left@[i]@;
        assert(ids(left@)[i] == id);
        lemma_filter_membership(some, keep, id);
        let k = choose|k: int| 0 <= k < some.len() && some[k] == id;
        assert(chunks@[k]@ == id);
    }
}

/// The best-ranked chunks are listed: as many as asked for or all there are, by their score
/// from the highest, and of equal scores by the order of the chunks. What is not listed
/// ranks after all that is.
pub proof fn law_best_scores_come_first(
    scores: &KeyMap<ChunkKey, Weight>,
    k: usize,
    top: Vec<ChunkKey>,
    a: int,
    b: int,
    other: ChunkId,
)
    requires
        call_ensures(rank_top, (scores, k), top),
    ensures
        top@.len() <= k,
        top@.len() == k || top@.len() == scores@.len(),
        0 <= a < top@.len() ==> scores@.contains_key(top@[a]@),
        0 <= a < b < top@.len() ==> rank(scores@[top@[a]@]) > rank(scores@[top@[b]@]) || rank(
            scores@[top@[a]@],
        ) == rank(scores@[top@[b]@]) && chunk_before(top@[a]@, top@[b]@),
        scores@.contains_key(other) && 0 <= a < top@.len() ==> (exists|i: int|
            0 <= i < top@.len() && (#[trigger] top@[i])@ == other) || rank(scores@[top@[a]@])
            > rank(scores@[other]) || rank(scores@[top@[a]@]) == rank(scores@[other])
            && chunk_before(top@[a]@, other),
{
    let listed = ids(top@);
    assert(listed.len() == top@.len());
    if 0 <= a < top@.len() {
        assert(listed[a] == top@[a]@);
        assert(scores@.contains_key(listed[a]));
        if a < b < top@.len() {
            assert(listed[b] == top@[b]@);
            assert(outranks(scored(scores@, listed[a]), scored(scores@, listed[b])));
        }
        if scores@.contains_key(other) {
            if listed.contains(other) {
                let i = choose|i: int| 0 <= i < listed.len() && listed[i] == other;
                assert(top@[i]@ == other);
            } else {
                assert(outranks(scored(scores@, listed[a]), scored(scores@, other)));
            }
        }
    }
}

} // verus!
