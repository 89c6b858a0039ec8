//! What the predictor promises of everything it learns.

use crate::associations::{
    counted_targets, fresh_source, law_targets_count_once,
    lemma_counted_targets_are_finite, lemma_other_sources_stay, observed_sources,
    record_source_targets, recorded, source_seen,
    target_scores, targets_finite, trim_targets, trimmed,
    trimmed_targets, SourceModel, SourceStats, TargetStats,
};
use crate::chunks::{
    differs_from, distinct, first, ids, lemma_distinct, lemma_filter_membership,
    lemma_filter_no_duplicates, ref_ids, ChunkId, ChunkKey,
};
use crate::clock::{Duration, Instant};
use crate::global_prefetch::GlobalPrefetchManager;
use crate::ranking::{law_ranking_exists, law_ranking_lists_once, outranks, scored, top_of};
use crate::weights::{arithmetic_of, decayed, rank, Weight, WeightOp};
use vstd::prelude::*;

verus! {

/// A previous chunk that differs from some current one has been left for all that differ.
pub proof fn lemma_source_is_observed(
    w: spec_fn(WeightOp) -> Weight,
    sources: Map<ChunkId, SourceModel>,
    previous: Seq<ChunkId>,
    current: Seq<ChunkId>,
    top_k: nat,
    now: Instant,
    half_life: Duration,
    source: ChunkId,
    target: ChunkId,
)
    requires
        previous.no_duplicates(),
        previous.contains(source),
        current.contains(target),
        target != source,
    ensures
        ({
            let after = observed_sources(w, sources, previous, current, top_k, now, half_life);
            let base = if sources.contains_key(source) {
                sources[source]
            } else {
                fresh_source(now)
            };
            let seen = current.filter(differs_from(source));
            &&& after.contains_key(source)
            &&& after[source] == trimmed(
                w,
                recorded(w, base, seen, now, half_life),
                top_k,
                now,
                half_life,
            )
        }),
    decreases previous.len(),
{
    let init = previous.drop_last();
    let last = previous.last();
    assert(previous.len() > 0);
    assert(previous[previous.len() - 1] == last);
    assert(init.no_duplicates()) by {
        assert forall|i: int, j: int| 0 <= i < init.len() && 0 <= j < init.len() && i
            != j implies init[i] != init[j] by {
            assert(previous[i] != previous[j]);
        }
    }
    if last == source {
        assert(!init.contains(source)) by {
            if init.contains(source) {
                let i = choose|i: int| 0 <= i < init.len() && init[i] == source;
                assert(previous[i] != previous[previous.len() - 1]);
            }
        }
        lemma_other_sources_stay(w, sources, init, current, top_k, now, half_life, source);
        lemma_filter_membership(current, differs_from(source), target);
        assert(current.filter(differs_from(source)).len() > 0);
    } else {
        let i = choose|i: int| 0 <= i < previous.len() && previous[i] == source;
        assert(init[i] == source);
        lemma_source_is_observed(
            w,
            sources,
            init,
            current,
            top_k,
            now,
            half_life,
            source,
            target,
        );
    }
}

/// Counting adds no more targets than were seen.
proof fn lemma_counted_targets_len(
    w: spec_fn(WeightOp) -> Weight,
    targets: Map<ChunkId, TargetStats>,
    seen: Seq<ChunkId>,
    now: Instant,
    half_life: Duration,
)
    requires
        targets.dom().finite(),
    ensures
        counted_targets(w, targets, seen, now, half_life).len() <= targets.len() + seen.len(),
    decreases seen.len(),
{
    if seen.len() > 0 {
        lemma_counted_targets_len(w, targets, seen.drop_last(), now, half_life);
        lemma_counted_targets_are_finite(w, targets, seen.drop_last(), now, half_life);
    }
}

pub proof fn lemma_distinct_is_shorter<A>(s: Seq<A>)
    ensures
        distinct(s).len() <= s.len(),
    decreases s.len(),
{
    if s.len() > 0 {
        lemma_distinct_is_shorter(s.drop_last());
    }
}

pub proof fn lemma_observed_sources_finite(
    w: spec_fn(WeightOp) -> Weight,
    sources: Map<ChunkId, SourceModel>,
    previous: Seq<ChunkId>,
    current: Seq<ChunkId>,
    top_k: nat,
    now: Instant,
    half_life: Duration,
)
    requires
        sources.dom().finite(),
    ensures
        observed_sources(w, sources, previous, current, top_k, now, half_life).dom().finite(),
    decreases previous.len(),
{
    if previous.len() > 0 {
        lemma_observed_sources_finite(
            w,
            sources,
            previous.drop_last(),
            current,
            top_k,
            now,
            half_life,
        );
    }
}

/// A part of a finite map that is as large as the map lacks nothing.
pub proof fn lemma_part_as_large<A, B>(part: Map<A, B>, all: Map<A, B>, key: A)
    requires
        part.submap_of(all),
        all.dom().finite(),
        part.len() == all.len(),
        all.contains_key(key),
    ensures
        part.contains_key(key),
{
    assert(part.dom().subset_of(all.dom()));
    vstd::set_lib::lemma_set_subset_finite(all.dom(), part.dom());
    vstd::set_lib::lemma_subset_equality(part.dom(), all.dom());
    assert(part.dom().contains(key));
}

/// What one transition does to its source: its count goes up by one, and so does that of
/// each chunk it led to. Only if there are now more than twice `top_k` are some dropped;
/// then the `top_k` with the highest counts stay.
pub proof fn lemma_transition_is_counted(
    w: spec_fn(WeightOp) -> Weight,
    base: SourceModel,
    seen: Seq<ChunkId>,
    top_k: nat,
    now: Instant,
    half_life: Duration,
    target: ChunkId,
)
    requires
        base.targets.dom().finite(),
        seen.no_duplicates(),
    ensures
        ({
            let after = trimmed(w, recorded(w, base, seen, now, half_life), top_k, now, half_life);
            let earlier = if base.targets.contains_key(target) {
                decayed(
                    w,
                    base.targets[target].support,
                    base.targets[target].last_seen,
                    now,
                    half_life,
                )
            } else {
                Weight { bits: 0 }
            };
            let stats = if seen.contains(target) {
                TargetStats {
                    support: w(WeightOp::Increment { value: earlier }),
                    last_seen: now,
                }
            } else {
                base.targets[target]
            };
            &&& after.last_seen == now
            &&& after.total == w(
                WeightOp::Increment {
                    value: decayed(w, base.total, base.last_seen, now, half_life),
                },
            )
            &&& after.targets.contains_key(target) ==> (seen.contains(target)
                || base.targets.contains_key(target)) && after.targets[target] == stats
            &&& (seen.contains(target) || base.targets.contains_key(target))
                && !after.targets.contains_key(target) ==> {
                &&& after.targets.len() == top_k
                &&& base.targets.len() + seen.len() > 2 * top_k
                &&& forall|other: ChunkId| #[trigger]
                    after.targets.contains_key(other) ==> rank(
                        decayed(w, stats.support, stats.last_seen, now, half_life),
                    ) <= rank(
                        decayed(
                            w,
                            after.targets[other].support,
                            after.targets[other].last_seen,
                            now,
                            half_life,
                        ),
                    )
            }
        }),
{
    let all = counted_targets(w, base.targets, seen, now, half_life);
    law_targets_count_once(w, base.targets, seen, now, half_life);
    lemma_counted_targets_are_finite(w, base.targets, seen, now, half_life);
    lemma_counted_targets_len(w, base.targets, seen, now, half_life);
    let none = Weight { bits: 0 };
    assert(decayed(w, none, now, now, half_life) == none);
    let left = trimmed_targets(w, all, top_k, now, half_life);
    if all.len() > 2 * top_k {
        let scores = target_scores(w, all, now, half_life);
        assert(scores.dom() =~= all.dom());
        law_ranking_exists(scores, top_k);
        let top = top_of(scores, top_k);
        law_ranking_lists_once(scores, top_k, top);
        top.unique_seq_to_set();
        assert(left.dom() =~= top.to_set()) by {
            assert forall|id: ChunkId| #[trigger] left.dom().contains(id) <==> top.to_set().contains(
                id,
            ) by {
                if top.contains(id) {
                    let i = choose|i: int| 0 <= i < top.len() && top[i] == id;
                    assert(scores.contains_key(top[i]));
                }
            }
        }
        if all.contains_key(target) && !left.contains_key(target) {
            assert(!top.contains(target));
            assert forall|other: ChunkId| #[trigger] left.contains_key(other) implies rank(
                scores[target],
            ) <= rank(scores[other]) by {
                assert(top.contains(other));
                let i = choose|i: int| 0 <= i < top.len() && top[i] == other;
                assert(scores.contains_key(target));
                assert(outranks(scored(scores, top[i]), scored(scores, target)));
            }
            assert forall|other: ChunkId| #[trigger] left.contains_key(other) implies scores[other]
                == decayed(w, left[other].support, left[other].last_seen, now, half_life) by {
                assert(all.contains_key(other));
            }
        }
    }
}

/// After a transition, each of the first previous chunks is a source that was left once
/// more, for every one of the first current chunks that differs from it: both counts are
/// the decayed earlier ones plus one. A source is forgotten only if there are too many,
/// and then for more recent ones; a target only if its source has more than twice `top_k`,
/// and then for better supported ones.
pub proof fn law_transitions_are_counted<F: Fn(WeightOp) -> Weight>(
    manager: &mut GlobalPrefetchManager,
    previous_chunks: &[ChunkKey],
    current_chunks: &[ChunkKey],
    now: Instant,
    weigh: &F,
    i: int,
    k: int,
)
    requires
        call_ensures(
            GlobalPrefetchManager::observe_transition_locked::<F>,
            (manager, previous_chunks, current_chunks, now, weigh),
            (),
        ),
        old(manager).state@.sources.dom().finite(),
        targets_finite(old(manager).state@.sources),
        0 <= i < previous_chunks@.len(),
        i < old(manager).config.max_observation_chunks,
        0 <= k < current_chunks@.len(),
        k < old(manager).config.max_observation_chunks,
        previous_chunks@[i]@ != current_chunks@[k]@,
    ensures
        ({
            let w = arithmetic_of(*weigh);
            let config = old(manager).config;
            let source = previous_chunks@[i]@;
            let target = current_chunks@[k]@;
            let before = old(manager).state@.sources;
            let after = final(manager).state@.sources;
            let zero = Weight { bits: 0 };
            let known = before.contains_key(source);
            let left_before = if known {
                decayed(
                    w,
                    before[source].total,
                    before[source].last_seen,
                    now,
                    config.half_life,
                )
            } else {
                zero
            };
            let had = known && before[source].targets.contains_key(target);
            let support_before = if had {
                decayed(
                    w,
                    before[source].targets[target].support,
                    before[source].targets[target].last_seen,
                    now,
                    config.half_life,
                )
            } else {
                zero
            };
            let support = w(WeightOp::Increment { value: support_before });
            &&& after.contains_key(source) ==> {
                &&& after[source].last_seen == now
                &&& after[source].total == w(WeightOp::Increment { value: left_before })
                &&& after[source].targets.contains_key(target) ==> after[source].targets[target]
                    == (TargetStats { support, last_seen: now })
                &&& !after[source].targets.contains_key(target) ==> {
                    &&& after[source].targets.len() == config.top_k
                    &&& (if known {
                        before[source].targets.len()
                    } else {
                        0
                    }) + current_chunks@.len() > 2 * config.top_k
                    &&& forall|other: ChunkId| #[trigger]
                        after[source].targets.contains_key(other) ==> rank(
                            decayed(w, support, now, now, config.half_life),
                        ) <= rank(
                            decayed(
                                w,
                                after[source].targets[other].support,
                                after[source].targets[other].last_seen,
                                now,
                                config.half_life,
                            ),
                        )
                }
            }
            &&& !after.contains_key(source) ==> {
                &&& after.len() == config.max_chunk_catalog
                &&& forall|other: ChunkId| #[trigger]
                    after.contains_key(other) ==> after[other].last_seen.nanos >= now.nanos
            }
        }),
{
    let w = arithmetic_of(*weigh);
    let config = old(manager).config;
    let limit = config.max_observation_chunks as int;
    let source = previous_chunks@[i]@;
    let target = current_chunks@[k]@;
    let before = old(manager).state@.sources;
    let after = final(manager).state@.sources;
    let top_k = config.top_k as nat;
    let few = first(ids(previous_chunks@), limit);
    let previous = distinct(few);
    let some = first(ids(current_chunks@), limit);
    let current = distinct(some);
    lemma_distinct(few);
    lemma_distinct(some);
    assert(few[i] == source);
    assert(some[k] == target);
    assert(previous.contains(source) && current.contains(target));
    let all = observed_sources(w, before, previous, current, top_k, now, config.half_life);
    lemma_source_is_observed(
        w,
        before,
        previous,
        current,
        top_k,
        now,
        config.half_life,
        source,
        target,
    );
    let base = if before.contains_key(source) {
        before[source]
    } else {
        fresh_source(now)
    };
    let seen = current.filter(differs_from(source));
    lemma_filter_no_duplicates(current, differs_from(source));
    lemma_filter_membership(current, differs_from(source), target);
    lemma_transition_is_counted(w, base, seen, top_k, now, config.half_life, target);
    current.lemma_filter_len(differs_from(source));
    lemma_distinct_is_shorter(some);
    let zero = Weight { bits: 0 };
    assert(decayed(w, zero, now, now, config.half_life) == zero);
    if after.contains_key(source) {
        assert(after.dom().contains(source) && all[source] == after[source]);
    } else {
        assert(all.contains_key(source));
        assert forall|other: ChunkId| #[trigger]
            after.contains_key(other) implies after[other].last_seen.nanos >= now.nanos by {
            assert(after.dom().contains(other) && all.dom().contains(other));
            assert(all[other] == after[other]);
            assert(source_seen()(all[source]).nanos <= source_seen()(all[other]).nanos);
        }
        lemma_observed_sources_finite(
            w,
            before,
            previous,
            current,
            top_k,
            now,
            config.half_life,
        );
        if after.len() == all.len() {
            lemma_part_as_large(after, all, source);
        }
    }
}

/// A transition touches nothing but the first previous chunks, and of those none that all
/// the first current chunks equal: no chunk follows itself.
pub proof fn law_other_sources_are_untouched<F: Fn(WeightOp) -> Weight>(
    manager: &mut GlobalPrefetchManager,
    previous_chunks: &[ChunkKey],
    current_chunks: &[ChunkKey],
    now: Instant,
    weigh: &F,
    id: ChunkId,
)
    requires
        call_ensures(
            GlobalPrefetchManager::observe_transition_locked::<F>,
            (manager, previous_chunks, current_chunks, now, weigh),
            (),
        ),
        (forall|i: int|
            0 <= i < previous_chunks@.len() && i < old(manager).config.max_observation_chunks ==> (
            #[trigger] previous_chunks@[i])@ != id) || (forall|k: int|
            0 <= k < current_chunks@.len() && k < old(manager).config.max_observation_chunks ==> (
            #[trigger] current_chunks@[k])@ == id),
    ensures
        final(manager).state@.sources.contains_key(id) ==> old(
            manager,
        ).state@.sources.contains_key(id) && final(manager).state@.sources[id] == old(
            manager,
        ).state@.sources[id],
        final(manager).state@.catalog == old(manager).state@.catalog,
        final(manager).state@.catalog_order == old(manager).state@.catalog_order,
        final(manager).state@.sessions == old(manager).state@.sessions,
        final(manager).state@.inflight == old(manager).state@.inflight,
        final(manager).state@.chunk_sessions == old(manager).state@.chunk_sessions,
{
    let w = arithmetic_of(*weigh);
    let config = old(manager).config;
    let limit = config.max_observation_chunks as int;
    let before = old(manager).state@.sources;
    let after = final(manager).state@.sources;
    let top_k = config.top_k as nat;
    let few = first(ids(previous_chunks@), limit);
    let previous = distinct(few);
    let some = first(ids(current_chunks@), limit);
    let current = distinct(some);
    lemma_distinct(few);
    lemma_distinct(some);
    let all = observed_sources(w, before, previous, current, top_k, now, config.half_life);
    if forall|i: int|
        0 <= i < previous_chunks@.len() && i < limit ==> (#[trigger] previous_chunks@[i])@ != id {
        if previous.contains(id) {
            let i = choose|i: int| 0 <= i < few.len() && few[i] == id;
            assert(previous_chunks@[i]@ == id);
        }
        lemma_other_sources_stay(w, before, previous, current, top_k, now, config.half_life, id);
    } else {
        assert forall|x: ChunkId| current.contains(x) implies x == id by {
            let k = choose|k: int| 0 <= k < some.len() && some[k] == x;
            assert(current_chunks@[k]@ == x);
        }
        lemma_self_is_no_target(w, before, previous, current, top_k, now, config.half_life, id);
    }
    if after.contains_key(id) {
        assert(after.dom().contains(id) && all.dom().contains(id));
        assert(all[id] == after[id]);
    }
}

proof fn lemma_self_is_no_target(
    w: spec_fn(WeightOp) -> Weight,
    sources: Map<ChunkId, SourceModel>,
    previous: Seq<ChunkId>,
    current: Seq<ChunkId>,
    top_k: nat,
    now: Instant,
    half_life: Duration,
    id: ChunkId,
)
    requires
        forall|x: ChunkId| current.contains(x) ==> x == id,
    ensures
        ({
            let after = observed_sources(w, sources, previous, current, top_k, now, half_life);
            after.contains_key(id) == sources.contains_key(id) && after[id] == sources[id]
        }),
    decreases previous.len(),
{
    if previous.len() > 0 {
        lemma_self_is_no_target(
            w,
            sources,
            previous.drop_last(),
            current,
            top_k,
            now,
            half_life,
            id,
        );
        let seen = current.filter(differs_from(id));
        if seen.len() > 0 {
            lemma_filter_membership(current, differs_from(id), seen[0]);
            assert(seen.contains(seen[0]));
        }
    }
}

/// One transition adds one to the decayed count of its source, and to that of each chunk it
/// led to; other chunks keep theirs.
pub proof fn law_one_transition_is_recorded<F: Fn(WeightOp) -> Weight>(
    source: &mut SourceStats,
    targets: &[&ChunkKey],
    now: Instant,
    half_life: Duration,
    weigh: &F,
    target: ChunkId,
)
    requires
        call_ensures(
            record_source_targets::<F>,
            (source, targets, now, half_life, weigh),
            (),
        ),
        ref_ids(targets@).no_duplicates(),
    ensures
        ({
            let w = arithmetic_of(*weigh);
            let before = old(source)@;
            let after = final(source)@;
            let led = exists|i: int|
                0 <= i < targets@.len() && (#[trigger] targets@[i])@ == target;
            let earlier = if before.targets.contains_key(target) {
                decayed(
                    w,
                    before.targets[target].support,
                    before.targets[target].last_seen,
                    now,
                    half_life,
                )
            } else {
                Weight { bits: 0 }
            };
            &&& after.last_seen == now
            &&& after.total == w(
                WeightOp::Increment {
                    value: decayed(w, before.total, before.last_seen, now, half_life),
                },
            )
            &&& after.targets.contains_key(target) <==> before.targets.contains_key(target) || led
            &&& led ==> after.targets[target] == (TargetStats {
                support: w(WeightOp::Increment { value: earlier }),
                last_seen: now,
            })
            &&& !led && before.targets.contains_key(target) ==> after.targets[target]
                == before.targets[target]
        }),
{
    let w = arithmetic_of(*weigh);
    let seen = ref_ids(targets@);
    law_targets_count_once(w, old(source)@.targets, seen, now, half_life);
    let none = Weight { bits: 0 };
    assert(decayed(w, none, now, now, half_life) == none);
    if seen.contains(target) {
        let i = choose|i: int| 0 <= i < seen.len() && seen[i] == target;
        assert(targets@[i]@ == target);
    }
    if exists|i: int| 0 <= i < targets@.len() && (#[trigger] targets@[i])@ == target {
        let i = choose|i: int| 0 <= i < targets@.len() && (#[trigger] targets@[i])@ == target;
        assert(seen[i] == target);
    }
}

/// Up to twice `top_k` targets all stay. Of more, the `top_k` with the highest decayed
/// counts do.
pub proof fn law_weak_targets_are_dropped<F: Fn(WeightOp) -> Weight>(
    source: &mut SourceStats,
    top_k: usize,
    now: Instant,
    half_life: Duration,
    weigh: &F,
    gone: ChunkId,
    stays: ChunkId,
)
    requires
        call_ensures(trim_targets::<F>, (source, top_k, now, half_life, weigh), ()),
    ensures
        ({
            let w = arithmetic_of(*weigh);
            let before = old(source)@;
            let after = final(source)@;
            let count = |id: ChunkId|
                rank(
                    decayed(
                        w,
                        before.targets[id].support,
                        before.targets[id].last_seen,
                        now,
                        half_life,
                    ),
                );
            &&& after.total == before.total
            &&& after.last_seen == before.last_seen
            &&& before.targets.len() <= 2 * top_k ==> after.targets == before.targets
            &&& before.targets.len() > 2 * top_k ==> after.targets.len() == top_k
            &&& after.targets.contains_key(stays) ==> before.targets.contains_key(stays)
                && after.targets[stays] == before.targets[stays]
            &&& after.targets.contains_key(stays) && before.targets.contains_key(gone)
                && !after.targets.contains_key(gone) ==> count(gone) <= count(stays)
        }),
{
    let w = arithmetic_of(*weigh);
    let all = old(source)@.targets;
    let left = final(source)@.targets;
    old(source).targets.lemma_finite();
    if all.len() > 2 * top_k {
        let scores = target_scores(w, all, now, half_life);
        assert(scores.dom() =~= all.dom());
        law_ranking_exists(scores, top_k as nat);
        let top = top_of(scores, top_k as nat);
        law_ranking_lists_once(scores, top_k as nat, top);
        top.unique_seq_to_set();
        assert forall|id: ChunkId| #[trigger] left.dom().contains(id) <==> top.to_set().contains(
            id,
        ) by {
            if top.contains(id) {
                let i = choose|i: int| 0 <= i < top.len() && top[i] == id;
                assert(scores.contains_key(top[i]));
            }
        }
        assert(left.dom() =~= top.to_set());
        if left.contains_key(stays) && all.contains_key(gone) && !left.contains_key(gone) {
            assert(left.dom().contains(stays) && !left.dom().contains(gone));
            let i = choose|i: int| 0 <= i < top.len() && top[i] == stays;
            assert(scores.contains_key(gone) && !top.contains(gone));
            assert(outranks(scored(scores, top[i]), scored(scores, gone)));
        }
    }
}

} // verus!
