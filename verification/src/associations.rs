//! Which chunks follow which: decayed transition counts between the chunks of
//! consecutive requests.

use crate::chunks::{
    clone_key, differs_from, distinct, first, holds_key, ids, lemma_filter_next,
    lemma_filter_no_duplicates, ref_ids, unique_chunk_refs, ChunkId, ChunkKey,
};
use crate::clock::{elapsed, Duration, Instant};
use crate::key_map::{keeps_youngest, kept, lemma_take_next, pairs_map, unique_keys, KeyMap, MapKey};
use crate::ranking::{law_ranking_exists, rank_top, top_of};
use crate::weights::{
    arithmetic_of, decay, decayed, evaluate, is_arithmetic, is_finite, zero_weight, Weight,
    WeightOp,
};
use vstd::prelude::*;

verus! {

/// How often a target followed its source.
#[derive(Debug, Clone, Copy, PartialEq, Eq, Structural)]
pub struct TargetStats {
    pub support: Weight,
    pub last_seen: Instant,
}

impl View for TargetStats {
    type V = TargetStats;

    open spec fn view(&self) -> TargetStats {
        *self
    }
}

/// How often a source was left, and for which targets.
pub struct SourceStats {
    pub total: Weight,
    pub last_seen: Instant,
    pub targets: KeyMap<ChunkKey, TargetStats>,
}

#[verifier::ext_equal]
pub struct SourceModel {
    pub total: Weight,
    pub last_seen: Instant,
    pub targets: Map<ChunkId, TargetStats>,
}

impl View for SourceStats {
    type V = SourceModel;

    open spec fn view(&self) -> SourceModel {
        SourceModel {
            total: self.total,
            last_seen: self.last_seen,
            targets: self.targets@,
        }
    }
}

/// A source that has not been left yet.
pub open spec fn fresh_source(now: Instant) -> SourceModel {
    SourceModel { total: zero_weight(), last_seen: now, targets: Map::empty() }
}

/// A weight decayed to `now`, plus one.
pub open spec fn counted(
    w: spec_fn(WeightOp) -> Weight,
    value: Weight,
    last_seen: Instant,
    now: Instant,
    half_life: Duration,
) -> Weight {
    w(WeightOp::Increment { value: decayed(w, value, last_seen, now, half_life) })
}

/// The statistics of `target` after one more occurrence.
pub open spec fn counted_target(
    w: spec_fn(WeightOp) -> Weight,
    targets: Map<ChunkId, TargetStats>,
    target: ChunkId,
    now: Instant,
    half_life: Duration,
) -> TargetStats {
    let previous = if targets.contains_key(target) {
        targets[target]
    } else {
        TargetStats { support: zero_weight(), last_seen: now }
    };
    TargetStats {
        support: counted(w, previous.support, previous.last_seen, now, half_life),
        last_seen: now,
    }
}

/// The targets after each item of `seen` has occurred once more.
pub open spec fn counted_targets(
    w: spec_fn(WeightOp) -> Weight,
    targets: Map<ChunkId, TargetStats>,
    seen: Seq<ChunkId>,
    now: Instant,
    half_life: Duration,
) -> Map<ChunkId, TargetStats>
    decreases seen.len(),
{
    if seen.len() == 0 {
        targets
    } else {
        let init = counted_targets(w, targets, seen.drop_last(), now, half_life);
        init.insert(seen.last(), counted_target(w, init, seen.last(), now, half_life))
    }
}

/// The statistics of a source after one transition to all of `seen`. The
/// transition counts once, however many targets it has.
pub open spec fn recorded(
    w: spec_fn(WeightOp) -> Weight,
    source: SourceModel,
    seen: Seq<ChunkId>,
    now: Instant,
    half_life: Duration,
) -> SourceModel {
    SourceModel {
        total: counted(w, source.total, source.last_seen, now, half_life),
        last_seen: now,
        targets: counted_targets(w, source.targets, seen, now, half_life),
    }
}

/// Counts one transition from the source to `targets`.
pub fn record_source_targets<F: Fn(WeightOp) -> Weight>(
    source_stats: &mut SourceStats,
    targets: &[&ChunkKey],
    now: Instant,
    half_life: Duration,
    weigh: &F,
)
    requires
        is_arithmetic(*weigh),
    ensures
        final(source_stats)@ == recorded(
            arithmetic_of(*weigh),
            old(source_stats)@,
            ref_ids(targets@),
            now,
            half_life,
        ),
{
    let ghost w = arithmetic_of(*weigh);
    let ghost before = source_stats@;
    let ghost seen = ref_ids(targets@);
    let value: Weight = decay(weigh, source_stats.total, source_stats.last_seen, now, half_life);
    source_stats.total = evaluate(weigh, WeightOp::Increment { value });
    source_stats.last_seen = now;
    let mut i: usize = 0;
    while i < targets.len()
        invariant
            is_arithmetic(*weigh),
            w == arithmetic_of(*weigh),
            i <= targets@.len(),
            seen == ref_ids(targets@),
            source_stats.total == counted(w, before.total, before.last_seen, now, half_life),
            source_stats.last_seen == now,
            source_stats.targets@ == counted_targets(
                w,
                before.targets,
                seen.take(i as int),
                now,
                half_life,
            ),
        decreases targets@.len() - i,
    {
        let target: &ChunkKey = targets[i];
        proof {
            assert(seen.take(i + 1).drop_last() =~= seen.take(i as int));
            assert(seen.take(i + 1).last() == target@);
        }
        let previous: TargetStats = match source_stats.targets.get(target) {
            Some(stats) => *stats,
            None => TargetStats { support: Weight { bits: 0 }, last_seen: now },
        };
        let value: Weight = decay(weigh, previous.support, previous.last_seen, now, half_life);
        let support: Weight = evaluate(weigh, WeightOp::Increment { value });
        source_stats.targets.insert(clone_key(target), TargetStats { support, last_seen: now });
        i += 1;
    }
    assert(seen.take(seen.len() as int) =~= seen);
}

/// The decayed support of each target.
pub open spec fn target_scores(
    w: spec_fn(WeightOp) -> Weight,
    targets: Map<ChunkId, TargetStats>,
    now: Instant,
    half_life: Duration,
) -> Map<ChunkId, Weight> {
    Map::new(
        |id: ChunkId| targets.contains_key(id),
        |id: ChunkId|
            decayed(w, targets[id].support, targets[id].last_seen, now, half_life),
    )
}

/// The targets that stay: all of them while there are at most twice `top_k`,
/// otherwise the `top_k` with the best decayed support.
pub open spec fn trimmed_targets(
    w: spec_fn(WeightOp) -> Weight,
    targets: Map<ChunkId, TargetStats>,
    top_k: nat,
    now: Instant,
    half_life: Duration,
) -> Map<ChunkId, TargetStats> {
    if targets.len() <= 2 * top_k {
        targets
    } else {
        let top = top_of(target_scores(w, targets, now, half_life), top_k);
        kept(targets, |id: ChunkId, stats: TargetStats| top.contains(id))
    }
}

pub open spec fn trimmed(
    w: spec_fn(WeightOp) -> Weight,
    source: SourceModel,
    top_k: nat,
    now: Instant,
    half_life: Duration,
) -> SourceModel {
    SourceModel {
        targets: trimmed_targets(w, source.targets, top_k, now, half_life),
        ..source
    }
}

fn score_targets<F: Fn(WeightOp) -> Weight>(
    targets: &KeyMap<ChunkKey, TargetStats>,
    now: Instant,
    half_life: Duration,
    weigh: &F,
) -> (scores: KeyMap<ChunkKey, Weight>)
    requires
        is_arithmetic(*weigh),
    ensures
        scores@ == target_scores(arithmetic_of(*weigh), targets@, now, half_life),
{
    let ghost w = arithmetic_of(*weigh);
    let ghost pairs = targets.pairs();
    let mut scores: KeyMap<ChunkKey, Weight> = KeyMap::new();
    let len: usize = targets.len();
    let mut i: usize = 0;
    proof {
        assert(pairs_map(pairs.take(0)) =~= Map::<ChunkId, TargetStats>::empty());
        assert(scores@ =~= target_scores(w, pairs_map(pairs.take(0)), now, half_life));
    }
    while i < len
        invariant
            is_arithmetic(*weigh),
            w == arithmetic_of(*weigh),
            pairs == targets.pairs(),
            unique_keys(pairs),
            i <= len,
            len == pairs.len(),
            scores@ == target_scores(w, pairs_map(pairs.take(i as int)), now, half_life),
        decreases len - i,
    {
        let stats: TargetStats = *targets.value_at(i);
        let score: Weight = decay(weigh, stats.support, stats.last_seen, now, half_life);
        scores.insert(clone_key(targets.key_at(i)), score);
        proof {
            lemma_take_next(pairs, i as int);
            assert(scores@ =~= target_scores(w, pairs_map(pairs.take(i + 1)), now, half_life));
        }
        i += 1;
    }
    assert(pairs.take(len as int) =~= pairs);
    scores
}

/// Drops the weakest targets of a source that has collected too many.
pub fn trim_targets<F: Fn(WeightOp) -> Weight>(
    source: &mut SourceStats,
    top_k: usize,
    now: Instant,
    half_life: Duration,
    weigh: &F,
)
    requires
        is_arithmetic(*weigh),
    ensures
        final(source)@ == trimmed(
            arithmetic_of(*weigh),
            old(source)@,
            top_k as nat,
            now,
            half_life,
        ),
{
    let len: usize = source.targets.len();
    if len <= top_k || len - top_k <= top_k {
        return ;
    }
    let scores = score_targets(&source.targets, now, half_life, weigh);
    let top = rank_top(&scores, top_k);
    let ghost listed = ids(top@);
    let keep = |key: &ChunkKey, stats: &TargetStats| -> (b: bool)
        ensures
            b == ids(top@).contains(key@),
        { holds_key(&top, key) };
    source.targets.retain(
        keep,
        Ghost(|id: ChunkId, stats: TargetStats| listed.contains(id)),
    );
}

/// `source` has been left for those of `current` that differ from it.
pub open spec fn observed_source(
    w: spec_fn(WeightOp) -> Weight,
    sources: Map<ChunkId, SourceModel>,
    source: ChunkId,
    current: Seq<ChunkId>,
    top_k: nat,
    now: Instant,
    half_life: Duration,
) -> Map<ChunkId, SourceModel> {
    let seen = current.filter(differs_from(source));
    if seen.len() == 0 {
        sources
    } else {
        let stats = if sources.contains_key(source) {
            sources[source]
        } else {
            fresh_source(now)
        };
        sources.insert(
            source,
            trimmed(w, recorded(w, stats, seen, now, half_life), top_k, now, half_life),
        )
    }
}

/// Each of `previous` in turn has been left for `current`.
pub open spec fn observed_sources(
    w: spec_fn(WeightOp) -> Weight,
    sources: Map<ChunkId, SourceModel>,
    previous: Seq<ChunkId>,
    current: Seq<ChunkId>,
    top_k: nat,
    now: Instant,
    half_life: Duration,
) -> Map<ChunkId, SourceModel>
    decreases previous.len(),
{
    if previous.len() == 0 {
        sources
    } else {
        observed_source(
            w,
            observed_sources(w, sources, previous.drop_last(), current, top_k, now, half_life),
            previous.last(),
            current,
            top_k,
            now,
            half_life,
        )
    }
}

/// When a source was last left.
pub open spec fn source_seen() -> spec_fn(SourceModel) -> Instant {
    |source: SourceModel| source.last_seen
}

fn differing<'a>(current: &Vec<&'a ChunkKey>, source: &ChunkKey) -> (seen: Vec<&'a ChunkKey>)
    ensures
        ref_ids(seen@) == ref_ids(current@).filter(differs_from(source@)),
{
    let ghost all = ref_ids(current@);
    let ghost keep = differs_from(source@);
    let mut seen: Vec<&'a ChunkKey> = Vec::new();
    let mut i: usize = 0;
    proof {
        reveal(Seq::filter);
        assert(ref_ids(seen@) =~= all.take(0).filter(keep));
    }
    while i < current.len()
        invariant
            i <= current@.len(),
            all == ref_ids(current@),
            keep == differs_from(source@),
            ref_ids(seen@) == all.take(i as int).filter(keep),
        decreases current@.len() - i,
    {
        let target: &'a ChunkKey = current[i];
        let ghost before = seen@;
        proof {
            lemma_filter_next(all, keep, i as int);
        }
        if !target.same_key(source) {
            seen.push(target);
            assert(ref_ids(seen@) =~= ref_ids(before).push(target@));
        }
        i += 1;
    }
    assert(all.take(all.len() as int) =~= all);
    seen
}

fn observe_source<F: Fn(WeightOp) -> Weight>(
    sources: &mut KeyMap<ChunkKey, SourceStats>,
    source: &ChunkKey,
    current: &Vec<&ChunkKey>,
    top_k: usize,
    now: Instant,
    half_life: Duration,
    weigh: &F,
)
    requires
        is_arithmetic(*weigh),
    ensures
        final(sources)@ == observed_source(
            arithmetic_of(*weigh),
            old(sources)@,
            source@,
            ref_ids(current@),
            top_k as nat,
            now,
            half_life,
        ),
{
    let seen = differing(current, source);
    if seen.len() == 0 {
        return ;
    }
    let ghost before = sources@;
    let mut stats: SourceStats = match sources.remove(source) {
        Some(stats) => stats,
        None => SourceStats {
            total: Weight { bits: 0 },
            last_seen: now,
            targets: KeyMap::new(),
        },
    };
    proof {
        assert(stats@ =~= if before.contains_key(source@) {
            before[source@]
        } else {
            fresh_source(now)
        });
    }
    record_source_targets(&mut stats, seen.as_slice(), now, half_life, weigh);
    trim_targets(&mut stats, top_k, now, half_life, weigh);
    sources.insert(clone_key(source), stats);
    assert(sources@ =~= before.insert(source@, stats@));
}

/// Learns from one request following another in a session. At most
/// `max_observation_chunks` of either request count, each chunk once. At most
/// `max_sources` sources are kept, those left most recently.
pub fn observe_transition<F: Fn(WeightOp) -> Weight>(
    sources: &mut KeyMap<ChunkKey, SourceStats>,
    previous_chunks: &[ChunkKey],
    current_chunks: &[ChunkKey],
    max_observation_chunks: usize,
    max_sources: usize,
    top_k: usize,
    now: Instant,
    half_life: Duration,
    weigh: &F,
)
    requires
        is_arithmetic(*weigh),
    ensures
        keeps_youngest(
            observed_sources(
                arithmetic_of(*weigh),
                old(sources)@,
                distinct(first(ids(previous_chunks@), max_observation_chunks as int)),
                distinct(first(ids(current_chunks@), max_observation_chunks as int)),
                top_k as nat,
                now,
                half_life,
            ),
            source_seen(),
            max_sources as nat,
            final(sources)@,
        ),
{
    let ghost w = arithmetic_of(*weigh);
    let ghost before = sources@;
    let current = unique_chunk_refs(current_chunks, max_observation_chunks);
    let previous = unique_chunk_refs(previous_chunks, max_observation_chunks);
    let ghost left = ref_ids(previous@);
    let ghost entered = ref_ids(current@);
    let mut i: usize = 0;
    while i < previous.len()
        invariant
            is_arithmetic(*weigh),
            w == arithmetic_of(*weigh),
            i <= previous@.len(),
            left == ref_ids(previous@),
            entered == ref_ids(current@),
            sources@ == observed_sources(
                w,
                before,
                left.take(i as int),
                entered,
                top_k as nat,
                now,
                half_life,
            ),
        decreases previous@.len() - i,
    {
        proof {
            assert(left.take(i + 1).drop_last() =~= left.take(i as int));
            assert(left.take(i + 1).last() == previous@[i as int]@);
        }
        observe_source(sources, previous[i], &current, top_k, now, half_life, weigh);
        i += 1;
    }
    assert(left.take(left.len() as int) =~= left);
    let last_seen = |stats: &SourceStats| -> (t: Instant)
        ensures
            t == stats@.last_seen,
        { stats.last_seen };
    sources.evict_oldest(max_sources, last_seen, Ghost(source_seen()));
}

/// One transition adds one to the total of its source, whatever its targets are.
pub proof fn law_total_counts_transitions(
    w: spec_fn(WeightOp) -> Weight,
    source: SourceModel,
    a: Seq<ChunkId>,
    b: Seq<ChunkId>,
    now: Instant,
    half_life: Duration,
)
    ensures
        recorded(w, source, a, now, half_life).total == recorded(w, source, b, now, half_life).total,
        recorded(w, source, a, now, half_life).total == counted(
            w,
            source.total,
            source.last_seen,
            now,
            half_life,
        ),
{
}

/// A transition adds one to the support of each chunk it leads to, and leaves
/// every other chunk alone.
pub proof fn law_targets_count_once(
    w: spec_fn(WeightOp) -> Weight,
    targets: Map<ChunkId, TargetStats>,
    seen: Seq<ChunkId>,
    now: Instant,
    half_life: Duration,
)
    requires
        seen.no_duplicates(),
    ensures
        counted_targets(w, targets, seen, now, half_life) == Map::new(
            |id: ChunkId| targets.contains_key(id) || seen.contains(id),
            |id: ChunkId|
                if seen.contains(id) {
                    counted_target(w, targets, id, now, half_life)
                } else {
                    targets[id]
                },
        ),
    decreases seen.len(),
{
    let goal = Map::new(
        |id: ChunkId| targets.contains_key(id) || seen.contains(id),
        |id: ChunkId|
            if seen.contains(id) {
                counted_target(w, targets, id, now, half_life)
            } else {
                targets[id]
            },
    );
    if seen.len() > 0 {
        let init = seen.drop_last();
        law_targets_count_once(w, targets, init, now, half_life);
        assert(!init.contains(seen.last())) by {
            if init.contains(seen.last()) {
                let i = choose|i: int| 0 <= i < init.len() && init[i] == seen.last();
                assert(seen[i] == seen[seen.len() - 1]);
            }
        }
        assert forall|id: ChunkId| #[trigger] seen.contains(id) <==> (init.contains(id) || id
            == seen.last()) by {
            if seen.contains(id) && id != seen.last() {
                let i = choose|i: int| 0 <= i < seen.len() && seen[i] == id;
                assert(init[i] == id);
            }
            if init.contains(id) {
                let i = choose|i: int| 0 <= i < init.len() && init[i] == id;
                assert(seen[i] == id);
            }
            assert(seen[seen.len() - 1] == seen.last());
        }
    }
    assert(counted_targets(w, targets, seen, now, half_life) =~= goal);
}

/// Every source has finitely many targets.
pub open spec fn targets_finite(sources: Map<ChunkId, SourceModel>) -> bool {
    forall|id: ChunkId| #[trigger]
        sources.contains_key(id) ==> sources[id].targets.dom().finite()
}

/// No source has more than `limit` targets.
pub open spec fn targets_limited(sources: Map<ChunkId, SourceModel>, limit: nat) -> bool {
    forall|id: ChunkId| #[trigger]
        sources.contains_key(id) ==> sources[id].targets.dom().finite()
            && sources[id].targets.len() <= limit
}

pub proof fn lemma_counted_targets_are_finite(
    w: spec_fn(WeightOp) -> Weight,
    targets: Map<ChunkId, TargetStats>,
    seen: Seq<ChunkId>,
    now: Instant,
    half_life: Duration,
)
    requires
        targets.dom().finite(),
    ensures
        counted_targets(w, targets, seen, now, half_life).dom().finite(),
    decreases seen.len(),
{
    if seen.len() > 0 {
        lemma_counted_targets_are_finite(w, targets, seen.drop_last(), now, half_life);
    }
}

/// Trimming leaves at most twice `top_k` targets.
pub proof fn law_trimming_bounds_targets(
    w: spec_fn(WeightOp) -> Weight,
    targets: Map<ChunkId, TargetStats>,
    top_k: nat,
    now: Instant,
    half_life: Duration,
)
    requires
        targets.dom().finite(),
    ensures
        trimmed_targets(w, targets, top_k, now, half_life).dom().finite(),
        trimmed_targets(w, targets, top_k, now, half_life).len() <= 2 * top_k,
{
    if targets.len() > 2 * top_k {
        let scores = target_scores(w, targets, now, half_life);
        assert(scores.dom() =~= targets.dom());
        law_ranking_exists(scores, top_k);
        let top = top_of(scores, top_k);
        let left = trimmed_targets(w, targets, top_k, now, half_life);
        top.lemma_cardinality_of_set();
        assert forall|id: ChunkId| left.dom().contains(id) implies top.to_set().contains(id) by {
            assert(left.contains_key(id));
        }
        assert(left.dom().subset_of(top.to_set()));
        vstd::set_lib::lemma_len_subset(left.dom(), top.to_set());
    }
}

/// Learning leaves every source with at most twice `top_k` targets.
pub proof fn law_learning_bounds_targets(
    w: spec_fn(WeightOp) -> Weight,
    sources: Map<ChunkId, SourceModel>,
    previous: Seq<ChunkId>,
    current: Seq<ChunkId>,
    top_k: nat,
    now: Instant,
    half_life: Duration,
)
    requires
        targets_limited(sources, 2 * top_k),
    ensures
        targets_limited(
            observed_sources(w, sources, previous, current, top_k, now, half_life),
            2 * top_k,
        ),
    decreases previous.len(),
{
    if previous.len() > 0 {
        let init = observed_sources(
            w,
            sources,
            previous.drop_last(),
            current,
            top_k,
            now,
            half_life,
        );
        let source = previous.last();
        law_learning_bounds_targets(
            w,
            sources,
            previous.drop_last(),
            current,
            top_k,
            now,
            half_life,
        );
        let stats = if init.contains_key(source) {
            init[source]
        } else {
            fresh_source(now)
        };
        let seen = current.filter(differs_from(source));
        assert(stats.targets.dom().finite());
        lemma_counted_targets_are_finite(w, stats.targets, seen, now, half_life);
        law_trimming_bounds_targets(
            w,
            counted_targets(w, stats.targets, seen, now, half_life),
            top_k,
            now,
            half_life,
        );
        let after = observed_sources(w, sources, previous, current, top_k, now, half_life);
        assert forall|id: ChunkId| #[trigger]
            after.contains_key(id) implies after[id].targets.dom().finite()
            && after[id].targets.len() <= 2 * top_k by {
            if id != source || seen.len() == 0 {
                assert(init.contains_key(id));
            }
        }
    }
}

/// On finite weights that are not negative, decay and increment give such weights and
/// keep their order, and an increment never lowers a weight.
pub open spec fn is_orderly(w: spec_fn(WeightOp) -> Weight, half_life: Duration) -> bool {
    &&& forall|a: Weight, age: Duration|
        is_finite(a) ==> is_finite(#[trigger] w(WeightOp::Decay { value: a, age, half_life }))
    &&& forall|a: Weight, b: Weight, age: Duration|
        is_finite(b) && a.bits <= b.bits ==> (#[trigger] w(
            WeightOp::Decay { value: a, age, half_life },
        )).bits <= (#[trigger] w(WeightOp::Decay { value: b, age, half_life })).bits
    &&& forall|a: Weight|
        is_finite(a) ==> is_finite(#[trigger] w(WeightOp::Increment { value: a }))
    &&& forall|a: Weight, b: Weight|
        is_finite(b) && a.bits <= b.bits ==> (#[trigger] w(WeightOp::Increment { value: a })).bits
            <= (#[trigger] w(WeightOp::Increment { value: b })).bits
}

/// Until `until`, the total of the source counts for no less if a transition at `now` is
/// added to it. Decaying it in two steps may round it down, but by no more than the
/// transition adds.
pub open spec fn keeps_pace(
    w: spec_fn(WeightOp) -> Weight,
    source: SourceModel,
    now: Instant,
    half_life: Duration,
    until: Instant,
) -> bool {
    forall|at: Instant|
        #![trigger decayed(w, source.total, source.last_seen, at, half_life)]
        now.nanos <= at.nanos <= until.nanos ==> decayed(
            w,
            source.total,
            source.last_seen,
            at,
            half_life,
        ).bits <= decayed(
            w,
            counted(w, source.total, source.last_seen, now, half_life),
            now,
            at,
            half_life,
        ).bits
}

/// At the time `at`, the target has no more support than the source has transitions.
pub open spec fn target_within_total(
    w: spec_fn(WeightOp) -> Weight,
    source: SourceModel,
    id: ChunkId,
    at: Instant,
    half_life: Duration,
) -> bool {
    decayed(
        w,
        source.targets[id].support,
        source.targets[id].last_seen,
        at,
        half_life,
    ).bits <= decayed(w, source.total, source.last_seen, at, half_life).bits
}

/// All weights of the source are finite and not negative. From its last transition until
/// `until`, no target has more support than the source has transitions.
pub open spec fn support_within_total(
    w: spec_fn(WeightOp) -> Weight,
    source: SourceModel,
    half_life: Duration,
    until: Instant,
) -> bool {
    &&& is_finite(source.total)
    &&& forall|id: ChunkId| #[trigger]
        source.targets.contains_key(id) ==> is_finite(source.targets[id].support)
    &&& forall|id: ChunkId, at: Instant|
        source.targets.contains_key(id) && source.last_seen.nanos <= at.nanos <= until.nanos
            ==> #[trigger] target_within_total(w, source, id, at, half_life)
}

/// The same for every source, none of which was left after `now`.
pub open spec fn all_within_total(
    w: spec_fn(WeightOp) -> Weight,
    sources: Map<ChunkId, SourceModel>,
    now: Instant,
    half_life: Duration,
    until: Instant,
) -> bool {
    forall|id: ChunkId| #[trigger]
        sources.contains_key(id) ==> support_within_total(w, sources[id], half_life, until)
            && sources[id].last_seen.nanos <= now.nanos
}

proof fn lemma_decay_keeps_order(
    w: spec_fn(WeightOp) -> Weight,
    a: Weight,
    b: Weight,
    start: Instant,
    end: Instant,
    half_life: Duration,
)
    requires
        is_orderly(w, half_life),
        is_finite(b),
        a.bits <= b.bits,
    ensures
        is_finite(decayed(w, b, start, end, half_life)),
        decayed(w, a, start, end, half_life).bits <= decayed(w, b, start, end, half_life).bits,
{
    let age = Duration { nanos: elapsed(end, start) as u128 };
    assert(w(WeightOp::Decay { value: a, age, half_life }).bits <= w(
        WeightOp::Decay { value: b, age, half_life },
    ).bits);
}

/// One more transition keeps the support of every target within the total.
pub proof fn law_recording_keeps_support_within_total(
    w: spec_fn(WeightOp) -> Weight,
    source: SourceModel,
    seen: Seq<ChunkId>,
    now: Instant,
    half_life: Duration,
    until: Instant,
)
    requires
        is_orderly(w, half_life),
        support_within_total(w, source, half_life, until),
        keeps_pace(w, source, now, half_life, until),
        source.last_seen.nanos <= now.nanos,
        seen.no_duplicates(),
    ensures
        support_within_total(w, recorded(w, source, seen, now, half_life), half_life, until),
{
    let after = recorded(w, source, seen, now, half_life);
    law_targets_count_once(w, source.targets, seen, now, half_life);
    let total = decayed(w, source.total, source.last_seen, now, half_life);
    lemma_decay_keeps_order(w, source.total, source.total, source.last_seen, now, half_life);
    assert(is_finite(after.total));
    assert forall|id: ChunkId| #[trigger] after.targets.contains_key(id) implies is_finite(
        after.targets[id].support,
    ) by {
        if source.targets.contains_key(id) {
            let stats = source.targets[id];
            lemma_decay_keeps_order(
                w,
                stats.support,
                stats.support,
                stats.last_seen,
                now,
                half_life,
            );
        } else {
            assert(is_finite(zero_weight()));
        }
    }
    assert forall|id: ChunkId, at: Instant|
        after.targets.contains_key(id) && after.last_seen.nanos <= at.nanos
            <= until.nanos implies #[trigger] target_within_total(w, after, id, at, half_life) by {
        if seen.contains(id) {
            let support = if source.targets.contains_key(id) {
                decayed(
                    w,
                    source.targets[id].support,
                    source.targets[id].last_seen,
                    now,
                    half_life,
                )
            } else {
                zero_weight()
            };
            if source.targets.contains_key(id) {
                assert(target_within_total(w, source, id, now, half_life));
            }
            assert(w(WeightOp::Increment { value: support }).bits <= w(
                WeightOp::Increment { value: total },
            ).bits);
            lemma_decay_keeps_order(
                w,
                after.targets[id].support,
                after.total,
                now,
                at,
                half_life,
            );
        } else {
            assert(source.targets.contains_key(id));
            assert(target_within_total(w, source, id, at, half_life));
        }
    }
}

/// A source that none of `previous` is stays as it is.
pub proof fn lemma_other_sources_stay(
    w: spec_fn(WeightOp) -> Weight,
    sources: Map<ChunkId, SourceModel>,
    previous: Seq<ChunkId>,
    current: Seq<ChunkId>,
    top_k: nat,
    now: Instant,
    half_life: Duration,
    id: ChunkId,
)
    requires
        !previous.contains(id),
    ensures
        ({
            let after = observed_sources(w, sources, previous, current, top_k, now, half_life);
            after.contains_key(id) == sources.contains_key(id) && after[id] == sources[id]
        }),
    decreases previous.len(),
{
    if previous.len() > 0 {
        assert(previous[previous.len() - 1] == previous.last());
        assert(!previous.drop_last().contains(id)) by {
            if previous.drop_last().contains(id) {
                let i = choose|i: int|
                    0 <= i < previous.drop_last().len() && previous.drop_last()[i] == id;
                assert(previous[i] == id);
            }
        }
        lemma_other_sources_stay(
            w,
            sources,
            previous.drop_last(),
            current,
            top_k,
            now,
            half_life,
            id,
        );
    }
}

/// Learning never makes a target look more likely than certain: if no target had
/// more support than its source had transitions, that is still so afterwards.
pub proof fn law_learning_keeps_support_within_total(
    w: spec_fn(WeightOp) -> Weight,
    sources: Map<ChunkId, SourceModel>,
    previous: Seq<ChunkId>,
    current: Seq<ChunkId>,
    top_k: nat,
    now: Instant,
    half_life: Duration,
    until: Instant,
)
    requires
        is_orderly(w, half_life),
        previous.no_duplicates(),
        current.no_duplicates(),
        all_within_total(w, sources, now, half_life, until),
        forall|id: ChunkId| #[trigger]
            sources.contains_key(id) ==> keeps_pace(w, sources[id], now, half_life, until),
    ensures
        all_within_total(
            w,
            observed_sources(w, sources, previous, current, top_k, now, half_life),
            now,
            half_life,
            until,
        ),
    decreases previous.len(),
{
    if previous.len() > 0 {
        let shorter = previous.drop_last();
        let init = observed_sources(w, sources, shorter, current, top_k, now, half_life);
        let source = previous.last();
        assert(shorter.no_duplicates() && !shorter.contains(source)) by {
            assert forall|i: int, j: int| 0 <= i < shorter.len() && 0 <= j < shorter.len() && i
                != j implies shorter[i] != shorter[j] by {
                assert(previous[i] != previous[j]);
            }
            if shorter.contains(source) {
                let i = choose|i: int| 0 <= i < shorter.len() && shorter[i] == source;
                assert(previous[i] != previous[previous.len() - 1]);
            }
        }
        law_learning_keeps_support_within_total(
            w,
            sources,
            shorter,
            current,
            top_k,
            now,
            half_life,
            until,
        );
        lemma_other_sources_stay(w, sources, shorter, current, top_k, now, half_life, source);
        let seen = current.filter(differs_from(source));
        lemma_filter_no_duplicates(current, differs_from(source));
        if seen.len() > 0 {
            let stats = if init.contains_key(source) {
                init[source]
            } else {
                fresh_source(now)
            };
            assert(support_within_total(w, stats, half_life, until));
            assert(keeps_pace(w, stats, now, half_life, until)) by {
                if init.contains_key(source) {
                    assert(sources.contains_key(source));
                }
            }
            law_recording_keeps_support_within_total(w, stats, seen, now, half_life, until);
            let all = recorded(w, stats, seen, now, half_life);
            let left = trimmed(w, all, top_k, now, half_life);
            assert forall|id: ChunkId| #[trigger] left.targets.contains_key(id) implies is_finite(
                left.targets[id].support,
            ) by {
                assert(all.targets.contains_key(id) && all.targets[id] == left.targets[id]);
            }
            assert forall|id: ChunkId, at: Instant|
                left.targets.contains_key(id) && left.last_seen.nanos <= at.nanos
                    <= until.nanos implies #[trigger] target_within_total(
                w,
                left,
                id,
                at,
                half_life,
            ) by {
                assert(all.targets.contains_key(id) && all.targets[id] == left.targets[id]);
                assert(target_within_total(w, all, id, at, half_life));
            }
            let after = init.insert(source, left);
            assert(after == observed_sources(
                w,
                sources,
                previous,
                current,
                top_k,
                now,
                half_life,
            ));
            assert forall|id: ChunkId| #[trigger]
                after.contains_key(id) implies support_within_total(w, after[id], half_life, until)
                && after[id].last_seen.nanos <= now.nanos by {
                if id != source {
                    assert(init.contains_key(id));
                }
            }
        }
    }
}

} // verus!
