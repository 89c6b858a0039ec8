//! Which worker to prefetch on.

use crate::protocols::{worker_before, WorkerWithDpRank};
use crate::weights::{
    arithmetic_of, evaluate, is_arithmetic, is_positive, rank, ranks_below, Weight, WeightOp,
    INFINITY_BITS,
};
use vstd::prelude::*;

verus! {

/// What the router knows of a worker when it looks for one to prefetch on.
#[derive(Debug, Clone, Copy, PartialEq, Eq, Structural)]
pub struct WorkerPrefetchCandidate {
    pub worker: WorkerWithDpRank,
    pub resident_chunks: u32,
    pub prefetch_inflight_chunks: u32,
}

/// The bits of one, the rate that stands in for one that makes no sense.
pub const UNIT_RATE: u64 = 0x3FF0_0000_0000_0000;

/// The bits of two to the power of minus nine hundred, and of nine hundred. Quotients by
/// a rate between them are neither too small nor too large to keep the order of counts.
pub const LEAST_ORDINARY_RATE: u64 = 0x07B0_0000_0000_0000;

pub const GREATEST_ORDINARY_RATE: u64 = 0x7830_0000_0000_0000;

/// The rate at which chunks are copied: the given one if it is positive and finite,
/// otherwise one.
pub open spec fn usable_rate(chunks_per_second: Weight) -> Weight {
    if is_positive(chunks_per_second) {
        chunks_per_second
    } else {
        Weight { bits: UNIT_RATE }
    }
}

/// The chunks to copy are so few, and the rate so ordinary, that dividing counts of
/// chunks by the rate keeps their order and never makes two of them equal. Comparing the
/// counts is then the same as comparing the quotients.
pub open spec fn counts_decide(target_chunks: usize, chunks_per_second: Weight) -> bool {
    target_chunks <= u32::MAX && LEAST_ORDINARY_RATE <= usable_rate(chunks_per_second).bits
        <= GREATEST_ORDINARY_RATE
}

/// The chunks of the target that a worker lacks.
pub open spec fn missing_chunks(
    candidate: WorkerPrefetchCandidate,
    target_chunks: usize,
) -> usize {
    if target_chunks > candidate.resident_chunks {
        (target_chunks - candidate.resident_chunks) as usize
    } else {
        0
    }
}

/// The chunks that a worker has to copy before it holds `target_chunks`.
pub open spec fn pending_chunks(candidate: WorkerPrefetchCandidate, target_chunks: usize) -> int {
    candidate.prefetch_inflight_chunks + missing_chunks(candidate, target_chunks)
}

/// The estimated time until a worker holds `target_chunks`: it first copies what it has
/// queued, then what it lacks.
pub open spec fn completion_time(
    w: spec_fn(WeightOp) -> Weight,
    candidate: WorkerPrefetchCandidate,
    target_chunks: usize,
    chunks_per_second: Weight,
) -> Weight {
    w(
        WeightOp::CopyTime {
            queued: candidate.prefetch_inflight_chunks,
            missing: missing_chunks(candidate, target_chunks),
            rate: usable_rate(chunks_per_second),
        },
    )
}

/// `a` is done before `b`, or at the same time and its worker comes first.
pub open spec fn done_before(
    w: spec_fn(WeightOp) -> Weight,
    a: WorkerPrefetchCandidate,
    b: WorkerPrefetchCandidate,
    target_chunks: usize,
    chunks_per_second: Weight,
) -> bool {
    if counts_decide(target_chunks, chunks_per_second) {
        ||| pending_chunks(a, target_chunks) < pending_chunks(b, target_chunks)
        ||| pending_chunks(a, target_chunks) == pending_chunks(b, target_chunks)
            && worker_before(a.worker, b.worker)
    } else {
        let a_time = completion_time(w, a, target_chunks, chunks_per_second);
        let b_time = completion_time(w, b, target_chunks, chunks_per_second);
        rank(a_time) < rank(b_time) || (a_time == b_time && worker_before(a.worker, b.worker))
    }
}

/// None of the candidates is done before candidate `i`.
pub open spec fn is_done_first(
    w: spec_fn(WeightOp) -> Weight,
    candidates: Seq<WorkerPrefetchCandidate>,
    target_chunks: usize,
    chunks_per_second: Weight,
    i: int,
) -> bool {
    0 <= i < candidates.len() && forall|j: int|
        0 <= j < candidates.len() ==> !done_before(
            w,
            #[trigger] candidates[j],
            candidates[i],
            target_chunks,
            chunks_per_second,
        )
}

/// `worker` is the one to prefetch `target_chunks` on.
pub open spec fn is_best_worker(
    w: spec_fn(WeightOp) -> Weight,
    candidates: Seq<WorkerPrefetchCandidate>,
    target_chunks: usize,
    chunks_per_second: Weight,
    fallback: WorkerWithDpRank,
    worker: WorkerWithDpRank,
) -> bool {
    if candidates.len() == 0 || target_chunks == 0 {
        worker == fallback
    } else {
        exists|i: int| #[trigger]
            is_done_first(w, candidates, target_chunks, chunks_per_second, i)
                && candidates[i].worker == worker
    }
}

/// The worker to prefetch `target_chunks` on.
pub open spec fn best_worker(
    w: spec_fn(WeightOp) -> Weight,
    candidates: Seq<WorkerPrefetchCandidate>,
    target_chunks: usize,
    chunks_per_second: Weight,
    fallback: WorkerWithDpRank,
) -> WorkerWithDpRank {
    choose|worker: WorkerWithDpRank|
        is_best_worker(w, candidates, target_chunks, chunks_per_second, fallback, worker)
}

/// At most one worker is the one to prefetch on.
pub proof fn law_best_worker_is_unique(
    w: spec_fn(WeightOp) -> Weight,
    candidates: Seq<WorkerPrefetchCandidate>,
    target_chunks: usize,
    chunks_per_second: Weight,
    fallback: WorkerWithDpRank,
    a: WorkerWithDpRank,
    b: WorkerWithDpRank,
)
    requires
        is_best_worker(w, candidates, target_chunks, chunks_per_second, fallback, a),
        is_best_worker(w, candidates, target_chunks, chunks_per_second, fallback, b),
    ensures
        a == b,
{
    if candidates.len() > 0 && target_chunks != 0 {
        let i = choose|i: int| #[trigger]
            is_done_first(w, candidates, target_chunks, chunks_per_second, i)
                && candidates[i].worker == a;
        let k = choose|k: int| #[trigger]
            is_done_first(w, candidates, target_chunks, chunks_per_second, k)
                && candidates[k].worker == b;
        assert(!done_before(w, candidates[i], candidates[k], target_chunks, chunks_per_second));
        assert(!done_before(w, candidates[k], candidates[i], target_chunks, chunks_per_second));
    }
}

/// Some worker is the one to prefetch on.
pub proof fn law_best_worker_exists(
    w: spec_fn(WeightOp) -> Weight,
    candidates: Seq<WorkerPrefetchCandidate>,
    target_chunks: usize,
    chunks_per_second: Weight,
    fallback: WorkerWithDpRank,
)
    ensures
        is_best_worker(
            w,
            candidates,
            target_chunks,
            chunks_per_second,
            fallback,
            best_worker(w, candidates, target_chunks, chunks_per_second, fallback),
        ),
{
    if candidates.len() == 0 || target_chunks == 0 {
        assert(is_best_worker(
            w,
            candidates,
            target_chunks,
            chunks_per_second,
            fallback,
            fallback,
        ));
    } else {
        let i = lemma_first_done_exists(
            w,
            candidates,
            target_chunks,
            chunks_per_second,
            candidates.len() as int,
        );
        assert(is_done_first(w, candidates, target_chunks, chunks_per_second, i));
        assert(is_best_worker(
            w,
            candidates,
            target_chunks,
            chunks_per_second,
            fallback,
            candidates[i].worker,
        ));
    }
}

proof fn lemma_first_done_exists(
    w: spec_fn(WeightOp) -> Weight,
    candidates: Seq<WorkerPrefetchCandidate>,
    target_chunks: usize,
    chunks_per_second: Weight,
    count: int,
) -> (i: int)
    requires
        0 < count <= candidates.len(),
    ensures
        0 <= i < count,
        forall|j: int|
            0 <= j < count ==> !done_before(
                w,
                #[trigger] candidates[j],
                candidates[i],
                target_chunks,
                chunks_per_second,
            ),
    decreases count,
{
    if count == 1 {
        0
    } else {
        let i = lemma_first_done_exists(
            w,
            candidates,
            target_chunks,
            chunks_per_second,
            count - 1,
        );
        if done_before(w, candidates[count - 1], candidates[i], target_chunks, chunks_per_second) {
            count - 1
        } else {
            i
        }
    }
}

/// No candidate has fewer chunks to copy than candidate `i`, and of those with as few none
/// has a worker that comes before its.
pub open spec fn has_fewest_pending(
    candidates: Seq<WorkerPrefetchCandidate>,
    target_chunks: usize,
    i: int,
) -> bool {
    0 <= i < candidates.len() && forall|j: int|
        #![trigger candidates[j]]
        0 <= j < candidates.len() ==> {
            ||| pending_chunks(candidates[i], target_chunks) < pending_chunks(
                candidates[j],
                target_chunks,
            )
            ||| pending_chunks(candidates[i], target_chunks) == pending_chunks(
                candidates[j],
                target_chunks,
            ) && !worker_before(candidates[j].worker, candidates[i].worker)
        }
}

/// The worker to prefetch on is one with the fewest chunks to copy, and the first of
/// those, whatever the rate is.
pub proof fn law_fewest_pending_chunks_win(
    w: spec_fn(WeightOp) -> Weight,
    candidates: Seq<WorkerPrefetchCandidate>,
    target_chunks: usize,
    chunks_per_second: Weight,
    fallback: WorkerWithDpRank,
    worker: WorkerWithDpRank,
)
    requires
        counts_decide(target_chunks, chunks_per_second),
        candidates.len() > 0,
        target_chunks > 0,
    ensures
        is_best_worker(w, candidates, target_chunks, chunks_per_second, fallback, worker)
            == exists|i: int| #[trigger]
            has_fewest_pending(candidates, target_chunks, i) && candidates[i].worker == worker,
{
    assert forall|i: int|
        is_done_first(w, candidates, target_chunks, chunks_per_second, i) == #[trigger]
        has_fewest_pending(candidates, target_chunks, i) by {
        if is_done_first(w, candidates, target_chunks, chunks_per_second, i) {
            assert forall|j: int| #![trigger candidates[j]] 0 <= j < candidates.len() implies {
                ||| pending_chunks(candidates[i], target_chunks) < pending_chunks(
                    candidates[j],
                    target_chunks,
                )
                ||| pending_chunks(candidates[i], target_chunks) == pending_chunks(
                    candidates[j],
                    target_chunks,
                ) && !worker_before(candidates[j].worker, candidates[i].worker)
            } by {
                assert(!done_before(
                    w,
                    candidates[j],
                    candidates[i],
                    target_chunks,
                    chunks_per_second,
                ));
            }
        }
    }
    if is_best_worker(w, candidates, target_chunks, chunks_per_second, fallback, worker) {
        let i = choose|i: int| #[trigger]
            is_done_first(w, candidates, target_chunks, chunks_per_second, i)
                && candidates[i].worker == worker;
        assert(has_fewest_pending(candidates, target_chunks, i));
    }
    if exists|i: int| #[trigger]
        has_fewest_pending(candidates, target_chunks, i) && candidates[i].worker == worker {
        let i = choose|i: int| #[trigger]
            has_fewest_pending(candidates, target_chunks, i) && candidates[i].worker == worker;
        assert(is_done_first(w, candidates, target_chunks, chunks_per_second, i));
    }
}

/// The worker to prefetch on depends on which candidates there are and on their counts
/// of chunks. The order in which they are listed, the worker to fall back on, the rate
/// and the arithmetic make no difference.
pub proof fn law_choice_rests_on_the_counts(
    w: spec_fn(WeightOp) -> Weight,
    other_w: spec_fn(WeightOp) -> Weight,
    candidates: Seq<WorkerPrefetchCandidate>,
    others: Seq<WorkerPrefetchCandidate>,
    target_chunks: usize,
    chunks_per_second: Weight,
    other_rate: Weight,
    fallback: WorkerWithDpRank,
    other_fallback: WorkerWithDpRank,
    worker: WorkerWithDpRank,
)
    requires
        counts_decide(target_chunks, chunks_per_second),
        counts_decide(target_chunks, other_rate),
        candidates.len() > 0,
        target_chunks > 0,
        forall|candidate: WorkerPrefetchCandidate| #[trigger]
            candidates.contains(candidate) == others.contains(candidate),
        is_best_worker(w, candidates, target_chunks, chunks_per_second, fallback, worker),
    ensures
        is_best_worker(other_w, others, target_chunks, other_rate, other_fallback, worker),
{
    law_fewest_pending_chunks_win(
        w,
        candidates,
        target_chunks,
        chunks_per_second,
        fallback,
        worker,
    );
    let i = choose|i: int| #[trigger]
        has_fewest_pending(candidates, target_chunks, i) && candidates[i].worker == worker;
    assert(candidates.contains(candidates[i]));
    let k = choose|k: int| 0 <= k < others.len() && others[k] == candidates[i];
    assert forall|j: int| #![trigger others[j]] 0 <= j < others.len() implies {
        ||| pending_chunks(others[k], target_chunks) < pending_chunks(others[j], target_chunks)
        ||| pending_chunks(others[k], target_chunks) == pending_chunks(others[j], target_chunks)
            && !worker_before(others[j].worker, others[k].worker)
    } by {
        assert(others.contains(others[j]));
        assert(candidates.contains(others[j]));
        let m = choose|m: int| 0 <= m < candidates.len() && candidates[m] == others[j];
        assert(candidates[m] == others[j]);
    }
    assert(has_fewest_pending(others, target_chunks, k));
    law_fewest_pending_chunks_win(
        other_w,
        others,
        target_chunks,
        other_rate,
        other_fallback,
        worker,
    );
}

fn rate_in_use(chunks_per_second: Weight) -> (rate: Weight)
    ensures
        rate == usable_rate(chunks_per_second),
{
    if 0 < chunks_per_second.bits && chunks_per_second.bits < INFINITY_BITS {
        chunks_per_second
    } else {
        Weight { bits: UNIT_RATE }
    }
}

fn count_missing(candidate: &WorkerPrefetchCandidate, target_chunks: usize) -> (missing: usize)
    ensures
        missing == missing_chunks(*candidate, target_chunks),
{
    let resident: usize = candidate.resident_chunks as usize;
    if target_chunks > resident {
        target_chunks - resident
    } else {
        0
    }
}

fn estimate<F: Fn(WeightOp) -> Weight>(
    candidate: &WorkerPrefetchCandidate,
    target_chunks: usize,
    chunks_per_second: Weight,
    weigh: &F,
) -> (time: Weight)
    requires
        is_arithmetic(*weigh),
    ensures
        time == completion_time(
            arithmetic_of(*weigh),
            *candidate,
            target_chunks,
            chunks_per_second,
        ),
{
    let missing: usize = count_missing(candidate, target_chunks);
    let rate: Weight = rate_in_use(chunks_per_second);
    let queued: u32 = candidate.prefetch_inflight_chunks;
    evaluate(weigh, WeightOp::CopyTime { queued, missing, rate })
}

fn is_done_before<F: Fn(WeightOp) -> Weight>(
    a: &WorkerPrefetchCandidate,
    b: &WorkerPrefetchCandidate,
    target_chunks: usize,
    chunks_per_second: Weight,
    weigh: &F,
) -> (before: bool)
    requires
        is_arithmetic(*weigh),
    ensures
        before == done_before(
            arithmetic_of(*weigh),
            *a,
            *b,
            target_chunks,
            chunks_per_second,
        ),
{
    let rate: Weight = rate_in_use(chunks_per_second);
    if target_chunks <= u32::MAX as usize && LEAST_ORDINARY_RATE <= rate.bits && rate.bits
        <= GREATEST_ORDINARY_RATE {
        let a_pending: u64 = a.prefetch_inflight_chunks as u64 + count_missing(
            a,
            target_chunks,
        ) as u64;
        let b_pending: u64 = b.prefetch_inflight_chunks as u64 + count_missing(
            b,
            target_chunks,
        ) as u64;
        a_pending < b_pending || (a_pending == b_pending && a.worker.precedes(&b.worker))
    } else {
        let a_time: Weight = estimate(a, target_chunks, chunks_per_second, weigh);
        let b_time: Weight = estimate(b, target_chunks, chunks_per_second, weigh);
        ranks_below(a_time, b_time) || (a_time.bits == b_time.bits && a.worker.precedes(
            &b.worker,
        ))
    }
}

/// Selects the worker that is done first. The time to empty the queue and the time to
/// copy what is missing are both counted; nothing else is.
pub fn select_prefetch_worker<F: Fn(WeightOp) -> Weight>(
    candidates: &[WorkerPrefetchCandidate],
    target_chunks: usize,
    chunks_per_second: Weight,
    fallback: WorkerWithDpRank,
    weigh: &F,
) -> (worker: WorkerWithDpRank)
    requires
        is_arithmetic(*weigh),
    ensures
        is_best_worker(
            arithmetic_of(*weigh),
            candidates@,
            target_chunks,
            chunks_per_second,
            fallback,
            worker,
        ),
        worker == best_worker(
            arithmetic_of(*weigh),
            candidates@,
            target_chunks,
            chunks_per_second,
            fallback,
        ),
{
    let ghost w = arithmetic_of(*weigh);
    if candidates.len() == 0 || target_chunks == 0 {
        assert(is_best_worker(
            w,
            candidates@,
            target_chunks,
            chunks_per_second,
            fallback,
            fallback,
        ));
        return fallback;
    }
    let mut best: usize = 0;
    let mut i: usize = 1;
    while i < candidates.len()
        invariant
            is_arithmetic(*weigh),
            w == arithmetic_of(*weigh),
            0 < i <= candidates@.len(),
            best < i,
            forall|j: int|
                0 <= j < i ==> !done_before(
                    w,
                    #[trigger] candidates@[j],
                    candidates@[best as int],
                    target_chunks,
                    chunks_per_second,
                ),
        decreases candidates@.len() - i,
    {
        if is_done_before(
            &candidates[i],
            &candidates[best],
            target_chunks,
            chunks_per_second,
            weigh,
        ) {
            best = i;
        }
        i += 1;
    }
    let chosen: WorkerPrefetchCandidate = candidates[best];
    proof {
        assert(is_done_first(w, candidates@, target_chunks, chunks_per_second, best as int));
        assert(is_best_worker(
            w,
            candidates@,
            target_chunks,
            chunks_per_second,
            fallback,
            chosen.worker,
        ));
        law_best_worker_is_unique(
            w,
            candidates@,
            target_chunks,
            chunks_per_second,
            fallback,
            chosen.worker,
            best_worker(w, candidates@, target_chunks, chunks_per_second, fallback),
        );
    }
    chosen.worker
}

/// The worker that is selected has the fewest chunks to copy: those that it is still
/// copying, and those of the target that it does not hold. Of several such workers the
/// first is selected. This holds at every ordinary rate, and at one that is not positive
/// and finite. With nothing to copy or no candidates it is the one to fall back on.
pub proof fn law_fewest_chunks_to_copy_are_selected<F: Fn(WeightOp) -> Weight>(
    candidates: &[WorkerPrefetchCandidate],
    target_chunks: usize,
    chunks_per_second: Weight,
    fallback: WorkerWithDpRank,
    weigh: &F,
    worker: WorkerWithDpRank,
)
    requires
        call_ensures(
            select_prefetch_worker::<F>,
            (candidates, target_chunks, chunks_per_second, fallback, weigh),
            worker,
        ),
        target_chunks <= 0xFFFF_FFFF,
        chunks_per_second.bits == 0 || 0x07B0_0000_0000_0000 <= chunks_per_second.bits
            <= 0x7830_0000_0000_0000 || chunks_per_second.bits >= 0x7FF0_0000_0000_0000,
    ensures
        candidates@.len() == 0 || target_chunks == 0 ==> worker == fallback,
        candidates@.len() > 0 && target_chunks > 0 ==> exists|c: int|
            {
                &&& 0 <= c < candidates@.len()
                &&& (#[trigger] candidates@[c]).worker == worker
                &&& forall|d: int|
                    0 <= d < candidates@.len() ==> {
                        let cost = candidates@[c].prefetch_inflight_chunks + if target_chunks
                            > candidates@[c].resident_chunks {
                            target_chunks - candidates@[c].resident_chunks
                        } else {
                            0
                        };
                        let other = (#[trigger] candidates@[d]).prefetch_inflight_chunks
                            + if target_chunks > candidates@[d].resident_chunks {
                            target_chunks - candidates@[d].resident_chunks
                        } else {
                            0
                        };
                        let next = candidates@[d].worker;
                        cost < other || (cost == other && (next.worker_id > worker.worker_id || (
                        next.worker_id == worker.worker_id && next.dp_rank >= worker.dp_rank)))
                    }
            },
{
    let w = arithmetic_of(*weigh);
    if candidates@.len() > 0 && target_chunks > 0 {
        law_fewest_pending_chunks_win(
            w,
            candidates@,
            target_chunks,
            chunks_per_second,
            fallback,
            worker,
        );
        let c = choose|c: int| #[trigger]
            has_fewest_pending(candidates@, target_chunks, c) && candidates@[c].worker == worker;
        assert(candidates@[c].worker == worker);
    }
}

/// At a rate beyond the ordinary ones, the worker that is selected is done first as the
/// arithmetic has it, and is the first of those.
pub proof fn law_first_done_is_selected<F: Fn(WeightOp) -> Weight>(
    candidates: &[WorkerPrefetchCandidate],
    target_chunks: usize,
    chunks_per_second: Weight,
    fallback: WorkerWithDpRank,
    weigh: &F,
    worker: WorkerWithDpRank,
)
    requires
        call_ensures(
            select_prefetch_worker::<F>,
            (candidates, target_chunks, chunks_per_second, fallback, weigh),
            worker,
        ),
        0 < chunks_per_second.bits < 0x7FF0_0000_0000_0000,
        chunks_per_second.bits < 0x07B0_0000_0000_0000 || chunks_per_second.bits
            > 0x7830_0000_0000_0000 || target_chunks > 0xFFFF_FFFF,
        candidates@.len() > 0,
        target_chunks > 0,
    ensures
        exists|c: int|
            {
                let time = |k: int|
                    arithmetic_of(*weigh)(
                        WeightOp::CopyTime {
                            queued: candidates@[k].prefetch_inflight_chunks,
                            missing: if target_chunks > candidates@[k].resident_chunks {
                                (target_chunks - candidates@[k].resident_chunks) as usize
                            } else {
                                0
                            },
                            rate: chunks_per_second,
                        },
                    );
                &&& 0 <= c < candidates@.len()
                &&& (#[trigger] candidates@[c]).worker == worker
                &&& forall|d: int|
                    0 <= d < candidates@.len() ==> {
                        let next = (#[trigger] candidates@[d]).worker;
                        rank(time(c)) < rank(time(d)) || (rank(time(c)) == rank(time(d)) && (
                        next.worker_id > worker.worker_id || (next.worker_id == worker.worker_id
                            && next.dp_rank >= worker.dp_rank)))
                    }
            },
{
    let w = arithmetic_of(*weigh);
    let c = choose|c: int| #[trigger]
        is_done_first(w, candidates@, target_chunks, chunks_per_second, c)
            && candidates@[c].worker == worker;
    assert(candidates@[c].worker == worker);
    assert forall|d: int| 0 <= d < candidates@.len() implies ({
        let next = (#[trigger] candidates@[d]).worker;
        let mine = completion_time(w, candidates@[c], target_chunks, chunks_per_second);
        let other = completion_time(w, candidates@[d], target_chunks, chunks_per_second);
        rank(mine) < rank(other) || (rank(mine) == rank(other) && (next.worker_id
            > worker.worker_id || (next.worker_id == worker.worker_id && next.dp_rank
            >= worker.dp_rank)))
    }) by {
        assert(!done_before(
            w,
            candidates@[d],
            candidates@[c],
            target_chunks,
            chunks_per_second,
        ));
    }
}

} // verus!
