//! The best-scored chunks of a collection.

use crate::chunks::{
    chunk_before, chunk_precedes, clone_key, ids, lemma_chunk_before_total,
    lemma_chunk_before_transitive, ChunkId, ChunkKey,
};
use crate::key_map::{
    has_key, lemma_pair_in_map, pairs_map, position_of, unique_keys, KeyMap,
};
use crate::weights::{rank, ranks_below, Weight};
use vstd::prelude::*;

verus! {

/// `a` comes before `b` in the ranking: by the higher score, and among equal
/// scores by the order of the chunks.
pub open spec fn outranks(a: (ChunkId, Weight), b: (ChunkId, Weight)) -> bool {
    rank(a.1) > rank(b.1) || (rank(a.1) == rank(b.1) && chunk_before(a.0, b.0))
}

pub open spec fn scored(scores: Map<ChunkId, Weight>, id: ChunkId) -> (ChunkId, Weight) {
    (id, scores[id])
}

/// `top` lists the `k` best-ranked chunks, best first, or all of them when there
/// are no more than `k`.
pub open spec fn is_top(scores: Map<ChunkId, Weight>, k: nat, top: Seq<ChunkId>) -> bool {
    &&& top.len() == if k <= scores.len() {
        k
    } else {
        scores.len()
    }
    &&& forall|i: int| 0 <= i < top.len() ==> scores.contains_key(#[trigger] top[i])
    &&& forall|i: int, j: int|
        0 <= i < j < top.len() ==> outranks(
            scored(scores, #[trigger] top[i]),
            scored(scores, #[trigger] top[j]),
        )
    &&& forall|i: int, id: ChunkId|
        0 <= i < top.len() && #[trigger] scores.contains_key(id) && !top.contains(id) ==> outranks(
            scored(scores, #[trigger] top[i]),
            scored(scores, id),
        )
}

/// The `k` best-ranked chunks, best first.
pub open spec fn top_of(scores: Map<ChunkId, Weight>, k: nat) -> Seq<ChunkId> {
    choose|top: Seq<ChunkId>| is_top(scores, k, top)
}

pub proof fn lemma_outranks_total(a: (ChunkId, Weight), b: (ChunkId, Weight))
    ensures
        a.0 != b.0 ==> outranks(a, b) || outranks(b, a),
        !(outranks(a, b) && outranks(b, a)),
{
    lemma_chunk_before_total(a.0, b.0);
}

pub proof fn lemma_outranks_transitive(
    a: (ChunkId, Weight),
    b: (ChunkId, Weight),
    c: (ChunkId, Weight),
)
    requires
        outranks(a, b),
        outranks(b, c),
    ensures
        outranks(a, c),
{
    if rank(a.1) == rank(b.1) && rank(b.1) == rank(c.1) {
        lemma_chunk_before_transitive(a.0, b.0, c.0);
    }
}

proof fn lemma_next_outranks(
    scores: Map<ChunkId, Weight>,
    k: nat,
    a: Seq<ChunkId>,
    b: Seq<ChunkId>,
    n: int,
)
    requires
        is_top(scores, k, a),
        is_top(scores, k, b),
        0 <= n < a.len(),
        a.take(n) == b.take(n),
        a[n] != b[n],
    ensures
        outranks(scored(scores, b[n]), scored(scores, a[n])),
{
    if b.contains(a[n]) {
        let j = choose|j: int| 0 <= j < b.len() && b[j] == a[n];
        if j < n {
            assert(a.take(n)[j] == b.take(n)[j]);
            lemma_outranks_total(scored(scores, a[j]), scored(scores, a[n]));
            assert(outranks(scored(scores, a[j]), scored(scores, a[n])));
        }
    }
}

proof fn lemma_top_prefix(
    scores: Map<ChunkId, Weight>,
    k: nat,
    a: Seq<ChunkId>,
    b: Seq<ChunkId>,
    n: int,
)
    requires
        is_top(scores, k, a),
        is_top(scores, k, b),
        0 <= n <= a.len(),
    ensures
        a.take(n) == b.take(n),
    decreases n,
{
    if n > 0 {
        lemma_top_prefix(scores, k, a, b, n - 1);
        if a[n - 1] != b[n - 1] {
            lemma_next_outranks(scores, k, a, b, n - 1);
            lemma_next_outranks(scores, k, b, a, n - 1);
            lemma_outranks_total(scored(scores, a[n - 1]), scored(scores, b[n - 1]));
        }
        assert(a.take(n) =~= a.take(n - 1).push(a[n - 1]));
        assert(b.take(n) =~= b.take(n - 1).push(b[n - 1]));
    } else {
        assert(a.take(n) =~= b.take(n));
    }
}

/// The ranking is determined by the scores alone: chunks with equal scores have
/// a stable order.
pub proof fn law_ranking_is_unique(
    scores: Map<ChunkId, Weight>,
    k: nat,
    a: Seq<ChunkId>,
    b: Seq<ChunkId>,
)
    requires
        is_top(scores, k, a),
        is_top(scores, k, b),
    ensures
        a == b,
        a == top_of(scores, k),
{
    lemma_top_prefix(scores, k, a, b, a.len() as int);
    assert(a.take(a.len() as int) =~= a);
    assert(b.take(b.len() as int) =~= b);
    let t = top_of(scores, k);
    lemma_top_prefix(scores, k, a, t, a.len() as int);
    assert(t.take(t.len() as int) =~= t);
}

/// Of finitely many chunks, one ranks before all others.
proof fn lemma_best_exists(scores: Map<ChunkId, Weight>, some: Set<ChunkId>) -> (best: ChunkId)
    requires
        some.finite(),
        some.len() > 0,
    ensures
        some.contains(best),
        forall|id: ChunkId| #[trigger]
            some.contains(id) && id != best ==> outranks(
                scored(scores, best),
                scored(scores, id),
            ),
    decreases some.len(),
{
    let one = some.choose();
    let others = some.remove(one);
    if others.len() == 0 {
        assert forall|id: ChunkId| #[trigger] some.contains(id) implies id == one by {
            if id != one {
                assert(others.contains(id));
                assert(others =~= Set::<ChunkId>::empty());
            }
        }
        one
    } else {
        let best = lemma_best_exists(scores, others);
        lemma_outranks_total(scored(scores, one), scored(scores, best));
        if outranks(scored(scores, best), scored(scores, one)) {
            assert forall|id: ChunkId| #[trigger] some.contains(id) && id != best implies outranks(
                scored(scores, best),
                scored(scores, id),
            ) by {
                if id != one {
                    assert(others.contains(id));
                }
            }
            best
        } else {
            assert forall|id: ChunkId| #[trigger] some.contains(id) && id != one implies outranks(
                scored(scores, one),
                scored(scores, id),
            ) by {
                assert(others.contains(id));
                if id != best {
                    lemma_outranks_transitive(
                        scored(scores, one),
                        scored(scores, best),
                        scored(scores, id),
                    );
                }
            }
            one
        }
    }
}

proof fn lemma_top_exists(scores: Map<ChunkId, Weight>, k: nat) -> (top: Seq<ChunkId>)
    requires
        scores.dom().finite(),
    ensures
        is_top(scores, k, top),
    decreases k,
{
    if k == 0 {
        Seq::empty()
    } else {
        let shorter = lemma_top_exists(scores, (k - 1) as nat);
        if scores.len() < k {
            shorter
        } else {
            let listed = shorter.to_set();
            let rest = scores.dom().difference(listed);
            shorter.lemma_cardinality_of_set();
            assert(rest.len() > 0) by {
                if rest.len() == 0 {
                    assert(rest =~= Set::<ChunkId>::empty());
                    assert forall|id: ChunkId| scores.dom().contains(id) implies listed.contains(
                        id,
                    ) by {
                        assert(!rest.contains(id));
                    }
                    assert(scores.dom().subset_of(listed));
                    vstd::set_lib::lemma_len_subset(scores.dom(), listed);
                }
            }
            let best = lemma_best_exists(scores, rest);
            let top = shorter.push(best);
            assert(!shorter.contains(best)) by {
                assert(!listed.contains(best));
            }
            assert forall|i: int, j: int| 0 <= i < j < top.len() implies outranks(
                scored(scores, #[trigger] top[i]),
                scored(scores, #[trigger] top[j]),
            ) by {
                assert(top[i] == shorter[i]);
            }
            assert forall|i: int, id: ChunkId|
                0 <= i < top.len() && #[trigger] scores.contains_key(id) && !top.contains(
                    id,
                ) implies outranks(scored(scores, #[trigger] top[i]), scored(scores, id)) by {
                if shorter.contains(id) {
                    let j = choose|j: int| 0 <= j < shorter.len() && shorter[j] == id;
                    assert(top[j] == id);
                }
                assert(top[shorter.len() as int] == best);
                assert(rest.contains(id));
                if i < shorter.len() {
                    assert(top[i] == shorter[i]);
                }
            }
            top
        }
    }
}

/// Finitely many chunks can always be ranked.
pub proof fn law_ranking_exists(scores: Map<ChunkId, Weight>, k: nat)
    requires
        scores.dom().finite(),
    ensures
        is_top(scores, k, top_of(scores, k)),
{
    let top = lemma_top_exists(scores, k);
    assert(is_top(scores, k, top));
}

/// No chunk is ranked twice.
pub proof fn law_ranking_lists_once(scores: Map<ChunkId, Weight>, k: nat, top: Seq<ChunkId>)
    requires
        is_top(scores, k, top),
    ensures
        top.no_duplicates(),
{
    assert forall|i: int, j: int| 0 <= i < top.len() && 0 <= j < top.len() && i
        != j implies top[i] != top[j] by {
        if i < j {
            lemma_outranks_total(scored(scores, top[i]), scored(scores, top[j]));
            assert(outranks(scored(scores, top[i]), scored(scores, top[j])));
        } else {
            lemma_outranks_total(scored(scores, top[j]), scored(scores, top[i]));
            assert(outranks(scored(scores, top[j]), scored(scores, top[i])));
        }
    }
}

fn entry_outranks(scores: &KeyMap<ChunkKey, Weight>, a: usize, b: usize) -> (r: bool)
    requires
        a < scores.pairs().len(),
        b < scores.pairs().len(),
    ensures
        r == outranks(scores.pairs()[a as int], scores.pairs()[b as int]),
{
    let a_score: Weight = *scores.value_at(a);
    let b_score: Weight = *scores.value_at(b);
    ranks_below(b_score, a_score) || (a_score.bits == b_score.bits && chunk_precedes(
        scores.key_at(a),
        scores.key_at(b),
    ))
}

/// The best-ranked entry among those that rank after `last`, or among all.
fn next_best(scores: &KeyMap<ChunkKey, Weight>, last: Option<usize>) -> (best: Option<usize>)
    requires
        unique_keys(scores.pairs()),
        last matches Some(l) ==> l < scores.pairs().len(),
    ensures
        match best {
            Some(b) => {
                &&& b < scores.pairs().len()
                &&& ranks_after(scores.pairs(), last, b as int)
                &&& forall|j: int|
                    0 <= j < scores.pairs().len() && j != b && #[trigger] ranks_after(
                        scores.pairs(),
                        last,
                        j,
                    ) ==> outranks(scores.pairs()[b as int], scores.pairs()[j])
            },
            None => forall|j: int|
                0 <= j < scores.pairs().len() ==> !#[trigger] ranks_after(scores.pairs(), last, j),
        },
{
    let len: usize = scores.len();
    let mut best: Option<usize> = None;
    let mut i: usize = 0;
    let ghost pairs = scores.pairs();
    while i < len
        invariant
            i <= len,
            pairs == scores.pairs(),
            len == pairs.len(),
            unique_keys(pairs),
            last matches Some(l) ==> l < pairs.len(),
            match best {
                Some(b) => {
                    &&& b < i
                    &&& ranks_after(pairs, last, b as int)
                    &&& forall|j: int|
                        0 <= j < i && j != b && #[trigger] ranks_after(pairs, last, j) ==> outranks(
                            pairs[b as int],
                            pairs[j],
                        )
                },
                None => forall|j: int| 0 <= j < i ==> !#[trigger] ranks_after(pairs, last, j),
            },
        decreases len - i,
    {
        let after: bool = match last {
            Some(l) => entry_outranks(scores, l, i),
            None => true,
        };
        assert(after == ranks_after(pairs, last, i as int));
        if after {
            match best {
                None => {
                    best = Some(i);
                },
                Some(b) => {
                    proof {
                        assert(pairs[b as int].0 != pairs[i as int].0);
                        lemma_outranks_total(pairs[b as int], pairs[i as int]);
                    }
                    if entry_outranks(scores, i, b) {
                        best = Some(i);
                        proof {
                            assert forall|j: int|
                                0 <= j < i + 1 && j != i && #[trigger] ranks_after(
                                    pairs,
                                    last,
                                    j,
                                ) implies outranks(pairs[i as int], pairs[j]) by {
                                if j != b {
                                    lemma_outranks_transitive(
                                        pairs[i as int],
                                        pairs[b as int],
                                        pairs[j],
                                    );
                                }
                            }
                        }
                    }
                },
            }
        }
        i += 1;
    }
    best
}

spec fn ranks_after(pairs: Seq<(ChunkId, Weight)>, last: Option<usize>, j: int) -> bool {
    match last {
        Some(l) => outranks(pairs[l as int], pairs[j]),
        None => true,
    }
}

/// The entries `chosen` are listed best first, and outrank all others.
spec fn leads(pairs: Seq<(ChunkId, Weight)>, chosen: Seq<usize>) -> bool {
    &&& forall|i: int| 0 <= i < chosen.len() ==> (#[trigger] chosen[i]) < pairs.len()
    &&& forall|i: int, j: int|
        0 <= i < j < chosen.len() ==> outranks(
            pairs[#[trigger] chosen[i] as int],
            pairs[#[trigger] chosen[j] as int],
        )
    &&& forall|i: int, j: usize|
        0 <= i < chosen.len() && j < pairs.len() && !(#[trigger] chosen.contains(j)) ==> outranks(
            pairs[#[trigger] chosen[i] as int],
            pairs[j as int],
        )
}

proof fn lemma_leads_extend(pairs: Seq<(ChunkId, Weight)>, chosen: Seq<usize>, best: usize)
    requires
        unique_keys(pairs),
        leads(pairs, chosen),
        best < pairs.len(),
        chosen.len() > 0 ==> outranks(pairs[chosen.last() as int], pairs[best as int]),
        forall|j: int|
            0 <= j < pairs.len() && j != best && (chosen.len() > 0 ==> outranks(
                pairs[chosen.last() as int],
                pairs[j],
            )) ==> outranks(pairs[best as int], #[trigger] pairs[j]),
    ensures
        leads(pairs, chosen.push(best)),
        !chosen.contains(best),
{
    let longer = chosen.push(best);
    if chosen.contains(best) {
        let i = choose|i: int| 0 <= i < chosen.len() && chosen[i] == best;
        lemma_outranks_total(pairs[chosen.last() as int], pairs[best as int]);
        if i < chosen.len() - 1 {
            assert(outranks(pairs[chosen[i] as int], pairs[chosen[chosen.len() - 1] as int]));
        }
        assert(false);
    }
    assert forall|i: int, j: int| 0 <= i < j < longer.len() implies outranks(
        pairs[#[trigger] longer[i] as int],
        pairs[#[trigger] longer[j] as int],
    ) by {
        assert(longer[i] == chosen[i]);
        if j < chosen.len() {
            assert(longer[j] == chosen[j]);
        }
    }
    assert forall|i: int, j: usize|
        0 <= i < longer.len() && j < pairs.len() && !(#[trigger] longer.contains(j)) implies outranks(
        pairs[#[trigger] longer[i] as int],
        pairs[j as int],
    ) by {
        assert(!chosen.contains(j)) by {
            if chosen.contains(j) {
                let at = choose|at: int| 0 <= at < chosen.len() && chosen[at] == j;
                assert(longer[at] == j);
            }
        }
        assert(longer[chosen.len() as int] == best);
        if i < chosen.len() {
            assert(longer[i] == chosen[i]);
        } else {
            if chosen.len() > 0 {
                assert(outranks(pairs[chosen[chosen.len() - 1] as int], pairs[j as int]));
            }
            assert(outranks(pairs[best as int], pairs[j as int]));
        }
    }
}

/// The `k` best-ranked chunks, best first.
pub fn rank_top(scores: &KeyMap<ChunkKey, Weight>, k: usize) -> (top: Vec<ChunkKey>)
    ensures
        is_top(scores@, k as nat, ids(top@)),
        ids(top@) == top_of(scores@, k as nat),
{
    let len: usize = scores.len();
    let ghost pairs = scores.pairs();
    let mut chosen: Vec<usize> = Vec::new();
    let mut top: Vec<ChunkKey> = Vec::new();
    let mut exhausted: bool = false;
    while chosen.len() < k && !exhausted
        invariant
            pairs == scores.pairs(),
            len == pairs.len(),
            unique_keys(pairs),
            chosen@.len() <= k,
            chosen@.len() <= pairs.len(),
            leads(pairs, chosen@),
            exhausted ==> chosen@.len() == pairs.len(),
            top@.len() == chosen@.len(),
            forall|i: int| 0 <= i < top@.len() ==> (#[trigger] top@[i])@ == pairs[chosen@[i] as int].0,
        decreases k - chosen@.len(), !exhausted as int,
    {
        let last: Option<usize> = if chosen.len() == 0 {
            None
        } else {
            Some(chosen[chosen.len() - 1])
        };
        let ghost before = chosen@;
        match next_best(scores, last) {
            Some(best) => {
                proof {
                    assert forall|j: int|
                        0 <= j < pairs.len() && j != best && (before.len() > 0 ==> outranks(
                            pairs[before.last() as int],
                            pairs[j],
                        )) implies outranks(pairs[best as int], #[trigger] pairs[j]) by {
                        assert(ranks_after(pairs, last, j));
                    }
                    lemma_leads_extend(pairs, before, best);
                    lemma_chosen_bounded(pairs, before.push(best));
                }
                top.push(clone_key(scores.key_at(best)));
                chosen.push(best);
            },
            None => {
                proof {
                    lemma_all_chosen(pairs, before, last);
                }
                exhausted = true;
            },
        }
    }
    proof {
        assert(scores@ == pairs_map(pairs));
        lemma_leads_is_top(pairs, chosen@, k as nat, ids(top@));
        law_ranking_is_unique(scores@, k as nat, ids(top@), ids(top@));
    }
    top
}

proof fn lemma_chosen_bounded(pairs: Seq<(ChunkId, Weight)>, chosen: Seq<usize>)
    requires
        leads(pairs, chosen),
    ensures
        chosen.len() <= pairs.len(),
        chosen.no_duplicates(),
{
    assert forall|i: int, j: int| 0 <= i < chosen.len() && 0 <= j < chosen.len() && i != j implies chosen[i]
        != chosen[j] by {
        if i < j {
            lemma_outranks_total(pairs[chosen[i] as int], pairs[chosen[j] as int]);
        } else {
            lemma_outranks_total(pairs[chosen[j] as int], pairs[chosen[i] as int]);
        }
    }
    let positions = chosen.map_values(|x: usize| x as int);
    assert(positions.no_duplicates());
    positions.unique_seq_to_set();
    let all = vstd::set_lib::set_int_range(0, pairs.len() as int);
    vstd::set_lib::lemma_int_range(0, pairs.len() as int);
    assert(positions.to_set().subset_of(all)) by {
        assert forall|x: int| positions.to_set().contains(x) implies all.contains(x) by {
            let i = choose|i: int| 0 <= i < positions.len() && positions[i] == x;
            assert(chosen[i] < pairs.len());
        }
    }
    vstd::set_lib::lemma_len_subset(positions.to_set(), all);
}

proof fn lemma_all_chosen(
    pairs: Seq<(ChunkId, Weight)>,
    chosen: Seq<usize>,
    last: Option<usize>,
)
    requires
        leads(pairs, chosen),
        pairs.len() <= usize::MAX,
        last == if chosen.len() == 0 {
            None::<usize>
        } else {
            Some(chosen.last())
        },
        forall|j: int| 0 <= j < pairs.len() ==> !#[trigger] ranks_after(pairs, last, j),
    ensures
        chosen.len() == pairs.len(),
{
    lemma_chosen_bounded(pairs, chosen);
    let positions = chosen.map_values(|x: usize| x as int);
    assert(positions.no_duplicates());
    positions.unique_seq_to_set();
    let all = vstd::set_lib::set_int_range(0, pairs.len() as int);
    vstd::set_lib::lemma_int_range(0, pairs.len() as int);
    assert(all.subset_of(positions.to_set())) by {
        assert forall|x: int| all.contains(x) implies positions.to_set().contains(x) by {
            assert(!ranks_after(pairs, last, x));
            if !chosen.contains(x as usize) {
                assert(outranks(pairs[chosen[chosen.len() - 1] as int], pairs[x]));
            }
            let i = choose|i: int| 0 <= i < chosen.len() && chosen[i] == x as usize;
            assert(positions[i] == x);
        }
    }
    vstd::set_lib::lemma_len_subset(all, positions.to_set());
}

proof fn lemma_leads_is_top(
    pairs: Seq<(ChunkId, Weight)>,
    chosen: Seq<usize>,
    k: nat,
    top: Seq<ChunkId>,
)
    requires
        unique_keys(pairs),
        pairs.len() <= usize::MAX,
        leads(pairs, chosen),
        chosen.len() <= k,
        chosen.len() < k ==> chosen.len() == pairs.len(),
        chosen.len() <= pairs.len(),
        pairs_map(pairs).len() == pairs.len(),
        top.len() == chosen.len(),
        forall|i: int| 0 <= i < top.len() ==> (#[trigger] top[i]) == pairs[chosen[i] as int].0,
    ensures
        is_top(pairs_map(pairs), k, top),
{
    let scores = pairs_map(pairs);
    assert forall|i: int| 0 <= i < top.len() implies scores.contains_key(#[trigger] top[i])
        && scored(scores, top[i]) == pairs[chosen[i] as int] by {
        assert(chosen[i] < pairs.len());
        lemma_pair_in_map(pairs, chosen[i] as int);
    }
    assert forall|i: int, id: ChunkId|
        0 <= i < top.len() && #[trigger] scores.contains_key(id) && !top.contains(id) implies outranks(
        scored(scores, #[trigger] top[i]),
        scored(scores, id),
    ) by {
        let j = position_of(pairs, id);
        assert(has_key(pairs, id));
        lemma_pair_in_map(pairs, j);
        if chosen.contains(j as usize) {
            let at = choose|at: int| 0 <= at < chosen.len() && chosen[at] == j as usize;
            assert(top[at] == id);
        }
        assert(outranks(pairs[chosen[i] as int], pairs[j as usize as int]));
    }
    assert forall|i: int, j: int| 0 <= i < j < top.len() implies outranks(
        scored(scores, #[trigger] top[i]),
        scored(scores, #[trigger] top[j]),
    ) by {
        assert(outranks(pairs[chosen[i] as int], pairs[chosen[j] as int]));
    }
}

} // verus!
