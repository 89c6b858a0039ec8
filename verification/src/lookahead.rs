//! Blocks that some waiting request has already asked a worker to prefetch.

use crate::chunks::{
    distinct, first, lemma_distinct, lemma_filter_membership, lemma_filter_next,
};
use crate::clock::{Duration, Instant};
use crate::key_map::{kept, KeyMap};
use crate::protocols::{LocalBlockHash, WorkerWithDpRank};
use vstd::prelude::*;

verus! {

/// The reserved blocks of each worker, with the time each reservation ends.
pub type Reservations = Map<(WorkerWithDpRank, LocalBlockHash), Instant>;

/// Work that has been admitted and not been confirmed yet.
///
/// The worker decides what is resident. The table only keeps a second request from
/// asking for the same block before the worker has answered the first.
pub struct LookaheadReservationTable {
    pub entries: KeyMap<(WorkerWithDpRank, LocalBlockHash), Instant>,
    pub ttl: Duration,
    pub capacity: usize,
}

/// A reservation that has not ended at `now`.
pub open spec fn is_held(now: Instant) -> spec_fn(
    (WorkerWithDpRank, LocalBlockHash),
    Instant,
) -> bool {
    |key: (WorkerWithDpRank, LocalBlockHash), expires_at: Instant| expires_at.nanos > now.nanos
}

/// The reservations that have not ended.
pub open spec fn held(entries: Reservations, now: Instant) -> Reservations {
    kept(entries, is_held(now))
}

/// `worker` has not reserved the block.
pub open spec fn is_free(entries: Reservations, worker: WorkerWithDpRank) -> spec_fn(
    LocalBlockHash,
) -> bool {
    |block: LocalBlockHash| !entries.contains_key((worker, block))
}

/// How many more blocks can be reserved.
pub open spec fn places_left(entries: Reservations, capacity: nat) -> int {
    if entries.len() < capacity {
        capacity - entries.len()
    } else {
        0
    }
}

/// The blocks that are newly reserved out of `blocks`: those that the worker has not
/// reserved, each once, in their order, as far as there are places left.
pub open spec fn admitted(
    entries: Reservations,
    worker: WorkerWithDpRank,
    blocks: Seq<LocalBlockHash>,
    capacity: nat,
) -> Seq<LocalBlockHash> {
    first(
        distinct(blocks.filter(is_free(entries, worker))),
        places_left(entries, capacity),
    )
}

/// The reservations with `blocks` of `worker` added, which end at `expires_at`.
pub open spec fn with_reserved(
    entries: Reservations,
    worker: WorkerWithDpRank,
    blocks: Seq<LocalBlockHash>,
    expires_at: Instant,
) -> Reservations {
    Map::new(
        |key: (WorkerWithDpRank, LocalBlockHash)|
            entries.contains_key(key) || (key.0 == worker && blocks.contains(key.1)),
        |key: (WorkerWithDpRank, LocalBlockHash)|
            if key.0 == worker && blocks.contains(key.1) {
                expires_at
            } else {
                entries[key]
            },
    )
}

/// The reservations without `blocks` of `worker`.
pub open spec fn without_blocks(
    entries: Reservations,
    worker: WorkerWithDpRank,
    blocks: Seq<LocalBlockHash>,
) -> Reservations {
    kept(
        entries,
        |key: (WorkerWithDpRank, LocalBlockHash), expires_at: Instant|
            !(key.0 == worker && blocks.contains(key.1)),
    )
}

pub proof fn lemma_add_block(
    entries: Reservations,
    worker: WorkerWithDpRank,
    blocks: Seq<LocalBlockHash>,
    block: LocalBlockHash,
    expires_at: Instant,
)
    ensures
        with_reserved(entries, worker, blocks.push(block), expires_at) == with_reserved(
            entries,
            worker,
            blocks,
            expires_at,
        ).insert((worker, block), expires_at),
{
    let longer = blocks.push(block);
    assert forall|x: LocalBlockHash| #[trigger] longer.contains(x) <==> blocks.contains(x) || x
        == block by {
        assert(longer[blocks.len() as int] == block);
        if blocks.contains(x) {
            let i = choose|i: int| 0 <= i < blocks.len() && blocks[i] == x;
            assert(longer[i] == x);
        }
        if longer.contains(x) && x != block {
            let i = choose|i: int| 0 <= i < longer.len() && longer[i] == x;
            assert(blocks[i] == x);
        }
    }
    assert(with_reserved(entries, worker, longer, expires_at) =~= with_reserved(
        entries,
        worker,
        blocks,
        expires_at,
    ).insert((worker, block), expires_at));
}

impl LookaheadReservationTable {
    pub fn new(ttl: Duration, capacity: usize) -> (table: Self)
        ensures
            table.entries@ == Reservations::empty(),
            table.ttl == ttl,
            table.capacity == if capacity == 0 {
                1
            } else {
                capacity
            },
    {
        LookaheadReservationTable {
            entries: KeyMap::new(),
            ttl,
            capacity: if capacity == 0 {
                1
            } else {
                capacity
            },
        }
    }

    /// Forgets reservations that have ended.
    pub fn expire(&mut self, now: Instant)
        ensures
            final(self).ttl == old(self).ttl,
            final(self).capacity == old(self).capacity,
            final(self).entries@ == held(old(self).entries@, now),
    {
        let keep = |key: &(WorkerWithDpRank, LocalBlockHash), expires_at: &Instant| -> (b: bool)
            ensures
                b == (expires_at.nanos > now.nanos),
            { expires_at.nanos > now.nanos };
        self.entries.retain(keep, Ghost(is_held(now)));
    }

    /// Reserves those of the blocks that are not reserved on this worker yet, as far
    /// as there is room.
    pub fn reserve(
        &mut self,
        worker: WorkerWithDpRank,
        block_hashes: &[LocalBlockHash],
        now: Instant,
    ) -> (reserved: Vec<LocalBlockHash>)
        requires
            now.nanos + old(self).ttl.nanos <= u128::MAX,
        ensures
            final(self).ttl == old(self).ttl,
            final(self).capacity == old(self).capacity,
            reserved@ == admitted(
                held(old(self).entries@, now),
                worker,
                block_hashes@,
                old(self).capacity as nat,
            ),
            final(self).entries@ == with_reserved(
                held(old(self).entries@, now),
                worker,
                reserved@,
                Instant { nanos: (now.nanos + old(self).ttl.nanos) as u128 },
            ),
            final(self).entries@.dom().finite(),
            final(self).entries@.len() == held(old(self).entries@, now).len() + reserved@.len(),
    {
        self.expire(now);
        let ghost before = self.entries@;
        let ghost keep = is_free(before, worker);
        let expires_at: Instant = now.after(self.ttl);
        let capacity: usize = self.capacity;
        let ghost places = places_left(before, capacity as nat);
        let mut reserved: Vec<LocalBlockHash> = Vec::new();
        let mut i: usize = 0;
        proof {
            self.entries.lemma_finite();
            reveal(Seq::filter);
            assert(block_hashes@.take(0).filter(keep) =~= Seq::<LocalBlockHash>::empty());
            assert(with_reserved(before, worker, reserved@, expires_at) =~= before);
        }
        while i < block_hashes.len()
            invariant
                i <= block_hashes@.len(),
                keep == is_free(before, worker),
                capacity == self.capacity,
                self.ttl == old(self).ttl,
                self.capacity == old(self).capacity,
                places == places_left(before, capacity as nat),
                reserved@ == first(distinct(block_hashes@.take(i as int).filter(keep)), places),
                self.entries@ == with_reserved(before, worker, reserved@, expires_at),
                self.entries@.dom().finite(),
                self.entries@.len() == before.len() + reserved@.len(),
            decreases block_hashes@.len() - i,
        {
            let block: LocalBlockHash = block_hashes[i];
            let key: (WorkerWithDpRank, LocalBlockHash) = (worker, block);
            let ghost taken = reserved@;
            let ghost so_far = block_hashes@.take(i as int).filter(keep);
            proof {
                lemma_filter_next(block_hashes@, keep, i as int);
                if keep(block) {
                    assert(so_far.push(block).drop_last() =~= so_far);
                    assert(so_far.push(block).last() == block);
                }
                lemma_add_block(before, worker, taken, block, expires_at);
            }
            if !self.entries.contains_key(&key) && self.entries.len() < capacity {
                proof {
                    assert(taken.len() < places);
                    assert(taken == distinct(so_far));
                }
                self.entries.insert(key, expires_at);
                reserved.push(block);
                assert(reserved@ =~= first(
                    distinct(block_hashes@.take(i + 1).filter(keep)),
                    places,
                ));
            } else {
                proof {
                    if keep(block) && !taken.contains(block) {
                        assert(!self.entries@.contains_key(key@));
                        assert(taken.len() >= places);
                    }
                    if keep(block) && taken.contains(block) {
                        let j = choose|j: int| 0 <= j < taken.len() && taken[j] == block;
                        assert(distinct(so_far)[j] == block);
                        assert(distinct(so_far).contains(block));
                    }
                    assert(reserved@ =~= first(
                        distinct(block_hashes@.take(i + 1).filter(keep)),
                        places,
                    ));
                }
            }
            i += 1;
        }
        assert(block_hashes@.take(block_hashes@.len() as int) =~= block_hashes@);
        reserved
    }

    /// Frees blocks, so that they can be reserved again at once.
    pub fn release(&mut self, worker: WorkerWithDpRank, block_hashes: &[LocalBlockHash])
        ensures
            final(self).ttl == old(self).ttl,
            final(self).capacity == old(self).capacity,
            final(self).entries@ == without_blocks(old(self).entries@, worker, block_hashes@),
    {
        let ghost before = self.entries@;
        let mut i: usize = 0;
        assert(self.entries@ =~= without_blocks(before, worker, block_hashes@.take(0)));
        while i < block_hashes.len()
            invariant
                i <= block_hashes@.len(),
                self.ttl == old(self).ttl,
                self.capacity == old(self).capacity,
                self.entries@ == without_blocks(before, worker, block_hashes@.take(i as int)),
            decreases block_hashes@.len() - i,
        {
            let key: (WorkerWithDpRank, LocalBlockHash) = (worker, block_hashes[i]);
            let ghost shorter = block_hashes@.take(i as int);
            let ghost longer = block_hashes@.take(i + 1);
            let removed = self.entries.remove(&key);
            proof {
                assert forall|x: LocalBlockHash| #[trigger] longer.contains(x)
                    <==> shorter.contains(x) || x == key.1 by {
                    assert(longer[i as int] == key.1);
                    if shorter.contains(x) {
                        let j = choose|j: int| 0 <= j < shorter.len() && shorter[j] == x;
                        assert(longer[j] == x);
                    }
                    if longer.contains(x) && x != key.1 {
                        let j = choose|j: int| 0 <= j < longer.len() && longer[j] == x;
                        assert(shorter[j] == x);
                    }
                }
                assert(self.entries@ =~= without_blocks(before, worker, longer));
            }
            i += 1;
        }
        assert(block_hashes@.take(block_hashes@.len() as int) =~= block_hashes@);
    }
}

/// Blocks are admitted only if the worker has not reserved them, each once, and only
/// if they were asked for.
pub proof fn law_admitted_blocks_were_free(
    entries: Reservations,
    worker: WorkerWithDpRank,
    blocks: Seq<LocalBlockHash>,
    capacity: nat,
)
    ensures
        admitted(entries, worker, blocks, capacity).no_duplicates(),
        forall|block: LocalBlockHash| #[trigger]
            admitted(entries, worker, blocks, capacity).contains(block) ==> blocks.contains(block)
                && !entries.contains_key((worker, block)),
{
    let free = blocks.filter(is_free(entries, worker));
    let wanted = distinct(free);
    let taken = admitted(entries, worker, blocks, capacity);
    lemma_distinct(free);
    assert forall|block: LocalBlockHash| #[trigger] taken.contains(block) implies blocks.contains(
        block,
    ) && !entries.contains_key((worker, block)) by {
        let i = choose|i: int| 0 <= i < taken.len() && taken[i] == block;
        assert(wanted[i] == block);
        assert(wanted.contains(block));
        assert(free.contains(block));
        lemma_filter_membership(blocks, is_free(entries, worker), block);
    }
}

/// While a block is reserved, a second request for it on the same worker is not
/// admitted.
pub proof fn law_reserved_blocks_are_suppressed(
    entries: Reservations,
    worker: WorkerWithDpRank,
    blocks: Seq<LocalBlockHash>,
    again: Seq<LocalBlockHash>,
    capacity: nat,
    expires_at: Instant,
    later: Instant,
)
    requires
        later.nanos < expires_at.nanos,
    ensures
        ({
            let taken = admitted(entries, worker, blocks, capacity);
            let after = held(with_reserved(entries, worker, taken, expires_at), later);
            forall|block: LocalBlockHash| #[trigger]
                taken.contains(block) ==> !admitted(after, worker, again, capacity).contains(block)
        }),
{
    let taken = admitted(entries, worker, blocks, capacity);
    let after = held(with_reserved(entries, worker, taken, expires_at), later);
    law_admitted_blocks_were_free(after, worker, again, capacity);
    assert forall|block: LocalBlockHash| #[trigger] taken.contains(block) implies !admitted(
        after,
        worker,
        again,
        capacity,
    ).contains(block) by {
        assert(after.contains_key((worker, block)));
    }
}

/// Releasing what was just reserved leaves the reservations as they were before.
pub proof fn law_release_undoes_reservation(
    entries: Reservations,
    worker: WorkerWithDpRank,
    blocks: Seq<LocalBlockHash>,
    capacity: nat,
    expires_at: Instant,
)
    ensures
        ({
            let taken = admitted(entries, worker, blocks, capacity);
            without_blocks(with_reserved(entries, worker, taken, expires_at), worker, taken)
                == entries
        }),
{
    let taken = admitted(entries, worker, blocks, capacity);
    law_admitted_blocks_were_free(entries, worker, blocks, capacity);
    assert(without_blocks(with_reserved(entries, worker, taken, expires_at), worker, taken)
        =~= entries) by {
        assert forall|key: (WorkerWithDpRank, LocalBlockHash)|
            entries.contains_key(key) implies !(key.0 == worker && taken.contains(key.1)) by {
            if key.0 == worker && taken.contains(key.1) {
                assert(!entries.contains_key((worker, key.1)));
            }
        }
    }
}

/// A released block can be reserved again if there is room.
pub proof fn law_release_allows_reservation(
    entries: Reservations,
    worker: WorkerWithDpRank,
    block: LocalBlockHash,
    capacity: nat,
)
    requires
        entries.dom().finite(),
        entries.contains_key((worker, block)),
        entries.len() <= capacity,
    ensures
        admitted(without_blocks(entries, worker, seq![block]), worker, seq![block], capacity)
            == seq![block],
{
    let after = without_blocks(entries, worker, seq![block]);
    assert(seq![block][0] == block);
    assert(after =~= entries.remove((worker, block))) by {
        assert forall|x: LocalBlockHash| #[trigger] seq![block].contains(x) <==> x == block by {
            assert(seq![block][0] == block);
        }
    }
    entries.lemma_remove_key_len((worker, block));
    reveal(Seq::filter);
    reveal_with_fuel(Seq::filter, 2);
    reveal_with_fuel(distinct, 2);
    let one = seq![block];
    assert(one.drop_last() =~= Seq::<LocalBlockHash>::empty());
    assert(one.filter(is_free(after, worker)) =~= one);
    assert(distinct(one) =~= one);
}

/// Reserving and releasing on one worker changes nothing for another.
pub proof fn law_workers_are_independent(
    entries: Reservations,
    worker: WorkerWithDpRank,
    other: WorkerWithDpRank,
    blocks: Seq<LocalBlockHash>,
    expires_at: Instant,
    block: LocalBlockHash,
)
    requires
        worker != other,
    ensures
        with_reserved(entries, worker, blocks, expires_at).contains_key((other, block))
            == entries.contains_key((other, block)),
        without_blocks(entries, worker, blocks).contains_key((other, block))
            == entries.contains_key((other, block)),
{
}

/// The table never holds more reservations than it has places for.
pub proof fn law_capacity_is_kept(
    entries: Reservations,
    worker: WorkerWithDpRank,
    blocks: Seq<LocalBlockHash>,
    capacity: nat,
)
    requires
        entries.len() <= capacity,
    ensures
        entries.len() + admitted(entries, worker, blocks, capacity).len() <= capacity,
{
}

} // verus!
