//! What the predictor remembers: sessions, the chunk catalog, learnt transitions
//! and prefetches under way.

use crate::associations::{SourceModel, SourceStats};
use crate::chunks::{
    clone_key, described, differs_from, ids, lemma_filter_next, ChunkDescriptor, ChunkId,
    ChunkKey, DescriptorModel,
};
use crate::clock::Instant;
use crate::key_map::{KeyMap, KeySet, MapKey};
use crate::protocols::WorkerWithDpRank;
use std::collections::VecDeque;
use vstd::prelude::*;

verus! {

/// The last request of a session.
pub struct SessionState {
    pub model_id: String,
    pub last_chunks: Vec<ChunkKey>,
    pub last_seen: Instant,
}

#[verifier::ext_equal]
pub struct SessionModel {
    pub model_id: Seq<char>,
    pub last_chunks: Seq<ChunkId>,
    pub last_seen: Instant,
}

impl View for SessionState {
    type V = SessionModel;

    open spec fn view(&self) -> SessionModel {
        SessionModel {
            model_id: self.model_id@,
            last_chunks: ids(self.last_chunks@),
            last_seen: self.last_seen,
        }
    }
}

/// What the manager remembers between requests.
pub struct ManagerState {
    pub sessions: KeyMap<String, SessionState>,
    /// Where each known chunk lies.
    pub catalog: KeyMap<ChunkKey, ChunkDescriptor>,
    /// The chunks of the catalog, least recently observed first.
    pub catalog_order: VecDeque<ChunkKey>,
    pub sources: KeyMap<ChunkKey, SourceStats>,
    /// The prefetches under way, with the time each was started.
    pub inflight: KeyMap<(ChunkKey, WorkerWithDpRank), Instant>,
    /// The sessions that showed each chunk, up to a threshold.
    pub chunk_sessions: KeyMap<ChunkKey, KeySet<String>>,
    pub scheduled: u64,
    pub predicted: u64,
    pub dropped: u64,
}

#[verifier::ext_equal]
pub struct ManagerModel {
    pub sessions: Map<Seq<char>, SessionModel>,
    pub catalog: Map<ChunkId, DescriptorModel>,
    pub catalog_order: Seq<ChunkId>,
    pub sources: Map<ChunkId, SourceModel>,
    pub inflight: Map<(ChunkId, WorkerWithDpRank), Instant>,
    pub chunk_sessions: Map<ChunkId, Set<Seq<char>>>,
    pub scheduled: u64,
    pub predicted: u64,
    pub dropped: u64,
}

impl View for ManagerState {
    type V = ManagerModel;

    open spec fn view(&self) -> ManagerModel {
        ManagerModel {
            sessions: self.sessions@,
            catalog: self.catalog@,
            catalog_order: ids(self.catalog_order@),
            sources: self.sources@,
            inflight: self.inflight@,
            chunk_sessions: self.chunk_sessions@,
            scheduled: self.scheduled,
            predicted: self.predicted,
            dropped: self.dropped,
        }
    }
}

/// Nothing has been observed yet.
pub open spec fn fresh_state() -> ManagerModel {
    ManagerModel {
        sessions: Map::empty(),
        catalog: Map::empty(),
        catalog_order: Seq::empty(),
        sources: Map::empty(),
        inflight: Map::empty(),
        chunk_sessions: Map::empty(),
        scheduled: 0,
        predicted: 0,
        dropped: 0,
    }
}

impl Default for ManagerState {
    fn default() -> (state: Self)
        ensures
            state@ == fresh_state(),
    {
        let state = ManagerState {
            sessions: KeyMap::new(),
            catalog: KeyMap::new(),
            catalog_order: VecDeque::new(),
            sources: KeyMap::new(),
            inflight: KeyMap::new(),
            chunk_sessions: KeyMap::new(),
            scheduled: 0,
            predicted: 0,
            dropped: 0,
        };
        assert(state@ =~= fresh_state());
        state
    }
}

/// The sessions that showed `chunk`.
pub open spec fn sessions_of(
    chunk_sessions: Map<ChunkId, Set<Seq<char>>>,
    chunk: ChunkId,
) -> Set<Seq<char>> {
    if chunk_sessions.contains_key(chunk) {
        chunk_sessions[chunk]
    } else {
        Set::empty()
    }
}

/// `chunk` was shown by `session`. No more than `threshold` sessions are kept,
/// for further ones cannot change whether the chunk is stable.
pub open spec fn shown_by(
    chunk_sessions: Map<ChunkId, Set<Seq<char>>>,
    chunk: ChunkId,
    session: Seq<char>,
    threshold: nat,
) -> Map<ChunkId, Set<Seq<char>>> {
    let seen = sessions_of(chunk_sessions, chunk);
    chunk_sessions.insert(
        chunk,
        if seen.len() < threshold {
            seen.insert(session)
        } else {
            seen
        },
    )
}

/// `chunk` was shown by at least `threshold` different sessions.
pub open spec fn is_stable(
    chunk_sessions: Map<ChunkId, Set<Seq<char>>>,
    chunk: ChunkId,
    threshold: nat,
) -> bool {
    chunk_sessions.contains_key(chunk) && chunk_sessions[chunk].len() >= threshold
}

pub fn record_chunk_session(
    state: &mut ManagerState,
    chunk: &ChunkKey,
    session_id: &str,
    threshold: usize,
)
    ensures
        final(state)@ == (ManagerModel {
            chunk_sessions: shown_by(
                old(state)@.chunk_sessions,
                chunk@,
                session_id@,
                threshold as nat,
            ),
            ..old(state)@
        }),
{
    let ghost before = state@;
    let mut sessions: KeySet<String> = match state.chunk_sessions.remove(chunk) {
        Some(sessions) => sessions,
        None => KeySet::new(),
    };
    assert(sessions@ == sessions_of(before.chunk_sessions, chunk@));
    if sessions.len() < threshold {
        sessions.insert(session_id.to_owned());
    }
    state.chunk_sessions.insert(clone_key(chunk), sessions);
    assert(state@.chunk_sessions =~= shown_by(
        before.chunk_sessions,
        chunk@,
        session_id@,
        threshold as nat,
    ));
}

pub fn chunk_is_stable(state: &ManagerState, chunk: &ChunkKey, threshold: usize) -> (stable: bool)
    ensures
        stable == is_stable(state@.chunk_sessions, chunk@, threshold as nat),
{
    match state.chunk_sessions.get(chunk) {
        Some(sessions) => sessions.len() >= threshold,
        None => false,
    }
}

/// Frees a prefetch under way, unless it is a newer one than the one started at
/// `started`.
pub fn release_inflight_locked(
    state: &mut ManagerState,
    target: &ChunkKey,
    worker: WorkerWithDpRank,
    started: Instant,
) -> (released: bool)
    ensures
        released == held_since(old(state)@.inflight, target@, worker, started),
        final(state)@ == (ManagerModel {
            inflight: released_inflight(old(state)@.inflight, target@, worker, started),
            ..old(state)@
        }),
{
    let ghost before = state@;
    let key: (ChunkKey, WorkerWithDpRank) = (clone_key(target), worker);
    let current: Option<Instant> = match state.inflight.get(&key) {
        Some(started) => Some(*started),
        None => None,
    };
    match current {
        Some(since) => if since.nanos == started.nanos {
            let removed = state.inflight.remove(&key);
            removed.is_some()
        } else {
            false
        },
        None => false,
    }
}

/// The prefetch of `target` on `worker` was started at `started`.
pub open spec fn held_since(
    inflight: Map<(ChunkId, WorkerWithDpRank), Instant>,
    target: ChunkId,
    worker: WorkerWithDpRank,
    started: Instant,
) -> bool {
    inflight.contains_key((target, worker)) && inflight[(target, worker)] == started
}

pub open spec fn released_inflight(
    inflight: Map<(ChunkId, WorkerWithDpRank), Instant>,
    target: ChunkId,
    worker: WorkerWithDpRank,
    started: Instant,
) -> Map<(ChunkId, WorkerWithDpRank), Instant> {
    if held_since(inflight, target, worker, started) {
        inflight.remove((target, worker))
    } else {
        inflight
    }
}

/// The list without `id`.
pub open spec fn order_without(order: Seq<ChunkId>, id: ChunkId) -> Seq<ChunkId> {
    order.filter(differs_from(id))
}

/// The state after `chunk` was observed: the catalog describes it, and it is the
/// most recent one. If sessions are counted, `session` has shown it.
pub open spec fn staged_chunk(
    m: ManagerModel,
    chunk: (ChunkId, DescriptorModel),
    session: Option<Seq<char>>,
    threshold: nat,
) -> ManagerModel {
    ManagerModel {
        chunk_sessions: match session {
            Some(session) => shown_by(m.chunk_sessions, chunk.0, session, threshold),
            None => m.chunk_sessions,
        },
        catalog: m.catalog.insert(chunk.0, chunk.1),
        catalog_order: order_without(m.catalog_order, chunk.0).push(chunk.0),
        ..m
    }
}

/// The state after the chunks were observed one after another.
pub open spec fn staged_chunks(
    m: ManagerModel,
    chunks: Seq<(ChunkId, DescriptorModel)>,
    session: Option<Seq<char>>,
    threshold: nat,
) -> ManagerModel
    decreases chunks.len(),
{
    if chunks.len() == 0 {
        m
    } else {
        staged_chunk(
            staged_chunks(m, chunks.drop_last(), session, threshold),
            chunks.last(),
            session,
            threshold,
        )
    }
}

/// The entries whose keys are not listed.
pub open spec fn keys_not_in<V>(map: Map<ChunkId, V>, listed: Seq<ChunkId>) -> Map<ChunkId, V> {
    Map::new(|id: ChunkId| map.contains_key(id) && !listed.contains(id), |id: ChunkId| map[id])
}

/// The state after the least recent chunks beyond `limit` were forgotten.
pub open spec fn catalog_trimmed(m: ManagerModel, limit: nat) -> ManagerModel {
    if m.catalog_order.len() <= limit {
        m
    } else {
        let excess = m.catalog_order.len() - limit;
        let forgotten = m.catalog_order.take(excess);
        ManagerModel {
            catalog: keys_not_in(m.catalog, forgotten),
            catalog_order: m.catalog_order.skip(excess),
            chunk_sessions: keys_not_in(m.chunk_sessions, forgotten),
            ..m
        }
    }
}

proof fn lemma_keys_not_in_next<V>(map: Map<ChunkId, V>, listed: Seq<ChunkId>, at: int)
    requires
        0 <= at < listed.len(),
    ensures
        keys_not_in(map, listed.take(at + 1)) == keys_not_in(map, listed.take(at)).remove(
            listed[at],
        ),
{
    let longer = listed.take(at + 1);
    assert forall|id: ChunkId| #[trigger] longer.contains(id) <==> (listed.take(at).contains(id)
        || id == listed[at]) by {
        assert(longer[at] == listed[at]);
        if listed.take(at).contains(id) {
            let i = choose|i: int| 0 <= i < at && listed.take(at)[i] == id;
            assert(longer[i] == id);
        }
        if longer.contains(id) && id != listed[at] {
            let i = choose|i: int| 0 <= i < longer.len() && longer[i] == id;
            assert(listed.take(at)[i] == id);
        }
    }
    assert(keys_not_in(map, longer) =~= keys_not_in(map, listed.take(at)).remove(listed[at]));
}

fn remove_from_order(order: &mut VecDeque<ChunkKey>, id: &ChunkKey)
    ensures
        ids(final(order)@) == order_without(ids(old(order)@), id@),
{
    let ghost all = ids(order@);
    let ghost keep = differs_from(id@);
    let mut left: VecDeque<ChunkKey> = VecDeque::new();
    let ghost mut seen: int = 0;
    proof {
        reveal(Seq::filter);
        assert(ids(left@) =~= all.take(0).filter(keep));
        assert(all.skip(0) =~= all);
    }
    while order.len() > 0
        invariant
            0 <= seen <= all.len(),
            keep == differs_from(id@),
            ids(order@) == all.skip(seen),
            ids(left@) == all.take(seen).filter(keep),
        decreases order@.len(),
    {
        let ghost before = left@;
        let ghost listed = order@;
        assert(ids(listed).len() == listed.len());
        match order.pop_front() {
            Some(key) => {
                proof {
                    assert(ids(listed)[0] == all.skip(seen)[0]);
                    lemma_filter_next(all, keep, seen);
                    assert(ids(order@) =~= ids(listed).drop_first());
                    assert(all.skip(seen).drop_first() =~= all.skip(seen + 1));
                    seen = seen + 1;
                }
                let ghost key_id = key@;
                if !key.same_key(id) {
                    left.push_back(key);
                    assert(ids(left@) =~= ids(before).push(key_id));
                }
            },
            None => {
                assert(false);
            },
        }
    }
    assert(ids(order@).len() == 0);
    assert(all.take(all.len() as int) =~= all);
    order.append(&mut left);
    assert(ids(order@) =~= all.filter(keep));
}

fn stage_chunk(
    state: &mut ManagerState,
    chunk: &(ChunkKey, ChunkDescriptor),
    session_id: Option<&str>,
    threshold: usize,
)
    ensures
        final(state)@ == staged_chunk(
            old(state)@,
            (chunk.0@, chunk.1@),
            match session_id {
                Some(session) => Some(session@),
                None => None,
            },
            threshold as nat,
        ),
{
    match session_id {
        Some(session) => {
            record_chunk_session(state, &chunk.0, session, threshold);
        },
        None => {},
    }
    state.catalog.insert(clone_key(&chunk.0), chunk.1.clone());
    remove_from_order(&mut state.catalog_order, &chunk.0);
    let ghost others = state.catalog_order@;
    state.catalog_order.push_back(clone_key(&chunk.0));
    assert(ids(state.catalog_order@) =~= ids(others).push(chunk.0@));
}

/// Enters the chunks into the catalog and forgets the least recent ones beyond
/// `limit`. Only when `session_id` is given is it counted who shows the chunks.
pub fn stage_chunks(
    state: &mut ManagerState,
    chunks: &Vec<(ChunkKey, ChunkDescriptor)>,
    session_id: Option<&str>,
    threshold: usize,
    limit: usize,
)
    ensures
        final(state)@ == catalog_trimmed(
            staged_chunks(
                old(state)@,
                described(chunks@),
                match session_id {
                    Some(session) => Some(session@),
                    None => None,
                },
                threshold as nat,
            ),
            limit as nat,
        ),
{
    let ghost before = state@;
    let ghost all = described(chunks@);
    let ghost session = match session_id {
        Some(session) => Some(session@),
        None => None,
    };
    let mut i: usize = 0;
    while i < chunks.len()
        invariant
            i <= chunks@.len(),
            all == described(chunks@),
            session == match session_id {
                Some(session) => Some(session@),
                None => None::<Seq<char>>,
            },
            state@ == staged_chunks(before, all.take(i as int), session, threshold as nat),
        decreases chunks@.len() - i,
    {
        proof {
            assert(all.take(i + 1).drop_last() =~= all.take(i as int));
            assert(all.take(i + 1).last() == all[i as int]);
        }
        stage_chunk(state, &chunks[i], session_id, threshold);
        i += 1;
    }
    assert(all.take(all.len() as int) =~= all);
    trim_catalog(state, limit);
}

fn trim_catalog(state: &mut ManagerState, limit: usize)
    ensures
        final(state)@ == catalog_trimmed(old(state)@, limit as nat),
{
    let ghost before = state@;
    let ghost order = state@.catalog_order;
    let ghost mut gone: int = 0;
    proof {
        assert(order.skip(0) =~= order);
        assert(keys_not_in(before.catalog, order.take(0)) =~= before.catalog);
        assert(keys_not_in(before.chunk_sessions, order.take(0)) =~= before.chunk_sessions);
    }
    while state.catalog_order.len() > limit
        invariant
            order == before.catalog_order,
            0 <= gone <= order.len(),
            gone > 0 ==> order.len() - gone >= limit,
            state@ == (ManagerModel {
                catalog: keys_not_in(before.catalog, order.take(gone)),
                catalog_order: order.skip(gone),
                chunk_sessions: keys_not_in(before.chunk_sessions, order.take(gone)),
                ..before
            }),
        decreases state.catalog_order.len(),
    {
        assert(state@.catalog_order.len() == state.catalog_order@.len());
        let ghost listed = state.catalog_order@;
        if let Some(old_key) = state.catalog_order.pop_front() {
            state.catalog.remove(&old_key);
            state.chunk_sessions.remove(&old_key);
            proof {
                assert(ids(listed)[0] == old_key@);
                assert(order.skip(gone)[0] == order[gone]);
                lemma_keys_not_in_next(before.catalog, order, gone);
                lemma_keys_not_in_next(before.chunk_sessions, order, gone);
                assert(ids(listed) == order.skip(gone));
                assert(ids(state.catalog_order@) =~= ids(listed).drop_first());
                assert(order.skip(gone).drop_first() =~= order.skip(gone + 1));
                gone = gone + 1;
            }
        }
    }
    assert(state@.catalog_order.len() == state.catalog_order@.len());
}

} // verus!
