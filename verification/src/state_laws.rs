//! What the predictor promises of its bookkeeping.

use crate::chunks::{
    described, lemma_filter_membership, not_listed, ChunkDescriptor, ChunkId, ChunkKey,
    DescriptorModel,
};
use crate::clock::Instant;
use crate::environment::{bool_setting, Environment};
use crate::global_config::{FractionalSettings, GlobalPrefetchConfig};
use crate::global_prefetch::{chunk_ids, session_seen, GlobalPrefetchManager};
use crate::learning_laws::{lemma_distinct_is_shorter, lemma_part_as_large};
use crate::manager_invariant::{
    catalog_consistent, law_staging_keeps_catalog_sound, lemma_staged_order, sessions_capped,
};
use crate::manager_state::{
    chunk_is_stable, record_chunk_session, sessions_of, shown_by, staged_chunks, ManagerModel,
    ManagerState,
};
use crate::prefetch_hint::PrefetchHintDispatcher;
use crate::protocols::WorkerWithDpRank;
use std::sync::Arc;
use vstd::prelude::*;

verus! {

/// Sessions and prefetches are forgotten exactly when more than their time to live has
/// passed; nothing else is.
pub proof fn law_only_what_is_old_expires(
    manager: &mut GlobalPrefetchManager,
    now: Instant,
    session: Seq<char>,
    prefetch: (ChunkId, WorkerWithDpRank),
)
    requires
        call_ensures(GlobalPrefetchManager::expire_locked, (manager, now), ()),
    ensures
        ({
            let config = old(manager).config;
            let before = old(manager).state@;
            let after = final(manager).state@;
            &&& after.sessions.contains_key(session) <==> before.sessions.contains_key(session)
                && now.nanos <= before.sessions[session].last_seen.nanos + config.session_ttl.nanos
            &&& after.sessions.contains_key(session) ==> after.sessions[session]
                == before.sessions[session]
            &&& after.inflight.contains_key(prefetch) <==> before.inflight.contains_key(prefetch)
                && now.nanos <= before.inflight[prefetch].nanos + config.ttl.nanos
            &&& after.inflight.contains_key(prefetch) ==> after.inflight[prefetch]
                == before.inflight[prefetch]
            &&& after.catalog == before.catalog
            &&& after.catalog_order == before.catalog_order
            &&& after.sources == before.sources
            &&& after.chunk_sessions == before.chunk_sessions
            &&& after.scheduled == before.scheduled
            &&& after.predicted == before.predicted
            &&& after.dropped == before.dropped
        }),
{
}

/// Of too many sessions the least recent ones are forgotten, and no others.
pub proof fn law_recent_sessions_stay(
    manager: &mut GlobalPrefetchManager,
    gone: Seq<char>,
    stays: Seq<char>,
)
    requires
        call_ensures(GlobalPrefetchManager::trim_sessions_locked, (manager,), ()),
        old(manager).state@.sessions.dom().finite(),
    ensures
        ({
            let before = old(manager).state@.sessions;
            let after = final(manager).state@.sessions;
            let limit = old(manager).config.max_sessions;
            &&& after.contains_key(stays) ==> before.contains_key(stays) && after[stays]
                == before[stays]
            &&& before.contains_key(gone) && !after.contains_key(gone) ==> after.len() == limit
                && before.len() > limit
            &&& before.contains_key(gone) && !after.contains_key(gone) && after.contains_key(stays)
                ==> before[gone].last_seen.nanos <= after[stays].last_seen.nanos
            &&& after.len() <= limit
        }),
{
    let before = old(manager).state@.sessions;
    let after = final(manager).state@.sessions;
    if after.contains_key(stays) {
        assert(after.dom().contains(stays) && before.dom().contains(stays));
        if before.contains_key(gone) && !after.contains_key(gone) {
            assert(session_seen()(before[gone]).nanos <= session_seen()(before[stays]).nanos);
        }
    }
    if before.contains_key(gone) && !after.contains_key(gone) && after.len() == before.len() {
        lemma_part_as_large(after, before, gone);
    }
}

/// A prefetch starts exactly when it is not under way and not too many are. It is then
/// under way since that time and counted as scheduled and predicted; otherwise it is
/// counted as dropped and nothing else changes.
pub proof fn law_prefetches_start_once(
    manager: &mut GlobalPrefetchManager,
    target: ChunkKey,
    worker: WorkerWithDpRank,
    started: Instant,
    reserved: Option<Instant>,
    other: (ChunkId, WorkerWithDpRank),
)
    requires
        call_ensures(
            GlobalPrefetchManager::reserve_inflight,
            (manager, target, worker, started),
            reserved,
        ),
        old(manager).state@.scheduled < u64::MAX,
        old(manager).state@.predicted < u64::MAX,
        old(manager).state@.dropped < u64::MAX,
    ensures
        ({
            let before = old(manager).state@;
            let after = final(manager).state@;
            let free = !before.inflight.contains_key((target@, worker)) && before.inflight.len()
                < old(manager).config.max_inflight;
            &&& reserved is Some <==> free
            &&& reserved is Some ==> reserved == Some(started)
            &&& after.inflight.contains_key(other) <==> before.inflight.contains_key(other) || (free
                && other == (target@, worker))
            &&& before.inflight.contains_key(other) ==> after.inflight[other]
                == before.inflight[other]
            &&& free ==> after.inflight[(target@, worker)] == started
            &&& free ==> after.scheduled == before.scheduled + 1 && after.predicted
                == before.predicted + 1 && after.dropped == before.dropped
            &&& !free ==> after.scheduled == before.scheduled && after.predicted
                == before.predicted && after.dropped == before.dropped + 1
            &&& after.sessions == before.sessions
            &&& after.catalog == before.catalog
            &&& after.sources == before.sources
        }),
{
}

/// A prefetch is freed only by a report about the same attempt; then it alone is.
pub proof fn law_only_the_same_attempt_is_freed(
    manager: &mut GlobalPrefetchManager,
    target: &ChunkKey,
    worker: WorkerWithDpRank,
    started: Instant,
    released: bool,
    other: (ChunkId, WorkerWithDpRank),
)
    requires
        call_ensures(
            GlobalPrefetchManager::release_inflight,
            (manager, target, worker, started),
            released,
        ),
    ensures
        ({
            let before = old(manager).state@.inflight;
            let after = final(manager).state@.inflight;
            &&& released <==> before.contains_key((target@, worker)) && before[(target@, worker)]
                == started
            &&& after.contains_key(other) <==> before.contains_key(other) && !(released && other
                == (target@, worker))
            &&& after.contains_key(other) ==> after[other] == before[other]
        }),
{
}

/// The counts that are reported, in this order: scheduled, predicted and dropped
/// prefetches, sessions, chunks of the catalog.
pub proof fn law_counts_are_reported(
    manager: &GlobalPrefetchManager,
    counts: (u64, u64, u64, usize, usize),
)
    requires
        call_ensures(GlobalPrefetchManager::stats, (manager,), counts),
    ensures
        counts.0 == manager.state.scheduled,
        counts.1 == manager.state.predicted,
        counts.2 == manager.state.dropped,
        counts.3 == manager.state.sessions@.len(),
        counts.4 == manager.state.catalog@.len(),
{
}

/// Chunks that are not staged keep their entries.
proof fn lemma_unstaged(
    m: ManagerModel,
    chunks: Seq<(ChunkId, DescriptorModel)>,
    session: Option<Seq<char>>,
    threshold: nat,
    id: ChunkId,
)
    requires
        forall|p: int| 0 <= p < chunks.len() ==> (#[trigger] chunks[p]).0 != id,
    ensures
        ({
            let after = staged_chunks(m, chunks, session, threshold);
            &&& after.catalog.contains_key(id) == m.catalog.contains_key(id)
            &&& after.catalog[id] == m.catalog[id]
            &&& after.chunk_sessions.contains_key(id) == m.chunk_sessions.contains_key(id)
            &&& after.chunk_sessions[id] == m.chunk_sessions[id]
        }),
    decreases chunks.len(),
{
    if chunks.len() > 0 {
        let init = chunks.drop_last();
        assert forall|p: int| 0 <= p < init.len() implies (#[trigger] init[p]).0 != id by {
            assert(chunks[p].0 != id);
        }
        assert(chunks[chunks.len() - 1].0 != id);
        lemma_unstaged(m, init, session, threshold, id);
    }
}

/// A staged chunk is described as at its last occurrence, and shown by the session.
proof fn lemma_staged(
    m: ManagerModel,
    chunks: Seq<(ChunkId, DescriptorModel)>,
    session: Option<Seq<char>>,
    threshold: nat,
    p: int,
)
    requires
        0 <= p < chunks.len(),
        forall|k: int| p < k < chunks.len() ==> (#[trigger] chunks[k]).0 != chunks[p].0,
    ensures
        ({
            let id = chunks[p].0;
            let after = staged_chunks(m, chunks, session, threshold);
            &&& after.catalog.contains_key(id)
            &&& after.catalog[id] == chunks[p].1
        }),
    decreases chunks.len(),
{
    let init = chunks.drop_last();
    if p == chunks.len() - 1 {
    } else {
        assert forall|k: int| p < k < init.len() implies (#[trigger] init[k]).0 != init[p].0 by {
            assert(chunks[k].0 != chunks[p].0);
        }
        lemma_staged(m, init, session, threshold, p);
        assert(chunks[chunks.len() - 1].0 != chunks[p].0);
    }
}

/// Whatever is staged, a chunk gains no session but the one that shows it, loses none, and
/// is not counted at all without one.
proof fn lemma_shown(
    m: ManagerModel,
    chunks: Seq<(ChunkId, DescriptorModel)>,
    session: Option<Seq<char>>,
    threshold: nat,
    id: ChunkId,
    other: Seq<char>,
)
    ensures
        ({
            let before = sessions_of(m.chunk_sessions, id);
            let after = sessions_of(
                staged_chunks(m, chunks, session, threshold).chunk_sessions,
                id,
            );
            &&& before.contains(other) ==> after.contains(other)
            &&& after.contains(other) && !before.contains(other) ==> session == Some(other)
                && chunk_ids(chunks).contains(id)
            &&& session == Some(other) && chunk_ids(chunks).contains(id) ==> after.contains(other)
                || after.len() >= threshold
            &&& session is None ==> staged_chunks(m, chunks, session, threshold).chunk_sessions
                == m.chunk_sessions
        }),
    decreases chunks.len(),
{
    if chunks.len() > 0 {
        let init = chunks.drop_last();
        lemma_shown(m, init, session, threshold, id, other);
        let ids_before = chunk_ids(init);
        let ids_after = chunk_ids(chunks);
        assert(ids_after =~= ids_before.push(chunks.last().0));
        assert(ids_after.contains(id) <==> ids_before.contains(id) || id == chunks.last().0) by {
            assert(ids_after[ids_before.len() as int] == chunks.last().0);
            if ids_before.contains(id) {
                let k = choose|k: int| 0 <= k < ids_before.len() && ids_before[k] == id;
                assert(ids_after[k] == id);
            }
            if ids_after.contains(id) && id != chunks.last().0 {
                let k = choose|k: int| 0 <= k < ids_after.len() && ids_after[k] == id;
                assert(ids_before[k] == id);
            }
        }
        let middle = staged_chunks(m, init, session, threshold);
        if let Some(s) = session {
            if id == chunks.last().0 {
                let seen = sessions_of(middle.chunk_sessions, id);
                assert(sessions_of(shown_by(middle.chunk_sessions, id, s, threshold), id)
                    == if seen.len() < threshold {
                    seen.insert(s)
                } else {
                    seen
                });
            }
        }
    }
}

/// As many chunks as the catalog can hold are not forgotten when they are staged.
proof fn lemma_staged_are_newest(
    config: GlobalPrefetchConfig,
    m: ManagerModel,
    chunks: Seq<(ChunkId, DescriptorModel)>,
    counted: Option<Seq<char>>,
    threshold: nat,
    id: ChunkId,
)
    requires
        0 < chunks.len() <= config.max_chunk_catalog,
        chunk_ids(chunks).contains(id),
    ensures
        ({
            let order = staged_chunks(m, chunks, counted, threshold).catalog_order;
            &&& order.len() > 0
            &&& order.last() == chunks.last().0
            &&& order.len() > config.max_chunk_catalog ==> !order.take(
                order.len() - config.max_chunk_catalog,
            ).contains(id)
        }),
{
    let listed = chunk_ids(chunks);
    let others = m.catalog_order.filter(not_listed(listed));
    let order = staged_chunks(m, chunks, counted, threshold).catalog_order;
    lemma_staged_order(m, chunks, counted, threshold);
    lemma_distinct_is_shorter(listed.reverse());
    if order.len() > config.max_chunk_catalog {
        let gone = order.take(order.len() - config.max_chunk_catalog);
        if gone.contains(id) {
            let k = choose|k: int| 0 <= k < gone.len() && gone[k] == id;
            assert(others[k] == id);
            assert(others.contains(id));
            lemma_filter_membership(m.catalog_order, not_listed(listed), id);
        }
    }
}

proof fn lemma_shown_has_entry(
    m: ManagerModel,
    chunks: Seq<(ChunkId, DescriptorModel)>,
    session: Seq<char>,
    threshold: nat,
    p: int,
)
    requires
        0 <= p < chunks.len(),
    ensures
        staged_chunks(m, chunks, Some(session), threshold).chunk_sessions.contains_key(
            chunks[p].0,
        ),
    decreases chunks.len(),
{
    if p < chunks.len() - 1 {
        lemma_shown_has_entry(m, chunks.drop_last(), session, threshold, p);
    }
}

/// Staged chunks are known afterwards, described as at their last occurrence, if the
/// catalog can hold them all; the last one is the most recent. Other chunks keep what is
/// known of them as long as they are in the catalog. If templates are to be left out and a
/// session is given, the session has shown the chunks, unless enough others have;
/// otherwise it is not counted who shows them.
pub proof fn law_chunks_enter_the_catalog(
    manager: &mut GlobalPrefetchManager,
    chunks: &Vec<(ChunkKey, ChunkDescriptor)>,
    session_id: Option<&str>,
    p: int,
    id: ChunkId,
    other: Seq<char>,
)
    requires
        call_ensures(
            GlobalPrefetchManager::stage_chunks_locked,
            (manager, chunks, session_id),
            (),
        ),
        catalog_consistent(old(manager).state@),
        sessions_capped(
            old(manager).state@,
            old(manager).config.stable_session_threshold as nat,
        ),
        0 < chunks@.len() <= old(manager).config.max_chunk_catalog,
        0 <= p < chunks@.len(),
        forall|k: int| p < k < chunks@.len() ==> (#[trigger] chunks@[k]).0@ != chunks@[p].0@,
        forall|k: int| 0 <= k < chunks@.len() ==> (#[trigger] chunks@[k]).0@ != id,
    ensures
        ({
            let config = old(manager).config;
            let before = old(manager).state@;
            let after = final(manager).state@;
            let staged = chunks@[p].0@;
            let shown = after.chunk_sessions;
            &&& after.catalog.contains_key(staged)
            &&& after.catalog[staged] == chunks@[p].1@
            &&& after.catalog_order.len() > 0
            &&& after.catalog_order.last() == chunks@[chunks@.len() - 1].0@
            &&& after.catalog.contains_key(id) ==> before.catalog.contains_key(id)
                && after.catalog[id] == before.catalog[id]
            &&& before.catalog.contains_key(id) && !after.catalog.contains_key(id)
                ==> after.catalog_order.len() == config.max_chunk_catalog
            &&& after.catalog.contains_key(id) ==> shown.contains_key(id)
                == before.chunk_sessions.contains_key(id) && (shown.contains_key(id) ==> shown[id]
                == before.chunk_sessions[id])
            &&& config.filter_stable_chunks && session_id is Some ==> shown.contains_key(staged)
                && (shown[staged].contains(session_id->0@) || shown[staged].len()
                >= config.stable_session_threshold)
            &&& shown.contains_key(staged) && shown[staged].contains(other) ==> (
            before.chunk_sessions.contains_key(staged) && before.chunk_sessions[staged].contains(
                other,
            )) || (config.filter_stable_chunks && session_id is Some && session_id->0@ == other)
            &&& !config.filter_stable_chunks || session_id is None ==> shown.contains_key(staged)
                == before.chunk_sessions.contains_key(staged) && (shown.contains_key(staged)
                ==> shown[staged] == before.chunk_sessions[staged])
            &&& after.sessions == before.sessions
            &&& after.sources == before.sources
            &&& after.inflight == before.inflight
        }),
{
    let config = old(manager).config;
    let before = old(manager).state@;
    let after = final(manager).state@;
    let all = described(chunks@);
    let session = match session_id {
        Some(session) => Some(session@),
        None => None,
    };
    let counted = if config.filter_stable_chunks {
        session
    } else {
        None
    };
    let threshold = config.stable_session_threshold as nat;
    let middle = staged_chunks(before, all, counted, threshold);
    let staged = chunks@[p].0@;
    assert(all[p].0 == staged);
    assert forall|k: int| p < k < all.len() implies (#[trigger] all[k]).0 != all[p].0 by {
        assert(chunks@[k].0@ != chunks@[p].0@);
    }
    assert forall|k: int| 0 <= k < all.len() implies (#[trigger] all[k]).0 != id by {
        assert(chunks@[k].0@ != id);
    }
    lemma_staged(before, all, counted, threshold, p);
    lemma_unstaged(before, all, counted, threshold, id);
    lemma_shown(before, all, counted, threshold, staged, other);
    if session is Some {
        lemma_shown(before, all, counted, threshold, staged, session->0);
    }
    assert(chunk_ids(all)[p] == staged);
    assert(chunk_ids(all).contains(staged));
    law_staging_keeps_catalog_sound(config, before, all, session);
    lemma_staged_are_newest(config, before, all, counted, threshold, staged);
    let last = all.len() - 1;
    assert(middle.catalog_order.last() == all[last].0);
    if counted is Some {
        lemma_shown_has_entry(before, all, counted->0, threshold, p);
    }
}

/// A session that shows a chunk is counted for it once, until enough sessions are.
pub proof fn law_sessions_are_counted_once(
    state: &mut ManagerState,
    chunk: &ChunkKey,
    session_id: &str,
    threshold: usize,
    other: ChunkId,
    session: Seq<char>,
)
    requires
        call_ensures(record_chunk_session, (state, chunk, session_id, threshold), ()),
    ensures
        ({
            let before = old(state)@.chunk_sessions;
            let after = final(state)@.chunk_sessions;
            let shown = if before.contains_key(chunk@) {
                before[chunk@]
            } else {
                Set::empty()
            };
            &&& after.contains_key(chunk@)
            &&& shown.len() < threshold ==> after[chunk@].contains(session_id@)
            &&& shown.contains(session) ==> after[chunk@].contains(session)
            &&& after[chunk@].contains(session) ==> shown.contains(session) || (session
                == session_id@ && shown.len() < threshold)
            &&& other != chunk@ ==> after.contains_key(other) == before.contains_key(other)
                && after[other] == before[other]
            &&& final(state)@.catalog == old(state)@.catalog
            &&& final(state)@.sources == old(state)@.sources
            &&& final(state)@.sessions == old(state)@.sessions
        }),
{
}

/// A chunk is stable exactly if at least as many sessions as the threshold says are
/// counted for it.
pub proof fn law_stable_chunks_were_shown_often(
    state: &ManagerState,
    chunk: &ChunkKey,
    threshold: usize,
    stable: bool,
)
    requires
        call_ensures(chunk_is_stable, (state, chunk, threshold), stable),
    ensures
        stable <==> state@.chunk_sessions.contains_key(chunk@) && state@.chunk_sessions[chunk@].len()
            >= threshold,
{
}

/// A manager is made exactly if it is switched on and there is a dispatcher. It starts with
/// nothing learnt and nothing counted.
pub proof fn law_managers_start_empty(
    env: &Environment,
    fractions: FractionalSettings,
    dispatcher: Option<Arc<PrefetchHintDispatcher>>,
    manager: Option<GlobalPrefetchManager>,
    id: ChunkId,
)
    requires
        call_ensures(
            GlobalPrefetchManager::from_env,
            (env, fractions, dispatcher),
            manager,
        ),
    ensures
        manager is Some <==> bool_setting(env@, "DYN_GLOBAL_PREFETCH_ENABLED"@, false)
            && dispatcher is Some,
        manager matches Some(manager) ==> {
            let state = manager.state@;
            &&& Some(manager.dispatcher) == dispatcher
            &&& manager.config.enabled
            &&& !state.catalog.contains_key(id)
            &&& !state.sources.contains_key(id)
            &&& !state.chunk_sessions.contains_key(id)
            &&& state.catalog_order.len() == 0
            &&& state.sessions.len() == 0
            &&& state.inflight.len() == 0
            &&& state.scheduled == 0
            &&& state.predicted == 0
            &&& state.dropped == 0
        },
{
}

} // verus!
