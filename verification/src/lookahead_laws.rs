//! What the hints of waiting requests promise.

use crate::chunks::{lemma_distinct, lemma_filter_membership};
use crate::clock::{Duration, Instant};
use crate::lookahead::{
    admitted, held, is_free, law_admitted_blocks_were_free, lemma_add_block, with_reserved,
    LookaheadReservationTable, Reservations,
};
use crate::prefetch::{
    blocks_of, candidate_pairs, candidate_token_limit, hint_token_limit, highest, indices_of,
    is_among, law_highest_bounds_all, CxlPrefetchClient, PrefetchJob, PrefetchPayload,
    PrefetchTrace, SendOutcome,
};
use crate::protocols::{LocalBlockHash, WorkerWithDpRank};
use vstd::prelude::*;

verus! {

/// So many chunks have so many tokens: the product, where a count of zero counts as one,
/// and as much as an index can hold if that is less.
pub proof fn law_chunks_have_their_tokens(max_chunks: usize, chunk_size: usize, limit: usize)
    requires
        call_ensures(hint_token_limit, (max_chunks, chunk_size), limit),
    ensures
        limit >= 1,
        max_chunks > 0 && chunk_size > 0 && max_chunks * chunk_size <= usize::MAX ==> limit
            == max_chunks * chunk_size,
        max_chunks > 0 && chunk_size > 0 && max_chunks * chunk_size > usize::MAX ==> limit
            == usize::MAX,
        max_chunks == 0 && chunk_size > 0 ==> limit == chunk_size,
        max_chunks > 0 && chunk_size == 0 ==> limit == max_chunks,
{
    if max_chunks > 0 && chunk_size > 0 {
        assert(max_chunks * chunk_size >= 1) by (nonlinear_arith)
            requires
                max_chunks > 0,
                chunk_size > 0,
        ;
    }
}

/// A prefix is needed up to the end of the farthest candidate chunk, and none at all if
/// there is no candidate or one lies beyond the chunks that are looked at.
pub proof fn law_prefix_reaches_the_farthest_candidate(
    indices: &[u32],
    chunk_size: usize,
    max_scan_chunks: usize,
    limit: Option<usize>,
    i: int,
)
    requires
        call_ensures(candidate_token_limit, (indices, chunk_size, max_scan_chunks), limit),
        0 <= i < indices@.len(),
    ensures
        indices@[i] >= max_scan_chunks ==> limit is None,
        (forall|k: int| 0 <= k < indices@.len() ==> #[trigger] indices@[k] < max_scan_chunks)
            ==> limit is Some,
        (forall|k: int| 0 <= k < indices@.len() ==> #[trigger] indices@[k] <= indices@[i])
            && indices@[i] < max_scan_chunks && chunk_size > 0 ==> limit == Some(
            if (indices@[i] + 1) * chunk_size <= usize::MAX {
                ((indices@[i] + 1) * chunk_size) as usize
            } else {
                usize::MAX
            },
        ),
{
    law_highest_bounds_all(indices@);
    let k = choose|k: int|
        0 <= k < indices@.len() && indices@[k] == highest(indices@);
    assert(indices@[k] == highest(indices@));
}

/// Tokens are prepared exactly for requests that are long enough, while looking ahead is
/// switched on and has a window, and whose candidates all lie within the chunks that are
/// looked at. They are the first tokens of the request, up to the end of the farthest
/// candidate.
pub proof fn law_tokens_are_prepared(
    client: &CxlPrefetchClient,
    token_ids: &[u32],
    indices: &[u32],
    tokens: Option<Vec<u32>>,
    i: int,
)
    requires
        call_ensures(CxlPrefetchClient::prepare_tokens, (client, token_ids, indices), tokens),
        client.config.chunk_size > 0,
        0 <= i < indices@.len(),
        forall|k: int| 0 <= k < indices@.len() ==> #[trigger] indices@[k] <= indices@[i],
    ensures
        ({
            let config = client.config;
            let end = (indices@[i] + 1) * config.chunk_size;
            &&& tokens is Some <==> config.lookahead_enabled && config.lookahead_window > 0
                && token_ids@.len() >= config.min_tokens && indices@[i] < config.max_scan_chunks
            &&& tokens is Some ==> tokens->0@ == if end < token_ids@.len() {
                token_ids@.take(end)
            } else {
                token_ids@
            }
        }),
{
    law_highest_bounds_all(indices@);
    let k = choose|k: int|
        0 <= k < indices@.len() && indices@[k] == highest(indices@);
    assert(indices@[k] == highest(indices@));
    assert(indices@[i] == highest(indices@));
    let end = (indices@[i] + 1) * client.config.chunk_size;
    assert(end > 0) by (nonlinear_arith)
        requires
            end == (indices@[i] + 1) * client.config.chunk_size,
            client.config.chunk_size > 0,
            indices@[i] >= 0,
    ;
    assert(token_ids.len() == token_ids@.len());
    assert(token_ids@.take(token_ids@.len() as int) =~= token_ids@);
}

/// Blocks that were asked for and are free are admitted as far as there is room.
pub proof fn law_free_blocks_are_admitted(
    entries: Reservations,
    worker: WorkerWithDpRank,
    blocks: Seq<LocalBlockHash>,
    capacity: nat,
    k: int,
)
    requires
        0 <= k < blocks.len(),
        !entries.contains_key((worker, blocks[k])),
    ensures
        admitted(entries, worker, blocks, capacity).contains(blocks[k]) || entries.len()
            + admitted(entries, worker, blocks, capacity).len() >= capacity,
{
    let free = blocks.filter(is_free(entries, worker));
    lemma_filter_membership(blocks, is_free(entries, worker), blocks[k]);
    lemma_distinct(free);
}

/// Reserving drops what has ended, and then reserves for the worker every block that was
/// asked for and is not held, each once, as far as there is room. New reservations end
/// after the time to live; those that were held stay as they are.
pub proof fn law_free_blocks_are_reserved(
    table: &mut LookaheadReservationTable,
    worker: WorkerWithDpRank,
    blocks: &[LocalBlockHash],
    now: Instant,
    reserved: Vec<LocalBlockHash>,
    key: (WorkerWithDpRank, LocalBlockHash),
)
    requires
        call_ensures(
            LookaheadReservationTable::reserve,
            (table, worker, blocks, now),
            reserved,
        ),
        now.nanos + old(table).ttl.nanos <= u128::MAX,
    ensures
        ({
            let before = old(table).entries@;
            let after = final(table).entries@;
            let is_held = before.contains_key(key) && before[key].nanos > now.nanos;
            let asked = key.0 == worker && blocks@.contains(key.1);
            &&& is_held ==> after.contains_key(key) && after[key] == before[key]
            &&& !is_held && after.contains_key(key) ==> asked && reserved@.contains(key.1)
                && after[key].nanos == now.nanos + old(table).ttl.nanos
            &&& !is_held && asked && !after.contains_key(key) ==> after.len()
                >= old(table).capacity
            &&& key.0 == worker && reserved@.contains(key.1) ==> !is_held && asked
                && after.contains_key(key)
            &&& forall|a: int, b: int|
                0 <= a < b < reserved@.len() ==> reserved@[a] != reserved@[b]
        }),
{
    let before = old(table).entries@;
    let current = held(before, now);
    let capacity = old(table).capacity as nat;
    law_admitted_blocks_were_free(current, worker, blocks@, capacity);
    if key.0 == worker && blocks@.contains(key.1) && !current.contains_key(key) {
        let k = choose|k: int| 0 <= k < blocks@.len() && blocks@[k] == key.1;
        law_free_blocks_are_admitted(current, worker, blocks@, capacity, k);
    }
}

/// Releasing frees exactly the given blocks of the worker.
pub proof fn law_released_blocks_are_free(
    table: &mut LookaheadReservationTable,
    worker: WorkerWithDpRank,
    blocks: &[LocalBlockHash],
    key: (WorkerWithDpRank, LocalBlockHash),
)
    requires
        call_ensures(LookaheadReservationTable::release, (table, worker, blocks), ()),
    ensures
        final(table).entries@.contains_key(key) <==> old(table).entries@.contains_key(key) && !(key.0
            == worker && blocks@.contains(key.1)),
        final(table).entries@.contains_key(key) ==> final(table).entries@[key] == old(
            table,
        ).entries@[key],
{
}

/// A reservation ends at its time, not before.
pub proof fn law_reservations_end_in_time(
    table: &mut LookaheadReservationTable,
    now: Instant,
    key: (WorkerWithDpRank, LocalBlockHash),
)
    requires
        call_ensures(LookaheadReservationTable::expire, (table, now), ()),
    ensures
        final(table).entries@.contains_key(key) <==> old(table).entries@.contains_key(key) && old(
            table,
        ).entries@[key].nanos > now.nanos,
        final(table).entries@.contains_key(key) ==> final(table).entries@[key] == old(
            table,
        ).entries@[key],
{
}

/// A table starts empty, with room for at least one reservation.
pub proof fn law_tables_start_empty(
    ttl: Duration,
    capacity: usize,
    table: LookaheadReservationTable,
    key: (WorkerWithDpRank, LocalBlockHash),
)
    requires
        call_ensures(LookaheadReservationTable::new, (ttl, capacity), table),
    ensures
        !table.entries@.contains_key(key),
        table.ttl == ttl,
        capacity > 0 ==> table.capacity == capacity,
        capacity == 0 ==> table.capacity == 1,
{
}

/// Reserving free blocks adds one reservation for each.
proof fn lemma_reserved_len(
    entries: Reservations,
    worker: WorkerWithDpRank,
    blocks: Seq<LocalBlockHash>,
    ends: Instant,
)
    requires
        entries.dom().finite(),
        blocks.no_duplicates(),
        forall|block: LocalBlockHash| #[trigger]
            blocks.contains(block) ==> !entries.contains_key((worker, block)),
    ensures
        with_reserved(entries, worker, blocks, ends).dom().finite(),
        with_reserved(entries, worker, blocks, ends).len() == entries.len() + blocks.len(),
    decreases blocks.len(),
{
    if blocks.len() == 0 {
        assert(with_reserved(entries, worker, blocks, ends) =~= entries);
    } else {
        let init = blocks.drop_last();
        let last = blocks.last();
        assert(init.push(last) =~= blocks);
        assert(init.no_duplicates() && !init.contains(last)) by {
            assert forall|a: int, b: int| 0 <= a < init.len() && 0 <= b < init.len() && a
                != b implies init[a] != init[b] by {
                assert(blocks[a] != blocks[b]);
            }
            if init.contains(last) {
                let a = choose|a: int| 0 <= a < init.len() && init[a] == last;
                assert(blocks[a] != blocks[blocks.len() - 1]);
            }
        }
        assert forall|block: LocalBlockHash| #[trigger] init.contains(
            block,
        ) implies !entries.contains_key((worker, block)) by {
            let a = choose|a: int| 0 <= a < init.len() && init[a] == block;
            assert(blocks[a] == block);
            assert(blocks.contains(block));
        }
        assert(blocks[blocks.len() - 1] == last);
        assert(blocks.contains(last));
        lemma_reserved_len(entries, worker, init, ends);
        lemma_add_block(entries, worker, init, last, ends);
        assert(!with_reserved(entries, worker, init, ends).contains_key((worker, last)));
    }
}

/// A waiting request is hinted for exactly those of its first candidates that no other
/// hint holds, as far as there is room: they are reserved for its worker until their time
/// to live is over, and the job names their positions and no others. There is no job if
/// looking ahead is switched off or nothing could be reserved.
pub proof fn law_jobs_hold_what_was_free(
    client: &mut CxlPrefetchClient,
    request_id: String,
    token_ids: Vec<u32>,
    worker: WorkerWithDpRank,
    blocks: Vec<LocalBlockHash>,
    indices: Vec<u32>,
    trace: PrefetchTrace,
    now: Instant,
    job: Option<PrefetchJob>,
    k: int,
    n: int,
)
    requires
        call_ensures(
            CxlPrefetchClient::dispatch_lookahead,
            (client, request_id, token_ids, worker, blocks, indices, trace, now),
            job,
        ),
        now.nanos + old(client).lookahead_reservations.ttl.nanos <= u128::MAX,
    ensures
        ({
            let config = old(client).config;
            let before = old(client).lookahead_reservations.entries@;
            let after = final(client).lookahead_reservations.entries@;
            let capacity = old(client).lookahead_reservations.capacity;
            let candidate = 0 <= k < blocks@.len() && k < indices@.len() && k < config.max_chunks;
            let key = (worker, blocks@[k]);
            let is_held = before.contains_key(key) && before[key].nanos > now.nanos;
            let on = config.lookahead_enabled && config.lookahead_window > 0;
            &&& !on ==> job is None && after == before
            &&& job is Some ==> {
                &&& job->0.request_id@ == request_id@
                &&& job->0.token_ids@ == token_ids@
                &&& job->0.worker == worker
                &&& job->0.trace == trace
                &&& job->0.reserved_blocks@.len() > 0
                &&& 0 <= n < job->0.reserved_blocks@.len() ==> {
                    &&& exists|p: int|
                        0 <= p < blocks@.len() && p < indices@.len() && p < config.max_chunks
                            && #[trigger] blocks@[p] == job->0.reserved_blocks@[n]
                    &&& after.contains_key((worker, job->0.reserved_blocks@[n]))
                    &&& after[(worker, job->0.reserved_blocks@[n])].nanos == now.nanos + old(
                        client,
                    ).lookahead_reservations.ttl.nanos
                    &&& before.contains_key((worker, job->0.reserved_blocks@[n]))
                        ==> before[(worker, job->0.reserved_blocks@[n])].nanos <= now.nanos
                }
                &&& 0 <= n < job->0.candidate_block_indices@.len() ==> exists|p: int|
                    0 <= p < blocks@.len() && p < indices@.len() && p < config.max_chunks
                        && job->0.reserved_blocks@.contains(#[trigger] blocks@[p]) && indices@[p]
                        == job->0.candidate_block_indices@[n]
                &&& candidate && job->0.reserved_blocks@.contains(blocks@[k])
                    ==> job->0.candidate_block_indices@.contains(indices@[k])
            }
            &&& on && candidate && !is_held ==> {
                ||| job is Some && job->0.reserved_blocks@.contains(blocks@[k])
                ||| after.len() >= capacity
            }
        }),
{
    let config = old(client).config;
    let before = old(client).lookahead_reservations.entries@;
    let after = final(client).lookahead_reservations.entries@;
    let capacity = old(client).lookahead_reservations.capacity as nat;
    let pairs = candidate_pairs(blocks@, indices@, config.max_chunks as int);
    let current = held(before, now);
    let wanted = blocks_of(pairs);
    let reserved = admitted(current, worker, wanted, capacity);
    law_admitted_blocks_were_free(current, worker, wanted, capacity);
    let candidate = 0 <= k < blocks@.len() && k < indices@.len() && k < config.max_chunks;
    let on = config.lookahead_enabled && config.lookahead_window > 0;
    if candidate {
        assert(pairs[k] == (blocks@[k], indices@[k]));
        assert(wanted[k] == blocks@[k]);
    }
    if let Some(made) = job {
        assert(made.reserved_blocks@ == reserved);
        let chosen = pairs.filter(is_among(reserved));
        assert(made.candidate_block_indices@ == indices_of(pairs, reserved));
        if 0 <= n < reserved.len() {
            assert(reserved.contains(reserved[n]));
            assert(wanted.contains(reserved[n]));
            let p = choose|p: int| 0 <= p < wanted.len() && wanted[p] == reserved[n];
            assert(pairs[p].0 == blocks@[p]);
        }
        if 0 <= n < chosen.len() {
            assert(chosen.contains(chosen[n]));
            lemma_filter_membership(pairs, is_among(reserved), chosen[n]);
            let p = choose|p: int| 0 <= p < pairs.len() && pairs[p] == chosen[n];
            assert(pairs[p] == (blocks@[p], indices@[p]));
        }
        if candidate && reserved.contains(blocks@[k]) {
            assert(pairs.contains(pairs[k]));
            lemma_filter_membership(pairs, is_among(reserved), pairs[k]);
            let q = choose|q: int| 0 <= q < chosen.len() && chosen[q] == pairs[k];
            assert(made.candidate_block_indices@[q] == indices@[k]);
        }
    }
    if on && candidate && !current.contains_key((worker, blocks@[k])) {
        law_free_blocks_are_admitted(current, worker, wanted, capacity, k);
        if !reserved.contains(blocks@[k]) {
            let ends = Instant {
                nanos: (now.nanos + old(client).lookahead_reservations.ttl.nanos) as u128,
            };
            old(client).lookahead_reservations.entries.lemma_finite();
            assert(current.dom().subset_of(before.dom()));
            vstd::set_lib::lemma_set_subset_finite(before.dom(), current.dom());
            lemma_reserved_len(current, worker, reserved, ends);
        }
    }
}

/// What a hint says to its worker.
pub proof fn law_payload_says_what_the_job_does(
    client: &CxlPrefetchClient,
    job: &PrefetchJob,
    payload: PrefetchPayload,
)
    requires
        call_ensures(CxlPrefetchClient::payload, (client, job), payload),
    ensures
        payload.request_id@ == job.request_id@,
        payload.token_ids@ == job.token_ids@,
        payload.candidate_block_indices@ == job.candidate_block_indices@,
        payload.dp_rank == job.worker.dp_rank,
        payload.max_chunks == client.config.max_chunks,
        payload.route_enqueued_unix_ns == job.trace.route_enqueued_unix_ns,
        payload.lookahead_admitted_unix_ns == job.trace.lookahead_admitted_unix_ns,
        payload.lookahead_queue_depth == job.trace.queue_depth,
{
}

/// A job has reached its worker exactly if one was being sent and the answer, read to its
/// end, held a response. If it has not, its blocks on its worker are free again.
pub proof fn law_unanswered_jobs_free_their_blocks(
    client: &mut CxlPrefetchClient,
    outcome: SendOutcome,
    delivered: bool,
    key: (WorkerWithDpRank, LocalBlockHash),
)
    requires
        call_ensures(CxlPrefetchClient::on_sent, (client, outcome), delivered),
        old(client).sending is Some,
    ensures
        ({
            let job = old(client).sending->0;
            let before = old(client).lookahead_reservations.entries@;
            let after = final(client).lookahead_reservations.entries@;
            let mine = key.0 == job.worker && job.reserved_blocks@.contains(key.1);
            &&& outcome is Failed || outcome is TimedOut ==> !delivered
            &&& outcome matches SendOutcome::Drained { responses } ==> delivered == (responses > 0)
            &&& final(client).sending is None
            &&& after.contains_key(key) <==> before.contains_key(key) && (delivered || !mine)
            &&& after.contains_key(key) ==> after[key] == before[key]
            &&& final(client).queue().waiting == old(client).queue().waiting
        }),
{
}

/// A job for which there was room waits behind all others; one for which there was none
/// frees its blocks on its worker, and no others.
pub proof fn law_admitted_jobs_wait_last(
    client: &mut CxlPrefetchClient,
    job: PrefetchJob,
    admitted: bool,
    taken: bool,
    key: (WorkerWithDpRank, LocalBlockHash),
)
    requires
        call_ensures(CxlPrefetchClient::on_enqueued, (client, job, admitted), taken),
    ensures
        ({
            let before = old(client).lookahead_reservations.entries@;
            let after = final(client).lookahead_reservations.entries@;
            let mine = key.0 == job.worker && job.reserved_blocks@.contains(key.1);
            &&& taken == admitted
            &&& admitted ==> final(client).queue().waiting == old(client).queue().waiting.push(
                job@,
            )
            &&& !admitted ==> final(client).queue().waiting == old(client).queue().waiting
            &&& after.contains_key(key) <==> before.contains_key(key) && (admitted || !mine)
            &&& after.contains_key(key) ==> after[key] == before[key]
            &&& final(client).queue().sending == old(client).queue().sending
        }),
{
}

/// The job that has waited longest is taken up, unless one is still being sent.
pub proof fn law_the_longest_waiting_job_is_taken(client: &mut CxlPrefetchClient, taken: bool)
    requires
        call_ensures(CxlPrefetchClient::take_job, (client,), taken),
    ensures
        ({
            let before = old(client).queue();
            let after = final(client).queue();
            &&& taken <==> before.sending is None && before.waiting.len() > 0
            &&& taken ==> after.sending == Some(before.waiting[0])
            &&& taken ==> after.waiting == before.waiting.skip(1)
            &&& !taken ==> after.sending == before.sending && after.waiting == before.waiting
            &&& after.reservations == before.reservations
        }),
{
    let waiting = old(client).queue().waiting;
    if waiting.len() > 0 {
        assert(waiting.drop_first() =~= waiting.skip(1));
    }
}

/// The task is started by the first call that asks for it, and by no later one.
pub proof fn law_the_task_starts_once(
    first_call: &mut CxlPrefetchClient,
    second_call: &mut CxlPrefetchClient,
    first_answer: bool,
    second_answer: bool,
)
    requires
        call_ensures(CxlPrefetchClient::start_queue_worker, (first_call,), first_answer),
        call_ensures(CxlPrefetchClient::start_queue_worker, (second_call,), second_answer),
        final(first_call).queue().started ==> old(second_call).queue().started,
    ensures
        first_answer <==> !old(first_call).queue_worker_started,
        !second_answer,
        final(first_call).queue().waiting == old(first_call).queue().waiting,
        final(first_call).queue().reservations == old(first_call).queue().reservations,
{
}

/// What the settings say of looking ahead.
pub proof fn law_looking_ahead_needs_a_window(
    client: &CxlPrefetchClient,
    tokens: usize,
    enabled: bool,
    window: usize,
    prefetch: bool,
    size: usize,
    chunks: usize,
    scanned: usize,
)
    requires
        call_ensures(CxlPrefetchClient::lookahead_enabled, (client,), enabled),
        call_ensures(CxlPrefetchClient::lookahead_window, (client,), window),
        call_ensures(CxlPrefetchClient::should_prefetch, (client, tokens), prefetch),
        call_ensures(CxlPrefetchClient::chunk_size, (client,), size),
        call_ensures(CxlPrefetchClient::max_chunks, (client,), chunks),
        call_ensures(CxlPrefetchClient::max_scan_chunks, (client,), scanned),
    ensures
        enabled <==> client.config.lookahead_enabled && client.config.lookahead_window > 0,
        client.config.lookahead_enabled ==> window == client.config.lookahead_window,
        !client.config.lookahead_enabled ==> window == 0,
        prefetch <==> enabled && tokens >= client.config.min_tokens,
        size == client.config.chunk_size,
        chunks == client.config.max_chunks,
        scanned == client.config.max_scan_chunks,
{
}

/// Without candidates there is nothing to prepare.
pub proof fn law_no_candidates_need_no_tokens(
    client: &CxlPrefetchClient,
    token_ids: &[u32],
    indices: &[u32],
    tokens: Option<Vec<u32>>,
)
    requires
        call_ensures(CxlPrefetchClient::prepare_tokens, (client, token_ids, indices), tokens),
        indices@.len() == 0,
    ensures
        tokens is None,
{
}

/// Nothing that happens to a client changes its settings, nor what its table may hold.
pub proof fn law_clients_keep_their_settings(
    enqueued: &mut CxlPrefetchClient,
    taking: &mut CxlPrefetchClient,
    sent: &mut CxlPrefetchClient,
    starting: &mut CxlPrefetchClient,
    job: PrefetchJob,
    outcome: SendOutcome,
    admitted: bool,
    answers: (bool, bool, bool, bool),
)
    requires
        call_ensures(CxlPrefetchClient::on_enqueued, (enqueued, job, admitted), answers.0),
        call_ensures(CxlPrefetchClient::take_job, (taking,), answers.1),
        call_ensures(CxlPrefetchClient::on_sent, (sent, outcome), answers.2),
        call_ensures(CxlPrefetchClient::start_queue_worker, (starting,), answers.3),
    ensures
        final(enqueued).config == old(enqueued).config,
        final(taking).config == old(taking).config,
        final(sent).config == old(sent).config,
        final(starting).config == old(starting).config,
        final(enqueued).lookahead_reservations.ttl == old(enqueued).lookahead_reservations.ttl,
        final(taking).lookahead_reservations.ttl == old(taking).lookahead_reservations.ttl,
        final(sent).lookahead_reservations.ttl == old(sent).lookahead_reservations.ttl,
        final(starting).lookahead_reservations.ttl == old(starting).lookahead_reservations.ttl,
        final(enqueued).lookahead_reservations.capacity == old(
            enqueued,
        ).lookahead_reservations.capacity,
        final(taking).lookahead_reservations.capacity == old(
            taking,
        ).lookahead_reservations.capacity,
        final(sent).lookahead_reservations.capacity == old(sent).lookahead_reservations.capacity,
        final(starting).lookahead_reservations.capacity == old(
            starting,
        ).lookahead_reservations.capacity,
{
}

/// A client that releases blocks of a worker frees those and no others, and leaves its jobs
/// and its settings alone.
pub proof fn law_clients_release_what_is_named(
    client: &mut CxlPrefetchClient,
    worker: WorkerWithDpRank,
    blocks: &[LocalBlockHash],
    key: (WorkerWithDpRank, LocalBlockHash),
)
    requires
        call_ensures(CxlPrefetchClient::release_lookahead, (client, worker, blocks), ()),
    ensures
        ({
            let before = old(client).lookahead_reservations.entries@;
            let after = final(client).lookahead_reservations.entries@;
            &&& after.contains_key(key) <==> before.contains_key(key) && !(key.0 == worker
                && blocks@.contains(key.1))
            &&& after.contains_key(key) ==> after[key] == before[key]
            &&& final(client).queue().waiting == old(client).queue().waiting
            &&& final(client).queue().sending == old(client).queue().sending
            &&& final(client).config == old(client).config
        }),
{
}

} // verus!
