use kv_router::clock::{Duration, Instant};
use kv_router::environment::Environment;
use kv_router::lookahead::LookaheadReservationTable;
use kv_router::prefetch::{
    candidate_token_limit, hint_token_limit, CxlPrefetchClient, CxlPrefetchConfig, PrefetchJob,
    PrefetchSource, PrefetchTrace, SendOutcome, MAX_LOOKAHEAD_SCAN_CHUNKS,
};
use kv_router::protocols::{LocalBlockHash, WorkerWithDpRank};

fn at(millis: u128) -> Instant {
    Instant { nanos: millis * 1_000_000 }
}

fn environment(vars: &[(&str, &str)]) -> Environment {
    Environment {
        vars: vars.iter().map(|(name, value)| (name.to_string(), value.to_string())).collect(),
    }
}

fn client(extra: &[(&str, &str)]) -> CxlPrefetchClient {
    let mut vars = vec![
        ("DYN_CXL_PREFETCH_LOOKAHEAD_ENABLED", "true"),
        ("DYN_CXL_PREFETCH_LOOKAHEAD_WINDOW", "4"),
    ];
    vars.extend_from_slice(extra);
    CxlPrefetchClient::new(&environment(&vars))
}

fn hashes(values: &[u64]) -> Vec<LocalBlockHash> {
    values.iter().map(|value| LocalBlockHash(*value)).collect()
}

#[test]
fn defaults_are_bounded_and_disabled() {
    let config = CxlPrefetchConfig {
        lookahead_enabled: false,
        min_tokens: 256,
        max_chunks: 8,
        chunk_size: 256,
        rpc_timeout: Duration::from_millis(10),
        queue_capacity: 16,
        lookahead_window: 0,
        lookahead_reservation_ttl: Duration::from_secs(5),
        lookahead_reservation_capacity: 16_384,
        max_scan_chunks: MAX_LOOKAHEAD_SCAN_CHUNKS,
    };
    assert!(config.max_chunks > 0);
    assert!(config.chunk_size > 0);
    assert!(!config.rpc_timeout.is_zero());
    assert!(config.queue_capacity > 0);
}

#[test]
fn unset_variables_give_the_defaults() {
    let config = CxlPrefetchConfig::from_env(&Environment::empty());
    assert!(!config.lookahead_enabled);
    assert_eq!(config.min_tokens, 256);
    assert_eq!(config.max_chunks, 8);
    assert_eq!(config.chunk_size, 256);
    assert_eq!(config.rpc_timeout, Duration::from_millis(10));
    assert_eq!(config.queue_capacity, 16);
    assert_eq!(config.lookahead_window, 0);
    assert_eq!(config.lookahead_reservation_ttl, Duration::from_secs(5));
    assert_eq!(config.lookahead_reservation_capacity, 16_384);
    assert_eq!(config.max_scan_chunks, MAX_LOOKAHEAD_SCAN_CHUNKS);
}

#[test]
fn excessive_settings_are_clamped() {
    let config = CxlPrefetchConfig::from_env(&environment(&[
        ("DYN_CXL_PREFETCH_MAX_CHUNKS", "0"),
        ("DYN_CXL_PREFETCH_CHUNK_SIZE", "0"),
        ("DYN_CXL_PREFETCH_RPC_TIMEOUT_MS", "0"),
        ("DYN_CXL_PREFETCH_QUEUE_CAPACITY", "0"),
        ("DYN_CXL_PREFETCH_LOOKAHEAD_WINDOW", "99"),
        ("DYN_CXL_PREFETCH_LOOKAHEAD_RESERVATION_TTL_MS", "99999999"),
        ("DYN_CXL_PREFETCH_LOOKAHEAD_RESERVATION_CAPACITY", "99999999"),
        ("DYN_CXL_PREFETCH_MAX_SCAN_CHUNKS", "65"),
        ("DYN_CXL_PREFETCH_MIN_TOKENS", "nonsense"),
    ]));
    assert_eq!(config.max_chunks, 1);
    assert_eq!(config.chunk_size, 1);
    assert_eq!(config.rpc_timeout, Duration::from_millis(1));
    assert_eq!(config.queue_capacity, 1);
    assert_eq!(config.lookahead_window, 16);
    assert_eq!(config.lookahead_reservation_ttl, Duration::from_secs(60));
    assert_eq!(config.lookahead_reservation_capacity, 1_000_000);
    assert_eq!(config.max_scan_chunks, 64);
    assert_eq!(config.min_tokens, 256);
}

#[test]
fn hint_window_uses_lmcache_chunk_size() {
    let token_count = 2 * 256 + 63;
    let token_limit = hint_token_limit(2, 256);

    assert_eq!(token_limit, 512);
    assert!(token_count >= token_limit);
    assert_ne!(token_limit, 2 * 64);
}

#[test]
fn token_limits_saturate_and_are_positive() {
    assert_eq!(hint_token_limit(0, 0), 1);
    assert_eq!(hint_token_limit(0, 7), 7);
    assert_eq!(hint_token_limit(usize::MAX, 2), usize::MAX);
}

#[test]
fn sparse_candidate_token_limit_includes_prefix_before_target() {
    assert_eq!(candidate_token_limit(&[4], 256, 64), Some(5 * 256));
    assert_eq!(candidate_token_limit(&[1, 3], 256, 64), Some(4 * 256));
    assert_eq!(candidate_token_limit(&[64], 256, 64), None);
    assert_eq!(candidate_token_limit(&[], 256, 64), None);
}

#[test]
fn order_of_candidates_does_not_matter() {
    assert_eq!(candidate_token_limit(&[3, 1], 256, 64), Some(4 * 256));
    assert_eq!(candidate_token_limit(&[63], 256, 64), Some(64 * 256));
    assert_eq!(candidate_token_limit(&[u32::MAX, 0], 256, 64), None);
}

#[test]
fn lookahead_reservations_deduplicate_per_worker_and_release() {
    let worker0 = WorkerWithDpRank::from_worker_id(10);
    let worker1 = WorkerWithDpRank::from_worker_id(11);
    let mut table = LookaheadReservationTable::new(Duration::from_secs(5), 3);

    assert_eq!(
        table.reserve(worker0, &[LocalBlockHash(1), LocalBlockHash(2)], at(0)),
        vec![LocalBlockHash(1), LocalBlockHash(2)]
    );
    assert!(table
        .reserve(worker0, &[LocalBlockHash(1), LocalBlockHash(2)], at(1))
        .is_empty());

    assert_eq!(
        table.reserve(worker1, &[LocalBlockHash(1)], at(2)),
        vec![LocalBlockHash(1)]
    );

    table.release(worker0, &[LocalBlockHash(1)]);
    assert_eq!(
        table.reserve(worker0, &[LocalBlockHash(1)], at(3)),
        vec![LocalBlockHash(1)]
    );
}

#[test]
fn reservations_end_after_their_time_to_live() {
    let worker = WorkerWithDpRank::from_worker_id(1);
    let mut table = LookaheadReservationTable::new(Duration::from_millis(10), 8);
    assert_eq!(table.reserve(worker, &hashes(&[1]), at(0)), hashes(&[1]));
    assert!(table.reserve(worker, &hashes(&[1]), at(9)).is_empty());
    assert_eq!(table.reserve(worker, &hashes(&[1]), at(10)), hashes(&[1]));
    table.expire(at(20));
    assert!(table.entries.is_empty());
}

#[test]
fn reservations_stay_within_capacity() {
    let worker = WorkerWithDpRank::from_worker_id(1);
    let mut table = LookaheadReservationTable::new(Duration::from_secs(5), 2);
    assert_eq!(
        table.reserve(worker, &hashes(&[1, 1, 2, 3]), at(0)),
        hashes(&[1, 2])
    );
    assert_eq!(table.entries.len(), 2);
    assert!(table.reserve(worker, &hashes(&[3]), at(1)).is_empty());
    assert_eq!(LookaheadReservationTable::new(Duration::from_secs(5), 0).capacity, 1);
}

#[test]
fn lookahead_needs_a_window() {
    let disabled = CxlPrefetchClient::new(&Environment::empty());
    assert!(!disabled.lookahead_enabled());
    assert_eq!(disabled.lookahead_window(), 0);
    let without_window = CxlPrefetchClient::new(&environment(&[(
        "DYN_CXL_PREFETCH_LOOKAHEAD_ENABLED",
        "true",
    )]));
    assert!(!without_window.lookahead_enabled());
    let enabled = client(&[]);
    assert!(enabled.lookahead_enabled());
    assert_eq!(enabled.lookahead_window(), 4);
    assert_eq!(enabled.chunk_size(), 256);
    assert_eq!(enabled.max_chunks(), 8);
    assert_eq!(enabled.max_scan_chunks(), 64);
    assert!(enabled.should_prefetch(256));
    assert!(!enabled.should_prefetch(255));
}

#[test]
fn tokens_are_prepared_up_to_the_last_candidate() {
    let client = client(&[
        ("DYN_CXL_PREFETCH_CHUNK_SIZE", "2"),
        ("DYN_CXL_PREFETCH_MIN_TOKENS", "3"),
    ]);
    let tokens = [1, 2, 3, 4, 5, 6, 7];
    assert_eq!(client.prepare_tokens(&tokens, &[1]), Some(vec![1, 2, 3, 4]));
    assert_eq!(client.prepare_tokens(&tokens, &[9]), Some(tokens.to_vec()));
    assert_eq!(client.prepare_tokens(&tokens, &[]), None);
    assert_eq!(client.prepare_tokens(&tokens[..2], &[0]), None);
}

#[test]
fn partial_admission_keeps_the_positions_of_new_blocks() {
    let worker = WorkerWithDpRank::new(3, 1);
    let mut client = client(&[("DYN_CXL_PREFETCH_MAX_CHUNKS", "3")]);
    let trace = PrefetchTrace { queue_depth: Some(2), ..PrefetchTrace::default() };
    let first = client
        .dispatch_lookahead(
            "r1".to_string(),
            vec![1, 2, 3],
            worker,
            hashes(&[10, 20]),
            vec![0, 4],
            trace,
            at(0),
        )
        .expect("new blocks");
    assert_eq!(first.reserved_blocks, hashes(&[10, 20]));
    assert_eq!(first.candidate_block_indices, vec![0, 4]);

    let second = client
        .dispatch_lookahead(
            "r2".to_string(),
            vec![1, 2, 3],
            worker,
            hashes(&[20, 30, 10, 40]),
            vec![4, 6, 0, 8],
            trace,
            at(1),
        )
        .expect("one new block");
    assert_eq!(second.reserved_blocks, hashes(&[30]));
    assert_eq!(second.candidate_block_indices, vec![6]);
    let payload = client.payload(&second);
    assert_eq!(payload.request_id, "r2");
    assert_eq!(payload.token_ids, &[1, 2, 3]);
    assert_eq!(payload.dp_rank, 1);
    assert_eq!(payload.max_chunks, 3);
    assert_eq!(payload.candidate_block_indices, &[6]);
    assert_eq!(payload.prefetch_kind, "dynamo_queue_lookahead");
    assert_eq!(payload.lookahead_queue_depth, Some(2));
    assert_eq!(payload.route_enqueued_unix_ns, None);
    assert_eq!(PrefetchSource::DynamoQueueLookahead.as_str(), "dynamo_queue_lookahead");

    assert!(client
        .dispatch_lookahead(
            "r3".to_string(),
            vec![1],
            worker,
            hashes(&[10, 20, 30]),
            vec![0, 4, 6],
            trace,
            at(2),
        )
        .is_none());
}

fn job(client: &mut CxlPrefetchClient, id: &str, blocks: &[u64], now: u128) -> Option<PrefetchJob> {
    client.dispatch_lookahead(
        id.to_string(),
        vec![1],
        WorkerWithDpRank::from_worker_id(3),
        hashes(blocks),
        (0..blocks.len() as u32).collect(),
        PrefetchTrace::default(),
        at(now),
    )
}

#[test]
fn hints_that_reach_no_worker_free_their_blocks() {
    let mut client = client(&[]);
    let refused = job(&mut client, "r", &[1], 0).expect("free block");
    assert!(!client.on_enqueued(refused, false));
    assert!(!client.take_job());
    let outcomes =
        [SendOutcome::Drained { responses: 0 }, SendOutcome::Failed, SendOutcome::TimedOut];
    for (now, outcome) in outcomes.into_iter().enumerate() {
        let next = job(&mut client, "r", &[1], now as u128).expect("free block");
        assert!(client.on_enqueued(next, true));
        assert!(client.take_job());
        assert!(job(&mut client, "again", &[1], now as u128).is_none());
        assert!(!client.on_sent(outcome));
    }
    let last = job(&mut client, "r", &[1], 4).expect("free block");
    assert!(client.on_enqueued(last, true));
    assert!(client.take_job());
    assert!(client.on_sent(SendOutcome::Drained { responses: 1 }));
    assert!(job(&mut client, "r", &[1], 5).is_none());
    assert!(!client.on_sent(SendOutcome::Drained { responses: 1 }));
}

#[test]
fn one_task_starts() {
    let mut client = client(&[]);
    assert!(client.start_queue_worker());
    let next = job(&mut client, "r", &[1], 0).expect("free block");
    assert!(client.on_enqueued(next, true));
    for _ in 0..3 {
        assert!(!client.start_queue_worker());
    }
}

#[test]
fn jobs_are_sent_one_at_a_time_in_order() {
    let mut client = client(&[]);
    let mut sent = Vec::new();
    for (i, id) in ["a", "b", "c", "d"].into_iter().enumerate() {
        let next = job(&mut client, id, &[i as u64, 10 + i as u64], 0).expect("free blocks");
        client.on_enqueued(next, id != "c");
    }
    assert_eq!(client.waiting.len(), 3);
    while client.take_job() {
        assert!(!client.take_job());
        let id = client.sending.as_ref().expect("taken up").request_id.clone();
        let outcome = if id == "b" {
            SendOutcome::TimedOut
        } else {
            SendOutcome::Drained { responses: 1 }
        };
        assert_eq!(client.on_sent(outcome), id != "b");
        assert!(client.sending.is_none());
        sent.push(id);
    }
    assert_eq!(sent, vec!["a", "b", "d"]);
    assert!(client.waiting.is_empty());
    let again = job(&mut client, "e", &[0, 1, 2, 3, 10, 11, 12, 13], 1).expect("freed blocks");
    assert_eq!(again.reserved_blocks, hashes(&[1, 2, 11, 12]));
}

#[test]
fn reservations_of_sent_jobs_end_in_time() {
    let mut client = client(&[("DYN_CXL_PREFETCH_LOOKAHEAD_RESERVATION_TTL_MS", "100")]);
    let first = job(&mut client, "a", &[1], 0).expect("free block");
    client.on_enqueued(first, true);
    client.take_job();
    client.on_sent(SendOutcome::Drained { responses: 2 });
    assert!(job(&mut client, "b", &[1], 99).is_none());
    assert!(job(&mut client, "b", &[1], 100).is_some());
}

#[test]
fn requests_without_candidates_are_not_hinted() {
    let worker = WorkerWithDpRank::from_worker_id(3);
    let mut enabled = client(&[]);
    assert!(enabled
        .dispatch_lookahead(
            "r".to_string(),
            vec![1],
            worker,
            hashes(&[1]),
            vec![],
            PrefetchTrace::default(),
            at(0),
        )
        .is_none());
    let mut disabled = CxlPrefetchClient::new(&Environment::empty());
    assert!(disabled
        .dispatch_lookahead(
            "r".to_string(),
            vec![1],
            worker,
            hashes(&[1]),
            vec![0],
            PrefetchTrace::default(),
            at(0),
        )
        .is_none());
    assert!(disabled.lookahead_reservations.entries.is_empty());
}
