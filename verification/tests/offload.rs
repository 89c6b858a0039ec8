use kv_router::byte_rate::{ByteRateLimiter, FRACTIONS_PER_BYTE};
use kv_router::clock::{Duration, Instant};
use kv_router::environment::Environment;
use kv_router::key_map::KeyMap;
use kv_router::offload::{
    BackgroundOffloadPlanner, OffloadRpcResult, PlannerState, PrefixStat,
};
use kv_router::offload_config::{parse_instance_map, KvRouterConfig, PlannerConfig};
use kv_router::offload_exchange::{
    new_event_id, read_response, summarize, OffloadError, OffloadOutcome, OffloadResponse,
    OffloadStep, RankResult,
};
use kv_router::protocols::{OverlapScores, WorkerWithDpRank};
use std::collections::HashMap;

fn secs(secs: u128) -> Instant {
    Instant { nanos: secs * 1_000_000_000 }
}

fn environment(vars: &[(&str, &str)]) -> Environment {
    Environment {
        vars: vars.iter().map(|(name, value)| (name.to_string(), value.to_string())).collect(),
    }
}

fn config() -> PlannerConfig {
    PlannerConfig {
        enabled: true,
        dry_run: true,
        interval: Duration::from_secs(5),
        window: Duration::from_secs(10),
        hot_threshold: 1,
        owner_load_threshold: 0,
        top_k: 100,
        max_chunks: 8,
        max_inflight: 1,
        max_serving_decode_blocks: u64::MAX,
        max_serving_prefill_tokens: u64::MAX,
        bytes_per_sec: 0,
        chunk_bytes: 1024,
        cooldown: Duration::from_secs(30),
        endpoint: None,
        instance_template: None,
        instance_map: HashMap::new(),
        timeout: Duration::from_secs(5),
    }
}

fn planner(config: PlannerConfig) -> BackgroundOffloadPlanner {
    let byte_limiter = ByteRateLimiter::new(config.bytes_per_sec, config.chunk_bytes, secs(0));
    BackgroundOffloadPlanner {
        config,
        state: PlannerState::default(),
        busy: false,
        byte_limiter,
    }
}

fn router_config() -> KvRouterConfig {
    KvRouterConfig {
        enable_background_offload: true,
        background_offload_dry_run: true,
        offload_interval_ms: 5_000,
        offload_window_ms: 10_000,
        offload_hot_request_threshold: 5,
        offload_owner_load_threshold: 10,
        offload_top_k: 100,
        offload_max_chunks: 8,
        offload_cooldown_secs: 30,
    }
}

fn first_stat(planner: &BackgroundOffloadPlanner) -> &PrefixStat {
    assert!(!planner.state.prefixes.is_empty());
    planner.state.prefixes.value_at(0)
}

fn cpu_overlap(worker: WorkerWithDpRank) -> OverlapScores {
    let mut overlaps = OverlapScores::new();
    overlaps.cpu_scores.insert(worker, 4);
    overlaps
}

fn request(planner: &mut BackgroundOffloadPlanner, tokens: &[u32], now: Instant) {
    let owner = WorkerWithDpRank::from_worker_id(7);
    planner.observe(tokens, 4, owner, &cpu_overlap(owner), &KeyMap::new(), &KeyMap::new(), now);
}

#[test]
fn parses_static_worker_instance_mapping() {
    let map = parse_instance_map("10=lmcache-a, 20:lmcache-b,invalid");
    assert_eq!(map.get(&10).map(String::as_str), Some("lmcache-a"));
    assert_eq!(map.get(&20).map(String::as_str), Some("lmcache-b"));
    assert_eq!(map.len(), 2);
}

#[test]
fn byte_rate_limiter_requires_budget_and_refunds_unused_bytes() {
    let now = secs(0);
    let mut limiter = ByteRateLimiter::new(100, 100, now);
    assert!(limiter.try_reserve(100, now));
    assert!(!limiter.try_reserve(1, now));
    limiter.refund(100, 40, now);
    assert!(limiter.try_reserve(60, now));
    assert!(!limiter.try_reserve(1, now));
}

#[test]
fn budgets_refill_at_their_rate() {
    let mut limiter = ByteRateLimiter::new(100, 0, secs(10));
    assert!(limiter.try_reserve(100, secs(10)));
    let tenth = Instant { nanos: 10_100_000_000 };
    assert!(!limiter.try_reserve(11, tenth));
    assert_eq!(limiter.tokens, 10 * FRACTIONS_PER_BYTE);
    assert!(limiter.try_reserve(10, tenth));
    assert!(limiter.try_reserve(100, secs(1_000_000)));
    assert!(!limiter.try_reserve(1, secs(5)));
    let mut large = ByteRateLimiter::new(u64::MAX, 0, secs(0));
    large.refill(Instant { nanos: u128::MAX });
    assert_eq!(large.tokens, u64::MAX as u128 * FRACTIONS_PER_BYTE);
}

#[test]
fn granted_bytes_keep_to_the_rate() {
    let mut limiter = ByteRateLimiter::new(100, 0, secs(0));
    let mut granted = 0;
    for tenth in 0..=100u128 {
        let now = Instant { nanos: tenth * 100_000_000 };
        while limiter.try_reserve(7, now) {
            granted += 7;
        }
    }
    assert!(granted <= 100 + 10 * 100);
    assert_eq!(granted, 1099);
}

#[test]
fn budgets_hold_at_least_a_burst() {
    assert_eq!(ByteRateLimiter::new(10, 100, secs(0)).capacity, 100);
    assert_eq!(ByteRateLimiter::new(100, 10, secs(0)).capacity, 100);
    let mut unlimited = ByteRateLimiter::new(0, 100, secs(0));
    assert_eq!(unlimited.capacity, 0);
    assert!(unlimited.try_reserve(u64::MAX, secs(0)));
    unlimited.refund(5, 1, secs(1));
    assert_eq!(unlimited.tokens, 0);
}

#[test]
fn full_refund_undoes_a_reservation() {
    let mut limiter = ByteRateLimiter::new(100, 0, secs(0));
    assert!(limiter.try_reserve(70, secs(0)));
    limiter.refund(70, 0, secs(0));
    assert_eq!(limiter.tokens, 100 * FRACTIONS_PER_BYTE);
    limiter.refund(70, 0, secs(0));
    assert_eq!(limiter.tokens, 100 * FRACTIONS_PER_BYTE);
    limiter.refund(1, 2, secs(9));
    assert_eq!(limiter.last_refill, secs(0));
}

#[test]
fn observes_aggregate_serving_pressure() {
    let config = PlannerConfig {
        max_serving_decode_blocks: 8,
        max_serving_prefill_tokens: 0,
        ..config()
    };
    let mut planner = planner(config);
    let owner = WorkerWithDpRank::from_worker_id(21);
    let mut overlaps = OverlapScores::new();
    overlaps.cpu_scores.insert(owner, 4);
    let mut decode_blocks = KeyMap::new();
    decode_blocks.insert(owner, 7);
    let mut prefill_tokens = KeyMap::new();
    prefill_tokens.insert(owner, 33);

    planner.observe(
        &[1, 2, 3, 4],
        4,
        owner,
        &overlaps,
        &decode_blocks,
        &prefill_tokens,
        secs(1),
    );

    assert_eq!(planner.state.serving_decode_blocks, 7);
    assert_eq!(planner.state.serving_prefill_tokens, 33);
}

#[test]
fn observes_only_chunk_aligned_prefix_tokens() {
    let config = PlannerConfig { hot_threshold: 5, owner_load_threshold: 10, ..config() };
    let mut planner = planner(config);
    let owner = WorkerWithDpRank::from_worker_id(7);
    let mut overlaps = OverlapScores::new();
    overlaps.cpu_scores.insert(owner, 4);
    let mut decode_blocks = KeyMap::new();
    decode_blocks.insert(owner, 12);

    planner.observe(
        &[1, 2, 3, 4, 5, 6],
        4,
        owner,
        &overlaps,
        &decode_blocks,
        &KeyMap::new(),
        secs(1),
    );

    let stat = first_stat(&planner);
    assert_eq!(&**stat.tokens, &[1, 2, 3, 4]);
    assert_eq!(stat.recent_requests, 1);
    assert_eq!(stat.owner_load, 12);
    assert!(!stat.cxl_ready);
}

#[test]
fn observes_gpu_and_cpu_prefix_when_cxl_is_absent() {
    let mut planner = planner(config());
    let owner = WorkerWithDpRank::from_worker_id(11);
    let mut overlaps = OverlapScores::new();
    overlaps.gpu_and_cpu_scores.insert(owner, 4);
    let mut decode_blocks = KeyMap::new();
    decode_blocks.insert(owner, 3);

    planner.observe(
        &[1, 2, 3, 4, 5, 6],
        4,
        owner,
        &overlaps,
        &decode_blocks,
        &KeyMap::new(),
        secs(1),
    );

    let stat = first_stat(&planner);
    assert_eq!(stat.owner_worker, owner);
    assert_eq!(stat.recent_requests, 1);
    assert_eq!(stat.owner_load, 3);
    assert!(!stat.cxl_ready);
}

#[test]
fn records_cxl_residency_even_for_gpu_and_cpu_prefixes() {
    let mut planner = planner(config());
    let owner = WorkerWithDpRank::from_worker_id(12);
    let mut overlaps = OverlapScores::new();
    overlaps.gpu_and_cpu_scores.insert(owner, 4);
    overlaps.cxl_resident_scores.insert(owner, 4);

    planner.observe(
        &[1, 2, 3, 4, 5, 6],
        4,
        owner,
        &overlaps,
        &KeyMap::new(),
        &KeyMap::new(),
        secs(1),
    );

    assert!(first_stat(&planner).cxl_ready);
}

#[test]
fn source_is_the_worker_with_most_cpu_blocks() {
    let mut planner = planner(config());
    let (a, b) = (WorkerWithDpRank::new(1, 0), WorkerWithDpRank::new(2, 0));
    let mut overlaps = OverlapScores::new();
    overlaps.cpu_scores.insert(a, 5);
    overlaps.cpu_scores.insert(b, 3);
    overlaps.gpu_and_cpu_scores.insert(b, 3);
    overlaps.cpu_and_cxl_scores.insert(a, 1);
    let mut prefill_tokens = KeyMap::new();
    prefill_tokens.insert(b, 9);
    planner.observe(&[1; 8], 4, a, &overlaps, &KeyMap::new(), &prefill_tokens, secs(1));
    let stat = first_stat(&planner);
    assert_eq!(stat.owner_worker, b);
    assert_eq!(stat.owner_load, 3);
    assert!(!stat.cxl_ready);
}

#[test]
fn routes_without_cpu_copy_are_not_recorded() {
    let mut planner = planner(config());
    let worker = WorkerWithDpRank::from_worker_id(1);
    let mut overlaps = OverlapScores::new();
    overlaps.cxl_scores.insert(worker, 4);
    overlaps.cpu_scores.insert(worker, 0);
    let none = KeyMap::new();
    planner.observe(&[1; 8], 4, worker, &overlaps, &none, &none, secs(1));
    planner.observe(&[1; 3], 4, worker, &cpu_overlap(worker), &none, &none, secs(1));
    planner.observe(&[1; 8], 0, worker, &cpu_overlap(worker), &none, &none, secs(1));
    planner.observe(&[], 4, worker, &cpu_overlap(worker), &none, &none, secs(1));
    assert!(planner.state.prefixes.is_empty());
}

#[test]
fn requests_are_counted_per_window() {
    let mut planner = planner(config());
    request(&mut planner, &[1; 4], secs(0));
    request(&mut planner, &[1; 4], secs(10));
    assert_eq!(first_stat(&planner).recent_requests, 2);
    request(&mut planner, &[1; 4], secs(11));
    assert_eq!(first_stat(&planner).recent_requests, 1);
    assert_eq!(first_stat(&planner).window_start, secs(11));
}

#[test]
fn hottest_prefix_is_planned_first() {
    let mut planner = planner(config());
    request(&mut planner, &[1; 4], secs(1));
    request(&mut planner, &[2; 8], secs(1));
    request(&mut planner, &[2; 8], secs(1));
    request(&mut planner, &[3; 12], secs(1));
    request(&mut planner, &[3; 12], secs(1));
    let job = planner.plan_once(secs(2)).expect("hot prefix");
    assert_eq!(**job.tokens, vec![3; 12]);
    assert_eq!(job.key.hashes.len(), 3);
    assert_eq!(job.owner, WorkerWithDpRank::from_worker_id(7));
    assert_eq!(job.reserved_bytes, 0);
    assert!(planner.busy);
}

#[test]
fn copies_run_one_at_a_time_and_cool_down() {
    let mut planner = planner(config());
    request(&mut planner, &[1; 4], secs(0));
    let job = planner.plan_once(secs(1)).expect("hot prefix");
    assert!(first_stat(&planner).inflight);
    assert_eq!(first_stat(&planner).last_offload, Some(secs(1)));
    request(&mut planner, &[2; 4], secs(1));
    assert!(planner.plan_once(secs(2)).is_none());
    planner.finish(&job, Some(OffloadRpcResult { success: true, bytes_written: 0 }), secs(3));
    assert!(!planner.busy);
    let other = planner.plan_once(secs(3)).expect("the other prefix");
    assert_eq!(**other.tokens, vec![2; 4]);
    planner.finish(&other, None, secs(4));
    request(&mut planner, &[1; 4], secs(30));
    assert!(planner.plan_once(secs(30)).is_none());
    request(&mut planner, &[1; 4], secs(31));
    let again = planner.plan_once(secs(31)).expect("cooled down");
    assert_eq!(**again.tokens, vec![1; 4]);
}

#[test]
fn copies_yield_to_serving() {
    let config = PlannerConfig {
        max_serving_decode_blocks: 8,
        max_serving_prefill_tokens: 0,
        ..config()
    };
    let mut planner = planner(config);
    request(&mut planner, &[1; 4], secs(0));
    planner.state.serving_decode_blocks = 9;
    assert!(planner.plan_once(secs(1)).is_none());
    planner.state.serving_decode_blocks = 8;
    planner.state.serving_prefill_tokens = 1;
    assert!(planner.plan_once(secs(1)).is_none());
    planner.state.serving_prefill_tokens = 0;
    assert!(planner.plan_once(secs(1)).is_some());
}

#[test]
fn copies_keep_to_the_byte_rate() {
    let config = PlannerConfig {
        bytes_per_sec: 100,
        chunk_bytes: 10,
        max_chunks: 8,
        cooldown: Duration::from_secs(0),
        ..config()
    };
    assert_eq!(config.max_bytes_per_operation(), 80);
    let mut planner = planner(config);
    request(&mut planner, &[1; 4], secs(0));
    let job = planner.plan_once(secs(0)).expect("full budget");
    assert_eq!(job.reserved_bytes, 80);
    planner.finish(&job, Some(OffloadRpcResult { success: true, bytes_written: 80 }), secs(0));
    assert!(planner.plan_once(secs(0)).is_none());
    assert!(!first_stat(&planner).inflight);
    let job = planner.plan_once(secs(1)).expect("refilled budget");
    planner.finish(&job, None, secs(1));
    assert_eq!(planner.byte_limiter.tokens, 100 * FRACTIONS_PER_BYTE);
}

#[test]
fn operations_are_bounded_by_rate_and_size() {
    let of = |bytes_per_sec: u64, chunk_bytes: u64, max_chunks: usize| {
        PlannerConfig { bytes_per_sec, chunk_bytes, max_chunks, ..config() }
            .max_bytes_per_operation()
    };
    assert_eq!(of(0, 10, 8), 0);
    assert_eq!(of(50, 10, 8), 50);
    assert_eq!(of(5, 10, 8), 10);
    assert_eq!(of(u64::MAX, u64::MAX, usize::MAX), u64::MAX);
}

#[test]
fn old_prefixes_are_forgotten() {
    let mut planner = planner(PlannerConfig { hot_threshold: 9, ..config() });
    request(&mut planner, &[1; 4], secs(0));
    assert!(planner.plan_once(secs(30)).is_none());
    assert_eq!(planner.state.prefixes.len(), 1);
    assert_eq!(first_stat(&planner).recent_requests, 0);
    assert!(planner.plan_once(secs(31)).is_none());
    assert!(planner.state.prefixes.is_empty());
}

#[test]
fn planner_needs_to_be_enabled_and_reachable() {
    let build = |vars: &[(&str, &str)]| {
        BackgroundOffloadPlanner::from_config(router_config(), &environment(vars), secs(0))
    };
    assert!(build(&[]).is_some());
    assert!(build(&[("DYN_BACKGROUND_OFFLOAD_ENABLED", "false")]).is_none());
    let copying = ("DYN_BACKGROUND_OFFLOAD_DRY_RUN", "false");
    let endpoint = ("DYN_LMCACHE_CONTROLLER_ENDPOINT", "tcp://c");
    assert!(build(&[copying]).is_none());
    assert!(build(&[copying, endpoint]).is_none());
    let map = ("DYN_BACKGROUND_OFFLOAD_INSTANCE_MAP", "1=a");
    assert!(build(&[copying, map]).is_none());
    assert!(build(&[copying, endpoint, map]).is_some());
    let template = ("DYN_BACKGROUND_OFFLOAD_INSTANCE_TEMPLATE", "n-{worker_id}");
    assert!(build(&[copying, endpoint, template]).is_some());
}

#[test]
fn planner_settings_have_defaults() {
    let config = PlannerConfig::from_config(router_config(), &Environment::empty());
    assert_eq!(config.interval, Duration::from_secs(5));
    assert_eq!(config.window, Duration::from_secs(10));
    assert_eq!(config.hot_threshold, 5);
    assert_eq!(config.owner_load_threshold, 10);
    assert_eq!((config.top_k, config.max_chunks, config.max_inflight), (100, 8, 1));
    assert_eq!(config.max_serving_decode_blocks, 16);
    assert_eq!(config.max_serving_prefill_tokens, 0);
    assert_eq!(config.bytes_per_sec, 64 * 1024 * 1024);
    assert_eq!(config.chunk_bytes, 1024 * 1024);
    assert_eq!(config.cooldown, Duration::from_secs(30));
    assert_eq!(config.timeout, Duration::from_secs(5));
    let changed = PlannerConfig::from_config(
        router_config(),
        &environment(&[
            ("DYN_BACKGROUND_OFFLOAD_HOT_REQUEST_THRESHOLD", "4294967297"),
            ("DYN_BACKGROUND_OFFLOAD_TOP_K", "0"),
            ("DYN_BACKGROUND_OFFLOAD_MAX_CHUNKS", "0"),
            ("DYN_BACKGROUND_OFFLOAD_WINDOW_MS", "0"),
            ("DYN_BACKGROUND_OFFLOAD_CHUNK_BYTES", "0"),
        ]),
    );
    assert_eq!(changed.hot_threshold, 1);
    assert_eq!((changed.top_k, changed.max_chunks), (1, 1));
    assert_eq!(changed.window, Duration::from_millis(1));
    assert_eq!(changed.chunk_bytes, 1);
}

#[test]
fn event_names_are_random_and_well_formed() {
    let (a, b) = (new_event_id(), new_event_id());
    assert_ne!(a, b);
    let uuid = a.strip_prefix("background-offload-").expect("prefix");
    assert_eq!(uuid.len(), 36);
    for (i, c) in uuid.chars().enumerate() {
        if [8, 13, 18, 23].contains(&i) {
            assert_eq!(c, '-');
        } else {
            assert!(c.is_ascii_digit() || ('a'..='f').contains(&c));
        }
    }
    assert_eq!(uuid.chars().nth(14), Some('4'));
    assert!(matches!(uuid.chars().nth(19), Some('8' | '9' | 'a' | 'b')));
}

#[test]
fn admitted_copies_are_ordered_from_the_controller() {
    let mut planner = planner(config());
    request(&mut planner, &[1; 8], secs(0));
    let job = planner.plan_once(secs(1)).expect("hot prefix");
    assert!(matches!(planner.execute(&job), OffloadStep::DryRun));

    planner.config.dry_run = false;
    match planner.execute(&job) {
        OffloadStep::Fail(error) => {
            assert_eq!(error, OffloadError::NotConfigured);
            assert_eq!(error.message(), "LMCache offload client is not configured");
        }
        step => panic!("unexpected step {step:?}"),
    }
    planner.config.endpoint = Some("tcp://c".to_string());
    match planner.execute(&job) {
        OffloadStep::Fail(error) => {
            assert_eq!(error, OffloadError::NoInstance { worker_id: 7 });
            assert_eq!(error.message(), "no LMCache instance mapping for worker 7");
        }
        step => panic!("unexpected step {step:?}"),
    }
    planner.config.instance_template = Some("n{worker_id}.{dp_rank}".to_string());
    planner.config.max_chunks = 1;
    match planner.step_for(&job, "e".to_string()) {
        OffloadStep::Send { endpoint, request } => {
            assert_eq!(endpoint, "tcp://c");
            assert_eq!(request.event_id, "e");
            assert_eq!(request.instance_id, "n7.0");
            assert_eq!(request.tokens, vec![1; 8]);
            assert_eq!(request.source, "LocalCPUBackend");
            assert_eq!(request.target, "CxlBackend");
            assert!(request.copy);
            assert_eq!(request.max_chunks, 1);
            assert_eq!(request.max_bytes, job.reserved_bytes);
        }
        step => panic!("unexpected step {step:?}"),
    }
}

fn rank(success: bool, committed: u64, present: u64, failed: u64, bytes: u64) -> RankResult {
    RankResult {
        worker_id: -1,
        success,
        committed_chunks: committed,
        already_present_chunks: present,
        failed_chunks: failed,
        bytes_written: bytes,
        error: None,
    }
}

#[test]
fn answers_are_summed_over_ranks() {
    let ranks = vec![rank(true, 1, 2, 3, 4), rank(false, 10, 20, 30, 40)];
    let summary = summarize(&ranks).expect("small totals");
    assert_eq!(summary.successful_ranks, 1);
    assert_eq!(summary.committed_chunks, 33);
    assert_eq!(summary.failed_chunks, 33);
    assert_eq!(summary.bytes_written, 44);
    let response = OffloadResponse::OffloadRetMsg {
        event_id: "e".to_string(),
        instance_id: "i".to_string(),
        success: true,
        rank_results: ranks,
    };
    match read_response(response) {
        OffloadOutcome::Finished { result, summary } => {
            assert_eq!(result, OffloadRpcResult { success: true, bytes_written: 44 });
            assert_eq!(summary.bytes_written, 44);
        }
        outcome => panic!("unexpected outcome {outcome:?}"),
    }
    match read_response(OffloadResponse::ErrorMsg { error: "no".to_string() }) {
        OffloadOutcome::Refused { error } => assert_eq!(error, "no"),
        outcome => panic!("unexpected outcome {outcome:?}"),
    }
    assert!(summarize(&vec![rank(true, u64::MAX, 1, 0, 0)]).is_none());
    assert!(summarize(&vec![rank(true, 0, 0, u64::MAX, 0), rank(true, 0, 0, 1, 0)]).is_none());
    let response = OffloadResponse::OffloadRetMsg {
        event_id: "e".to_string(),
        instance_id: "i".to_string(),
        success: true,
        rank_results: vec![rank(true, 0, 0, 0, u64::MAX), rank(true, 0, 0, 0, 1)],
    };
    assert!(matches!(read_response(response), OffloadOutcome::TooLarge));
}
