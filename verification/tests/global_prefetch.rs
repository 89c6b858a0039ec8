use kv_router::associations::{record_source_targets, trim_targets, SourceStats, TargetStats};
use kv_router::chunks::{ChunkDescriptor, ChunkKey};
use kv_router::clock::{Duration, Instant};
use kv_router::environment::Environment;
use kv_router::global_config::{
    FractionalSettings, GlobalPrefetchConfig, CERTAINTY, DEFAULT_CHUNKS_PER_SECOND,
    DEFAULT_MIN_PROBABILITY, DEFAULT_MIN_SUPPORT, LEAST_THRESHOLD,
};
use kv_router::global_prefetch::{GlobalPrefetchManager, RoutePlan};
use kv_router::key_map::{KeyMap, KeySet};
use kv_router::manager_state::{
    chunk_is_stable, record_chunk_session, release_inflight_locked, ManagerState,
};
use kv_router::prefetch_hint::{HintAction, PrefetchHintDispatcher};
use kv_router::protocols::{compute_block_hash_for_seq, LocalBlockHash, WorkerWithDpRank};
use kv_router::ranking::rank_top;
use kv_router::weights::{
    decay, has_reached, is_short_of, ranks_below, Weight, WeightOp, INFINITY_BITS,
    NEGATIVE_INFINITY_BITS, SIGN_BITS,
};
use kv_router::worker_choice::{
    select_prefetch_worker, WorkerPrefetchCandidate, GREATEST_ORDINARY_RATE, LEAST_ORDINARY_RATE,
    UNIT_RATE,
};
use std::sync::Arc;

fn weight(value: f64) -> Weight {
    Weight { bits: value.to_bits() }
}

fn value(weight: Weight) -> f64 {
    f64::from_bits(weight.bits)
}

fn weigh(op: WeightOp) -> Weight {
    match op {
        WeightOp::Decay { value: old, age, half_life } => {
            let age = age.nanos as f64 / 1e9;
            let half_life = half_life.nanos as f64 / 1e9;
            weight(value(old) * (-std::f64::consts::LN_2 * age / half_life).exp())
        }
        WeightOp::Increment { value: old } => weight(value(old) + 1.0),
        WeightOp::Ratio { part, whole } => weight(value(part) / value(whole)),
        WeightOp::CopyTime { queued, missing, rate } => {
            weight((queued as f64 + missing as f64) / value(rate))
        }
    }
}

fn secs(secs: u128) -> Instant {
    Instant { nanos: secs * 1_000_000_000 }
}

fn environment(vars: &[(&str, &str)]) -> Environment {
    Environment {
        vars: vars.iter().map(|(name, value)| (name.to_string(), value.to_string())).collect(),
    }
}

fn unset() -> FractionalSettings {
    FractionalSettings {
        min_support: None,
        min_probability: None,
        half_life: None,
        session_ttl: None,
        chunks_per_second: None,
    }
}

fn dispatcher() -> Arc<PrefetchHintDispatcher> {
    Arc::new(
        PrefetchHintDispatcher::from_env(&environment(&[
            ("DYN_GLOBAL_PREFETCH_ENABLED", "true"),
            ("DYN_PREFETCH_HINT_ENDPOINT", "http://controller"),
            ("DYN_PREFETCH_HINT_INSTANCE_TEMPLATE", "node-{worker_id}"),
        ]))
        .expect("usable settings"),
    )
}

fn manager(extra: &[(&str, &str)]) -> GlobalPrefetchManager {
    let mut vars = vec![
        ("DYN_GLOBAL_PREFETCH_ENABLED", "true"),
        ("DYN_GLOBAL_PREFETCH_CHUNK_SIZE", "2"),
    ];
    vars.extend_from_slice(extra);
    let fractions = FractionalSettings { min_support: Some(weight(0.5)), ..unset() };
    GlobalPrefetchManager::from_env(&environment(&vars), fractions, Some(dispatcher()))
        .expect("enabled")
}

fn route(
    manager: &mut GlobalPrefetchManager,
    request_id: &str,
    session_id: Option<&str>,
    tokens: &[u32],
    now: Instant,
) -> RoutePlan {
    manager.on_route_committed(
        request_id,
        session_id,
        "model",
        tokens,
        WorkerWithDpRank::new(1, 0),
        &[],
        3,
        Some(4),
        None,
        now,
        now,
        &weigh,
    )
}

fn hash_of(tokens: &[u32]) -> u64 {
    compute_block_hash_for_seq(tokens, tokens.len() as u32)[0].0
}

#[test]
fn decay_reduces_old_support() {
    let now = secs(100);
    let decayed = decay(&weigh, weight(2.0), secs(90), now, Duration::from_secs(10));
    assert!((value(decayed) - 1.0).abs() < 0.01);
    let zero = decay(&weigh, weight(0.0), secs(0), now, Duration::from_secs(10));
    assert_eq!(value(zero), 0.0);
}

#[test]
fn what_is_not_above_zero_decays_to_zero() {
    let half_life = Duration::from_secs(10);
    let zeros = [0.0, -0.0, -1.0, -f64::MIN_POSITIVE, f64::MIN, f64::NEG_INFINITY];
    for old in zeros {
        let decayed = decay(&weigh, weight(old), secs(1), secs(2), half_life);
        assert_eq!(decayed.bits, 0);
    }
    assert_eq!(value(decay(&weigh, weight(4.0), secs(1), secs(1), half_life)), 4.0);
    let endless = decay(&weigh, weight(f64::INFINITY), secs(1), secs(2), half_life);
    assert_eq!(value(endless), f64::INFINITY);
    for undefined in [f64::NAN, -f64::NAN] {
        let decayed = decay(&weigh, weight(undefined), secs(1), secs(2), half_life);
        assert!(value(decayed).is_nan());
    }
}

#[test]
fn weights_are_compared_as_the_language_does() {
    let numbers = [
        0.0,
        -0.0,
        1.0,
        -1.0,
        0.5,
        f64::MIN_POSITIVE,
        -f64::MIN_POSITIVE,
        f64::from_bits(1),
        f64::MAX,
        f64::MIN,
        f64::INFINITY,
        f64::NEG_INFINITY,
        f64::NAN,
        -f64::NAN,
        f64::from_bits(SIGN_BITS - 1),
        f64::from_bits(u64::MAX),
        f64::from_bits(INFINITY_BITS + 1),
        f64::from_bits(NEGATIVE_INFINITY_BITS + 1),
    ];
    for a in numbers {
        for b in numbers {
            assert_eq!(has_reached(weight(a), weight(b)), a >= b);
            assert_eq!(is_short_of(weight(a), weight(b)), a < b);
            assert_eq!(ranks_below(weight(a), weight(b)), a.total_cmp(&b).is_lt());
        }
    }
    assert_eq!(f64::from_bits(INFINITY_BITS), f64::INFINITY);
    assert_eq!(f64::from_bits(NEGATIVE_INFINITY_BITS), f64::NEG_INFINITY);
    assert_eq!((-0.0f64).to_bits(), SIGN_BITS);
}

#[test]
fn no_probability_exceeds_one() {
    let half_life = Duration::from_secs(7);
    let mut stats = SourceStats { total: weight(0.0), last_seen: secs(0), targets: KeyMap::new() };
    let key = |hash: u64| ("model".to_string(), hash);
    let (a, b, c) = (key(1), key(2), key(3));
    let mut at = 0u128;
    for step in 0..200u128 {
        at += 3 * step % 11;
        let seen: Vec<&ChunkKey> = match step % 3 {
            0 => vec![&a],
            1 => vec![&a, &b],
            _ => vec![&b, &c, &a],
        };
        record_source_targets(&mut stats, &seen, secs(at), half_life, &weigh);
        for later in [at, at + 1, at + 13, at + 400] {
            let total = decay(&weigh, stats.total, stats.last_seen, secs(later), half_life);
            for target in [&a, &b, &c] {
                if let Some(known) = stats.targets.get(target) {
                    let support =
                        decay(&weigh, known.support, known.last_seen, secs(later), half_life);
                    assert!(value(support) / value(total) <= 1.0);
                }
            }
        }
    }
}

#[test]
fn association_probability_uses_transition_count_not_target_count() {
    let target_b = ("model".to_string(), 2);
    let target_c = ("model".to_string(), 3);
    let now = secs(5);
    let half_life = Duration::from_secs(300);
    let mut targets = KeyMap::new();
    targets.insert(target_b.clone(), TargetStats { support: weight(0.0), last_seen: now });
    targets.insert(target_c.clone(), TargetStats { support: weight(0.0), last_seen: now });
    let mut stats = SourceStats { total: weight(0.0), last_seen: now, targets };
    let support = |stats: &SourceStats, target: &ChunkKey| {
        value(stats.targets.get(target).expect("known target").support)
    };

    record_source_targets(&mut stats, &[&target_b, &target_c], now, half_life, &weigh);
    assert_eq!(value(stats.total), 1.0);
    assert_eq!(support(&stats, &target_b), 1.0);
    assert_eq!(support(&stats, &target_c), 1.0);

    record_source_targets(&mut stats, &[&target_b], now, half_life, &weigh);
    assert!((support(&stats, &target_b) / value(stats.total) - 1.0).abs() < 1e-9);
    assert!((support(&stats, &target_c) / value(stats.total) - 0.5).abs() < 1e-9);
}

#[test]
fn defaults_are_bounded() {
    let config = GlobalPrefetchConfig::from_env(&Environment::empty(), unset());
    assert!(config.chunk_size > 0);
    assert!(config.max_observation_chunks > 0);
    assert!(config.max_inflight > 0);
    assert!(value(config.chunks_per_second) > 0.0);
}

#[test]
fn settings_have_their_defaults() {
    let config = GlobalPrefetchConfig::from_env(&Environment::empty(), unset());
    assert!(!config.enabled);
    assert_eq!((config.chunk_size, config.top_k), (256, 4));
    assert_eq!(value(config.min_support), 16.0);
    assert_eq!(value(config.min_probability), 0.65);
    assert_eq!(config.half_life, Duration::from_secs(300));
    assert_eq!(config.session_ttl, Duration::from_secs(3600));
    assert_eq!((config.max_sessions, config.max_chunk_catalog), (10_000, 10_000));
    assert_eq!((config.max_observation_chunks, config.max_inflight), (64, 32));
    assert!(config.current_request_enabled && config.temporal_enabled);
    assert!(config.filter_stable_chunks);
    assert_eq!(config.stable_session_threshold, 4);
    assert_eq!(value(config.chunks_per_second), 64.0);
    assert_eq!(config.ttl, Duration::from_secs(5));
    assert_eq!(f64::from_bits(LEAST_THRESHOLD), 0.01);
    assert_eq!(f64::from_bits(CERTAINTY), 1.0);
    assert_eq!(f64::from_bits(DEFAULT_MIN_SUPPORT), 16.0);
    assert_eq!(f64::from_bits(DEFAULT_MIN_PROBABILITY), 0.65);
    assert_eq!(f64::from_bits(DEFAULT_CHUNKS_PER_SECOND), 64.0);
}

#[test]
fn fractional_settings_are_clamped() {
    let low = FractionalSettings {
        min_support: Some(weight(0.001)),
        min_probability: Some(weight(0.001)),
        half_life: Some(Duration::from_millis(3)),
        session_ttl: Some(Duration::from_millis(1500)),
        chunks_per_second: Some(weight(0.25)),
    };
    let config = GlobalPrefetchConfig::from_env(
        &environment(&[
            ("DYN_GLOBAL_PREFETCH_CHUNK_SIZE", "0"),
            ("DYN_GLOBAL_PREFETCH_STABLE_SESSION_THRESHOLD", "1"),
            ("DYN_GLOBAL_PREFETCH_TTL_MS", "0"),
        ]),
        low,
    );
    assert_eq!(value(config.min_support), 0.01);
    assert_eq!(value(config.min_probability), 0.01);
    assert_eq!(config.half_life, Duration::from_secs(1));
    assert_eq!(config.session_ttl, Duration::from_millis(1500));
    assert_eq!(value(config.chunks_per_second), 0.25);
    assert_eq!(config.chunk_size, 1);
    assert_eq!(config.stable_session_threshold, 2);
    assert_eq!(config.ttl, Duration::from_millis(1));
    let high = FractionalSettings { min_probability: Some(weight(7.0)), ..unset() };
    let config = GlobalPrefetchConfig::from_env(&Environment::empty(), high);
    assert_eq!(value(config.min_probability), 1.0);
}

#[test]
fn fractional_settings_without_a_positive_number_are_passed_over() {
    for odd in [0.0, -0.0, -3.0, f64::INFINITY, f64::NEG_INFINITY, f64::NAN, -f64::NAN] {
        let fractions = FractionalSettings {
            min_support: Some(weight(odd)),
            min_probability: Some(weight(odd)),
            chunks_per_second: Some(weight(odd)),
            ..unset()
        };
        let config = GlobalPrefetchConfig::from_env(&Environment::empty(), fractions);
        assert_eq!(value(config.min_support), 16.0);
        assert_eq!(value(config.min_probability), 0.65);
        assert_eq!(value(config.chunks_per_second), 64.0);
    }
}

#[test]
fn manager_needs_a_dispatcher() {
    let enabled = environment(&[("DYN_GLOBAL_PREFETCH_ENABLED", "true")]);
    assert!(GlobalPrefetchManager::from_env(&enabled, unset(), None).is_none());
    let off = Environment::empty();
    assert!(GlobalPrefetchManager::from_env(&off, unset(), Some(dispatcher())).is_none());
    let manager = GlobalPrefetchManager::from_env(&enabled, unset(), Some(dispatcher()));
    assert_eq!(manager.expect("enabled").stats(), (0, 0, 0, 0, 0));
}

#[test]
fn stable_chunk_counts_distinct_sessions_and_caps_metadata() {
    let chunk = ("model".to_string(), 7);
    let mut state = ManagerState::default();
    for session in ["s1", "s2", "s3"] {
        record_chunk_session(&mut state, &chunk, session, 4);
    }
    assert!(!chunk_is_stable(&state, &chunk, 4));

    record_chunk_session(&mut state, &chunk, "s1", 4);
    assert_eq!(state.chunk_sessions.get(&chunk).map(|sessions| sessions.len()), Some(3));

    record_chunk_session(&mut state, &chunk, "s4", 4);
    assert!(chunk_is_stable(&state, &chunk, 4));
    record_chunk_session(&mut state, &chunk, "s5", 4);
    assert_eq!(state.chunk_sessions.get(&chunk).map(|sessions| sessions.len()), Some(4));
}

#[test]
fn physical_failure_releases_inflight_reservation_for_retry() {
    let worker = WorkerWithDpRank::new(7, 0);
    let target = ("model".to_string(), 0xdead_beef);
    let mut state = ManagerState::default();
    let started = secs(1);
    state.inflight.insert((target.clone(), worker), started);

    assert!(release_inflight_locked(&mut state, &target, worker, started));
    assert!(!state.inflight.contains_key(&(target.clone(), worker)));
    assert!(!release_inflight_locked(&mut state, &target, worker, started));
    let restarted = secs(2);
    assert!(state.inflight.insert((target.clone(), worker), restarted).is_none());
    assert!(!release_inflight_locked(&mut state, &target, worker, started));
    assert!(release_inflight_locked(&mut state, &target, worker, restarted));
}

#[test]
fn target_score_balances_queue_and_copy_work() {
    let worker_a = WorkerWithDpRank::new(1, 0);
    let worker_b = WorkerWithDpRank::new(2, 0);
    let candidates = [
        WorkerPrefetchCandidate {
            worker: worker_a,
            resident_chunks: 3,
            prefetch_inflight_chunks: 8,
        },
        WorkerPrefetchCandidate {
            worker: worker_b,
            resident_chunks: 0,
            prefetch_inflight_chunks: 0,
        },
    ];
    assert_eq!(select_prefetch_worker(&candidates, 4, weight(4.0), worker_a, &weigh), worker_b);
}

#[test]
fn target_score_uses_resident_chunks() {
    let worker_a = WorkerWithDpRank::new(1, 0);
    let worker_b = WorkerWithDpRank::new(2, 0);
    let candidates = [
        WorkerPrefetchCandidate {
            worker: worker_a,
            resident_chunks: 4,
            prefetch_inflight_chunks: 0,
        },
        WorkerPrefetchCandidate {
            worker: worker_b,
            resident_chunks: 0,
            prefetch_inflight_chunks: 0,
        },
    ];
    assert_eq!(select_prefetch_worker(&candidates, 4, weight(4.0), worker_b, &weigh), worker_a);
}

#[test]
fn equal_workers_are_chosen_in_order() {
    let at = |worker_id: u64, dp_rank: u32| WorkerPrefetchCandidate {
        worker: WorkerWithDpRank::new(worker_id, dp_rank),
        resident_chunks: 1,
        prefetch_inflight_chunks: 1,
    };
    let fallback = WorkerWithDpRank::new(9, 9);
    let select = |candidates: &[WorkerPrefetchCandidate], chunks: usize, rate: f64| {
        select_prefetch_worker(candidates, chunks, weight(rate), fallback, &weigh)
    };
    let candidates = [at(2, 1), at(2, 0), at(3, 0)];
    for rate in [64.0, 0.5, 0.0, f64::INFINITY, f64::NAN, -1.0] {
        assert_eq!(select(&candidates, 1, rate), WorkerWithDpRank::new(2, 0));
    }
    assert_eq!(select(&candidates, 0, 1.0), fallback);
    assert_eq!(select(&[], 5, 1.0), fallback);
    let busy = [WorkerPrefetchCandidate { prefetch_inflight_chunks: u32::MAX, ..at(1, 0) }, at(2, 0)];
    assert_eq!(select(&busy, 8, 64.0), WorkerWithDpRank::new(2, 0));
    assert_eq!(f64::from_bits(UNIT_RATE), 1.0);
    assert_eq!(f64::from_bits(LEAST_ORDINARY_RATE), 2f64.powi(-900));
    assert_eq!(f64::from_bits(GREATEST_ORDINARY_RATE), 2f64.powi(900));
}

#[test]
fn fewest_pending_chunks_win_at_every_rate() {
    let at = |worker_id: u64, resident_chunks: u32, prefetch_inflight_chunks: u32| {
        WorkerPrefetchCandidate {
            worker: WorkerWithDpRank::new(worker_id, 0),
            resident_chunks,
            prefetch_inflight_chunks,
        }
    };
    let mut candidates = [at(4, 0, 0), at(3, 6, 4), at(7, 9, 3), at(2, 5, 3), at(9, 0, u32::MAX)];
    let rates = [
        1e-6,
        0.3,
        1.0,
        64.0,
        1e9,
        0.0,
        -2.0,
        f64::NAN,
        f64::INFINITY,
        1e-250,
        1e250,
        2f64.powi(-900),
        2f64.powi(900),
    ];
    for rate in rates {
        for fallback in [1, 2, 4] {
            for _ in 0..candidates.len() {
                candidates.rotate_left(1);
                let select = |chunks: usize| {
                    let fallback = WorkerWithDpRank::new(fallback, 0);
                    select_prefetch_worker(&candidates, chunks, weight(rate), fallback, &weigh)
                };
                assert_eq!(select(5).worker_id, 2);
                assert_eq!(select(7).worker_id, 7);
                assert_eq!(select(3).worker_id, 2);
                assert_eq!(select(2).worker_id, 4);
                assert_eq!(select(u32::MAX as usize).worker_id, 7);
            }
        }
    }
}

#[test]
fn counts_are_compared_as_their_quotients_are() {
    let most = u32::MAX as usize;
    let counts = [0, 1, 2, 3, 1000, most - 1, most, most + 1, 2 * most - 1, 2 * most];
    let rates =
        [1e-6, 0.1, 1.0, 3.0, 64.0, 1e9, 2f64.powi(-900), 2f64.powi(900), 1.0 + f64::EPSILON];
    for rate in rates {
        for a in counts {
            for b in counts {
                let (a_time, b_time) = (a as f64 / rate, b as f64 / rate);
                assert_eq!(a_time.total_cmp(&b_time), a.cmp(&b));
            }
        }
    }
}

#[test]
fn immeasurable_times_are_compared_by_the_arithmetic() {
    let at = |worker_id: u64, prefetch_inflight_chunks: u32| WorkerPrefetchCandidate {
        worker: WorkerWithDpRank::new(worker_id, 0),
        resident_chunks: 0,
        prefetch_inflight_chunks,
    };
    let candidates = [at(1, 9), at(2, 4), at(3, 4)];
    let select = |chunks: usize, rate: f64| {
        let fallback = WorkerWithDpRank::new(8, 0);
        select_prefetch_worker(&candidates, chunks, weight(rate), fallback, &weigh).worker_id
    };
    assert_eq!(select(1, f64::from_bits(1)), 1);
    assert_eq!(select(1, f64::MAX), 2);
    assert_eq!(select(1 << 40, 64.0), 2);
    assert_eq!(select(1 << 60, 64.0), 1);
}

#[test]
fn ranking_breaks_ties_by_chunk() {
    let mut scores = KeyMap::new();
    for (hash, score) in [(4, 0.5), (2, 0.9), (3, 0.5), (1, 0.1)] {
        scores.insert(("m".to_string(), hash), weight(score));
    }
    let top: Vec<u64> = rank_top(&scores, 3).iter().map(|key| key.1).collect();
    assert_eq!(top, vec![2, 3, 4]);
    let all: Vec<u64> = rank_top(&scores, 9).iter().map(|key| key.1).collect();
    assert_eq!(all, vec![2, 3, 4, 1]);
    assert!(rank_top(&scores, 0).is_empty());
}

#[test]
fn weak_targets_are_trimmed_when_there_are_too_many() {
    let now = secs(10);
    let half_life = Duration::from_secs(300);
    let mut targets = KeyMap::new();
    for hash in 0..5u64 {
        let support = weight(1.0 + hash as f64);
        targets.insert(("m".to_string(), hash), TargetStats { support, last_seen: now });
    }
    let mut stats = SourceStats { total: weight(9.0), last_seen: now, targets };
    trim_targets(&mut stats, 3, now, half_life, &weigh);
    assert_eq!(stats.targets.len(), 5);
    trim_targets(&mut stats, 2, now, half_life, &weigh);
    assert_eq!(stats.targets.len(), 2);
    assert!(stats.targets.contains_key(&("m".to_string(), 4)));
    assert!(stats.targets.contains_key(&("m".to_string(), 3)));
}

#[test]
fn short_requests_are_passed_over() {
    let mut manager = manager(&[]);
    let plan = route(&mut manager, "r", Some("s"), &[1], secs(1));
    assert!(plan.current.is_none());
    assert!(plan.temporal.is_empty());
    assert!(plan.dispatch.cancel_workers.is_empty());
    assert!(plan.dispatch.reservations.is_empty());
    assert_eq!(manager.stats(), (0, 0, 0, 0, 0));
}

#[test]
fn current_request_is_warmed_up() {
    let mut manager = manager(&[]);
    let plan = route(&mut manager, "r", Some("s"), &[1, 2, 3, 4, 5], secs(1));
    let hint = plan.current.expect("warm-up");
    assert_eq!(hint.tokens, vec![1, 2, 3, 4]);
    assert_eq!(hint.request_id.as_deref(), Some("r"));
    assert_eq!(hint.session_id.as_deref(), Some("s"));
    assert_eq!(hint.model_id.as_deref(), Some("model"));
    assert_eq!(hint.task_id.as_deref(), Some("global-current-r"));
    assert_eq!(hint.worker, WorkerWithDpRank::new(1, 0));
    assert_eq!((hint.route_epoch, hint.deadline_ns), (3, Some(4)));
    assert_eq!((hint.start_chunk, hint.end_chunk), (Some(0), None));
    assert_eq!(hint.ttl_ms, 5000);
    assert_eq!(plan.dispatch.cancel_workers, vec![WorkerWithDpRank::new(1, 0)]);
    assert!(plan.dispatch.reservations.is_empty());
    assert_eq!(manager.stats(), (0, 0, 0, 1, 2));
    let action = manager.dispatcher.dispatch_with_options(hint);
    assert!(matches!(action, HintAction::Send { .. }));
}

#[test]
fn warm_up_can_be_switched_off() {
    let mut manager = manager(&[("DYN_GLOBAL_PREFETCH_CURRENT_REQUEST_ENABLED", "false")]);
    let plan = route(&mut manager, "r", Some("s"), &[1, 2], secs(1));
    assert!(plan.current.is_none());
    assert!(plan.dispatch.cancel_workers.is_empty());
}

#[test]
fn learnt_successors_are_predicted_and_reserved() {
    let mut manager = manager(&[]);
    route(&mut manager, "r1", Some("a"), &[1, 1], secs(1));
    route(&mut manager, "r2", Some("a"), &[1, 1, 2, 2], secs(2));
    route(&mut manager, "r3", Some("b"), &[1, 1], secs(3));
    let plan = route(&mut manager, "r4", Some("b"), &[1, 1, 3, 3], secs(4));
    let hash = hash_of(&[2, 2]);
    assert_eq!(plan.temporal.len(), 1);
    let planned = &plan.temporal[0];
    assert_eq!(planned.hint.tokens, vec![1, 1, 2, 2]);
    assert_eq!((planned.hint.start_chunk, planned.hint.end_chunk), (Some(1), Some(2)));
    assert_eq!(
        planned.hint.task_id,
        Some(format!("global-temporal-chunk-r4-{hash:016x}"))
    );
    assert_eq!(planned.target, ("model".to_string(), hash));
    assert_eq!(planned.started, secs(4));
    assert_eq!(plan.dispatch.reservations.len(), 1);
    assert_eq!(plan.dispatch.reservations[0].block_hashes, vec![LocalBlockHash(hash)]);
    assert_eq!(plan.dispatch.reservations[0].worker, WorkerWithDpRank::new(1, 0));
    assert_eq!(manager.stats().0, 1);

    let target = planned.target.clone();
    assert!(manager.release_inflight(&target, planned.worker, planned.started));
    assert!(!manager.release_inflight(&target, planned.worker, planned.started));
    assert_eq!(
        manager.reserve_inflight(target.clone(), planned.worker, secs(5)),
        Some(secs(5))
    );
    assert_eq!(manager.reserve_inflight(target, planned.worker, secs(6)), None);
    assert_eq!(manager.stats().2, 1);
}

#[test]
fn predictions_can_be_switched_off() {
    let mut manager = manager(&[("DYN_GLOBAL_PREFETCH_TEMPORAL_ENABLED", "false")]);
    route(&mut manager, "r1", Some("a"), &[1, 1], secs(1));
    route(&mut manager, "r2", Some("a"), &[1, 1, 2, 2], secs(2));
    route(&mut manager, "r3", Some("b"), &[1, 1], secs(3));
    let plan = route(&mut manager, "r4", Some("b"), &[1, 1], secs(4));
    assert!(plan.temporal.is_empty());
    assert_eq!(manager.stats().0, 0);
}

#[test]
fn expired_sessions_predict_nothing() {
    let mut manager = manager(&[]);
    route(&mut manager, "r1", Some("a"), &[1, 1], secs(1));
    route(&mut manager, "r2", Some("a"), &[2, 2], secs(2));
    route(&mut manager, "r3", Some("b"), &[1, 1], secs(3));
    let plan = route(&mut manager, "r4", Some("b"), &[3, 3], secs(3604));
    assert!(plan.temporal.is_empty());
    assert_eq!(manager.stats().3, 1);
}

#[test]
fn shared_templates_are_not_predicted() {
    let mut manager = manager(&[("DYN_GLOBAL_PREFETCH_STABLE_SESSION_THRESHOLD", "2")]);
    route(&mut manager, "r1", Some("a"), &[1, 1], secs(1));
    route(&mut manager, "r2", Some("a"), &[2, 2], secs(2));
    route(&mut manager, "r3", Some("c"), &[2, 2], secs(2));
    let template = ("model".to_string(), hash_of(&[2, 2]));
    assert!(manager.chunk_is_stable(&template));
    assert!(manager.filter_stable_chunks(&[template]).is_empty());
    route(&mut manager, "r4", Some("b"), &[1, 1], secs(3));
    let plan = route(&mut manager, "r5", Some("b"), &[3, 3], secs(4));
    assert!(plan.temporal.is_empty());
}

#[test]
fn catalog_and_sessions_stay_within_their_limits() {
    let mut manager = manager(&[
        ("DYN_GLOBAL_PREFETCH_MAX_CATALOG", "2"),
        ("DYN_GLOBAL_PREFETCH_MAX_SESSIONS", "1"),
    ]);
    route(&mut manager, "r1", Some("a"), &[1, 1, 2, 2], secs(1));
    route(&mut manager, "r2", Some("b"), &[2, 2, 3, 3], secs(2));
    assert_eq!(manager.stats().3, 1);
    assert_eq!(manager.stats().4, 2);
    let order: Vec<u64> = manager.state.catalog_order.iter().map(|key| key.1).collect();
    assert_eq!(order, vec![hash_of(&[2, 2]), hash_of(&[3, 3])]);
    let forgotten = ("model".to_string(), hash_of(&[1, 1]));
    assert!(!manager.state.catalog.contains_key(&forgotten));
    assert!(!manager.state.chunk_sessions.contains_key(&forgotten));
    assert!(manager.state.sessions.contains_key(&"b".to_string()));
}

#[test]
fn reservations_stay_within_their_limit() {
    let mut manager = manager(&[("DYN_GLOBAL_PREFETCH_MAX_INFLIGHT", "1")]);
    let worker = WorkerWithDpRank::new(1, 0);
    let chunk = |hash: u64| ("model".to_string(), hash);
    assert!(manager.reserve_inflight(chunk(1), worker, secs(1)).is_some());
    assert!(manager.reserve_inflight(chunk(2), worker, secs(1)).is_none());
    manager.expire_locked(secs(6));
    assert!(manager.reserve_inflight(chunk(2), worker, secs(6)).is_none());
    manager.expire_locked(secs(7));
    assert!(manager.reserve_inflight(chunk(2), worker, secs(7)).is_some());
    assert_eq!(manager.stats(), (2, 2, 2, 0, 0));
}

#[test]
fn best_candidates_take_the_highest_probability() {
    let mut manager = manager(&[]);
    let key = |hash: u64| ("model".to_string(), hash);
    let now = secs(1);
    let chunks: Vec<_> = (1..=4)
        .map(|hash| {
            let descriptor = ChunkDescriptor {
                prefix_tokens: Arc::new(vec![1]),
                start_chunk: 0,
                end_chunk: 1,
            };
            (key(hash), descriptor)
        })
        .collect();
    manager.stage_chunks_locked(&chunks, None);
    manager.observe_transition_locked(&[key(1)], &[key(3), key(4), key(3)], now, &weigh);
    manager.observe_transition_locked(&[key(1)], &[key(4)], now, &weigh);
    manager.observe_transition_locked(&[key(2)], &[key(3)], now, &weigh);
    let mut current = KeySet::new();
    let both = manager.best_candidates_locked(&[key(1), key(2)], &current, now, &weigh);
    assert_eq!(both, vec![key(3), key(4)]);
    let one = manager.best_candidates_locked(&[key(1)], &current, now, &weigh);
    assert_eq!(one, vec![key(4)]);
    current.insert(key(4));
    assert!(manager.best_candidates_locked(&[key(1)], &current, now, &weigh).is_empty());
}

#[test]
fn oldest_sources_are_evicted() {
    let mut manager = manager(&[("DYN_GLOBAL_PREFETCH_MAX_CATALOG", "1")]);
    let key = |hash: u64| ("model".to_string(), hash);
    manager.observe_transition_locked(&[key(1)], &[key(2)], secs(1), &weigh);
    manager.observe_transition_locked(&[key(2)], &[key(3)], secs(2), &weigh);
    assert_eq!(manager.state.sources.len(), 1);
    assert!(manager.state.sources.contains_key(&key(2)));
    manager.observe_transition_locked(&[key(5)], &[key(5)], secs(3), &weigh);
    assert!(!manager.state.sources.contains_key(&key(5)));
}

#[test]
fn sources_keep_at_most_twice_the_predictions() {
    let mut manager = manager(&[("DYN_GLOBAL_PREFETCH_TOP_K", "2")]);
    let key = |hash: u64| ("model".to_string(), hash);
    for hash in 2..40 {
        manager.observe_transition_locked(&[key(1)], &[key(hash)], secs(hash.into()), &weigh);
        let source = manager.state.sources.get(&key(1)).expect("known source");
        assert!(source.targets.len() <= 4);
        assert!(source.targets.contains_key(&key(hash)));
    }
}

#[test]
fn counters_need_room_for_the_catalog_only() {
    let mut manager = manager(&[
        ("DYN_GLOBAL_PREFETCH_TOP_K", "18446744073709551615"),
        ("DYN_GLOBAL_PREFETCH_MAX_CATALOG", "3"),
    ]);
    manager.state.scheduled = u64::MAX - 3;
    route(&mut manager, "r1", Some("a"), &[1, 1], secs(1));
    route(&mut manager, "r2", Some("a"), &[1, 1, 2, 2], secs(2));
    route(&mut manager, "r3", Some("b"), &[1, 1], secs(3));
    let plan = route(&mut manager, "r4", Some("b"), &[1, 1, 3, 3], secs(4));
    assert_eq!(plan.temporal.len(), 1);
    assert_eq!(manager.stats().0, u64::MAX - 2);
}

#[test]
fn staged_chunks_move_to_the_end() {
    let mut manager = manager(&[("DYN_GLOBAL_PREFETCH_MAX_CATALOG", "4")]);
    let mut stage = |hashes: &[u64]| -> Vec<u64> {
        let chunks: Vec<_> = hashes
            .iter()
            .map(|hash| {
                let descriptor = ChunkDescriptor {
                    prefix_tokens: Arc::new(vec![1]),
                    start_chunk: 0,
                    end_chunk: 1,
                };
                (("model".to_string(), *hash), descriptor)
            })
            .collect();
        manager.stage_chunks_locked(&chunks, None);
        manager.state.catalog_order.iter().map(|key| key.1).collect()
    };
    assert_eq!(stage(&[1, 2, 3]), vec![1, 2, 3]);
    assert_eq!(stage(&[2, 1, 2]), vec![3, 1, 2]);
    assert_eq!(stage(&[4, 5, 3]), vec![2, 4, 5, 3]);
    assert_eq!(stage(&[6, 6, 7, 8, 9, 6]), vec![7, 8, 9, 6]);
}
