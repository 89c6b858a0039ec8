use kv_router::clock::Duration;
use kv_router::environment::Environment;
use kv_router::prefetch_hint::{
    parse_instance_map, parse_instance_map_value, poll_action, HintAction, HintReply,
    HintResponse, PollAction, PrefetchHint, PrefetchHintConfig, PrefetchHintDispatcher,
    ReplyAction, StatusReply, POLL_INTERVAL_MS,
};
use kv_router::protocols::WorkerWithDpRank;

fn environment(vars: &[(&str, &str)]) -> Environment {
    Environment {
        vars: vars.iter().map(|(name, value)| (name.to_string(), value.to_string())).collect(),
    }
}

fn dispatcher(endpoint: &str) -> PrefetchHintDispatcher {
    PrefetchHintDispatcher::from_env(&environment(&[
        ("DYN_PREFETCH_HINTS_ENABLED", "true"),
        ("DYN_PREFETCH_HINT_ENDPOINT", endpoint),
        ("DYN_PREFETCH_HINT_INSTANCE_TEMPLATE", "node-{worker_id}-{dp_rank}"),
        ("DYN_PREFETCH_HINT_INSTANCE_MAP", "7=seven"),
        ("DYN_PREFETCH_HINT_MAX_BYTES", "4096"),
        ("DYN_PREFETCH_HINT_PRIORITY", "-3"),
    ]))
    .expect("usable settings")
}

fn hint(tokens: Vec<u32>, worker_id: u64) -> PrefetchHint {
    PrefetchHint {
        tokens,
        request_id: Some("r".to_string()),
        session_id: Some("s".to_string()),
        model_id: Some("m".to_string()),
        task_id: Some("t".to_string()),
        worker: WorkerWithDpRank::new(worker_id, 2),
        route_epoch: 5,
        deadline_ns: Some(6),
        max_prefetch_bytes: None,
        start_chunk: Some(1),
        end_chunk: Some(2),
        ttl_ms: 70,
    }
}

fn scheduled(status: u16, scheduled: usize, stale: bool) -> HintReply {
    HintReply::Answered {
        status,
        response: Some(HintResponse { accepted: 1, scheduled, stale }),
    }
}

fn answered(status: u16, state: Option<&str>) -> StatusReply {
    StatusReply::Answered { status, state: state.map(str::to_string) }
}

#[test]
fn parses_worker_to_instance_map_and_ignores_invalid_entries() {
    let parsed = parse_instance_map_value(
        "101=global-pf-node0, 202:global-pf-node1,invalid, :empty,not-a-number=x",
    );
    assert_eq!(parsed.get(&101).map(String::as_str), Some("global-pf-node0"));
    assert_eq!(parsed.get(&202).map(String::as_str), Some("global-pf-node1"));
    assert_eq!(parsed.len(), 2);
}

#[test]
fn last_entry_of_a_worker_counts() {
    let parsed = parse_instance_map_value("1=a,1=b:c,2= ,3=\u{a0}d\t,+4=e");
    assert_eq!(parsed.get(&1).map(String::as_str), Some("b:c"));
    assert_eq!(parsed.get(&3).map(String::as_str), Some("d"));
    assert_eq!(parsed.get(&4).map(String::as_str), Some("e"));
    assert_eq!(parsed.len(), 3);
    assert!(parse_instance_map_value("").is_empty());
    assert!(parse_instance_map(&Environment::empty()).is_empty());
}

#[test]
fn hints_are_off_by_default() {
    let config = PrefetchHintConfig::from_env(&Environment::empty());
    assert!(!config.enabled);
    assert_eq!(config.endpoint, None);
    assert_eq!(config.instance_template, None);
    assert!(config.instance_map.is_empty());
    assert_eq!(config.max_bytes, None);
    assert_eq!(config.priority, 0);
    assert_eq!(config.timeout, Duration::from_millis(5));
    assert!(PrefetchHintDispatcher::from_env(&Environment::empty()).is_none());
}

#[test]
fn dispatcher_needs_an_endpoint_and_instances() {
    let enabled = ("DYN_GLOBAL_PREFETCH_ENABLED", "true");
    let endpoint = ("DYN_PREFETCH_HINT_ENDPOINT", "http://c");
    let map = ("DYN_PREFETCH_HINT_INSTANCE_MAP", "1=a");
    let empty_map = ("DYN_PREFETCH_HINT_INSTANCE_MAP", "nothing");
    let template = ("DYN_PREFETCH_HINT_INSTANCE_TEMPLATE", "i");
    let usable = |vars: &[(&str, &str)]| {
        PrefetchHintDispatcher::from_env(&environment(vars)).is_some()
    };
    assert!(usable(&[enabled, endpoint, map]));
    assert!(usable(&[enabled, endpoint, template]));
    assert!(usable(&[enabled, endpoint, template, empty_map]));
    assert!(!usable(&[enabled, endpoint, empty_map]));
    assert!(!usable(&[enabled, map]));
    assert!(!usable(&[endpoint, map]));
}

#[test]
fn instances_come_from_the_map_or_the_template() {
    let dispatcher = dispatcher("http://c");
    assert_eq!(
        dispatcher.instance_id(WorkerWithDpRank::new(7, 1)),
        Some("seven".to_string())
    );
    assert_eq!(
        dispatcher.instance_id(WorkerWithDpRank::new(80, 1)),
        Some("node-80-1".to_string())
    );
}

#[test]
fn hints_carry_their_settings() {
    let dispatcher = dispatcher("http://c");
    match dispatcher.dispatch_with_options(hint(vec![1, 2], 7)) {
        HintAction::Send { endpoint, request } => {
            assert_eq!(endpoint, "http://c");
            assert_eq!(request.instance_id, "seven");
            assert_eq!(request.tokens, vec![1, 2]);
            assert_eq!(request.request_id.as_deref(), Some("r"));
            assert_eq!(request.session_id.as_deref(), Some("s"));
            assert_eq!(request.model_id.as_deref(), Some("m"));
            assert_eq!(request.task_id.as_deref(), Some("t"));
            assert_eq!(request.route_epoch, 5);
            assert_eq!(request.deadline_ns, Some(6));
            assert_eq!(request.max_prefetch_bytes, Some(4096));
            assert_eq!(request.priority, -3);
            assert_eq!((request.start_chunk, request.end_chunk), (Some(1), Some(2)));
            assert_eq!(request.ttl_ms, 70);
        }
        action => panic!("unexpected action {action:?}"),
    }
    let own_limit = PrefetchHint { max_prefetch_bytes: Some(9), ..hint(vec![1], 7) };
    match dispatcher.dispatch_with_options_monitored(own_limit, true) {
        HintAction::Send { request, .. } => assert_eq!(request.max_prefetch_bytes, Some(9)),
        action => panic!("unexpected action {action:?}"),
    }
    let worker = WorkerWithDpRank::new(7, 0);
    match dispatcher.dispatch(vec![3], None, worker, 1, None) {
        HintAction::Send { request, .. } => {
            assert_eq!(request.ttl_ms, 5000);
            assert_eq!(request.task_id, None);
        }
        action => panic!("unexpected action {action:?}"),
    }
}

#[test]
fn hints_without_tokens_or_instance_are_not_sent() {
    let dispatcher = dispatcher("http://c");
    let skipped = dispatcher.dispatch_with_options(hint(vec![], 7));
    assert!(matches!(skipped, HintAction::Skip));
    let failed = dispatcher.dispatch_with_options_monitored(hint(vec![], 7), true);
    assert!(matches!(failed, HintAction::Fail));
    let mut unmapped = dispatcher;
    unmapped.config.instance_template = None;
    let failed = unmapped.dispatch_with_options_monitored(hint(vec![1], 8), true);
    assert!(matches!(failed, HintAction::Fail));
    unmapped.config.endpoint = None;
    let failed = unmapped.dispatch_with_options_monitored(hint(vec![1], 7), true);
    assert!(matches!(failed, HintAction::Fail));
}

#[test]
fn scheduled_hints_are_monitored() {
    let task = || Some("t".to_string());
    let reply = |endpoint: &str, reply: HintReply, monitored: bool, task_id: Option<String>| {
        dispatcher(endpoint).on_reply(&reply, monitored, "i".to_string(), task_id)
    };
    match reply("http://c", scheduled(200, 1, false), true, task()) {
        ReplyAction::Monitor(query) => {
            assert_eq!(query.endpoint, "http://c/v1/cxl/prefetch/t");
            assert_eq!(query.instance_id, "i");
        }
        action => panic!("unexpected action {action:?}"),
    }
    match reply("http://c/v1/cxl/prefetch", scheduled(299, 1, false), true, task()) {
        ReplyAction::Monitor(query) => {
            assert_eq!(query.endpoint, "http://c/v1/cxl/prefetch/t");
        }
        action => panic!("unexpected action {action:?}"),
    }
    match reply("http://c/prefetch_hint", scheduled(200, 1, false), true, task()) {
        ReplyAction::Monitor(query) => assert_eq!(query.endpoint, "http://c/prefetch_hint/t"),
        action => panic!("unexpected action {action:?}"),
    }
    for refused in [
        scheduled(200, 0, false),
        scheduled(200, 1, true),
        scheduled(300, 1, false),
        scheduled(199, 1, false),
        HintReply::Answered { status: 200, response: None },
        HintReply::Unreachable,
        HintReply::Unreadable,
    ] {
        assert!(matches!(reply("http://c", refused, true, task()), ReplyAction::Fail));
    }
    let without_task = reply("http://c", scheduled(200, 1, false), true, None);
    assert!(matches!(without_task, ReplyAction::Fail));
    let unwatched = reply("http://c", HintReply::Unreachable, false, task());
    assert!(matches!(unwatched, ReplyAction::Done));
}

#[test]
fn polling_ends_with_a_final_state_or_a_refusal() {
    assert_eq!(poll_action(&answered(200, Some("ready"))), PollAction::Ready);
    assert_eq!(poll_action(&answered(200, Some("FAILED"))), PollAction::Failed);
    assert_eq!(poll_action(&answered(200, Some("Cancelled"))), PollAction::Failed);
    assert_eq!(poll_action(&answered(204, Some("unknown"))), PollAction::Failed);
    assert_eq!(poll_action(&answered(200, Some("RUNNING"))), PollAction::Again);
    assert_eq!(poll_action(&answered(200, Some(""))), PollAction::Again);
    assert_eq!(poll_action(&answered(200, None)), PollAction::Again);
    assert_eq!(poll_action(&answered(404, None)), PollAction::Failed);
    assert_eq!(poll_action(&answered(599, Some("READY"))), PollAction::Failed);
    assert_eq!(poll_action(&answered(302, Some("READY"))), PollAction::Again);
    assert_eq!(poll_action(&answered(600, None)), PollAction::Again);
    assert_eq!(poll_action(&StatusReply::Unreachable), PollAction::Again);
    assert_eq!(POLL_INTERVAL_MS, 50);
}

#[test]
fn cancellations_go_to_a_sibling_endpoint() {
    let cancel = |endpoint: &str| {
        dispatcher(endpoint)
            .cancel("r".to_string(), WorkerWithDpRank::new(7, 0), 3)
            .expect("mapped worker")
    };
    assert_eq!(cancel("http://c/prefetch_hint").endpoint, "http://c/cancel_prefetch_hint");
    assert_eq!(cancel("http://c/v1/cxl/prefetch").endpoint, "http://c/cancel_prefetch_hint");
    assert_eq!(cancel("http://c").endpoint, "http://c/cancel_prefetch_hint");
    assert_eq!(cancel("http://c/prefetch_hint/x").endpoint, "http://c/cancel_prefetch_hint/x");
    let request = cancel("http://c").request;
    assert_eq!(request.instance_id, "seven");
    assert_eq!(request.request_id, "r");
    assert_eq!(request.route_epoch, 3);
    let mut unmapped = dispatcher("http://c");
    unmapped.config.instance_template = None;
    assert!(unmapped.cancel("r".to_string(), WorkerWithDpRank::new(8, 0), 3).is_none());
}
