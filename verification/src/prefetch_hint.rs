//! Route-time prefetch hints to LMCache: whom to tell, what to send, and how to
//! read the answers. Sending is left to the caller.

use crate::clock::Duration;
use crate::environment::{
    bool_setting, env_bool, env_i32, env_optional_u64, env_u64, lookup, number_setting,
    optional_number, signed_setting, Environment,
};
use crate::protocols::WorkerWithDpRank;
use crate::text::{
    contains, decimal, decimal_text, ends_with, eq_ignore_ascii_case, equal_ignoring_case, fields,
    first_index, has_part, has_suffix, joined, optional, parse_u64, parsed_unsigned, replace,
    replaced, split, split_once, texts, trim, trimmed,
};
use std::collections::HashMap;
use vstd::prelude::*;

verus! {

broadcast use vstd::std_specs::hash::group_hash_axioms;

pub struct PrefetchHintConfig {
    pub enabled: bool,
    pub endpoint: Option<String>,
    pub instance_template: Option<String>,
    pub instance_map: HashMap<u64, String>,
    pub max_bytes: Option<u64>,
    pub priority: i32,
    pub timeout: Duration,
}

/// The texts that a map of strings holds.
pub open spec fn names(map: Map<u64, String>) -> Map<u64, Seq<char>> {
    Map::new(|worker_id: u64| map.contains_key(worker_id), |worker_id: u64| map[worker_id]@)
}

/// What one entry of an instance map says: a worker id and an instance id,
/// parted by the first `=` or `:`. Anything else says nothing.
pub open spec fn instance_entry(entry: Seq<char>) -> Option<(u64, Seq<char>)> {
    let at = first_index(entry, '=', ':');
    let instance_id = trimmed(entry.skip(at + 1));
    if at >= entry.len() || instance_id.len() == 0 {
        None
    } else {
        match parsed_unsigned(trimmed(entry.take(at)), u64::MAX as nat) {
            Some(worker_id) => Some((worker_id as u64, instance_id)),
            None => None,
        }
    }
}

/// The instances that the entries name. Of several entries for one worker the
/// last one counts.
pub open spec fn instance_names(entries: Seq<Seq<char>>) -> Map<u64, Seq<char>>
    decreases entries.len(),
{
    if entries.len() == 0 {
        Map::empty()
    } else {
        let init = instance_names(entries.drop_last());
        match instance_entry(entries.last()) {
            Some((worker_id, instance_id)) => init.insert(worker_id, instance_id),
            None => init,
        }
    }
}

fn parse_instance_entry<'a>(entry: &'a str) -> (parsed: Option<(u64, &'a str)>)
    ensures
        match parsed {
            Some((worker_id, instance_id)) => instance_entry(entry@) == Some(
                (worker_id, instance_id@),
            ),
            None => instance_entry(entry@) is None,
        },
{
    match split_once(entry, '=', ':') {
        None => None,
        Some((left, right)) => {
            let instance_id = trim(right);
            match parse_u64(trim(left)) {
                None => None,
                Some(worker_id) => if instance_id.unicode_len() == 0 {
                    None
                } else {
                    Some((worker_id, instance_id))
                },
            }
        },
    }
}

/// Reads a comma-separated list of `worker=instance` or `worker:instance`
/// entries, ignoring those that are not of this form.
pub fn parse_instance_map_value(value: &str) -> (map: HashMap<u64, String>)
    ensures
        names(map@) == instance_names(fields(value@, ',')),
{
    let entries = split(value, ',');
    let ghost all = texts(entries@);
    let mut map: HashMap<u64, String> = HashMap::new();
    let mut i: usize = 0;
    assert(names(map@) =~= instance_names(all.take(0)));
    while i < entries.len()
        invariant
            i <= entries.len(),
            all == texts(entries@),
            names(map@) == instance_names(all.take(i as int)),
        decreases entries.len() - i,
    {
        let ghost before = map@;
        proof {
            assert(all.take(i + 1).drop_last() =~= all.take(i as int));
            assert(all.take(i + 1).last() == entries@[i as int]@);
        }
        match parse_instance_entry(entries[i]) {
            Some((worker_id, instance_id)) => {
                map.insert(worker_id, instance_id.to_owned());
                assert(names(map@) =~= names(before).insert(worker_id, instance_id@));
            },
            None => {},
        }
        i += 1;
    }
    assert(all.take(all.len() as int) =~= all);
    map
}

/// The value of an optional variable, or the empty text.
pub open spec fn text_setting(
    vars: Seq<(Seq<char>, Seq<char>)>,
    name: Seq<char>,
) -> Seq<char> {
    match lookup(vars, name) {
        Some(value) => value,
        None => Seq::empty(),
    }
}

pub fn parse_instance_map(env: &Environment) -> (map: HashMap<u64, String>)
    ensures
        names(map@) == instance_names(
            fields(text_setting(env@, "DYN_PREFETCH_HINT_INSTANCE_MAP"@), ','),
        ),
{
    match env.var("DYN_PREFETCH_HINT_INSTANCE_MAP") {
        Some(value) => parse_instance_map_value(value.as_str()),
        None => {
            proof {
                reveal_strlit("");
                assert(""@ =~= Seq::<char>::empty());
            }
            parse_instance_map_value("")
        },
    }
}

impl PrefetchHintConfig {
    pub fn from_env(env: &Environment) -> (config: Self)
        ensures
            config.enabled == (bool_setting(env@, "DYN_PREFETCH_HINTS_ENABLED"@, false)
                || bool_setting(env@, "DYN_GLOBAL_PREFETCH_ENABLED"@, false)),
            optional(config.endpoint) == lookup(env@, "DYN_PREFETCH_HINT_ENDPOINT"@),
            optional(config.instance_template) == lookup(
                env@,
                "DYN_PREFETCH_HINT_INSTANCE_TEMPLATE"@,
            ),
            names(config.instance_map@) == instance_names(
                fields(text_setting(env@, "DYN_PREFETCH_HINT_INSTANCE_MAP"@), ','),
            ),
            match config.max_bytes {
                Some(n) => optional_number(env@, "DYN_PREFETCH_HINT_MAX_BYTES"@) == Some(n as nat),
                None => optional_number(env@, "DYN_PREFETCH_HINT_MAX_BYTES"@) is None,
            },
            config.priority == signed_setting(env@, "DYN_PREFETCH_HINT_PRIORITY"@, 0),
            config.timeout.nanos == 1_000 * number_setting(
                env@,
                "DYN_PREFETCH_HINT_TIMEOUT_US"@,
                5000,
                u64::MAX as nat,
            ),
    {
        PrefetchHintConfig {
            enabled: env_bool(env, "DYN_PREFETCH_HINTS_ENABLED", false) || env_bool(
                env,
                "DYN_GLOBAL_PREFETCH_ENABLED",
                false,
            ),
            endpoint: env.var("DYN_PREFETCH_HINT_ENDPOINT"),
            instance_template: env.var("DYN_PREFETCH_HINT_INSTANCE_TEMPLATE"),
            instance_map: parse_instance_map(env),
            max_bytes: env_optional_u64(env, "DYN_PREFETCH_HINT_MAX_BYTES"),
            priority: env_i32(env, "DYN_PREFETCH_HINT_PRIORITY", 0),
            timeout: Duration::from_micros(env_u64(env, "DYN_PREFETCH_HINT_TIMEOUT_US", 5000)),
        }
    }

    /// Hints are wanted, and the configuration says where to send them.
    pub open spec fn usable(self) -> bool {
        &&& self.enabled
        &&& self.endpoint is Some
        &&& self.instance_template is Some || self.instance_map@.len() > 0
    }
}

/// A hint to prefetch the cache entries of a token prefix.
#[derive(Debug)]
pub struct PrefetchHint {
    pub tokens: Vec<u32>,
    pub request_id: Option<String>,
    pub session_id: Option<String>,
    pub model_id: Option<String>,
    pub task_id: Option<String>,
    pub worker: WorkerWithDpRank,
    pub route_epoch: u64,
    pub deadline_ns: Option<u64>,
    pub max_prefetch_bytes: Option<u64>,
    pub start_chunk: Option<u32>,
    pub end_chunk: Option<u32>,
    pub ttl_ms: u64,
}

#[verifier::ext_equal]
pub struct HintModel {
    pub tokens: Seq<u32>,
    pub request_id: Option<Seq<char>>,
    pub session_id: Option<Seq<char>>,
    pub model_id: Option<Seq<char>>,
    pub task_id: Option<Seq<char>>,
    pub worker: WorkerWithDpRank,
    pub route_epoch: u64,
    pub deadline_ns: Option<u64>,
    pub max_prefetch_bytes: Option<u64>,
    pub start_chunk: Option<u32>,
    pub end_chunk: Option<u32>,
    pub ttl_ms: u64,
}

impl View for PrefetchHint {
    type V = HintModel;

    open spec fn view(&self) -> HintModel {
        HintModel {
            tokens: self.tokens@,
            request_id: optional(self.request_id),
            session_id: optional(self.session_id),
            model_id: optional(self.model_id),
            task_id: optional(self.task_id),
            worker: self.worker,
            route_epoch: self.route_epoch,
            deadline_ns: self.deadline_ns,
            max_prefetch_bytes: self.max_prefetch_bytes,
            start_chunk: self.start_chunk,
            end_chunk: self.end_chunk,
            ttl_ms: self.ttl_ms,
        }
    }
}

/// The body of a hint as it is sent.
#[derive(Debug)]
pub struct HintRequest {
    pub instance_id: String,
    pub tokens: Vec<u32>,
    pub request_id: Option<String>,
    pub session_id: Option<String>,
    pub model_id: Option<String>,
    pub task_id: Option<String>,
    pub route_epoch: u64,
    pub deadline_ns: Option<u64>,
    pub max_prefetch_bytes: Option<u64>,
    pub priority: i32,
    pub start_chunk: Option<u32>,
    pub end_chunk: Option<u32>,
    pub ttl_ms: u64,
}

/// The request carries `hint` to `instance_id`. A hint without a byte limit of
/// its own gets the configured one.
pub open spec fn carries(
    request: HintRequest,
    hint: HintModel,
    instance_id: Seq<char>,
    max_bytes: Option<u64>,
    priority: i32,
) -> bool {
    &&& request.instance_id@ == instance_id
    &&& request.tokens@ == hint.tokens
    &&& optional(request.request_id) == hint.request_id
    &&& optional(request.session_id) == hint.session_id
    &&& optional(request.model_id) == hint.model_id
    &&& optional(request.task_id) == hint.task_id
    &&& request.route_epoch == hint.route_epoch
    &&& request.deadline_ns == hint.deadline_ns
    &&& request.max_prefetch_bytes == if hint.max_prefetch_bytes is Some {
        hint.max_prefetch_bytes
    } else {
        max_bytes
    }
    &&& request.priority == priority
    &&& request.start_chunk == hint.start_chunk
    &&& request.end_chunk == hint.end_chunk
    &&& request.ttl_ms == hint.ttl_ms
}

/// What to do with a hint.
#[derive(Debug)]
pub enum HintAction {
    /// Post `request` to `endpoint`.
    Send { endpoint: String, request: HintRequest },
    /// Send nothing, and report the failure.
    Fail,
    /// Send nothing.
    Skip,
}

/// The answer to a hint.
#[derive(Debug)]
pub struct HintResponse {
    pub accepted: usize,
    pub scheduled: usize,
    pub stale: bool,
}

/// What came back for a hint.
#[derive(Debug)]
pub enum HintReply {
    /// The request could not be sent.
    Unreachable,
    /// The body of the answer could not be read.
    Unreadable,
    /// An answer with this status; `None` where the body is not a [`HintResponse`].
    Answered { status: u16, response: Option<HintResponse> },
}

/// What to do after the answer to a hint.
#[derive(Debug)]
pub enum ReplyAction {
    /// Nothing is left to do.
    Done,
    /// Report the failure.
    Fail,
    /// Poll the state of the task.
    Monitor(StatusQuery),
}

/// A request for the state of a task.
#[derive(Debug)]
pub struct StatusQuery {
    pub endpoint: String,
    pub instance_id: String,
}

/// What came back for a [`StatusQuery`].
#[derive(Debug)]
pub enum StatusReply {
    Unreachable,
    /// An answer with this status; `None` where the body names no state.
    Answered { status: u16, state: Option<String> },
}

/// What a polled state means.
#[derive(Debug, Clone, Copy, PartialEq, Eq, Structural)]
pub enum PollAction {
    /// The data is there.
    Ready,
    /// Report the failure.
    Failed,
    /// Ask again after [`POLL_INTERVAL_MS`].
    Again,
}

/// Milliseconds between two polls of a task.
pub const POLL_INTERVAL_MS: u64 = 50;

/// The time to live of a hint that sets none, in milliseconds.
pub const DEFAULT_TTL_MS: u64 = 5000;

#[derive(Debug)]
pub struct CancelRequest {
    pub instance_id: String,
    pub request_id: String,
    pub route_epoch: u64,
}

/// Where to post a [`CancelRequest`].
#[derive(Debug)]
pub struct Cancellation {
    pub endpoint: String,
    pub request: CancelRequest,
}

pub open spec fn is_success(status: u16) -> bool {
    200 <= status < 300
}

/// The hint was understood, and work was scheduled for it.
pub open spec fn is_scheduled(reply: HintReply) -> bool {
    reply matches HintReply::Answered { status, response: Some(response) } && is_success(status)
        && !response.stale && response.scheduled > 0
}

/// Where the state of a task is asked for.
pub open spec fn status_endpoint(endpoint: Seq<char>, task_id: Seq<char>) -> Seq<char> {
    if has_suffix(endpoint, "/v1/cxl/prefetch"@) || has_suffix(endpoint, "/prefetch_hint"@) {
        endpoint + "/"@ + task_id
    } else {
        endpoint + "/v1/cxl/prefetch/"@ + task_id
    }
}

/// Where a hint is cancelled.
pub open spec fn cancel_endpoint(endpoint: Seq<char>) -> Seq<char> {
    if has_part(endpoint, "/prefetch_hint"@) {
        replaced(endpoint, "/prefetch_hint"@, "/cancel_prefetch_hint"@)
    } else if has_suffix(endpoint, "/v1/cxl/prefetch"@) {
        replaced(endpoint, "/v1/cxl/prefetch"@, "/cancel_prefetch_hint"@)
    } else {
        endpoint + "/cancel_prefetch_hint"@
    }
}

/// The state of a task that will not become ready any more.
pub open spec fn is_failed_state(state: Seq<char>) -> bool {
    ||| equal_ignoring_case(state, "FAILED"@)
    ||| equal_ignoring_case(state, "CANCELLED"@)
    ||| equal_ignoring_case(state, "UNKNOWN"@)
}

/// What a polled state means. Only a final state or a refusal ends the polling: an
/// outage of the control plane is no failure of the copy.
pub open spec fn poll_meaning(reply: StatusReply) -> PollAction {
    match reply {
        StatusReply::Unreachable => PollAction::Again,
        StatusReply::Answered { status, state } => if is_success(status) {
            match state {
                Some(text) => if equal_ignoring_case(text@, "READY"@) {
                    PollAction::Ready
                } else if is_failed_state(text@) {
                    PollAction::Failed
                } else {
                    PollAction::Again
                },
                None => PollAction::Again,
            }
        } else if 400 <= status < 600 {
            PollAction::Failed
        } else {
            PollAction::Again
        },
    }
}

pub fn poll_action(reply: &StatusReply) -> (action: PollAction)
    ensures
        action == poll_meaning(*reply),
{
    match reply {
        StatusReply::Unreachable => PollAction::Again,
        StatusReply::Answered { status, state } => {
            if 200 <= *status && *status < 300 {
                match state {
                    Some(text) => {
                        let text = text.as_str();
                        if eq_ignore_ascii_case(text, "READY") {
                            PollAction::Ready
                        } else if eq_ignore_ascii_case(text, "FAILED") || eq_ignore_ascii_case(
                            text,
                            "CANCELLED",
                        ) || eq_ignore_ascii_case(text, "UNKNOWN") {
                            PollAction::Failed
                        } else {
                            PollAction::Again
                        }
                    },
                    None => PollAction::Again,
                }
            } else if 400 <= *status && *status < 600 {
                PollAction::Failed
            } else {
                PollAction::Again
            }
        },
    }
}

/// The instance of `worker` according to a map and a template.
pub open spec fn instance_of(
    map: Map<u64, Seq<char>>,
    template: Option<Seq<char>>,
    worker: WorkerWithDpRank,
) -> Option<Seq<char>> {
    if map.contains_key(worker.worker_id) {
        Some(map[worker.worker_id])
    } else {
        match template {
            Some(text) => Some(
                replaced(
                    replaced(text, "{worker_id}"@, decimal(worker.worker_id as nat)),
                    "{dp_rank}"@,
                    decimal(worker.dp_rank as nat),
                ),
            ),
            None => None,
        }
    }
}

/// The instance that serves `worker`: the one that the map names, otherwise the
/// template filled in with the worker's numbers.
pub fn resolve_instance(
    map: &HashMap<u64, String>,
    template: &Option<String>,
    worker: WorkerWithDpRank,
) -> (instance: Option<String>)
    ensures
        optional(instance) == instance_of(names(map@), optional(*template), worker),
{
    match map.get(&worker.worker_id) {
        Some(name) => Some(name.clone()),
        None => match template {
            Some(template) => {
                proof {
                    reveal_strlit("{worker_id}");
                    reveal_strlit("{dp_rank}");
                }
                let worker_id = decimal_text(worker.worker_id);
                let dp_rank = decimal_text(worker.dp_rank as u64);
                let named = replace(template.as_str(), "{worker_id}", worker_id.as_str());
                Some(replace(named.as_str(), "{dp_rank}", dp_rank.as_str()))
            },
            None => None,
        },
    }
}

/// Decides where and how hints are sent.
pub struct PrefetchHintDispatcher {
    pub config: PrefetchHintConfig,
}

impl PrefetchHintDispatcher {
    /// The dispatcher that the variables describe, unless hints are off or the
    /// variables do not say where to send them.
    pub fn from_env(env: &Environment) -> (dispatcher: Option<Self>)
        ensures
            match dispatcher {
                Some(dispatcher) => {
                    &&& dispatcher.config.usable()
                    &&& hints_enabled(env@)
                    &&& optional(dispatcher.config.endpoint) == lookup(
                        env@,
                        "DYN_PREFETCH_HINT_ENDPOINT"@,
                    )
                    &&& dispatcher.instances() == configured_instances(env@)
                    &&& dispatcher.template() == lookup(
                        env@,
                        "DYN_PREFETCH_HINT_INSTANCE_TEMPLATE"@,
                    )
                    &&& match dispatcher.config.max_bytes {
                        Some(n) => optional_number(env@, "DYN_PREFETCH_HINT_MAX_BYTES"@) == Some(
                            n as nat,
                        ),
                        None => optional_number(env@, "DYN_PREFETCH_HINT_MAX_BYTES"@) is None,
                    }
                    &&& dispatcher.config.priority == signed_setting(
                        env@,
                        "DYN_PREFETCH_HINT_PRIORITY"@,
                        0,
                    )
                    &&& dispatcher.config.timeout.nanos == 1_000 * number_setting(
                        env@,
                        "DYN_PREFETCH_HINT_TIMEOUT_US"@,
                        5000,
                        u64::MAX as nat,
                    )
                },
                None => {
                    ||| !hints_enabled(env@)
                    ||| lookup(env@, "DYN_PREFETCH_HINT_ENDPOINT"@) is None
                    ||| lookup(env@, "DYN_PREFETCH_HINT_INSTANCE_TEMPLATE"@) is None
                        && configured_instances(env@) == Map::<u64, Seq<char>>::empty()
                },
            },
    {
        let config = PrefetchHintConfig::from_env(env);
        if !config.enabled {
            return None;
        }
        let unmapped = config.instance_map.len() == 0;
        proof {
            if unmapped {
                assert(names(config.instance_map@) =~= Map::<u64, Seq<char>>::empty());
            }
        }
        if config.endpoint.is_none() || (config.instance_template.is_none() && unmapped) {
            return None;
        }
        Some(PrefetchHintDispatcher { config })
    }

    pub open spec fn instances(self) -> Map<u64, Seq<char>> {
        names(self.config.instance_map@)
    }

    pub open spec fn template(self) -> Option<Seq<char>> {
        optional(self.config.instance_template)
    }

    /// The instance that serves `worker`.
    pub fn instance_id(&self, worker: WorkerWithDpRank) -> (instance: Option<String>)
        ensures
            optional(instance) == instance_of(self.instances(), self.template(), worker),
    {
        resolve_instance(&self.config.instance_map, &self.config.instance_template, worker)
    }

    /// `hint` can be sent: it has tokens, and its worker has an instance.
    pub open spec fn can_send(self, hint: HintModel) -> bool {
        &&& hint.tokens.len() > 0
        &&& self.config.endpoint is Some
        &&& instance_of(self.instances(), self.template(), hint.worker) is Some
    }

    /// `action` sends `hint` with the settings of this dispatcher.
    pub open spec fn sends(self, action: HintAction, hint: HintModel) -> bool {
        action matches HintAction::Send { endpoint, request } && self.config.endpoint == Some(
            endpoint,
        ) && carries(
            request,
            hint,
            instance_of(self.instances(), self.template(), hint.worker)->0,
            self.config.max_bytes,
            self.config.priority,
        )
    }

    /// A hint for a bare token prefix.
    pub fn dispatch(
        &self,
        tokens: Vec<u32>,
        request_id: Option<String>,
        worker: WorkerWithDpRank,
        route_epoch: u64,
        deadline_ns: Option<u64>,
    ) -> (action: HintAction)
        ensures
            ({
                let hint = HintModel {
                    tokens: tokens@,
                    request_id: optional(request_id),
                    session_id: None,
                    model_id: None,
                    task_id: None,
                    worker,
                    route_epoch,
                    deadline_ns,
                    max_prefetch_bytes: None,
                    start_chunk: None,
                    end_chunk: None,
                    ttl_ms: DEFAULT_TTL_MS,
                };
                if self.can_send(hint) {
                    self.sends(action, hint)
                } else {
                    action is Skip
                }
            }),
    {
        let hint = PrefetchHint {
            tokens,
            request_id,
            session_id: None,
            model_id: None,
            task_id: None,
            worker,
            route_epoch,
            deadline_ns,
            max_prefetch_bytes: None,
            start_chunk: None,
            end_chunk: None,
            ttl_ms: DEFAULT_TTL_MS,
        };
        self.dispatch_with_options(hint)
    }

    /// A hint whose outcome nobody waits for.
    pub fn dispatch_with_options(&self, hint: PrefetchHint) -> (action: HintAction)
        ensures
            if self.can_send(hint@) {
                self.sends(action, hint@)
            } else {
                action is Skip
            },
    {
        self.dispatch_with_options_monitored(hint, false)
    }

    /// Decides what to do with a hint. Without tokens, an endpoint or an instance
    /// nothing can be sent; a monitored hint then has failed.
    pub fn dispatch_with_options_monitored(
        &self,
        hint: PrefetchHint,
        monitored: bool,
    ) -> (action: HintAction)
        ensures
            if self.can_send(hint@) {
                self.sends(action, hint@)
            } else if monitored {
                action is Fail
            } else {
                action is Skip
            },
    {
        let unsent = if monitored {
            HintAction::Fail
        } else {
            HintAction::Skip
        };
        if hint.tokens.len() == 0 {
            return unsent;
        }
        let endpoint = match &self.config.endpoint {
            Some(endpoint) => endpoint.clone(),
            None => {
                return unsent;
            },
        };
        let instance_id = match self.instance_id(hint.worker) {
            Some(instance_id) => instance_id,
            None => {
                return unsent;
            },
        };
        let max_prefetch_bytes = match hint.max_prefetch_bytes {
            Some(bytes) => Some(bytes),
            None => self.config.max_bytes,
        };
        let request = HintRequest {
            instance_id,
            tokens: hint.tokens,
            request_id: hint.request_id,
            session_id: hint.session_id,
            model_id: hint.model_id,
            task_id: hint.task_id,
            route_epoch: hint.route_epoch,
            deadline_ns: hint.deadline_ns,
            max_prefetch_bytes,
            priority: self.config.priority,
            start_chunk: hint.start_chunk,
            end_chunk: hint.end_chunk,
            ttl_ms: hint.ttl_ms,
        };
        HintAction::Send { endpoint, request }
    }

    /// Decides what follows from the answer to a hint that was sent for
    /// `instance_id` and `task_id`. A scheduled task is polled if somebody waits
    /// for its outcome; without a task id its outcome could never be learnt.
    pub fn on_reply(
        &self,
        reply: &HintReply,
        monitored: bool,
        instance_id: String,
        task_id: Option<String>,
    ) -> (action: ReplyAction)
        ensures
            if !monitored {
                action is Done
            } else if is_scheduled(*reply) && task_id is Some && self.config.endpoint is Some {
                action matches ReplyAction::Monitor(query) && query.endpoint@ == status_endpoint(
                    self.config.endpoint->0@,
                    task_id->0@,
                ) && query.instance_id@ == instance_id@
            } else {
                action is Fail
            },
    {
        if !monitored {
            return ReplyAction::Done;
        }
        let scheduled = match reply {
            HintReply::Answered { status, response: Some(response) } => {
                200 <= *status && *status < 300 && !response.stale && response.scheduled > 0
            },
            _ => false,
        };
        if !scheduled {
            return ReplyAction::Fail;
        }
        match task_id {
            Some(task_id) => match self.monitor_task(instance_id, task_id) {
                Some(query) => ReplyAction::Monitor(query),
                None => ReplyAction::Fail,
            },
            None => ReplyAction::Fail,
        }
    }

    /// Where to ask for the state of a task; `None` without an endpoint.
    pub fn monitor_task(&self, instance_id: String, task_id: String) -> (query: Option<StatusQuery>)
        ensures
            match query {
                Some(query) => {
                    &&& self.config.endpoint is Some
                    &&& query.endpoint@ == status_endpoint(self.config.endpoint->0@, task_id@)
                    &&& query.instance_id@ == instance_id@
                },
                None => self.config.endpoint is None,
            },
    {
        match &self.config.endpoint {
            Some(endpoint) => {
                let endpoint = endpoint.as_str();
                let endpoint = if ends_with(endpoint, "/v1/cxl/prefetch") || ends_with(
                    endpoint,
                    "/prefetch_hint",
                ) {
                    joined(endpoint, "/", task_id.as_str())
                } else {
                    joined(endpoint, "/v1/cxl/prefetch/", task_id.as_str())
                };
                Some(StatusQuery { endpoint, instance_id })
            },
            None => None,
        }
    }

    /// What to post in order to cancel the hints of a request; `None` without an
    /// endpoint or an instance.
    pub fn cancel(
        &self,
        request_id: String,
        worker: WorkerWithDpRank,
        route_epoch: u64,
    ) -> (cancellation: Option<Cancellation>)
        ensures
            ({
                let instance_id = instance_of(self.instances(), self.template(), worker);
                match cancellation {
                    Some(c) => {
                        &&& self.config.endpoint is Some
                        &&& c.endpoint@ == cancel_endpoint(self.config.endpoint->0@)
                        &&& instance_id == Some(c.request.instance_id@)
                        &&& c.request.request_id@ == request_id@
                        &&& c.request.route_epoch == route_epoch
                    },
                    None => self.config.endpoint is None || instance_id is None,
                }
            }),
    {
        let endpoint = match &self.config.endpoint {
            Some(endpoint) => endpoint.as_str(),
            None => {
                return None;
            },
        };
        let instance_id = match self.instance_id(worker) {
            Some(instance_id) => instance_id,
            None => {
                return None;
            },
        };
        proof {
            reveal_strlit("/prefetch_hint");
            reveal_strlit("/v1/cxl/prefetch");
            reveal_strlit("");
        }
        let endpoint = if contains(endpoint, "/prefetch_hint") {
            replace(endpoint, "/prefetch_hint", "/cancel_prefetch_hint")
        } else if ends_with(endpoint, "/v1/cxl/prefetch") {
            replace(endpoint, "/v1/cxl/prefetch", "/cancel_prefetch_hint")
        } else {
            joined(endpoint, "/cancel_prefetch_hint", "")
        };
        assert(endpoint@ =~= cancel_endpoint(self.config.endpoint->0@));
        let request = CancelRequest { instance_id, request_id, route_epoch };
        Some(Cancellation { endpoint, request })
    }
}

/// The variables ask for hints.
pub open spec fn hints_enabled(vars: Seq<(Seq<char>, Seq<char>)>) -> bool {
    bool_setting(vars, "DYN_PREFETCH_HINTS_ENABLED"@, false) || bool_setting(
        vars,
        "DYN_GLOBAL_PREFETCH_ENABLED"@,
        false,
    )
}

/// The instances that the variables name.
pub open spec fn configured_instances(vars: Seq<(Seq<char>, Seq<char>)>) -> Map<u64, Seq<char>> {
    instance_names(fields(text_setting(vars, "DYN_PREFETCH_HINT_INSTANCE_MAP"@), ','))
}

} // verus!
