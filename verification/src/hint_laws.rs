//! What hints to the cache controller promise.

use crate::environment::{
    bool_setting, lookup, number_setting, optional_number, signed_setting, Environment,
};
use crate::offload::BackgroundOffloadPlanner;
use crate::prefetch_hint::{
    instance_entry, instance_names, names, poll_action, resolve_instance, Cancellation,
    HintAction, HintReply, PollAction, PrefetchHint, PrefetchHintDispatcher, ReplyAction,
    StatusQuery, StatusReply,
};
use crate::protocols::WorkerWithDpRank;
use crate::text::{
    decimal, equal_ignoring_case, fields, first_index, has_part, has_suffix, optional,
    parsed_unsigned, replaced, trimmed,
};
use crate::text_laws::lemma_first_index_bounds;
use std::collections::HashMap;
use vstd::prelude::*;

verus! {

/// A hint is sent exactly if it has tokens, and it is known where the controller and the
/// instance of its worker are. One that cannot be sent is reported as failed if somebody
/// waits for it, and passed over otherwise. What is sent says all that the hint says; the
/// bytes it may take are its own limit, or that of the settings if it has none.
pub proof fn law_hints_are_sent_as_they_are(
    dispatcher: &PrefetchHintDispatcher,
    hint: PrefetchHint,
    monitored: bool,
    action: HintAction,
)
    requires
        call_ensures(
            PrefetchHintDispatcher::dispatch_with_options_monitored,
            (dispatcher, hint, monitored),
            action,
        ),
    ensures
        ({
            let config = dispatcher.config;
            let listed = config.instance_map@.contains_key(hint.worker.worker_id);
            let can = hint.tokens@.len() > 0 && config.endpoint is Some && (listed
                || config.instance_template is Some);
            &&& action is Send <==> can
            &&& !can && monitored ==> action is Fail
            &&& !can && !monitored ==> action is Skip
            &&& action matches HintAction::Send { endpoint, request } ==> {
                &&& config.endpoint == Some(endpoint)
                &&& listed ==> request.instance_id@
                    == config.instance_map@[hint.worker.worker_id]@
                &&& !listed ==> request.instance_id@ == replaced(
                    replaced(
                        config.instance_template->0@,
                        "{worker_id}"@,
                        decimal(hint.worker.worker_id as nat),
                    ),
                    "{dp_rank}"@,
                    decimal(hint.worker.dp_rank as nat),
                )
                &&& request.tokens@ == hint.tokens@
                &&& optional(request.request_id) == optional(hint.request_id)
                &&& optional(request.session_id) == optional(hint.session_id)
                &&& optional(request.model_id) == optional(hint.model_id)
                &&& optional(request.task_id) == optional(hint.task_id)
                &&& request.route_epoch == hint.route_epoch
                &&& request.deadline_ns == hint.deadline_ns
                &&& request.start_chunk == hint.start_chunk
                &&& request.end_chunk == hint.end_chunk
                &&& request.ttl_ms == hint.ttl_ms
                &&& request.priority == config.priority
                &&& hint.max_prefetch_bytes is Some ==> request.max_prefetch_bytes
                    == hint.max_prefetch_bytes
                &&& hint.max_prefetch_bytes is None ==> request.max_prefetch_bytes
                    == config.max_bytes
            }
        }),
{
}

/// A hint that nobody waits for is sent like any other, or passed over.
pub proof fn law_unmonitored_hints_are_sent_or_skipped(
    dispatcher: &PrefetchHintDispatcher,
    hint: PrefetchHint,
    action: HintAction,
    same: HintAction,
)
    requires
        call_ensures(
            PrefetchHintDispatcher::dispatch_with_options,
            (dispatcher, hint),
            action,
        ),
        call_ensures(
            PrefetchHintDispatcher::dispatch_with_options_monitored,
            (dispatcher, hint, false),
            same,
        ),
    ensures
        action is Send <==> same is Send,
        action is Skip <==> same is Skip,
        action matches HintAction::Send { endpoint, request } ==> {
            let other = same->request;
            &&& endpoint == same->endpoint
            &&& request.instance_id@ == other.instance_id@
            &&& request.tokens@ == hint.tokens@
            &&& other.tokens@ == hint.tokens@
            &&& optional(request.request_id) == optional(other.request_id)
            &&& optional(request.session_id) == optional(other.session_id)
            &&& optional(request.model_id) == optional(other.model_id)
            &&& optional(request.task_id) == optional(other.task_id)
            &&& request.route_epoch == other.route_epoch
            &&& request.deadline_ns == other.deadline_ns
            &&& request.max_prefetch_bytes == other.max_prefetch_bytes
            &&& request.priority == other.priority
            &&& request.start_chunk == other.start_chunk
            &&& request.end_chunk == other.end_chunk
            &&& request.ttl_ms == other.ttl_ms
        },
{
}

/// A hint for a bare prefix says nothing but its tokens, its request and its route; it
/// stays valid for five seconds.
pub proof fn law_bare_hints_say_little(
    dispatcher: &PrefetchHintDispatcher,
    tokens: Vec<u32>,
    request_id: Option<String>,
    worker: WorkerWithDpRank,
    route_epoch: u64,
    deadline_ns: Option<u64>,
    action: HintAction,
)
    requires
        call_ensures(
            PrefetchHintDispatcher::dispatch,
            (dispatcher, tokens, request_id, worker, route_epoch, deadline_ns),
            action,
        ),
    ensures
        ({
            let config = dispatcher.config;
            let listed = config.instance_map@.contains_key(worker.worker_id);
            let can = tokens@.len() > 0 && config.endpoint is Some && (listed
                || config.instance_template is Some);
            &&& action is Send <==> can
            &&& !can ==> action is Skip
            &&& action matches HintAction::Send { endpoint, request } ==> {
                &&& config.endpoint == Some(endpoint)
                &&& listed ==> request.instance_id@ == config.instance_map@[worker.worker_id]@
                &&& request.tokens@ == tokens@
                &&& optional(request.request_id) == optional(request_id)
                &&& request.session_id is None
                &&& request.model_id is None
                &&& request.task_id is None
                &&& request.route_epoch == route_epoch
                &&& request.deadline_ns == deadline_ns
                &&& request.max_prefetch_bytes == config.max_bytes
                &&& request.priority == config.priority
                &&& request.start_chunk is None
                &&& request.end_chunk is None
                &&& request.ttl_ms == 5000
            }
        }),
{
}

/// The instance of a worker is the one that is listed for it, and otherwise what the
/// template gives with the worker's id and rank put in.
pub proof fn law_listed_instances_come_first(
    map: &HashMap<u64, String>,
    template: &Option<String>,
    worker: WorkerWithDpRank,
    instance: Option<String>,
)
    requires
        call_ensures(resolve_instance, (map, template, worker), instance),
    ensures
        map@.contains_key(worker.worker_id) ==> instance is Some && instance->0@
            == map@[worker.worker_id]@,
        !map@.contains_key(worker.worker_id) ==> (instance is Some <==> template is Some),
        !map@.contains_key(worker.worker_id) && template is Some ==> instance->0@ == replaced(
            replaced(template->0@, "{worker_id}"@, decimal(worker.worker_id as nat)),
            "{dp_rank}"@,
            decimal(worker.dp_rank as nat),
        ),
{
}

/// After a hint that somebody waits for, its task is watched exactly if the controller
/// answered with success, the answer is not stale, and it has scheduled something, for a
/// task that has a name. Otherwise it is reported as failed. After any other hint nothing
/// is left to do.
pub proof fn law_scheduled_tasks_are_watched(
    dispatcher: &PrefetchHintDispatcher,
    reply: &HintReply,
    monitored: bool,
    instance_id: String,
    task_id: Option<String>,
    action: ReplyAction,
)
    requires
        call_ensures(
            PrefetchHintDispatcher::on_reply,
            (dispatcher, reply, monitored, instance_id, task_id),
            action,
        ),
    ensures
        ({
            let scheduled = match *reply {
                HintReply::Answered { status, response: Some(response) } => 200 <= status <= 299
                    && !response.stale && response.scheduled >= 1,
                _ => false,
            };
            let watched = scheduled && task_id is Some && dispatcher.config.endpoint is Some;
            &&& !monitored ==> action is Done
            &&& monitored && !watched ==> action is Fail
            &&& monitored && watched ==> action is Monitor
            &&& action matches ReplyAction::Monitor(query) ==> {
                let endpoint = dispatcher.config.endpoint->0@;
                &&& query.instance_id@ == instance_id@
                &&& has_suffix(endpoint, "/v1/cxl/prefetch"@) || has_suffix(
                    endpoint,
                    "/prefetch_hint"@,
                ) ==> query.endpoint@ == endpoint + "/"@ + task_id->0@
                &&& !has_suffix(endpoint, "/v1/cxl/prefetch"@) && !has_suffix(
                    endpoint,
                    "/prefetch_hint"@,
                ) ==> query.endpoint@ == endpoint + "/v1/cxl/prefetch/"@ + task_id->0@
            }
        }),
{
}

/// The state of a task is asked for at the task's own address under the endpoint.
pub proof fn law_tasks_have_their_address(
    dispatcher: &PrefetchHintDispatcher,
    instance_id: String,
    task_id: String,
    query: Option<StatusQuery>,
)
    requires
        call_ensures(
            PrefetchHintDispatcher::monitor_task,
            (dispatcher, instance_id, task_id),
            query,
        ),
    ensures
        query is Some <==> dispatcher.config.endpoint is Some,
        query matches Some(query) ==> {
            let endpoint = dispatcher.config.endpoint->0@;
            &&& query.instance_id@ == instance_id@
            &&& has_suffix(endpoint, "/v1/cxl/prefetch"@) || has_suffix(
                endpoint,
                "/prefetch_hint"@,
            ) ==> query.endpoint@ == endpoint + "/"@ + task_id@
            &&& !has_suffix(endpoint, "/v1/cxl/prefetch"@) && !has_suffix(
                endpoint,
                "/prefetch_hint"@,
            ) ==> query.endpoint@ == endpoint + "/v1/cxl/prefetch/"@ + task_id@
        },
{
}

/// A task is ready if a success says so. It has failed if a success names a failed,
/// cancelled or unknown state, or if the answer is an error of the request or of the
/// server. In all other cases it is asked again.
pub proof fn law_polls_are_read(reply: &StatusReply, action: PollAction)
    requires
        call_ensures(poll_action, (reply,), action),
    ensures
        ({
            let status = reply->status;
            let text = reply->state->0@;
            let named = reply is Answered && 200 <= status <= 299 && reply->state is Some;
            let failed = equal_ignoring_case(text, "FAILED"@) || equal_ignoring_case(
                text,
                "CANCELLED"@,
            ) || equal_ignoring_case(text, "UNKNOWN"@);
            let ready = equal_ignoring_case(text, "READY"@);
            let refused = reply is Answered && 400 <= status <= 599;
            &&& action is Ready <==> named && ready
            &&& action is Failed <==> refused || (named && !ready && failed)
            &&& action is Again <==> !refused && !(named && (ready || failed))
        }),
{
}

/// A request is cancelled at the instance of its worker, by its id and its route, if it is
/// known where; the address is that for hints with the last part exchanged.
pub proof fn law_requests_are_cancelled_where_they_run(
    dispatcher: &PrefetchHintDispatcher,
    request_id: String,
    worker: WorkerWithDpRank,
    route_epoch: u64,
    cancellation: Option<Cancellation>,
)
    requires
        call_ensures(
            PrefetchHintDispatcher::cancel,
            (dispatcher, request_id, worker, route_epoch),
            cancellation,
        ),
    ensures
        ({
            let config = dispatcher.config;
            let listed = config.instance_map@.contains_key(worker.worker_id);
            let endpoint = config.endpoint->0@;
            &&& cancellation is Some <==> config.endpoint is Some && (listed
                || config.instance_template is Some)
            &&& cancellation matches Some(c) ==> {
                &&& c.request.request_id@ == request_id@
                &&& c.request.route_epoch == route_epoch
                &&& listed ==> c.request.instance_id@ == config.instance_map@[worker.worker_id]@
                &&& has_part(endpoint, "/prefetch_hint"@) ==> c.endpoint@ == replaced(
                    endpoint,
                    "/prefetch_hint"@,
                    "/cancel_prefetch_hint"@,
                )
                &&& !has_part(endpoint, "/prefetch_hint"@) && has_suffix(
                    endpoint,
                    "/v1/cxl/prefetch"@,
                ) ==> c.endpoint@ == replaced(
                    endpoint,
                    "/v1/cxl/prefetch"@,
                    "/cancel_prefetch_hint"@,
                )
                &&& !has_part(endpoint, "/prefetch_hint"@) && !has_suffix(
                    endpoint,
                    "/v1/cxl/prefetch"@,
                ) ==> c.endpoint@ == endpoint + "/cancel_prefetch_hint"@
            }
        }),
{
}

proof fn lemma_first_index(before: Seq<char>, found: char, rest: Seq<char>, a: char, b: char)
    requires
        forall|i: int| 0 <= i < before.len() ==> #[trigger] before[i] != a && before[i] != b,
        found == a || found == b,
    ensures
        first_index(before + seq![found] + rest, a, b) == before.len(),
    decreases before.len(),
{
    let all = before + seq![found] + rest;
    if before.len() > 0 {
        let fewer = before.skip(1);
        assert forall|i: int| 0 <= i < fewer.len() implies #[trigger] fewer[i] != a && fewer[i]
            != b by {
            assert(fewer[i] == before[i + 1]);
        }
        lemma_first_index(fewer, found, rest, a, b);
        assert(all.skip(1) =~= fewer + seq![found] + rest);
        assert(all[0] == before[0]);
    } else {
        assert(all[0] == found);
    }
}

/// An entry of the list of instances names a worker, then `=` or `:`, then its instance,
/// white space around each left out. It counts only if the worker is a number and the
/// instance is not empty.
pub proof fn law_instance_entries_are_read(
    worker: Seq<char>,
    separator: char,
    instance: Seq<char>,
    entry: Seq<char>,
    n: u64,
)
    requires
        forall|i: int| 0 <= i < worker.len() ==> #[trigger] worker[i] != '=' && worker[i] != ':',
        separator == '=' || separator == ':',
        entry == worker + seq![separator] + instance,
    ensures
        instance_entry(entry) == Some((n, trimmed(instance))) <==> trimmed(instance).len() > 0
            && parsed_unsigned(trimmed(worker), u64::MAX as nat) == Some(n as nat),
        instance_entry(entry) is Some <==> trimmed(instance).len() > 0 && parsed_unsigned(
            trimmed(worker),
            u64::MAX as nat,
        ) is Some,
        instance_entry(entry) is Some ==> (instance_entry(entry)->0).1 == trimmed(instance),
{
    lemma_first_index(worker, separator, instance, '=', ':');
    let at = first_index(entry, '=', ':');
    assert(entry.take(at) =~= worker);
    assert(entry.skip(at + 1) =~= instance);
}

/// A later entry for a worker replaces an earlier one, and entries that do not count
/// change nothing.
pub proof fn law_later_entries_replace_earlier_ones(
    entries: Seq<Seq<char>>,
    entry: Seq<char>,
    other: u64,
)
    ensures
        instance_names(Seq::empty()) == Map::<u64, Seq<char>>::empty(),
        instance_entry(entry) is None ==> instance_names(entries.push(entry)) == instance_names(
            entries,
        ),
        instance_entry(entry) matches Some((worker, instance)) ==> {
            let after = instance_names(entries.push(entry));
            &&& after.contains_key(worker)
            &&& after[worker] == instance
            &&& other != worker ==> after.contains_key(other) == instance_names(
                entries,
            ).contains_key(other) && after[other] == instance_names(entries)[other]
        },
{
    assert(entries.push(entry).drop_last() =~= entries);
}

/// There is a dispatcher exactly if hints or the predictor are switched on, and the
/// variables say where the controller is and give a template or at least one instance.
pub proof fn law_dispatchers_know_where_to_send(
    env: &Environment,
    dispatcher: Option<PrefetchHintDispatcher>,
)
    requires
        call_ensures(PrefetchHintDispatcher::from_env, (env,), dispatcher),
    ensures
        ({
            let vars = env@;
            let listed = match lookup(vars, "DYN_PREFETCH_HINT_INSTANCE_MAP"@) {
                Some(list) => instance_names(fields(list, ',')),
                None => instance_names(fields(Seq::empty(), ',')),
            };
            &&& dispatcher is Some ==> (bool_setting(vars, "DYN_PREFETCH_HINTS_ENABLED"@, false)
                || bool_setting(vars, "DYN_GLOBAL_PREFETCH_ENABLED"@, false))
            &&& dispatcher is Some ==> lookup(vars, "DYN_PREFETCH_HINT_ENDPOINT"@) is Some
            &&& (bool_setting(vars, "DYN_PREFETCH_HINTS_ENABLED"@, false) || bool_setting(
                vars,
                "DYN_GLOBAL_PREFETCH_ENABLED"@,
                false,
            )) && lookup(vars, "DYN_PREFETCH_HINT_ENDPOINT"@) is Some && (lookup(
                vars,
                "DYN_PREFETCH_HINT_INSTANCE_TEMPLATE"@,
            ) is Some || listed != Map::<u64, Seq<char>>::empty()) ==> dispatcher is Some
            &&& dispatcher matches Some(dispatcher) ==> {
                let config = dispatcher.config;
                &&& optional(config.endpoint) == lookup(vars, "DYN_PREFETCH_HINT_ENDPOINT"@)
                &&& optional(config.instance_template) == lookup(
                    vars,
                    "DYN_PREFETCH_HINT_INSTANCE_TEMPLATE"@,
                )
                &&& names(config.instance_map@) == listed
                &&& config.instance_template is Some || config.instance_map@.len() > 0
                &&& config.priority == signed_setting(vars, "DYN_PREFETCH_HINT_PRIORITY"@, 0)
                &&& config.max_bytes matches Some(n) ==> optional_number(
                    vars,
                    "DYN_PREFETCH_HINT_MAX_BYTES"@,
                ) == Some(n as nat)
                &&& config.max_bytes is None ==> optional_number(
                    vars,
                    "DYN_PREFETCH_HINT_MAX_BYTES"@,
                ) is None
                &&& config.timeout.nanos == 1_000 * number_setting(
                    vars,
                    "DYN_PREFETCH_HINT_TIMEOUT_US"@,
                    5000,
                    0xFFFF_FFFF_FFFF_FFFF,
                )
            }
        }),
{
}

/// An entry without `=` or `:` does not count.
pub proof fn law_entries_need_a_separator(entry: Seq<char>)
    requires
        forall|i: int| 0 <= i < entry.len() ==> #[trigger] entry[i] != '=' && entry[i] != ':',
    ensures
        instance_entry(entry) is None,
{
    lemma_first_index_bounds(entry, '=', ':');
}

/// The instance of a worker is the one that is listed for it, and otherwise the template
/// with its id and its rank filled in; without either there is none.
pub proof fn law_workers_have_their_instance(
    dispatcher: &PrefetchHintDispatcher,
    planner: &BackgroundOffloadPlanner,
    worker: WorkerWithDpRank,
    hinted: Option<String>,
    copying: Option<String>,
)
    requires
        call_ensures(PrefetchHintDispatcher::instance_id, (dispatcher, worker), hinted),
        call_ensures(BackgroundOffloadPlanner::instance_id, (planner, worker), copying),
    ensures
        ({
            let map = dispatcher.config.instance_map@;
            let id = worker.worker_id;
            &&& map.contains_key(id) ==> hinted is Some && (hinted->0)@ == map[id]@
            &&& !map.contains_key(id) ==> (hinted is Some
                <==> dispatcher.config.instance_template is Some)
            &&& !map.contains_key(id) && hinted is Some ==> (hinted->0)@ == replaced(
                replaced(
                    (dispatcher.config.instance_template->0)@,
                    "{worker_id}"@,
                    decimal(id as nat),
                ),
                "{dp_rank}"@,
                decimal(worker.dp_rank as nat),
            )
        }),
        ({
            let map = planner.config.instance_map@;
            let id = worker.worker_id;
            &&& map.contains_key(id) ==> copying is Some && (copying->0)@ == map[id]@
            &&& !map.contains_key(id) ==> (copying is Some
                <==> planner.config.instance_template is Some)
            &&& !map.contains_key(id) && copying is Some ==> (copying->0)@ == replaced(
                replaced(
                    (planner.config.instance_template->0)@,
                    "{worker_id}"@,
                    decimal(id as nat),
                ),
                "{dp_rank}"@,
                decimal(worker.dp_rank as nat),
            )
        }),
{
}

} // verus!
