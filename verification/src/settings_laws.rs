//! What the settings promise.

use crate::environment::{
    bool_setting, env_bool, env_i32, env_optional_u64, env_u64, env_usize, lookup, number_setting,
    optional_number, signed_setting, Environment,
};
use crate::global_config::{FractionalSettings, GlobalPrefetchConfig};
use crate::offload_config::{KvRouterConfig, PlannerConfig};
use crate::prefetch::CxlPrefetchConfig;
use crate::prefetch_hint::{instance_names, names, PrefetchHintConfig};
use crate::text::{
    all_digits, decimal, digit, digits_value, fields, is_digit, optional, parsed_bool, parsed_i32,
    parsed_unsigned,
};
use vstd::prelude::*;

verus! {

/// The first variable of a name counts; without one there is no value.
pub proof fn law_first_variable_counts(
    vars: Seq<(Seq<char>, Seq<char>)>,
    name: Seq<char>,
    i: int,
)
    requires
        0 <= i <= vars.len(),
        forall|k: int| 0 <= k < i ==> (#[trigger] vars[k]).0 != name,
    ensures
        i < vars.len() && vars[i].0 == name ==> lookup(vars, name) == Some(vars[i].1),
        i == vars.len() ==> lookup(vars, name) is None,
    decreases i,
{
    if i > 0 {
        let rest = vars.skip(1);
        assert(vars[0].0 != name);
        assert forall|k: int| 0 <= k < i - 1 implies (#[trigger] rest[k]).0 != name by {
            assert(rest[k] == vars[k + 1]);
        }
        law_first_variable_counts(rest, name, i - 1);
        if i < vars.len() {
            assert(rest[i - 1] == vars[i]);
        }
    }
}

/// A setting is what its variable says if that can be read, and its default otherwise.
pub proof fn law_unreadable_settings_have_their_default(
    vars: Seq<(Seq<char>, Seq<char>)>,
    name: Seq<char>,
    flag: bool,
    count: nat,
    number: int,
    max: nat,
)
    ensures
        lookup(vars, name) is None ==> bool_setting(vars, name, flag) == flag && number_setting(
            vars,
            name,
            count,
            max,
        ) == count && signed_setting(vars, name, number) == number && optional_number(vars, name)
            is None,
        lookup(vars, name) matches Some(text) ==> {
            &&& parsed_bool(text) is None ==> bool_setting(vars, name, flag) == flag
            &&& parsed_bool(text) matches Some(b) ==> bool_setting(vars, name, flag) == b
            &&& parsed_unsigned(text, max) is None ==> number_setting(vars, name, count, max)
                == count
            &&& parsed_unsigned(text, max) matches Some(n) ==> number_setting(
                vars,
                name,
                count,
                max,
            ) == n
            &&& parsed_i32(text) is None ==> signed_setting(vars, name, number) == number
            &&& parsed_i32(text) matches Some(n) ==> signed_setting(vars, name, number) == n
            &&& optional_number(vars, name) == parsed_unsigned(text, 0xFFFF_FFFF_FFFF_FFFF)
        },
{
}

proof fn lemma_decimal_value(n: nat)
    ensures
        decimal(n).len() > 0,
        all_digits(decimal(n)),
        digits_value(decimal(n)) == n,
    decreases n,
{
    if n < 10 {
        let text = seq![digit(n)];
        assert(decimal(n) == text);
        assert(is_digit(text[0]));
        assert(text.drop_last().len() == 0);
        assert(digits_value(text.drop_last()) == 0);
        assert(text.last() as nat - '0' as nat == n);
    } else {
        lemma_decimal_value(n / 10);
        let start = decimal(n / 10);
        let last = digit(n % 10);
        assert(decimal(n) == start.push(last));
        assert(start.push(last).drop_last() =~= start);
        assert(is_digit(last));
        assert(last as nat - '0' as nat == n % 10);
        assert forall|i: int| 0 <= i < decimal(n).len() implies is_digit(
            #[trigger] decimal(n)[i],
        ) by {
            if i < start.len() {
                assert(is_digit(start[i]));
            }
        }
    }
}

/// A number that is written out is read back, with or without a plus, if it is not too
/// large; signed ones with a minus too. A text with anything but digits is no number.
pub proof fn law_written_numbers_are_read_back(n: nat, max: nat, text: Seq<char>, i: int)
    ensures
        parsed_unsigned(decimal(n), max) == if n <= max {
            Some(n)
        } else {
            None
        },
        parsed_unsigned(seq!['+'] + decimal(n), max) == if n <= max {
            Some(n)
        } else {
            None
        },
        parsed_i32(decimal(n)) == if n <= 0x7FFF_FFFF {
            Some(n as int)
        } else {
            None
        },
        parsed_i32(seq!['-'] + decimal(n)) == if n <= 0x8000_0000 {
            Some(-n)
        } else {
            None
        },
        parsed_unsigned(Seq::empty(), max) is None,
        0 < i < text.len() && !('0' <= text[i] <= '9') ==> parsed_unsigned(text, max) is None
            && parsed_i32(text) is None,
        text.len() > 0 && text[0] == '-' ==> parsed_unsigned(text, max) is None,
{
    let body = decimal(n);
    lemma_decimal_value(n);
    assert(is_digit(body[0]));
    assert((seq!['+'] + body).skip(1) =~= body);
    assert((seq!['-'] + body).skip(1) =~= body);
    if 0 < i < text.len() && !is_digit(text[i]) {
        if all_digits(text.skip(1)) {
            assert(is_digit(text.skip(1)[i - 1]));
        }
        if all_digits(text) {
            assert(is_digit(text[i]));
        }
    }
    if text.len() > 0 && text[0] == '-' {
        if all_digits(text) {
            assert(is_digit(text[0]));
        }
    }
}

/// A flag is on or off if its variable says so in full.
pub proof fn law_flags_are_spelled_out(text: Seq<char>)
    ensures
        parsed_bool("true"@) == Some(true),
        parsed_bool("false"@) == Some(false),
        text != "true"@ && text != "false"@ ==> parsed_bool(text) is None,
{
    reveal_strlit("true");
    reveal_strlit("false");
    assert("true"@.len() == 4 && "false"@.len() == 5);
}

/// The settings are read from the variables as their kind says.
pub proof fn law_variables_are_read(
    env: &Environment,
    name: &str,
    flag_default: bool,
    flag: bool,
    size_default: usize,
    size: usize,
    wide_default: u64,
    wide: u64,
    signed_default: i32,
    signed: i32,
    maybe: Option<u64>,
    value: Option<String>,
)
    requires
        call_ensures(env_bool, (env, name, flag_default), flag),
        call_ensures(env_usize, (env, name, size_default), size),
        call_ensures(env_u64, (env, name, wide_default), wide),
        call_ensures(env_i32, (env, name, signed_default), signed),
        call_ensures(env_optional_u64, (env, name), maybe),
        call_ensures(Environment::var, (env, name), value),
    ensures
        optional(value) == lookup(env@, name@),
        flag == bool_setting(env@, name@, flag_default),
        size == number_setting(env@, name@, size_default as nat, usize::MAX as nat),
        wide == number_setting(env@, name@, wide_default as nat, 0xFFFF_FFFF_FFFF_FFFF),
        signed == signed_setting(env@, name@, signed_default as int),
        maybe matches Some(n) ==> optional_number(env@, name@) == Some(n as nat),
        maybe is None ==> optional_number(env@, name@) is None,
{
}

/// The settings of the predictor: each from its variable, with its default, and at least
/// as large as makes sense.
pub proof fn law_predictor_is_configured(
    env: &Environment,
    fractions: FractionalSettings,
    config: GlobalPrefetchConfig,
)
    requires
        call_ensures(GlobalPrefetchConfig::from_env, (env, fractions), config),
    ensures
        ({
            let vars = env@;
            let chunk_size = number_setting(
                vars,
                "DYN_GLOBAL_PREFETCH_CHUNK_SIZE"@,
                256,
                usize::MAX as nat,
            );
            let top_k = number_setting(
                vars,
                "DYN_GLOBAL_PREFETCH_TOP_K"@,
                4,
                usize::MAX as nat,
            );
            let max_sessions = number_setting(
                vars,
                "DYN_GLOBAL_PREFETCH_MAX_SESSIONS"@,
                10000,
                usize::MAX as nat,
            );
            let max_chunk_catalog = number_setting(
                vars,
                "DYN_GLOBAL_PREFETCH_MAX_CATALOG"@,
                10000,
                usize::MAX as nat,
            );
            let max_observation_chunks = number_setting(
                vars,
                "DYN_GLOBAL_PREFETCH_MAX_OBSERVATION_CHUNKS"@,
                64,
                usize::MAX as nat,
            );
            let max_inflight = number_setting(
                vars,
                "DYN_GLOBAL_PREFETCH_MAX_INFLIGHT"@,
                32,
                usize::MAX as nat,
            );
            let stable_session_threshold = number_setting(
                vars,
                "DYN_GLOBAL_PREFETCH_STABLE_SESSION_THRESHOLD"@,
                4,
                usize::MAX as nat,
            );
            let ttl = number_setting(
                vars,
                "DYN_GLOBAL_PREFETCH_TTL_MS"@,
                5000,
                usize::MAX as nat,
            );
            &&& config.enabled == bool_setting(
                vars,
                "DYN_GLOBAL_PREFETCH_ENABLED"@,
                false,
            )
            &&& chunk_size >= 1 ==> config.chunk_size == chunk_size
            &&& chunk_size < 1 ==> config.chunk_size == 1
            &&& top_k >= 1 ==> config.top_k == top_k
            &&& top_k < 1 ==> config.top_k == 1
            &&& max_sessions >= 1 ==> config.max_sessions == max_sessions
            &&& max_sessions < 1 ==> config.max_sessions == 1
            &&& max_chunk_catalog >= 1 ==> config.max_chunk_catalog == max_chunk_catalog
            &&& max_chunk_catalog < 1 ==> config.max_chunk_catalog == 1
            &&& max_observation_chunks >= 1 ==> config.max_observation_chunks == max_observation_chunks
            &&& max_observation_chunks < 1 ==> config.max_observation_chunks == 1
            &&& max_inflight >= 1 ==> config.max_inflight == max_inflight
            &&& max_inflight < 1 ==> config.max_inflight == 1
            &&& config.current_request_enabled == bool_setting(
                vars,
                "DYN_GLOBAL_PREFETCH_CURRENT_REQUEST_ENABLED"@,
                true,
            )
            &&& config.temporal_enabled == bool_setting(
                vars,
                "DYN_GLOBAL_PREFETCH_TEMPORAL_ENABLED"@,
                true,
            )
            &&& config.filter_stable_chunks == bool_setting(
                vars,
                "DYN_GLOBAL_PREFETCH_FILTER_STABLE_CHUNKS"@,
                true,
            )
            &&& stable_session_threshold >= 2 ==> config.stable_session_threshold == stable_session_threshold
            &&& stable_session_threshold < 2 ==> config.stable_session_threshold == 2
            &&& ttl >= 1 ==> config.ttl.nanos == 1_000_000 * ttl
            &&& ttl < 1 ==> config.ttl.nanos == 1_000_000 * 1
        }),
{
}

/// The settings of the predictor that are no whole numbers: a support of at least a
/// hundredth and by default sixteen, a probability from a hundredth to one and by default
/// 65 hundredths, a half-life of at least a second and by default five minutes, sessions
/// that live at least a second and by default an hour, and by default 64 chunks a second.
/// Values that are not positive and finite count as absent.
pub proof fn law_predictor_has_its_thresholds(
    env: &Environment,
    fractions: FractionalSettings,
    config: GlobalPrefetchConfig,
)
    requires
        call_ensures(GlobalPrefetchConfig::from_env, (env, fractions), config),
    ensures
        ({
            let least = 0x3F84_7AE1_47AE_147Bu64;
            let one = 0x3FF0_0000_0000_0000u64;
            let endless = 0x7FF0_0000_0000_0000u64;
            &&& fractions.min_support is None ==> config.min_support.bits == 0x4030_0000_0000_0000
            &&& fractions.min_support matches Some(s) ==> {
                let usable = s.bits > 0 && s.bits < endless;
                &&& usable && s.bits >= least ==> config.min_support == s
                &&& usable && s.bits < least ==> config.min_support.bits == least
                &&& !usable ==> config.min_support.bits == 0x4030_0000_0000_0000
            }
            &&& fractions.min_probability is None ==> config.min_probability.bits
                == 0x3FE4_CCCC_CCCC_CCCD
            &&& fractions.min_probability matches Some(s) ==> {
                let usable = s.bits > 0 && s.bits < endless;
                &&& usable && s.bits < least ==> config.min_probability.bits == least
                &&& usable && s.bits > one ==> config.min_probability.bits == one
                &&& usable && least <= s.bits <= one ==> config.min_probability == s
                &&& !usable ==> config.min_probability.bits == 0x3FE4_CCCC_CCCC_CCCD
            }
            &&& fractions.chunks_per_second is None ==> config.chunks_per_second.bits
                == 0x4050_0000_0000_0000
            &&& fractions.chunks_per_second matches Some(s) ==> {
                let usable = s.bits > 0 && s.bits < endless;
                &&& usable ==> config.chunks_per_second == s
                &&& !usable ==> config.chunks_per_second.bits == 0x4050_0000_0000_0000
            }
            &&& fractions.half_life matches Some(span) ==> config.half_life.nanos == if span.nanos
                >= 1_000_000_000 {
                span.nanos as int
            } else {
                1_000_000_000
            }
            &&& fractions.half_life is None ==> config.half_life.nanos == 300_000_000_000
            &&& fractions.session_ttl matches Some(span) ==> config.session_ttl.nanos
                == if span.nanos >= 1_000_000_000 {
                span.nanos as int
            } else {
                1_000_000_000
            }
            &&& fractions.session_ttl is None ==> config.session_ttl.nanos == 3_600_000_000_000
        }),
{
}

/// The settings of looking ahead: each from its variable, with its default and within its
/// limits.
pub proof fn law_looking_ahead_is_configured(env: &Environment, config: CxlPrefetchConfig)
    requires
        call_ensures(CxlPrefetchConfig::from_env, (env,), config),
    ensures
        ({
            let vars = env@;
            let min_tokens = number_setting(
                vars,
                "DYN_CXL_PREFETCH_MIN_TOKENS"@,
                256,
                usize::MAX as nat,
            );
            let max_chunks = number_setting(
                vars,
                "DYN_CXL_PREFETCH_MAX_CHUNKS"@,
                8,
                usize::MAX as nat,
            );
            let chunk_size = number_setting(
                vars,
                "DYN_CXL_PREFETCH_CHUNK_SIZE"@,
                256,
                usize::MAX as nat,
            );
            let rpc_timeout = number_setting(
                vars,
                "DYN_CXL_PREFETCH_RPC_TIMEOUT_MS"@,
                10,
                u64::MAX as nat,
            );
            let queue_capacity = number_setting(
                vars,
                "DYN_CXL_PREFETCH_QUEUE_CAPACITY"@,
                16,
                usize::MAX as nat,
            );
            let lookahead_window = number_setting(
                vars,
                "DYN_CXL_PREFETCH_LOOKAHEAD_WINDOW"@,
                0,
                usize::MAX as nat,
            );
            let lookahead_reservation_ttl = number_setting(
                vars,
                "DYN_CXL_PREFETCH_LOOKAHEAD_RESERVATION_TTL_MS"@,
                5000,
                u64::MAX as nat,
            );
            let lookahead_reservation_capacity = number_setting(
                vars,
                "DYN_CXL_PREFETCH_LOOKAHEAD_RESERVATION_CAPACITY"@,
                16384,
                usize::MAX as nat,
            );
            let max_scan_chunks = number_setting(
                vars,
                "DYN_CXL_PREFETCH_MAX_SCAN_CHUNKS"@,
                64,
                usize::MAX as nat,
            );
            &&& config.lookahead_enabled == bool_setting(
                vars,
                "DYN_CXL_PREFETCH_LOOKAHEAD_ENABLED"@,
                false,
            )
            &&& config.min_tokens == min_tokens
            &&& max_chunks >= 1 ==> config.max_chunks == max_chunks
            &&& max_chunks < 1 ==> config.max_chunks == 1
            &&& chunk_size >= 1 ==> config.chunk_size == chunk_size
            &&& chunk_size < 1 ==> config.chunk_size == 1
            &&& rpc_timeout >= 1 ==> config.rpc_timeout.nanos == 1_000_000 * rpc_timeout
            &&& rpc_timeout < 1 ==> config.rpc_timeout.nanos == 1_000_000 * 1
            &&& queue_capacity >= 1 ==> config.queue_capacity == queue_capacity
            &&& queue_capacity < 1 ==> config.queue_capacity == 1
            &&& lookahead_window <= 16 ==> config.lookahead_window == lookahead_window
            &&& lookahead_window > 16 ==> config.lookahead_window == 16
            &&& lookahead_reservation_ttl >= 1 && lookahead_reservation_ttl <= 60000 ==> config.lookahead_reservation_ttl.nanos == 1_000_000 * lookahead_reservation_ttl
            &&& lookahead_reservation_ttl < 1 ==> config.lookahead_reservation_ttl.nanos == 1_000_000 * 1
            &&& lookahead_reservation_ttl > 60000 ==> config.lookahead_reservation_ttl.nanos == 1_000_000 * 60000
            &&& lookahead_reservation_capacity >= 1 && lookahead_reservation_capacity <= 1000000 ==> config.lookahead_reservation_capacity == lookahead_reservation_capacity
            &&& lookahead_reservation_capacity < 1 ==> config.lookahead_reservation_capacity == 1
            &&& lookahead_reservation_capacity > 1000000 ==> config.lookahead_reservation_capacity == 1000000
            &&& max_scan_chunks >= 1 && max_scan_chunks <= 64 ==> config.max_scan_chunks == max_scan_chunks
            &&& max_scan_chunks < 1 ==> config.max_scan_chunks == 1
            &&& max_scan_chunks > 64 ==> config.max_scan_chunks == 64
        }),
{
}

/// The settings of background copies: each from its variable, with the router's setting or
/// its own default, and at least as large as makes sense.
pub proof fn law_background_copies_are_configured(
    env: &Environment,
    router: KvRouterConfig,
    config: PlannerConfig,
)
    requires
        call_ensures(PlannerConfig::from_config, (router, env), config),
    ensures
        ({
            let vars = env@;
            let interval = number_setting(
                vars,
                "DYN_BACKGROUND_OFFLOAD_INTERVAL_MS"@,
                router.offload_interval_ms as nat,
                u64::MAX as nat,
            );
            let window = number_setting(
                vars,
                "DYN_BACKGROUND_OFFLOAD_WINDOW_MS"@,
                router.offload_window_ms as nat,
                u64::MAX as nat,
            );
            let owner_load_threshold = number_setting(
                vars,
                "DYN_BACKGROUND_OFFLOAD_OWNER_LOAD_THRESHOLD"@,
                router.offload_owner_load_threshold as nat,
                u64::MAX as nat,
            );
            let max_serving_decode_blocks = number_setting(
                vars,
                "DYN_BACKGROUND_OFFLOAD_MAX_ACTIVE_DECODE_BLOCKS"@,
                16,
                u64::MAX as nat,
            );
            let max_serving_prefill_tokens = number_setting(
                vars,
                "DYN_BACKGROUND_OFFLOAD_MAX_PENDING_PREFILL_TOKENS"@,
                0,
                u64::MAX as nat,
            );
            let bytes_per_sec = number_setting(
                vars,
                "DYN_BACKGROUND_OFFLOAD_BYTES_PER_SEC"@,
                67108864,
                u64::MAX as nat,
            );
            let chunk_bytes = number_setting(
                vars,
                "DYN_BACKGROUND_OFFLOAD_CHUNK_BYTES"@,
                1048576,
                u64::MAX as nat,
            );
            let cooldown = number_setting(
                vars,
                "DYN_BACKGROUND_OFFLOAD_COOLDOWN_SECS"@,
                router.offload_cooldown_secs as nat,
                u64::MAX as nat,
            );
            let timeout = number_setting(
                vars,
                "DYN_BACKGROUND_OFFLOAD_TIMEOUT_MS"@,
                5000,
                u64::MAX as nat,
            );
            let hot_threshold = number_setting(
                vars,
                "DYN_BACKGROUND_OFFLOAD_HOT_REQUEST_THRESHOLD"@,
                router.offload_hot_request_threshold as nat,
                u64::MAX as nat,
            );
            let top_k = number_setting(
                vars,
                "DYN_BACKGROUND_OFFLOAD_TOP_K"@,
                router.offload_top_k as nat,
                u64::MAX as nat,
            );
            let max_chunks = number_setting(
                vars,
                "DYN_BACKGROUND_OFFLOAD_MAX_CHUNKS"@,
                router.offload_max_chunks as nat,
                u64::MAX as nat,
            );
            &&& config.enabled == bool_setting(
                vars,
                "DYN_BACKGROUND_OFFLOAD_ENABLED"@,
                router.enable_background_offload,
            )
            &&& config.dry_run == bool_setting(
                vars,
                "DYN_BACKGROUND_OFFLOAD_DRY_RUN"@,
                router.background_offload_dry_run,
            )
            &&& interval >= 1 ==> config.interval.nanos == 1_000_000 * interval
            &&& interval < 1 ==> config.interval.nanos == 1_000_000 * 1
            &&& window >= 1 ==> config.window.nanos == 1_000_000 * window
            &&& window < 1 ==> config.window.nanos == 1_000_000 * 1
            &&& config.owner_load_threshold == owner_load_threshold
            &&& config.max_serving_decode_blocks == max_serving_decode_blocks
            &&& config.max_serving_prefill_tokens == max_serving_prefill_tokens
            &&& config.bytes_per_sec == bytes_per_sec
            &&& chunk_bytes >= 1 ==> config.chunk_bytes == chunk_bytes
            &&& chunk_bytes < 1 ==> config.chunk_bytes == 1
            &&& config.cooldown.nanos == 1_000_000_000 * cooldown
            &&& config.timeout.nanos == 1_000_000 * timeout
            &&& 1 <= hot_threshold <= u32::MAX ==> config.hot_threshold == hot_threshold
            &&& hot_threshold == 0 ==> config.hot_threshold == 1
            &&& 1 <= top_k <= usize::MAX ==> config.top_k == top_k
            &&& top_k == 0 ==> config.top_k == 1
            &&& 1 <= max_chunks <= usize::MAX ==> config.max_chunks == max_chunks
            &&& max_chunks == 0 ==> config.max_chunks == 1
            &&& config.max_inflight == 1
            &&& optional(config.endpoint) == lookup(vars, "DYN_LMCACHE_CONTROLLER_ENDPOINT"@)
            &&& optional(config.instance_template) == lookup(
                vars,
                "DYN_BACKGROUND_OFFLOAD_INSTANCE_TEMPLATE"@,
            )
            &&& lookup(vars, "DYN_BACKGROUND_OFFLOAD_INSTANCE_MAP"@) matches Some(list) ==> names(
                config.instance_map@,
            ) == instance_names(fields(list, ','))
        }),
{
}

/// The settings of hints: each from its variable, with its default. They are on if hints or
/// the predictor are.
pub proof fn law_hints_are_configured(env: &Environment, config: PrefetchHintConfig)
    requires
        call_ensures(PrefetchHintConfig::from_env, (env,), config),
    ensures
        ({
            let vars = env@;
            &&& config.enabled == (bool_setting(vars, "DYN_PREFETCH_HINTS_ENABLED"@, false)
                || bool_setting(vars, "DYN_GLOBAL_PREFETCH_ENABLED"@, false))
            &&& optional(config.endpoint) == lookup(vars, "DYN_PREFETCH_HINT_ENDPOINT"@)
            &&& optional(config.instance_template) == lookup(
                vars,
                "DYN_PREFETCH_HINT_INSTANCE_TEMPLATE"@,
            )
            &&& lookup(vars, "DYN_PREFETCH_HINT_INSTANCE_MAP"@) matches Some(list) ==> names(
                config.instance_map@,
            ) == instance_names(fields(list, ','))
            &&& config.max_bytes is Some <==> optional_number(
                vars,
                "DYN_PREFETCH_HINT_MAX_BYTES"@,
            ) is Some
            &&& config.max_bytes matches Some(n) ==> optional_number(
                vars,
                "DYN_PREFETCH_HINT_MAX_BYTES"@,
            ) == Some(n as nat)
            &&& config.priority == signed_setting(vars, "DYN_PREFETCH_HINT_PRIORITY"@, 0)
            &&& config.timeout.nanos == 1_000 * number_setting(
                vars,
                "DYN_PREFETCH_HINT_TIMEOUT_US"@,
                5000,
                u64::MAX as nat,
            )
        }),
{
}

} // verus!
