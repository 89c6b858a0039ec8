//! Settings of the predictor.

use crate::clock::Duration;
use crate::environment::{
    bool_setting, env_bool, env_usize, number_setting, Environment,
};
use crate::weights::{is_positive, Weight, INFINITY_BITS};
use vstd::prelude::*;

verus! {

/// The bits of one hundredth, the least support and probability that can be asked for.
pub const LEAST_THRESHOLD: u64 = 0x3F84_7AE1_47AE_147B;

/// The bits of one.
pub const CERTAINTY: u64 = 0x3FF0_0000_0000_0000;

/// The bits of sixteen.
pub const DEFAULT_MIN_SUPPORT: u64 = 0x4030_0000_0000_0000;

/// The bits of sixty-five hundredths.
pub const DEFAULT_MIN_PROBABILITY: u64 = 0x3FE4_CCCC_CCCC_CCCD;

/// The bits of sixty-four.
pub const DEFAULT_CHUNKS_PER_SECOND: u64 = 0x4050_0000_0000_0000;

/// Bits that no weight exceeds.
pub const UNBOUNDED: u64 = 0xFFFF_FFFF_FFFF_FFFF;

/// The settings that need not be whole numbers. `None` stands for a setting that is
/// absent or malformed. A weight that is not positive and finite counts as absent.
#[derive(Debug, Clone, Copy)]
pub struct FractionalSettings {
    pub min_support: Option<Weight>,
    pub min_probability: Option<Weight>,
    pub half_life: Option<Duration>,
    pub session_ttl: Option<Duration>,
    pub chunks_per_second: Option<Weight>,
}

#[derive(Debug, Clone, Copy)]
pub struct GlobalPrefetchConfig {
    pub enabled: bool,
    pub chunk_size: usize,
    /// How many chunks are predicted at once.
    pub top_k: usize,
    pub min_support: Weight,
    pub min_probability: Weight,
    pub half_life: Duration,
    pub session_ttl: Duration,
    pub max_sessions: usize,
    pub max_chunk_catalog: usize,
    pub max_observation_chunks: usize,
    pub max_inflight: usize,
    pub current_request_enabled: bool,
    pub temporal_enabled: bool,
    /// Leave chunks that many sessions show out of learning and prediction: they
    /// are shared templates, and predict nothing about a request.
    pub filter_stable_chunks: bool,
    pub stable_session_threshold: usize,
    /// The estimated rate at which a worker prefetches.
    pub chunks_per_second: Weight,
    pub ttl: Duration,
}

pub open spec fn at_least(value: nat, least: nat) -> nat {
    if value < least {
        least
    } else {
        value
    }
}

/// A whole-number setting of the manager, raised to `least`.
pub open spec fn size_setting(
    vars: Seq<(Seq<char>, Seq<char>)>,
    name: Seq<char>,
    default: nat,
    least: nat,
) -> nat {
    at_least(number_setting(vars, name, default, usize::MAX as nat), least)
}

fn env_size(env: &Environment, name: &str, default: usize, least: usize) -> (value: usize)
    ensures
        value == size_setting(env@, name@, default as nat, least as nat),
{
    let value: usize = env_usize(env, name, default);
    if value < least {
        least
    } else {
        value
    }
}

/// The given weight if it is positive and finite, otherwise `default`.
pub open spec fn given_weight(value: Option<Weight>, default: u64) -> Weight {
    match value {
        Some(weight) => if is_positive(weight) {
            weight
        } else {
            Weight { bits: default }
        },
        None => Weight { bits: default },
    }
}

fn read_weight(value: Option<Weight>, default: u64) -> (chosen: Weight)
    ensures
        chosen == given_weight(value, default),
{
    match value {
        Some(weight) => if 0 < weight.bits && weight.bits < INFINITY_BITS {
            weight
        } else {
            Weight { bits: default }
        },
        None => Weight { bits: default },
    }
}

/// The given weight or `default`, moved into the range from `least` to `most`.
pub open spec fn weight_setting(
    value: Option<Weight>,
    default: u64,
    least: u64,
    most: u64,
) -> Weight {
    let bits = given_weight(value, default).bits;
    Weight {
        bits: if bits < least {
            least
        } else if bits > most {
            most
        } else {
            bits
        },
    }
}

fn choose_weight(value: Option<Weight>, default: u64, least: u64, most: u64) -> (chosen: Weight)
    ensures
        chosen == weight_setting(value, default, least, most),
{
    let bits: u64 = read_weight(value, default).bits;
    if bits < least {
        Weight { bits: least }
    } else if bits > most {
        Weight { bits: most }
    } else {
        Weight { bits }
    }
}

/// The given span or `default` seconds, and at least one second.
pub open spec fn span_setting(value: Option<Duration>, default_secs: nat) -> nat {
    at_least(
        match value {
            Some(span) => span.nanos as nat,
            None => default_secs * 1_000_000_000,
        },
        1_000_000_000,
    )
}

fn choose_span(value: Option<Duration>, default_secs: u64) -> (span: Duration)
    ensures
        span.nanos == span_setting(value, default_secs as nat),
{
    let span: Duration = match value {
        Some(span) => span,
        None => Duration::from_secs(default_secs),
    };
    if span.nanos < 1_000_000_000 {
        Duration { nanos: 1_000_000_000 }
    } else {
        span
    }
}

impl GlobalPrefetchConfig {
    /// What the variables and the fractional settings say.
    pub open spec fn configured(
        self,
        vars: Seq<(Seq<char>, Seq<char>)>,
        fractions: FractionalSettings,
    ) -> bool {
        &&& self.enabled == bool_setting(vars, "DYN_GLOBAL_PREFETCH_ENABLED"@, false)
        &&& self.chunk_size == size_setting(vars, "DYN_GLOBAL_PREFETCH_CHUNK_SIZE"@, 256, 1)
        &&& self.top_k == size_setting(vars, "DYN_GLOBAL_PREFETCH_TOP_K"@, 4, 1)
        &&& self.min_support == weight_setting(
            fractions.min_support,
            DEFAULT_MIN_SUPPORT,
            LEAST_THRESHOLD,
            UNBOUNDED,
        )
        &&& self.min_probability == weight_setting(
            fractions.min_probability,
            DEFAULT_MIN_PROBABILITY,
            LEAST_THRESHOLD,
            CERTAINTY,
        )
        &&& self.half_life.nanos == span_setting(fractions.half_life, 300)
        &&& self.session_ttl.nanos == span_setting(fractions.session_ttl, 3600)
        &&& self.max_sessions == size_setting(
            vars,
            "DYN_GLOBAL_PREFETCH_MAX_SESSIONS"@,
            10_000,
            1,
        )
        &&& self.max_chunk_catalog == size_setting(
            vars,
            "DYN_GLOBAL_PREFETCH_MAX_CATALOG"@,
            10_000,
            1,
        )
        &&& self.max_observation_chunks == size_setting(
            vars,
            "DYN_GLOBAL_PREFETCH_MAX_OBSERVATION_CHUNKS"@,
            64,
            1,
        )
        &&& self.max_inflight == size_setting(vars, "DYN_GLOBAL_PREFETCH_MAX_INFLIGHT"@, 32, 1)
        &&& self.current_request_enabled == bool_setting(
            vars,
            "DYN_GLOBAL_PREFETCH_CURRENT_REQUEST_ENABLED"@,
            true,
        )
        &&& self.temporal_enabled == bool_setting(
            vars,
            "DYN_GLOBAL_PREFETCH_TEMPORAL_ENABLED"@,
            true,
        )
        &&& self.filter_stable_chunks == bool_setting(
            vars,
            "DYN_GLOBAL_PREFETCH_FILTER_STABLE_CHUNKS"@,
            true,
        )
        &&& self.stable_session_threshold == size_setting(
            vars,
            "DYN_GLOBAL_PREFETCH_STABLE_SESSION_THRESHOLD"@,
            4,
            2,
        )
        &&& self.chunks_per_second == given_weight(
            fractions.chunks_per_second,
            DEFAULT_CHUNKS_PER_SECOND,
        )
        &&& self.ttl.nanos == 1_000_000 * size_setting(
            vars,
            "DYN_GLOBAL_PREFETCH_TTL_MS"@,
            5000,
            1,
        )
    }

    /// Every size is positive, and the thresholds lie in their ranges.
    pub open spec fn bounded(self) -> bool {
        &&& self.chunk_size > 0
        &&& self.top_k > 0
        &&& LEAST_THRESHOLD <= self.min_support.bits < INFINITY_BITS
        &&& LEAST_THRESHOLD <= self.min_probability.bits <= CERTAINTY
        &&& self.half_life.nanos >= 1_000_000_000
        &&& self.session_ttl.nanos >= 1_000_000_000
        &&& self.max_sessions > 0
        &&& self.max_chunk_catalog > 0
        &&& self.max_observation_chunks > 0
        &&& self.max_inflight > 0
        &&& self.stable_session_threshold >= 2
        &&& is_positive(self.chunks_per_second)
        &&& self.ttl.nanos > 0
    }

    pub fn from_env(env: &Environment, fractions: FractionalSettings) -> (config: Self)
        ensures
            config.configured(env@, fractions),
            config.bounded(),
    {
        let ttl_ms: usize = env_size(env, "DYN_GLOBAL_PREFETCH_TTL_MS", 5000, 1);
        GlobalPrefetchConfig {
            enabled: env_bool(env, "DYN_GLOBAL_PREFETCH_ENABLED", false),
            chunk_size: env_size(env, "DYN_GLOBAL_PREFETCH_CHUNK_SIZE", 256, 1),
            top_k: env_size(env, "DYN_GLOBAL_PREFETCH_TOP_K", 4, 1),
            min_support: choose_weight(
                fractions.min_support,
                DEFAULT_MIN_SUPPORT,
                LEAST_THRESHOLD,
                UNBOUNDED,
            ),
            min_probability: choose_weight(
                fractions.min_probability,
                DEFAULT_MIN_PROBABILITY,
                LEAST_THRESHOLD,
                CERTAINTY,
            ),
            half_life: choose_span(fractions.half_life, 300),
            session_ttl: choose_span(fractions.session_ttl, 3600),
            max_sessions: env_size(env, "DYN_GLOBAL_PREFETCH_MAX_SESSIONS", 10_000, 1),
            max_chunk_catalog: env_size(env, "DYN_GLOBAL_PREFETCH_MAX_CATALOG", 10_000, 1),
            max_observation_chunks: env_size(
                env,
                "DYN_GLOBAL_PREFETCH_MAX_OBSERVATION_CHUNKS",
                64,
                1,
            ),
            max_inflight: env_size(env, "DYN_GLOBAL_PREFETCH_MAX_INFLIGHT", 32, 1),
            current_request_enabled: env_bool(
                env,
                "DYN_GLOBAL_PREFETCH_CURRENT_REQUEST_ENABLED",
                true,
            ),
            temporal_enabled: env_bool(env, "DYN_GLOBAL_PREFETCH_TEMPORAL_ENABLED", true),
            filter_stable_chunks: env_bool(env, "DYN_GLOBAL_PREFETCH_FILTER_STABLE_CHUNKS", true),
            stable_session_threshold: env_size(
                env,
                "DYN_GLOBAL_PREFETCH_STABLE_SESSION_THRESHOLD",
                4,
                2,
            ),
            chunks_per_second: read_weight(
                fractions.chunks_per_second,
                DEFAULT_CHUNKS_PER_SECOND,
            ),
            ttl: Duration::from_millis(ttl_ms as u64),
        }
    }
}

} // verus!
