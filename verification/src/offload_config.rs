//! Settings of the background offload planner.

use crate::clock::Duration;
use crate::environment::{
    bool_setting, env_bool, env_u64, lookup, number_setting, Environment,
};
use crate::global_config::at_least;
use crate::prefetch_hint::{instance_names, names, parse_instance_map_value, text_setting};
use crate::text::{fields, optional};
use std::collections::HashMap;
use vstd::prelude::*;

verus! {

/// The router settings that serve as defaults of the planner's.
#[derive(Debug, Clone, Copy)]
pub struct KvRouterConfig {
    pub enable_background_offload: bool,
    pub background_offload_dry_run: bool,
    pub offload_interval_ms: u64,
    pub offload_window_ms: u64,
    pub offload_hot_request_threshold: u32,
    pub offload_owner_load_threshold: u64,
    pub offload_top_k: usize,
    pub offload_max_chunks: usize,
    pub offload_cooldown_secs: u64,
}

pub struct PlannerConfig {
    pub enabled: bool,
    pub dry_run: bool,
    pub interval: Duration,
    pub window: Duration,
    pub hot_threshold: u32,
    pub owner_load_threshold: u64,
    pub top_k: usize,
    pub max_chunks: usize,
    /// Always one: background copies never run side by side.
    pub max_inflight: usize,
    /// No background copy is admitted while the workers decode more blocks than this.
    pub max_serving_decode_blocks: u64,
    /// No background copy is admitted while more tokens than this wait for prefill.
    pub max_serving_prefill_tokens: u64,
    /// The sustained write rate; zero means that it is not limited.
    pub bytes_per_sec: u64,
    /// The estimated size of a chunk.
    pub chunk_bytes: u64,
    pub cooldown: Duration,
    pub endpoint: Option<String>,
    pub instance_template: Option<String>,
    pub instance_map: HashMap<u64, String>,
    pub timeout: Duration,
}

/// A 64-bit setting.
pub open spec fn wide_setting(
    vars: Seq<(Seq<char>, Seq<char>)>,
    name: Seq<char>,
    default: nat,
) -> nat {
    number_setting(vars, name, default, u64::MAX as nat)
}

/// A setting that counts things: its low bits, as many as an index has.
pub open spec fn count_setting(
    vars: Seq<(Seq<char>, Seq<char>)>,
    name: Seq<char>,
    default: usize,
) -> usize {
    (wide_setting(vars, name, default as nat) as u64) as usize
}

fn env_usize(env: &Environment, name: &str, default: usize) -> (value: usize)
    ensures
        value == count_setting(env@, name@, default),
{
    #[verifier::truncate]
    (env_u64(env, name, default as u64) as usize)
}

fn raised(value: u64) -> (positive: u64)
    ensures
        positive == at_least(value as nat, 1),
{
    if value == 0 {
        1
    } else {
        value
    }
}

/// Reads a comma-separated list of `worker=instance` or `worker:instance` entries.
pub fn parse_instance_map(value: &str) -> (map: HashMap<u64, String>)
    ensures
        names(map@) == instance_names(fields(value@, ',')),
{
    parse_instance_map_value(value)
}

impl PlannerConfig {
    /// What the variables say, with the router settings as defaults.
    pub open spec fn configured(
        self,
        vars: Seq<(Seq<char>, Seq<char>)>,
        config: KvRouterConfig,
    ) -> bool {
        &&& self.enabled == bool_setting(
            vars,
            "DYN_BACKGROUND_OFFLOAD_ENABLED"@,
            config.enable_background_offload,
        )
        &&& self.dry_run == bool_setting(
            vars,
            "DYN_BACKGROUND_OFFLOAD_DRY_RUN"@,
            config.background_offload_dry_run,
        )
        &&& self.interval.nanos == 1_000_000 * at_least(
            wide_setting(
                vars,
                "DYN_BACKGROUND_OFFLOAD_INTERVAL_MS"@,
                config.offload_interval_ms as nat,
            ),
            1,
        )
        &&& self.window.nanos == 1_000_000 * at_least(
            wide_setting(
                vars,
                "DYN_BACKGROUND_OFFLOAD_WINDOW_MS"@,
                config.offload_window_ms as nat,
            ),
            1,
        )
        &&& self.hot_threshold == (at_least(
            wide_setting(
                vars,
                "DYN_BACKGROUND_OFFLOAD_HOT_REQUEST_THRESHOLD"@,
                config.offload_hot_request_threshold as nat,
            ),
            1,
        ) as u64) as u32
        &&& self.owner_load_threshold == wide_setting(
            vars,
            "DYN_BACKGROUND_OFFLOAD_OWNER_LOAD_THRESHOLD"@,
            config.offload_owner_load_threshold as nat,
        )
        &&& self.top_k == at_least(
            count_setting(vars, "DYN_BACKGROUND_OFFLOAD_TOP_K"@, config.offload_top_k) as nat,
            1,
        )
        &&& self.max_chunks == at_least(
            count_setting(
                vars,
                "DYN_BACKGROUND_OFFLOAD_MAX_CHUNKS"@,
                config.offload_max_chunks,
            ) as nat,
            1,
        )
        &&& self.max_inflight == 1
        &&& self.max_serving_decode_blocks == wide_setting(
            vars,
            "DYN_BACKGROUND_OFFLOAD_MAX_ACTIVE_DECODE_BLOCKS"@,
            16,
        )
        &&& self.max_serving_prefill_tokens == wide_setting(
            vars,
            "DYN_BACKGROUND_OFFLOAD_MAX_PENDING_PREFILL_TOKENS"@,
            0,
        )
        &&& self.bytes_per_sec == wide_setting(
            vars,
            "DYN_BACKGROUND_OFFLOAD_BYTES_PER_SEC"@,
            64 * 1024 * 1024,
        )
        &&& self.chunk_bytes == at_least(
            wide_setting(vars, "DYN_BACKGROUND_OFFLOAD_CHUNK_BYTES"@, 1024 * 1024),
            1,
        )
        &&& self.cooldown.nanos == 1_000_000_000 * wide_setting(
            vars,
            "DYN_BACKGROUND_OFFLOAD_COOLDOWN_SECS"@,
            config.offload_cooldown_secs as nat,
        )
        &&& optional(self.endpoint) == lookup(vars, "DYN_LMCACHE_CONTROLLER_ENDPOINT"@)
        &&& optional(self.instance_template) == lookup(
            vars,
            "DYN_BACKGROUND_OFFLOAD_INSTANCE_TEMPLATE"@,
        )
        &&& names(self.instance_map@) == instance_names(
            fields(text_setting(vars, "DYN_BACKGROUND_OFFLOAD_INSTANCE_MAP"@), ','),
        )
        &&& self.timeout.nanos == 1_000_000 * wide_setting(
            vars,
            "DYN_BACKGROUND_OFFLOAD_TIMEOUT_MS"@,
            5_000,
        )
    }

    /// Spans and sizes are positive, and one copy runs at a time.
    pub open spec fn bounded(self) -> bool {
        &&& self.interval.nanos > 0
        &&& self.window.nanos > 0
        &&& self.top_k > 0
        &&& self.max_chunks > 0
        &&& self.max_inflight == 1
        &&& self.chunk_bytes > 0
    }

    pub fn from_config(config: KvRouterConfig, env: &Environment) -> (planner: Self)
        ensures
            planner.configured(env@, config),
            planner.bounded(),
    {
        let top_k: usize = env_usize(env, "DYN_BACKGROUND_OFFLOAD_TOP_K", config.offload_top_k);
        let max_chunks: usize = env_usize(
            env,
            "DYN_BACKGROUND_OFFLOAD_MAX_CHUNKS",
            config.offload_max_chunks,
        );
        let instances: String = match env.var("DYN_BACKGROUND_OFFLOAD_INSTANCE_MAP") {
            Some(value) => value,
            None => "".to_owned(),
        };
        proof {
            reveal_strlit("");
            assert(instances@ =~= text_setting(env@, "DYN_BACKGROUND_OFFLOAD_INSTANCE_MAP"@));
        }
        PlannerConfig {
            enabled: env_bool(
                env,
                "DYN_BACKGROUND_OFFLOAD_ENABLED",
                config.enable_background_offload,
            ),
            dry_run: env_bool(
                env,
                "DYN_BACKGROUND_OFFLOAD_DRY_RUN",
                config.background_offload_dry_run,
            ),
            interval: Duration::from_millis(
                raised(
                    env_u64(env, "DYN_BACKGROUND_OFFLOAD_INTERVAL_MS", config.offload_interval_ms),
                ),
            ),
            window: Duration::from_millis(
                raised(env_u64(env, "DYN_BACKGROUND_OFFLOAD_WINDOW_MS", config.offload_window_ms)),
            ),
            hot_threshold: #[verifier::truncate]
            (raised(
                env_u64(
                    env,
                    "DYN_BACKGROUND_OFFLOAD_HOT_REQUEST_THRESHOLD",
                    config.offload_hot_request_threshold as u64,
                ),
            ) as u32),
            owner_load_threshold: env_u64(
                env,
                "DYN_BACKGROUND_OFFLOAD_OWNER_LOAD_THRESHOLD",
                config.offload_owner_load_threshold,
            ),
            top_k: if top_k == 0 {
                1
            } else {
                top_k
            },
            max_chunks: if max_chunks == 0 {
                1
            } else {
                max_chunks
            },
            max_inflight: 1,
            max_serving_decode_blocks: env_u64(
                env,
                "DYN_BACKGROUND_OFFLOAD_MAX_ACTIVE_DECODE_BLOCKS",
                16,
            ),
            max_serving_prefill_tokens: env_u64(
                env,
                "DYN_BACKGROUND_OFFLOAD_MAX_PENDING_PREFILL_TOKENS",
                0,
            ),
            bytes_per_sec: env_u64(
                env,
                "DYN_BACKGROUND_OFFLOAD_BYTES_PER_SEC",
                64 * 1024 * 1024,
            ),
            chunk_bytes: raised(
                env_u64(env, "DYN_BACKGROUND_OFFLOAD_CHUNK_BYTES", 1024 * 1024),
            ),
            cooldown: Duration::from_secs(
                env_u64(env, "DYN_BACKGROUND_OFFLOAD_COOLDOWN_SECS", config.offload_cooldown_secs),
            ),
            endpoint: env.var("DYN_LMCACHE_CONTROLLER_ENDPOINT"),
            instance_template: env.var("DYN_BACKGROUND_OFFLOAD_INSTANCE_TEMPLATE"),
            instance_map: parse_instance_map(instances.as_str()),
            timeout: Duration::from_millis(
                env_u64(env, "DYN_BACKGROUND_OFFLOAD_TIMEOUT_MS", 5_000),
            ),
        }
    }

    /// The bytes that one copy may take: its estimated size, but no more than accrue
    /// in a second unless a single chunk is larger. Zero without a limit.
    pub open spec fn operation_bytes(self) -> nat {
        let estimated = self.max_chunks * self.chunk_bytes;
        let budget = at_least(self.bytes_per_sec as nat, self.chunk_bytes as nat);
        if self.bytes_per_sec == 0 {
            0
        } else if estimated < budget {
            estimated as nat
        } else {
            budget
        }
    }

    pub fn max_bytes_per_operation(&self) -> (bytes: u64)
        ensures
            bytes == self.operation_bytes(),
    {
        if self.bytes_per_sec == 0 {
            return 0;
        }
        let budget: u64 = if self.bytes_per_sec < self.chunk_bytes {
            self.chunk_bytes
        } else {
            self.bytes_per_sec
        };
        proof {
            assert(0 <= self.max_chunks * self.chunk_bytes <= u128::MAX) by (nonlinear_arith)
                requires
                    0 <= self.max_chunks <= u64::MAX,
                    0 <= self.chunk_bytes <= u64::MAX,
            ;
        }
        let estimated: u128 = self.max_chunks as u128 * self.chunk_bytes as u128;
        if estimated < budget as u128 {
            estimated as u64
        } else {
            budget
        }
    }
}

} // verus!
