//! Router-side planning of key/value cache movement between serving workers.

pub mod clock;
pub mod key_map;
pub mod text;
pub mod text_laws;
pub mod environment;
pub mod protocols;
pub mod weights;
pub mod chunks;
pub mod ranking;
pub mod associations;
pub mod prefetch_hint;
pub mod hint_laws;
pub mod global_config;
pub mod worker_choice;
pub mod manager_state;
pub mod prediction;
pub mod global_prefetch;
pub mod manager_invariant;
pub mod byte_rate;
pub mod offload_config;
pub mod offload;
pub mod offload_exchange;
pub mod lookahead;
pub mod job_queue;
pub mod lookahead_laws;
pub mod prefetch;
pub mod segment_id;
pub mod identity_laws;
pub mod settings_laws;
pub mod exchange_laws;
pub mod offload_laws;
pub mod learning_laws;
pub mod prediction_laws;
pub mod route_laws;
pub mod state_laws;
