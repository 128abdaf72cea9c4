//! Streaming fee-estimation engine: recent-slot state, blockhash rollback,
//! prioritization-fee percentiles, batched RPC planning and per-subscriber
//! slot filtering.
pub mod keys;
pub mod geyser;
pub mod fees;
pub mod blockhash;
pub mod slot_info;
pub mod subscription;
pub mod window;
pub mod state;
pub mod mux;
pub mod config;
pub mod stream;
