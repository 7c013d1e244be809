//! TPU connection management for Solana validators.
pub mod manager;
pub mod tracker;

pub use manager::TpuConnectionManager;
pub use tracker::leader_tracker::LeaderTracker;
