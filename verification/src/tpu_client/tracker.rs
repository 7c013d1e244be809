//! Trackers for the current slot, the epoch schedule and the leaders' sockets.
pub mod leader_tracker;
pub mod schedule_tracking;
pub mod slots_tracker;
