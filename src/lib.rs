//! The caching and event-sourced projection engine of a party service:
//! a coalescing, time-bounded cache, an append-only party event log, the
//! fold that turns a party's history into its members and settings, and
//! the rules that keep cached states in step with the log.

pub mod app_cache;
pub mod cache;
pub mod event;
pub mod ids;
pub mod models;
pub mod party;
pub mod players;
pub mod servers;
pub mod state;
pub mod store;
pub mod text;
