//! A server-fleet monitoring hub: agent sessions and their authentication,
//! the registry of live agents, dashboard snapshots, the agents' update
//! command channel, and a tiered time-series store with rollups and
//! retention.

pub mod admin;
pub mod agent;
pub mod api;
pub mod compose;
pub mod config;
pub mod credentials;
pub mod netspeed;
pub mod registry;
pub mod session;
pub mod store;
pub mod table;
pub mod text;
