//! Verified core of the nexus gateway: routing, caching and security header
//! policy, request protection bookkeeping, and registry-driven state updates.
pub mod text;
pub mod headers;
pub mod state;
pub mod route_table;
pub mod startup;
pub mod ip;
pub mod metrics;
pub mod protection;
pub mod proxy;
pub mod auth;
pub mod spa;
pub mod registry;
