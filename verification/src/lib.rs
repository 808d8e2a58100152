//! The host zome of a hosting service for hApps, written as verified decision
//! logic. Every zome function of the host is a procedure: it alternates
//! requests to the DHT (read links, write links, call another zome, sleep)
//! with decisions on what those requests answered. The procedures here take
//! the answers as events and say which request comes next, or with what
//! result the zome function ends; the conductor-facing shell performs the
//! requests.

pub mod error;
pub mod dht;
pub mod host;
pub mod enable;
pub mod disable;
pub mod apps;
pub mod kv;
pub mod service_log;
pub mod registration;
pub mod app_config;
pub mod laws;
