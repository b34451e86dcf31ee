//! Geo-aware proxy routing: resolves a client's region from its geographic
//! origin, picks one of two fixed upstream proxy endpoints, and keeps
//! per-(country, client version) request counters in an OpenMetrics registry.

pub mod app;
pub mod routes;
pub mod telemetry;
pub mod utils;
