pub mod metrics;
pub mod proxy;
