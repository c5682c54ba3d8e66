//! The proxy as it runs at the edge, where the platform caches responses and coalesces requests.

pub mod config;
pub mod proxy;
pub mod rotator;
