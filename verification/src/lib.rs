pub mod cache;
pub mod clock;
pub mod config;
pub mod flights;
pub mod http;
pub mod json;
pub mod proxy;
pub mod rotator;
pub mod stats;
pub mod text;
pub mod worker;
