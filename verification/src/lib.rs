//! What a Prometheus exporter for Docker decides: which queries it sends to the Docker
//! daemon, which containers, volumes and images it tracks, and which samples it publishes
//! for them.

pub mod collector;
pub mod config;
pub mod docker;
pub mod http;
pub mod string_map;
pub mod text;
