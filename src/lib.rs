//! Sampling-and-serving engine of a host telemetry collector.
//!
//! The library holds the logic: the uniform metric model, the counter-to-rate
//! engine, the per-subsystem snapshot builders, the shaping of samples into
//! the HTTP and RPC responses, and the lifecycle decisions (listener handshake,
//! parent watchdog, one-shot shutdown). Reading the operating system, serving
//! requests and writing files happen around it.

pub mod text;
pub mod metric;
pub mod rate;
pub mod network_monitor;
pub mod disk_monitor;
pub mod memory_monitor;
pub mod cpu_monitor;
pub mod rest_api;
pub mod service;
pub mod temperature;
