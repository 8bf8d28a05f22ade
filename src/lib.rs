//! Collects telemetry relayed by a gateway from environmental sensors, decodes
//! the vendor payload of each advertisement and renders the latest readings as
//! a plaintext metrics document.

pub mod text;
pub mod metrics;
pub mod rw_message;
pub mod reading;
pub mod measurements;
pub mod config;
pub mod collector;
