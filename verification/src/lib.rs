//! A minimal latency/load-testing probe: one HTTP GET endpoint that
//! optionally performs a CPU-bound busy-wait proportional to a
//! caller-supplied `IncrementLimit` query parameter, then returns a JSON
//! payload holding an opaque request identifier and a chain of Unix epoch
//! timestamps.
//!
//! This crate holds the verified request lifecycle: parameter parsing with
//! a default, the work-simulation loop, timestamp encoding, and response
//! serialization. The HTTP server around it lives outside the library.

pub mod decimal;
pub mod handler;
pub mod json;
pub mod params;
pub mod response;
pub mod work;
