//! A small verified core for an HTTP/1.1 server: a wire codec that parses a
//! request out of raw bytes and renders responses back into bytes, a route
//! dispatcher, and a worker-pool model with a first-in-first-out task queue.

pub mod pool;
pub mod request;
pub mod response;
pub mod router;
pub mod wire;
