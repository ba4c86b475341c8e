//! Core logic of a small order service: a per-client sliding-window rate
//! limiter, request fingerprinting, the idempotent order-creation protocol and
//! the responses the service answers with.
//!
//! - `rate_limiter`: the limiter and its per-key windows; `window_laws`: what
//!   holds of it across requests and keys; `history_laws`: what holds of it
//!   over a key's whole history read from a monotone clock.
//! - `admission`: the decision on each incoming request (pass with headers,
//!   or 429).
//! - `orders`: the order-creation protocol as a state machine;
//!   `order_laws`: what holds of it across steps and requests.
//! - `response`: response bodies and the answers of the simple endpoints.
//! - `digest`: body fingerprints; `text`: decimal, hex and header text rules;
//!   `clock`: the monotonic clock; `models`: request bodies.

pub mod clock;
pub mod rate_limiter;
pub mod window_laws;
pub mod history_laws;
pub mod text;
pub mod digest;
pub mod models;
pub mod response;
pub mod admission;
pub mod orders;
pub mod order_laws;
