//! A per-key rate limiter: declarative rules, lazily refilled quotas and
//! per-limiter whitelists of byte-pattern filters.
//!
//! Keys arrive already encoded, as bytes. Each limiter id names an
//! independent domain: a key without a rule is always admitted, and a
//! whitelist filter that matches a key lets it bypass the limiter.

pub mod filter;
pub mod limiter;
pub mod rule;
mod store;
pub mod whitelist;

pub use filter::KeyFilter;
pub use limiter::{Error, Event, Origin, RateLimit, RateLimiterError};
pub use rule::{Quota, RateLimitRule};
