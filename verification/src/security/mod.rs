//! Security features: session timeouts and request rate limits.

pub mod rate_limit;
pub mod timeout;

pub use rate_limit::effective_rate;
pub use timeout::TimeoutManager;
