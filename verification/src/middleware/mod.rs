//! Request gates: API-key authentication and per-client rate limiting.

pub mod auth;
pub mod rate_limit;

pub use auth::Auth;
pub use rate_limit::RateLimit;
