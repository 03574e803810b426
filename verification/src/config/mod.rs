//! Runtime options, policies and business inputs.

pub mod business;
pub mod policy;
pub mod runtime;

pub use business::{BusinessContext, BusinessProfile, BusinessProfileView};
pub use policy::{
    AuthPolicy, CacheMode, CachePolicy, CdnPolicy, CdnStrategy, CircuitBreakerPolicy, DnsPolicy,
    DnsSelectionStrategy, RateLimitPolicy, ResumePolicy, RetryPolicy,
};
pub use runtime::RuntimeOptions;
