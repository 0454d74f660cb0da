//! Additive and threshold (Shamir) secret sharing with verified contracts,
//! plus the small bookkeeping model that routes values to a scheme.

pub mod additive;
pub mod field;
pub mod secret;
pub mod threshold;
pub mod state;
pub mod inout;
pub mod random;
