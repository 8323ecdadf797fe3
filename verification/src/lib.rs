//! A verified name-registry marketplace.
//!
//! Accounts reserve names through a commit-reveal auction, hold and renew
//! ownership for a duration measured in epochs, receive stake from third
//! parties, sell subscriptions to name-scoped services, and resolve
//! disagreements about delivered content through judge-voted disputes.
//!
//! Every operation is a single atomic state transition: the host passes in
//! the caller, the attached payment and the current block height as plain
//! values, and receives back the payouts it must perform.

pub mod clock;
pub mod delegation;
pub mod dispute;
pub mod errors;
pub mod hashing;
pub mod ids;
pub mod meta;
pub mod registry;
pub mod subscription;
pub mod table;
