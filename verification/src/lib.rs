//! A prediction market: binary (yes/no) markets on which users stake, with a
//! fee taken on every stake, pari-mutuel payouts at resolution, and
//! claim-style refunds when a market is cancelled.
//!
//! The host environment (token transfers, cross-contract calls, storage) is
//! outside this crate: accounts are identified by integers, time is passed
//! in, and every operation returns the amounts that the host must move.

pub mod sums;
pub mod fees;
pub mod types;
pub mod model;
mod lemmas;
pub mod market;
pub mod evil_referral;
pub mod laws;
