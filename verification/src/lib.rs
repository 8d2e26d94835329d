//! A mailing list with confirmed subscriptions, idempotent publishing and a
//! delivery queue with leases and retries, with every rule stated as a
//! contract.

pub mod system;
pub mod encoding;
pub mod domain;
pub mod errors;
pub mod subscriber;
pub mod token;
pub mod confirmation;
pub mod delivery;
pub mod idempotency;
pub mod newsletter;
pub mod worker;
pub mod configuration;
