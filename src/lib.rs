//! Session and share orchestration for threshold key generation and signing:
//! session parameters, message routing between shares, the per-share round
//! driver, reconciliation of share outcomes, and the key-share store.
pub mod context;
pub mod driver;
pub mod reconcile;
pub mod router;
pub mod service;
pub mod store;
pub mod text;
