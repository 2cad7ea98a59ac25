//! A backend-agnostic object-storage gateway core: one storage contract over
//! interchangeable backends, a metadata model, and the services built on it —
//! content-addressed deduplication, linear version histories, a bounded
//! read-through cache, and expiring share capabilities.

pub mod caching;
pub mod clock;
pub mod config;
pub mod deduplication;
pub mod error;
pub mod health;
pub mod ids;
pub mod kvmap;
pub mod metadata;
pub mod processing;
pub mod search;
pub mod sharing;
pub mod storage;
pub mod text;
pub mod versioning;
pub mod webhooks;
