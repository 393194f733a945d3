//! Configuration and audit service for a registry of leaf service endpoints
//! and agent consumers.
//!
//! The library owns the in-memory configuration, enforces the validation and
//! referential-integrity rules on every mutation, records each action as an
//! immutable audit entry, and renders / parses the persisted document format.
//! File and network handling live outside the library; storage backends are
//! plugged in through the [`ConfigStorage`](service::ConfigStorage) and
//! [`AuditStorage`](service::AuditStorage) traits.

pub mod audit_query;
pub mod codec;
pub mod convert;
pub mod errors;
pub mod ext;
pub mod idmap;
pub mod kv;
pub mod laws;
pub mod projection;
pub mod service;
pub mod store;
pub mod strutil;
pub mod types;
pub mod value;

pub use errors::{
    ConfigurationError, MceptionError, MceptionResult, NetworkError, StorageError, ValidationError,
};
