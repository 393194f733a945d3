//! Error taxonomy of the configuration and audit service.
//!
//! Storage errors cover persistence (I/O, serialization, missing and
//! duplicate resources, corruption); configuration, network and validation
//! errors cover the remaining failure classes. Failures originating outside
//! the library are carried as plain message strings.

use vstd::prelude::*;

verus! {

/// Common result type used throughout the library.
pub type MceptionResult<T> = Result<T, MceptionError>;

/// Top-level error type of the service.
#[derive(Debug, Clone)]
pub enum MceptionError {
    Storage(StorageError),
    Configuration(ConfigurationError),
    Network(NetworkError),
    Validation(ValidationError),
}

/// Errors related to data storage operations.
#[derive(Debug, Clone)]
pub enum StorageError {
    /// An input/output failure, described by its message.
    Io(String),
    /// A serialization or deserialization failure, described by its message.
    Serialization(String),
    NotFound(String),
    AlreadyExists(String),
    Corruption(String),
}

/// Errors related to configuration management.
#[derive(Debug, Clone)]
pub enum ConfigurationError {
    InvalidConfiguration(String),
    MissingRequiredField(String),
    ConflictingSettings(String),
}

/// Errors related to network operations (reserved for the forwarding layer).
#[derive(Debug, Clone)]
pub enum NetworkError {
    ConnectionFailed(String),
    Timeout(String),
    InvalidUrl(String),
}

/// Errors related to data validation.
#[derive(Debug, Clone)]
pub enum ValidationError {
    InvalidFormat(String),
    ValueOutOfRange(String),
    RequiredFieldMissing(String),
}

impl StorageError {
    /// A human-readable description of the error.
    pub fn message(&self) -> String {
        match self {
            StorageError::Io(m) => String::from_str("IO error: ").concat(m.as_str()),
            StorageError::Serialization(m) => {
                String::from_str("Serialization error: ").concat(m.as_str())
            },
            StorageError::NotFound(m) => {
                String::from_str("Resource not found: ").concat(m.as_str())
            },
            StorageError::AlreadyExists(m) => {
                String::from_str("Resource already exists: ").concat(m.as_str())
            },
            StorageError::Corruption(m) => {
                String::from_str("Data corruption detected: ").concat(m.as_str())
            },
        }
    }
}

impl ConfigurationError {
    /// A human-readable description of the error.
    pub fn message(&self) -> String {
        match self {
            ConfigurationError::InvalidConfiguration(m) => {
                String::from_str("Invalid configuration: ").concat(m.as_str())
            },
            ConfigurationError::MissingRequiredField(m) => {
                String::from_str("Missing required field: ").concat(m.as_str())
            },
            ConfigurationError::ConflictingSettings(m) => {
                String::from_str("Conflicting settings: ").concat(m.as_str())
            },
        }
    }
}

impl NetworkError {
    /// A human-readable description of the error.
    pub fn message(&self) -> String {
        match self {
            NetworkError::ConnectionFailed(m) => {
                String::from_str("Connection failed: ").concat(m.as_str())
            },
            NetworkError::Timeout(m) => {
                String::from_str("Operation timed out: ").concat(m.as_str())
            },
            NetworkError::InvalidUrl(m) => String::from_str("Invalid URL: ").concat(m.as_str()),
        }
    }
}

impl ValidationError {
    /// A human-readable description of the error.
    pub fn message(&self) -> String {
        match self {
            ValidationError::InvalidFormat(m) => {
                String::from_str("Invalid format: ").concat(m.as_str())
            },
            ValidationError::ValueOutOfRange(m) => {
                String::from_str("Value out of range: ").concat(m.as_str())
            },
            ValidationError::RequiredFieldMissing(m) => {
                String::from_str("Required field missing: ").concat(m.as_str())
            },
        }
    }
}

impl MceptionError {
    /// A human-readable description of the error.
    pub fn message(&self) -> String {
        match self {
            MceptionError::Storage(e) => {
                String::from_str("Storage error: ").concat(e.message().as_str())
            },
            MceptionError::Configuration(e) => {
                String::from_str("Configuration error: ").concat(e.message().as_str())
            },
            MceptionError::Network(e) => {
                String::from_str("Network error: ").concat(e.message().as_str())
            },
            MceptionError::Validation(e) => {
                String::from_str("Validation error: ").concat(e.message().as_str())
            },
        }
    }
}

} // verus!
