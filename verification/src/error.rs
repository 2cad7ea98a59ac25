//! Error kinds shared by every service of the gateway.
//!
//! A backend failure is wrapped, never swallowed, and "object missing" stays
//! distinct from "storage unreachable" end to end.

use vstd::prelude::*;

verus! {

/// The error type every gateway operation returns.
///
/// Each variant carries a human-readable detail string.
#[derive(Debug, Clone)]
pub enum ApiError {
    /// A generic backend failure, wrapping the backend's native error text.
    Storage(String),
    /// A named storage backend is absent from the configuration.
    StorageNotFound(String),
    /// No object with the requested key exists.
    FileNotFound(String),
    /// An object, version, or share link is absent.
    NotFound(String),
    /// Malformed custom or version data.
    InvalidMetadata(String),
    /// An input/output failure below the backend.
    Io(String),
    /// A value could not be encoded or decoded.
    Serialization(String),
    /// The configuration could not be read or parsed.
    Config(String),
    /// An unexpected internal failure.
    Internal(String),
}

impl ApiError {
    /// The detail string the error was built with.
    pub fn detail(&self) -> (r: &String)
        ensures
            r@ == self.detail_view(),
    {
        match self {
            ApiError::Storage(s) => s,
            ApiError::StorageNotFound(s) => s,
            ApiError::FileNotFound(s) => s,
            ApiError::NotFound(s) => s,
            ApiError::InvalidMetadata(s) => s,
            ApiError::Io(s) => s,
            ApiError::Serialization(s) => s,
            ApiError::Config(s) => s,
            ApiError::Internal(s) => s,
        }
    }

    /// The detail string, as a mathematical sequence of characters.
    pub open spec fn detail_view(&self) -> Seq<char> {
        match self {
            ApiError::Storage(s) => s@,
            ApiError::StorageNotFound(s) => s@,
            ApiError::FileNotFound(s) => s@,
            ApiError::NotFound(s) => s@,
            ApiError::InvalidMetadata(s) => s@,
            ApiError::Io(s) => s@,
            ApiError::Serialization(s) => s@,
            ApiError::Config(s) => s@,
            ApiError::Internal(s) => s@,
        }
    }

    /// A message that names the error kind and then the detail, in the shape
    /// `"<kind>: <detail>"`.
    pub fn message(&self) -> (r: String)
        ensures
            r@ == self.message_prefix() + self.detail_view(),
    {
        let prefix: &str = match self {
            ApiError::Storage(_) => "Storage error: ",
            ApiError::StorageNotFound(_) => "Storage not found: ",
            ApiError::FileNotFound(_) => "File not found: ",
            ApiError::NotFound(_) => "Not found: ",
            ApiError::InvalidMetadata(_) => "Invalid metadata: ",
            ApiError::Io(_) => "IO error: ",
            ApiError::Serialization(_) => "Serialization error: ",
            ApiError::Config(_) => "Configuration error: ",
            ApiError::Internal(_) => "Internal server error: ",
        };
        let mut out = String::from_str(prefix);
        out.append(self.detail().as_str());
        out
    }

    /// The fixed kind text that `message` puts before the detail.
    pub open spec fn message_prefix(&self) -> Seq<char> {
        match self {
            ApiError::Storage(_) => "Storage error: "@,
            ApiError::StorageNotFound(_) => "Storage not found: "@,
            ApiError::FileNotFound(_) => "File not found: "@,
            ApiError::NotFound(_) => "Not found: "@,
            ApiError::InvalidMetadata(_) => "Invalid metadata: "@,
            ApiError::Io(_) => "IO error: "@,
            ApiError::Serialization(_) => "Serialization error: "@,
            ApiError::Config(_) => "Configuration error: "@,
            ApiError::Internal(_) => "Internal server error: "@,
        }
    }
}

} // verus!
