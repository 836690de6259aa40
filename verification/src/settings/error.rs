use vstd::prelude::*;

verus! {

#[verifier::external_type_specification]
#[verifier::external_body]
pub struct ExIoError(std::io::Error);

/// Errors that can occur in the settings system.
#[derive(Debug)]
pub enum SettingsError {
    /// I/O error during file operations.
    Io(std::io::Error),
    /// Error during serialization.
    Serialization(String),
    /// Error during deserialization.
    Deserialization(String),
    /// Path resolution failed due to a missing placeholder value.
    PathResolution(String),
    /// Settings file not found at the specified path.
    NotFound(String),
    /// Unsupported file format.
    UnsupportedFormat(String),
    /// Invalid file extension.
    InvalidExtension(String),
    /// Settings type not registered.
    NotRegistered(String),
    /// Delta storage error.
    DeltaError(String),
    /// Runtime error.
    Runtime(String),
}

/// Result type alias for settings operations.
pub type SettingsResult<T> = Result<T, SettingsError>;

} // verus!
