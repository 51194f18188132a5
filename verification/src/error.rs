//! Error handling for the chunking library.

use vstd::prelude::*;
use vstd::string::StringExecFns;

verus! {

#[verifier::external_type_specification]
#[verifier::external_body]
pub struct ExIoError(std::io::Error);

/// Relies on `<std::io::Error as ToString>::to_string`, the textual
/// rendering of an I/O error. Nothing is promised of the text.
#[verifier::external_body]
fn io_error_message(err: &std::io::Error) -> String {
    err.to_string()
}

/// Errors that can occur during chunking operations
#[derive(Debug, Clone, PartialEq, Eq)]
pub enum ChunkingError {
    /// Configuration validation error
    InvalidConfig(String),
    /// Input data error
    InvalidInput(String),
    /// Internal processing error
    ProcessingError(String),
    /// I/O related error
    IoError(String),
}

impl ChunkingError {
    /// The rendering of this error as text: a class prefix followed by the message.
    pub open spec fn spec_display(&self) -> Seq<char> {
        match self {
            ChunkingError::InvalidConfig(msg) => "Invalid configuration: "@ + msg@,
            ChunkingError::InvalidInput(msg) => "Invalid input: "@ + msg@,
            ChunkingError::ProcessingError(msg) => "Processing error: "@ + msg@,
            ChunkingError::IoError(msg) => "I/O error: "@ + msg@,
        }
    }

    /// Create a new InvalidConfig error
    pub fn invalid_config(msg: &str) -> (r: Self)
        ensures
            r matches ChunkingError::InvalidConfig(m) && m@ == msg@,
    {
        ChunkingError::InvalidConfig(msg.to_owned())
    }

    /// Create a new InvalidInput error
    pub fn invalid_input(msg: &str) -> (r: Self)
        ensures
            r matches ChunkingError::InvalidInput(m) && m@ == msg@,
    {
        ChunkingError::InvalidInput(msg.to_owned())
    }

    /// Create a new ProcessingError
    pub fn processing_error(msg: &str) -> (r: Self)
        ensures
            r matches ChunkingError::ProcessingError(m) && m@ == msg@,
    {
        ChunkingError::ProcessingError(msg.to_owned())
    }

    /// Create a new IoError
    pub fn io_error(msg: &str) -> (r: Self)
        ensures
            r matches ChunkingError::IoError(m) && m@ == msg@,
    {
        ChunkingError::IoError(msg.to_owned())
    }

    /// Render the error as text, prefixed with its class.
    pub fn to_string(&self) -> (r: String)
        ensures
            r@ == self.spec_display(),
    {
        match self {
            ChunkingError::InvalidConfig(msg) => {
                "Invalid configuration: ".to_owned().concat(msg.as_str())
            },
            ChunkingError::InvalidInput(msg) => "Invalid input: ".to_owned().concat(msg.as_str()),
            ChunkingError::ProcessingError(msg) => {
                "Processing error: ".to_owned().concat(msg.as_str())
            },
            ChunkingError::IoError(msg) => "I/O error: ".to_owned().concat(msg.as_str()),
        }
    }
}

impl From<std::io::Error> for ChunkingError {
    /// An I/O error converts to `IoError` carrying its textual rendering.
    fn from(err: std::io::Error) -> (r: Self)
        ensures
            r is IoError,
    {
        ChunkingError::IoError(io_error_message(&err))
    }
}

impl vstd::std_specs::convert::FromSpecImpl<std::io::Error> for ChunkingError {
    open spec fn obeys_from_spec() -> bool {
        false
    }

    open spec fn from_spec(v: std::io::Error) -> Self {
        arbitrary()
    }
}

} // verus!
