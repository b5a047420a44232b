//! The failures that processing a document can end in.

use vstd::prelude::*;

verus! {

/// `std::io::Error`, carried as it came. Nothing is known of what it holds.
#[verifier::external_type_specification]
#[verifier::external_body]
pub struct ExIoError(std::io::Error);

/// `serde_json::Error`, carried as it came. Nothing is known of what it
/// holds.
#[verifier::external_type_specification]
#[verifier::external_body]
pub struct ExJsonError(serde_json::Error);

/// Why a document gave no events.
///
/// The parser itself fails with `EventsLogs`, `DataNotFound` or
/// `ParseSignature` only; the other variants belong to the steps around it
/// that read the document and deliver the events.
#[derive(Debug)]
pub enum AppError {
    /// Reading or writing failed.
    Io(std::io::Error),
    /// The input is malformed, such as a payload that is not Base64.
    InvalidData(String),
    /// A failure of no other kind.
    Unknown,
    /// The text holds no audit-log section.
    EventsLogs,
    /// The audit-log section holds no complete event.
    DataNotFound,
    /// The text of the document could not be extracted.
    PdfExtraction(String),
    /// The parser could not be set up.
    ParseSignature(String),
    /// The events could not be written as JSON.
    JsonSerialization(serde_json::Error),
    /// The directory to process does not exist or is no directory.
    InvalidBasePath(String),
}

impl From<std::io::Error> for AppError {
    fn from(error: std::io::Error) -> (r: AppError) {
        AppError::Io(error)
    }
}

impl vstd::std_specs::convert::FromSpecImpl<std::io::Error> for AppError {
    open spec fn obeys_from_spec() -> bool {
        true
    }

    open spec fn from_spec(error: std::io::Error) -> AppError {
        AppError::Io(error)
    }
}

impl From<serde_json::Error> for AppError {
    fn from(error: serde_json::Error) -> (r: AppError) {
        AppError::JsonSerialization(error)
    }
}

impl vstd::std_specs::convert::FromSpecImpl<serde_json::Error> for AppError {
    open spec fn obeys_from_spec() -> bool {
        true
    }

    open spec fn from_spec(error: serde_json::Error) -> AppError {
        AppError::JsonSerialization(error)
    }
}

} // verus!
