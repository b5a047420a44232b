//! Extraction of signature events from the flattened text of a signed
//! document's audit trail.
//!
//! The text is searched for the audit-log section, the section is split into
//! records at the lines that hold a time stamp, each record is read into a
//! candidate event, and the complete candidates are the result.

pub mod datetime;
pub mod error;
pub mod event;
pub mod extractor;
pub mod locator;
pub mod parser;
pub mod pattern;
pub mod payload;
pub mod segmenter;
pub mod text;

pub use datetime::Timestamp;
pub use error::AppError;
pub use event::SignatureEvent;
pub use extractor::parse_record_to_details;
pub use parser::parse_signature_events;
