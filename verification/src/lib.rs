//! Parser for ANSI X12 EDI flat files.
//!
//! Raw delimiter-separated text is tokenized into segments and elements and
//! then folded, in a single forward pass, into a nested
//! Interchange -> FunctionalGroup -> Transaction -> GenericSegment document.

pub mod edi_parse_error;
pub mod functional_group;
pub mod generic_segment;
pub mod interchange;
pub mod laws;
pub mod schema;
pub mod document;
pub mod text;
pub mod transaction;

pub use document::parse;
pub use document::parse_with_delimiters;
pub use document::Document;
pub use edi_parse_error::EdiParseError;
pub use edi_parse_error::EnvelopeKind;
pub use functional_group::FunctionalGroup;
pub use generic_segment::GenericSegment;
pub use interchange::Interchange;
pub use schema::SchemaTable;
pub use transaction::Transaction;
