//! The terminal error a parse can end with. The whole pass aborts on the
//! first condition encountered; no partial document is returned.

use vstd::prelude::*;

verus! {

/// The envelope level an error speaks of.
#[derive(Clone, Copy, Debug, PartialEq, Eq, Structural)]
pub enum EnvelopeKind {
    Interchange,
    FunctionalGroup,
    Transaction,
}

/// The first structural or malformed condition a parse ran into.
#[derive(Clone, Copy, Debug, PartialEq, Eq, Structural)]
pub enum EdiParseError {
    /// A segment carried fewer tokens than its shape requires: at least an
    /// abbreviation and one data element for a generic segment, or the fixed
    /// header positions for an envelope-opening segment.
    MalformedSegment,
    /// A transaction-start segment carried fewer than three tokens
    /// (marker, code, control number).
    MalformedTransactionStart,
    /// An envelope segment arrived while its level was in the wrong state:
    /// double-open, close-without-open, or a segment routed with no open
    /// transaction.
    StructuralError,
    /// Input ended while the named envelope level was still open.
    UnterminatedEnvelope(EnvelopeKind),
}

impl EdiParseError {
    /// A short human-readable description of the error.
    pub fn describe(&self) -> (r: &'static str)
        ensures
            r@ == self.describe_spec(),
    {
        match self {
            EdiParseError::MalformedSegment => "malformed segment",
            EdiParseError::MalformedTransactionStart => "malformed transaction start segment",
            EdiParseError::StructuralError => "structural error",
            EdiParseError::UnterminatedEnvelope(EnvelopeKind::Interchange) => "unterminated interchange",
            EdiParseError::UnterminatedEnvelope(EnvelopeKind::FunctionalGroup) => "unterminated functional group",
            EdiParseError::UnterminatedEnvelope(EnvelopeKind::Transaction) => "unterminated transaction",
        }
    }

    /// What `describe` returns for each variant.
    pub open spec fn describe_spec(&self) -> Seq<char> {
        match self {
            EdiParseError::MalformedSegment => "malformed segment"@,
            EdiParseError::MalformedTransactionStart => "malformed transaction start segment"@,
            EdiParseError::StructuralError => "structural error"@,
            EdiParseError::UnterminatedEnvelope(EnvelopeKind::Interchange) => "unterminated interchange"@,
            EdiParseError::UnterminatedEnvelope(EnvelopeKind::FunctionalGroup) => "unterminated functional group"@,
            EdiParseError::UnterminatedEnvelope(EnvelopeKind::Transaction) => "unterminated transaction"@,
        }
    }
}

} // verus!
