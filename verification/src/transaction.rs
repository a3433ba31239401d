//! A transaction set: opened by a transaction-start (`ST`) segment, filled
//! with generic segments in arrival order, and closed by a transaction-end
//! (`SE`) segment.

use vstd::prelude::*;
use crate::edi_parse_error::EdiParseError;
use crate::generic_segment::segment_of_tokens;
use crate::generic_segment::GenericSegment;
use crate::generic_segment::SegView;
use crate::schema::name_of;
use crate::schema::SchemaTable;
use crate::text::str_eq;
use crate::text::trim_spec;
use crate::text::trim_str;

verus! {

/// One transaction in an EDI document.
#[derive(Clone, Debug, PartialEq)]
pub struct Transaction {
    /// The transaction code (element 1 of the `ST` segment).
    pub transaction_code: String,
    /// The display name the code resolves to, `"unidentified"` on a miss.
    pub transaction_name: String,
    /// The transaction set control number (element 2 of the `ST` segment).
    pub transaction_set_control_number: String,
    /// The optional implementation convention reference (element 3).
    pub implementation_convention_reference: Option<String>,
    /// The generic segments of the transaction, in arrival order.
    pub segments: Vec<GenericSegment>,
}

/// The mathematical value of a [`Transaction`].
#[verifier::ext_equal]
pub struct TxnView {
    pub code: Seq<char>,
    pub name: Seq<char>,
    pub control: Seq<char>,
    pub convention: Option<Seq<char>>,
    pub segments: Seq<SegView>,
}

impl View for Transaction {
    type V = TxnView;

    open spec fn view(&self) -> TxnView {
        TxnView {
            code: self.transaction_code@,
            name: self.transaction_name@,
            control: self.transaction_set_control_number@,
            convention: self.implementation_convention_reference.deep_view(),
            segments: self.segments.deep_view(),
        }
    }
}

impl DeepView for Transaction {
    type V = TxnView;

    open spec fn deep_view(&self) -> TxnView {
        self@
    }
}

/// The freshly opened transaction an `ST` token group yields, its name
/// resolved against `schemas` and its segment list still empty.
pub open spec fn transaction_of_tokens(
    toks: Seq<Seq<char>>,
    schemas: Seq<(Seq<char>, Seq<char>)>,
) -> TxnView {
    TxnView {
        code: trim_spec(toks[1]),
        name: name_of(schemas, trim_spec(toks[1])),
        control: trim_spec(toks[2]),
        convention: if toks.len() >= 4 {
            Some(trim_spec(toks[3]))
        } else {
            None
        },
        segments: Seq::<SegView>::empty(),
    }
}

impl Transaction {
    /// Open a transaction from a transaction-start token group. The group
    /// must begin with the `ST` marker and carry at least a code and a
    /// control number after it; a fourth token is kept as the implementation
    /// convention reference.
    pub fn parse_from_tokens(tokens: &Vec<String>, schemas: &SchemaTable) -> (r: Result<
        Transaction,
        EdiParseError,
    >)
        requires
            tokens@.len() >= 1,
        ensures
            r is Ok <==> (trim_spec(tokens.deep_view()[0]) == "ST"@ && tokens@.len() >= 3),
            r matches Ok(t) ==> t@ == transaction_of_tokens(tokens.deep_view(), schemas@),
            trim_spec(tokens.deep_view()[0]) != "ST"@ ==> r == Err::<Transaction, EdiParseError>(
                EdiParseError::StructuralError,
            ),
            trim_spec(tokens.deep_view()[0]) == "ST"@ && tokens@.len() < 3 ==> r == Err::<
                Transaction,
                EdiParseError,
            >(EdiParseError::MalformedTransactionStart),
    {
        let head = trim_str(tokens[0].as_str());
        if !str_eq(head.as_str(), "ST") {
            return Err(EdiParseError::StructuralError);
        }
        if tokens.len() < 3 {
            return Err(EdiParseError::MalformedTransactionStart);
        }
        let transaction_code = trim_str(tokens[1].as_str());
        let transaction_name = schemas.resolve(transaction_code.as_str());
        let transaction_set_control_number = trim_str(tokens[2].as_str());
        let implementation_convention_reference = if tokens.len() >= 4 {
            Some(trim_str(tokens[3].as_str()))
        } else {
            None
        };
        let t = Transaction {
            transaction_code,
            transaction_name,
            transaction_set_control_number,
            implementation_convention_reference,
            segments: Vec::new(),
        };
        proof {
            assert(t@ =~~= transaction_of_tokens(tokens.deep_view(), schemas@));
        }
        Ok(t)
    }

    /// Append the generic segment a token group yields to the transaction,
    /// keeping every other field as it was.
    pub fn add_generic_segment(&mut self, tokens: &Vec<String>)
        requires
            tokens@.len() >= 2,
        ensures
            final(self)@ == (TxnView {
                segments: old(self)@.segments.push(segment_of_tokens(tokens.deep_view())),
                ..old(self)@
            }),
    {
        let r = GenericSegment::parse_from_tokens(tokens);
        match r {
            Ok(seg) => {
                let ghost old_view = self@;
                self.segments.push(seg);
                proof {
                    assert(self@ =~~= (TxnView {
                        segments: old_view.segments.push(segment_of_tokens(tokens.deep_view())),
                        ..old_view
                    }));
                }
            },
            Err(_) => {
                proof {
                    assert(false);
                }
            },
        }
    }
}

} // verus!
