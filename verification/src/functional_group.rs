//! A functional group: opened by a group-start (`GS`) segment, filled with
//! completed transactions, and closed by a group-end (`GE`) segment.

use vstd::prelude::*;
use crate::edi_parse_error::EdiParseError;
use crate::text::str_eq;
use crate::text::trim_spec;
use crate::text::trim_str;
use crate::transaction::Transaction;
use crate::transaction::TxnView;

verus! {

/// One functional group in an EDI document.
#[derive(Clone, Debug, PartialEq)]
pub struct FunctionalGroup {
    /// The functional identifier code (element 1 of the `GS` segment).
    pub functional_identifier_code: String,
    /// The application sender's code (element 2).
    pub application_sender_code: String,
    /// The application receiver's code (element 3).
    pub application_receiver_code: String,
    /// The group date (element 4).
    pub date: String,
    /// The group control number (element 6).
    pub group_control_number: String,
    /// The completed transactions of the group, in arrival order.
    pub transactions: Vec<Transaction>,
}

/// The mathematical value of a [`FunctionalGroup`].
#[verifier::ext_equal]
pub struct GroupView {
    pub code: Seq<char>,
    pub sender: Seq<char>,
    pub receiver: Seq<char>,
    pub date: Seq<char>,
    pub control: Seq<char>,
    pub transactions: Seq<TxnView>,
}

impl View for FunctionalGroup {
    type V = GroupView;

    open spec fn view(&self) -> GroupView {
        GroupView {
            code: self.functional_identifier_code@,
            sender: self.application_sender_code@,
            receiver: self.application_receiver_code@,
            date: self.date@,
            control: self.group_control_number@,
            transactions: self.transactions.deep_view(),
        }
    }
}

impl DeepView for FunctionalGroup {
    type V = GroupView;

    open spec fn deep_view(&self) -> GroupView {
        self@
    }
}

/// The freshly opened group a `GS` token group yields, its transaction list
/// still empty.
pub open spec fn group_of_tokens(toks: Seq<Seq<char>>) -> GroupView {
    GroupView {
        code: trim_spec(toks[1]),
        sender: trim_spec(toks[2]),
        receiver: trim_spec(toks[3]),
        date: trim_spec(toks[4]),
        control: trim_spec(toks[6]),
        transactions: Seq::<TxnView>::empty(),
    }
}

impl FunctionalGroup {
    /// Open a functional group from a group-start token group. The group must
    /// begin with the `GS` marker and reach at least to the control number in
    /// element 6.
    pub fn parse_from_tokens(tokens: &Vec<String>) -> (r: Result<FunctionalGroup, EdiParseError>)
        requires
            tokens@.len() >= 1,
        ensures
            r is Ok <==> (trim_spec(tokens.deep_view()[0]) == "GS"@ && tokens@.len() >= 7),
            r matches Ok(g) ==> g@ == group_of_tokens(tokens.deep_view()),
            trim_spec(tokens.deep_view()[0]) != "GS"@ ==> r == Err::<FunctionalGroup, EdiParseError>(
                EdiParseError::StructuralError,
            ),
            trim_spec(tokens.deep_view()[0]) == "GS"@ && tokens@.len() < 7 ==> r == Err::<
                FunctionalGroup,
                EdiParseError,
            >(EdiParseError::MalformedSegment),
    {
        let head = trim_str(tokens[0].as_str());
        if !str_eq(head.as_str(), "GS") {
            return Err(EdiParseError::StructuralError);
        }
        if tokens.len() < 7 {
            return Err(EdiParseError::MalformedSegment);
        }
        let g = FunctionalGroup {
            functional_identifier_code: trim_str(tokens[1].as_str()),
            application_sender_code: trim_str(tokens[2].as_str()),
            application_receiver_code: trim_str(tokens[3].as_str()),
            date: trim_str(tokens[4].as_str()),
            group_control_number: trim_str(tokens[6].as_str()),
            transactions: Vec::new(),
        };
        proof {
            assert(g@ =~~= group_of_tokens(tokens.deep_view()));
        }
        Ok(g)
    }

    /// Append a completed transaction to the group, keeping every other
    /// field as it was.
    pub fn add_transaction(&mut self, transaction: Transaction)
        ensures
            final(self)@ == (GroupView {
                transactions: old(self)@.transactions.push(transaction@),
                ..old(self)@
            }),
    {
        let ghost old_view = self@;
        let ghost txn_view = transaction@;
        self.transactions.push(transaction);
        proof {
            assert(self@ =~~= (GroupView { transactions: old_view.transactions.push(txn_view), ..old_view }));
        }
    }
}

} // verus!
