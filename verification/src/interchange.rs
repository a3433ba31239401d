//! An interchange: the outermost EDI envelope, opened by an
//! interchange-start (`ISA`) segment, filled with completed functional
//! groups, and closed by an interchange-end (`IEA`) segment.

use vstd::prelude::*;
use crate::edi_parse_error::EdiParseError;
use crate::functional_group::FunctionalGroup;
use crate::functional_group::GroupView;
use crate::text::str_eq;
use crate::text::trim_spec;
use crate::text::trim_str;

verus! {

/// One interchange in an EDI document.
#[derive(Clone, Debug, PartialEq)]
pub struct Interchange {
    /// The interchange sender id (element 6 of the `ISA` segment).
    pub sender_id: String,
    /// The interchange receiver id (element 8).
    pub receiver_id: String,
    /// The interchange date (element 9).
    pub date: String,
    /// The interchange time (element 10).
    pub time: String,
    /// The interchange control number (element 13).
    pub interchange_control_number: String,
    /// The completed functional groups of the interchange, in arrival order.
    pub functional_groups: Vec<FunctionalGroup>,
}

/// The mathematical value of an [`Interchange`].
#[verifier::ext_equal]
pub struct InterView {
    pub sender_id: Seq<char>,
    pub receiver_id: Seq<char>,
    pub date: Seq<char>,
    pub time: Seq<char>,
    pub control: Seq<char>,
    pub functional_groups: Seq<GroupView>,
}

impl View for Interchange {
    type V = InterView;

    open spec fn view(&self) -> InterView {
        InterView {
            sender_id: self.sender_id@,
            receiver_id: self.receiver_id@,
            date: self.date@,
            time: self.time@,
            control: self.interchange_control_number@,
            functional_groups: self.functional_groups.deep_view(),
        }
    }
}

impl DeepView for Interchange {
    type V = InterView;

    open spec fn deep_view(&self) -> InterView {
        self@
    }
}

/// The freshly opened interchange an `ISA` token group yields, its group
/// list still empty.
pub open spec fn interchange_of_tokens(toks: Seq<Seq<char>>) -> InterView {
    InterView {
        sender_id: trim_spec(toks[6]),
        receiver_id: trim_spec(toks[8]),
        date: trim_spec(toks[9]),
        time: trim_spec(toks[10]),
        control: trim_spec(toks[13]),
        functional_groups: Seq::<GroupView>::empty(),
    }
}

impl Interchange {
    /// Open an interchange from an interchange-start token group. The group
    /// must begin with the `ISA` marker and reach at least to the control
    /// number in element 13.
    pub fn parse_from_tokens(tokens: &Vec<String>) -> (r: Result<Interchange, EdiParseError>)
        requires
            tokens@.len() >= 1,
        ensures
            r is Ok <==> (trim_spec(tokens.deep_view()[0]) == "ISA"@ && tokens@.len() >= 14),
            r matches Ok(ic) ==> ic@ == interchange_of_tokens(tokens.deep_view()),
            trim_spec(tokens.deep_view()[0]) != "ISA"@ ==> r == Err::<Interchange, EdiParseError>(
                EdiParseError::StructuralError,
            ),
            trim_spec(tokens.deep_view()[0]) == "ISA"@ && tokens@.len() < 14 ==> r == Err::<
                Interchange,
                EdiParseError,
            >(EdiParseError::MalformedSegment),
    {
        let head = trim_str(tokens[0].as_str());
        if !str_eq(head.as_str(), "ISA") {
            return Err(EdiParseError::StructuralError);
        }
        if tokens.len() < 14 {
            return Err(EdiParseError::MalformedSegment);
        }
        let ic = Interchange {
            sender_id: trim_str(tokens[6].as_str()),
            receiver_id: trim_str(tokens[8].as_str()),
            date: trim_str(tokens[9].as_str()),
            time: trim_str(tokens[10].as_str()),
            interchange_control_number: trim_str(tokens[13].as_str()),
            functional_groups: Vec::new(),
        };
        proof {
            assert(ic@ =~~= interchange_of_tokens(tokens.deep_view()));
        }
        Ok(ic)
    }

    /// Append a completed functional group to the interchange, keeping every
    /// other field as it was.
    pub fn add_functional_group(&mut self, group: FunctionalGroup)
        ensures
            final(self)@ == (InterView {
                functional_groups: old(self)@.functional_groups.push(group@),
                ..old(self)@
            }),
    {
        let ghost old_view = self@;
        let ghost group_view = group@;
        self.functional_groups.push(group);
        proof {
            assert(self@ =~~= (InterView {
                functional_groups: old_view.functional_groups.push(group_view),
                ..old_view
            }));
        }
    }
}

} // verus!
