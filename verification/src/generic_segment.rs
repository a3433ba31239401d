//! A generic (non-envelope) segment: an abbreviation plus an ordered list of
//! raw string elements. The abbreviation is taken verbatim — any string,
//! including lower-case or unusually long values, is accepted.

use vstd::prelude::*;
use crate::edi_parse_error::EdiParseError;
use crate::text::trim_spec;
use crate::text::trim_str;

verus! {

/// A generic segment.
#[derive(Clone, Debug, PartialEq)]
pub struct GenericSegment {
    /// The first element in the segment, which denotes the segment type.
    pub segment_abbreviation: String,
    /// The ordered list of elements in the segment.
    pub elements: Vec<String>,
}

/// The mathematical value of a [`GenericSegment`].
#[verifier::ext_equal]
pub struct SegView {
    pub abbreviation: Seq<char>,
    pub elements: Seq<Seq<char>>,
}

impl View for GenericSegment {
    type V = SegView;

    open spec fn view(&self) -> SegView {
        SegView {
            abbreviation: self.segment_abbreviation@,
            elements: self.elements.deep_view(),
        }
    }
}

impl DeepView for GenericSegment {
    type V = SegView;

    open spec fn deep_view(&self) -> SegView {
        self@
    }
}

/// The segment a token group yields: the first token, trimmed, becomes the
/// abbreviation, and the remaining tokens, trimmed, the elements.
pub open spec fn segment_of_tokens(toks: Seq<Seq<char>>) -> SegView {
    SegView {
        abbreviation: trim_spec(toks[0]),
        elements: toks.drop_first().map_values(|t: Seq<char>| trim_spec(t)),
    }
}

impl GenericSegment {
    /// Build a generic segment from one segment-token group. At least two
    /// tokens (abbreviation plus one data element) are required; anything
    /// shorter is a malformed segment.
    pub fn parse_from_tokens(tokens: &Vec<String>) -> (r: Result<GenericSegment, EdiParseError>)
        ensures
            r is Ok <==> tokens@.len() >= 2,
            r matches Ok(g) ==> g@ == segment_of_tokens(tokens.deep_view()),
            r matches Err(e) ==> e == EdiParseError::MalformedSegment,
    {
        if tokens.len() < 2 {
            return Err(EdiParseError::MalformedSegment);
        }
        let segment_abbreviation = trim_str(tokens[0].as_str());
        let mut elements: Vec<String> = Vec::new();
        let mut i: usize = 1;
        while i < tokens.len()
            invariant
                1 <= i <= tokens.len(),
                elements.deep_view() =~= tokens.deep_view().subrange(1, i as int).map_values(
                    |t: Seq<char>| trim_spec(t),
                ),
            decreases tokens.len() - i,
        {
            let ghost old_dv = elements.deep_view();
            elements.push(trim_str(tokens[i].as_str()));
            proof {
                assert(elements.deep_view() =~= old_dv.push(trim_spec(tokens.deep_view()[i as int])));
                assert(elements.deep_view() =~= tokens.deep_view().subrange(1, i + 1).map_values(
                    |t: Seq<char>| trim_spec(t),
                ));
            }
            i = i + 1;
        }
        let g = GenericSegment { segment_abbreviation, elements };
        proof {
            assert(tokens.deep_view().subrange(1, tokens@.len() as int) =~= tokens.deep_view().drop_first());
            assert(g@ =~~= segment_of_tokens(tokens.deep_view()));
        }
        Ok(g)
    }
}

} // verus!
