//! The document builder: drives the tokenizer over the raw text, classifies
//! each segment-token group by its abbreviation, routes it to whichever
//! assembler level is currently open, and returns the completed document or
//! the first error of the pass.
//!
//! The whole pass is specified by a small state machine over token groups
//! ([`step_spec`], [`steps_spec`], [`finish_spec`]); [`parse_with_delimiters`]
//! is proved to return exactly what that machine computes on the tokenized
//! input.

use vstd::prelude::*;
use vstd::string::*;
use crate::edi_parse_error::EdiParseError;
use crate::edi_parse_error::EnvelopeKind;
use crate::functional_group::group_of_tokens;
use crate::functional_group::FunctionalGroup;
use crate::functional_group::GroupView;
use crate::generic_segment::segment_of_tokens;
use crate::interchange::interchange_of_tokens;
use crate::interchange::Interchange;
use crate::interchange::InterView;
use crate::schema::SchemaTable;
use crate::text::split_spec;
use crate::text::split_str;
use crate::text::str_eq;
use crate::text::trim_spec;
use crate::text::trim_str;
use crate::text::lemma_trim_idempotent;
use crate::transaction::transaction_of_tokens;
use crate::transaction::Transaction;
use crate::transaction::TxnView;

verus! {

/// A parsed EDI document: the ordered sequence of its interchanges.
#[derive(Clone, Debug, PartialEq)]
pub struct Document {
    pub interchanges: Vec<Interchange>,
}

impl View for Document {
    type V = Seq<InterView>;

    open spec fn view(&self) -> Seq<InterView> {
        self.interchanges.deep_view()
    }
}

/// The assembler state between two segments: the interchanges finished so
/// far and the at-most-one open envelope of each level.
#[verifier::ext_equal]
pub struct BuilderState {
    pub finished: Seq<InterView>,
    pub inter: Option<InterView>,
    pub group: Option<GroupView>,
    pub txn: Option<TxnView>,
}

/// The state before any segment has been read.
pub open spec fn init_state() -> BuilderState {
    BuilderState { finished: Seq::<InterView>::empty(), inter: None, group: None, txn: None }
}

/// How one segment-token group moves the assembler state, or the error it
/// raises. Every level must be opened before it is closed, an inner envelope
/// must close before its parent, and a non-envelope segment needs an open
/// transaction to land in.
pub open spec fn step_spec(
    st: BuilderState,
    toks: Seq<Seq<char>>,
    schemas: Seq<(Seq<char>, Seq<char>)>,
) -> Result<BuilderState, EdiParseError> {
    if toks.len() == 0 {
        Err(EdiParseError::MalformedSegment)
    } else {
        let abbr = trim_spec(toks[0]);
        if abbr == "ISA"@ {
            if st.inter is Some {
                Err(EdiParseError::StructuralError)
            } else if toks.len() < 14 {
                Err(EdiParseError::MalformedSegment)
            } else {
                Ok(BuilderState { inter: Some(interchange_of_tokens(toks)), ..st })
            }
        } else if abbr == "IEA"@ {
            if st.group is Some || st.txn is Some {
                Err(EdiParseError::StructuralError)
            } else {
                match st.inter {
                    Some(iv) => Ok(
                        BuilderState { finished: st.finished.push(iv), inter: None, ..st },
                    ),
                    None => Err(EdiParseError::StructuralError),
                }
            }
        } else if abbr == "GS"@ {
            if st.inter is None {
                Err(EdiParseError::StructuralError)
            } else if st.group is Some {
                Err(EdiParseError::StructuralError)
            } else if toks.len() < 7 {
                Err(EdiParseError::MalformedSegment)
            } else {
                Ok(BuilderState { group: Some(group_of_tokens(toks)), ..st })
            }
        } else if abbr == "GE"@ {
            if st.txn is Some {
                Err(EdiParseError::StructuralError)
            } else {
                match (st.inter, st.group) {
                    (Some(iv), Some(gv)) => Ok(
                        BuilderState {
                            inter: Some(
                                InterView {
                                    functional_groups: iv.functional_groups.push(gv),
                                    ..iv
                                },
                            ),
                            group: None,
                            ..st
                        },
                    ),
                    _ => Err(EdiParseError::StructuralError),
                }
            }
        } else if abbr == "ST"@ {
            if st.group is None {
                Err(EdiParseError::StructuralError)
            } else if st.txn is Some {
                Err(EdiParseError::StructuralError)
            } else if toks.len() < 3 {
                Err(EdiParseError::MalformedTransactionStart)
            } else {
                Ok(BuilderState { txn: Some(transaction_of_tokens(toks, schemas)), ..st })
            }
        } else if abbr == "SE"@ {
            match (st.group, st.txn) {
                (Some(gv), Some(tv)) => Ok(
                    BuilderState {
                        group: Some(GroupView { transactions: gv.transactions.push(tv), ..gv }),
                        txn: None,
                        ..st
                    },
                ),
                _ => Err(EdiParseError::StructuralError),
            }
        } else {
            match st.txn {
                Some(tv) => if toks.len() < 2 {
                    Err(EdiParseError::MalformedSegment)
                } else {
                    Ok(
                        BuilderState {
                            txn: Some(
                                TxnView {
                                    segments: tv.segments.push(segment_of_tokens(toks)),
                                    ..tv
                                },
                            ),
                            ..st
                        },
                    )
                },
                None => Err(EdiParseError::StructuralError),
            }
        }
    }
}

/// The assembler state after a whole sequence of token groups, or the first
/// error raised along the way.
pub open spec fn steps_spec(
    st: BuilderState,
    groups: Seq<Seq<Seq<char>>>,
    schemas: Seq<(Seq<char>, Seq<char>)>,
) -> Result<BuilderState, EdiParseError>
    decreases groups.len(),
{
    if groups.len() == 0 {
        Ok(st)
    } else {
        match step_spec(st, groups[0], schemas) {
            Ok(st2) => steps_spec(st2, groups.drop_first(), schemas),
            Err(e) => Err(e),
        }
    }
}

/// What the end of input yields: the finished interchanges, unless some
/// envelope level is still open, in which case the innermost open level is
/// the unterminated one.
pub open spec fn finish_spec(st: BuilderState) -> Result<Seq<InterView>, EdiParseError> {
    if st.txn is Some {
        Err(EdiParseError::UnterminatedEnvelope(EnvelopeKind::Transaction))
    } else if st.group is Some {
        Err(EdiParseError::UnterminatedEnvelope(EnvelopeKind::FunctionalGroup))
    } else if st.inter is Some {
        Err(EdiParseError::UnterminatedEnvelope(EnvelopeKind::Interchange))
    } else {
        Ok(st.finished)
    }
}

/// The segment stream of the raw text: the pieces between terminator
/// characters, with empty trailing content after the final terminator
/// discarded.
pub open spec fn segments_spec(s: Seq<char>, terminator: char) -> Seq<Seq<char>> {
    let ps = split_spec(s, terminator);
    if ps.len() > 0 && trim_spec(ps.last()).len() == 0 {
        ps.drop_last()
    } else {
        ps
    }
}

/// The token group of one segment: its pieces between separator characters,
/// each trimmed of leading and trailing whitespace.
pub open spec fn tokens_spec(seg: Seq<char>, separator: char) -> Seq<Seq<char>> {
    split_spec(seg, separator).map_values(|t: Seq<char>| trim_spec(t))
}

/// The token groups of the whole raw text.
pub open spec fn groups_spec(s: Seq<char>, terminator: char, separator: char) -> Seq<
    Seq<Seq<char>>,
> {
    segments_spec(s, terminator).map_values(|p: Seq<char>| tokens_spec(p, separator))
}

/// The machine run over a whole token-group sequence, end-of-input check
/// included.
pub open spec fn build_spec(
    groups: Seq<Seq<Seq<char>>>,
    schemas: Seq<(Seq<char>, Seq<char>)>,
) -> Result<Seq<InterView>, EdiParseError> {
    match steps_spec(init_state(), groups, schemas) {
        Ok(st) => finish_spec(st),
        Err(e) => Err(e),
    }
}

/// What parsing the raw text must return: the state machine run over its
/// token groups.
pub open spec fn parse_spec(
    s: Seq<char>,
    terminator: char,
    separator: char,
    schemas: Seq<(Seq<char>, Seq<char>)>,
) -> Result<Seq<InterView>, EdiParseError> {
    build_spec(groups_spec(s, terminator, separator), schemas)
}

/// Splitting the machine's run at any point composes.
pub proof fn lemma_steps_concat(
    st: BuilderState,
    a: Seq<Seq<Seq<char>>>,
    b: Seq<Seq<Seq<char>>>,
    schemas: Seq<(Seq<char>, Seq<char>)>,
)
    ensures
        steps_spec(st, a + b, schemas) == (match steps_spec(st, a, schemas) {
            Ok(m) => steps_spec(m, b, schemas),
            Err(e) => Err(e),
        }),
    decreases a.len(),
{
    if a.len() == 0 {
        assert(a + b =~= b);
    } else {
        assert((a + b)[0] == a[0]);
        assert((a + b).drop_first() =~= a.drop_first() + b);
        match step_spec(st, a[0], schemas) {
            Ok(st2) => {
                lemma_steps_concat(st2, a.drop_first(), b, schemas);
            },
            Err(_) => {},
        }
    }
}

/// A run that has reached `st` after `i` groups continues with the step on
/// group `i`.
pub proof fn lemma_steps_prefix(
    gs: Seq<Seq<Seq<char>>>,
    i: int,
    st: BuilderState,
    schemas: Seq<(Seq<char>, Seq<char>)>,
)
    requires
        0 <= i < gs.len(),
        steps_spec(init_state(), gs.take(i), schemas) == Ok::<BuilderState, EdiParseError>(st),
    ensures
        steps_spec(init_state(), gs.take(i + 1), schemas) == step_spec(st, gs[i], schemas),
{
    assert(gs.take(i + 1) =~= gs.take(i) + seq![gs[i]]);
    lemma_steps_concat(init_state(), gs.take(i), seq![gs[i]], schemas);
    let single = seq![gs[i]];
    assert(single.len() == 1);
    assert(single[0] == gs[i]);
    assert(single.drop_first() =~= Seq::<Seq<Seq<char>>>::empty());
    match step_spec(st, gs[i], schemas) {
        Ok(st2) => {
            assert(steps_spec(st2, single.drop_first(), schemas) == Ok::<
                BuilderState,
                EdiParseError,
            >(st2));
            assert(steps_spec(st, single, schemas) == Ok::<BuilderState, EdiParseError>(st2));
        },
        Err(e) => {
            assert(steps_spec(st, single, schemas) == Err::<BuilderState, EdiParseError>(e));
        },
    }
}

/// A run that errs on some prefix errs on the whole sequence.
pub proof fn lemma_steps_err_extends(
    gs: Seq<Seq<Seq<char>>>,
    i: int,
    e: EdiParseError,
    schemas: Seq<(Seq<char>, Seq<char>)>,
)
    requires
        0 <= i <= gs.len(),
        steps_spec(init_state(), gs.take(i), schemas) == Err::<BuilderState, EdiParseError>(e),
    ensures
        steps_spec(init_state(), gs, schemas) == Err::<BuilderState, EdiParseError>(e),
{
    assert(gs =~= gs.take(i) + gs.skip(i));
    lemma_steps_concat(init_state(), gs.take(i), gs.skip(i), schemas);
}

/// Every token the tokenizer hands out is already trimmed.
pub proof fn lemma_tokens_trimmed(seg: Seq<char>, separator: char)
    ensures
        forall|j: int|
            0 <= j < tokens_spec(seg, separator).len() ==> trim_spec(
                #[trigger] tokens_spec(seg, separator)[j],
            ) == tokens_spec(seg, separator)[j],
{
    assert forall|j: int| 0 <= j < tokens_spec(seg, separator).len() implies trim_spec(
        #[trigger] tokens_spec(seg, separator)[j],
    ) == tokens_spec(seg, separator)[j] by {
        lemma_trim_idempotent(split_spec(seg, separator)[j]);
    }
}

/// Split the raw text into segment-token groups: segments between
/// terminators (with empty trailing content discarded), each split at the
/// separator into trimmed tokens.
pub fn tokenize(input: &str, terminator: char, separator: char) -> (r: Vec<Vec<String>>)
    ensures
        r.deep_view() == groups_spec(input@, terminator, separator),
{
    let mut pieces = split_str(input, terminator);
    proof {
        crate::text::lemma_split_nonempty(input@, terminator);
        assert(pieces.deep_view().last() == pieces.deep_view()[pieces.deep_view().len() - 1]);
    }
    let last_trimmed = trim_str(pieces[pieces.len() - 1].as_str());
    if last_trimmed.as_str().unicode_len() == 0 {
        let ghost old_dv = pieces.deep_view();
        pieces.pop();
        proof {
            assert(pieces.deep_view() =~= old_dv.drop_last());
        }
    }
    let ghost segs = segments_spec(input@, terminator);
    proof {
        assert(pieces.deep_view() =~= segs);
    }
    let mut out: Vec<Vec<String>> = Vec::new();
    let mut i: usize = 0;
    while i < pieces.len()
        invariant
            0 <= i <= pieces.len(),
            pieces.deep_view() == segs,
            segs.len() == pieces.len(),
            out.deep_view() =~= segs.take(i as int).map_values(
                |p: Seq<char>| tokens_spec(p, separator),
            ),
        decreases pieces.len() - i,
    {
        let raw_tokens = split_str(pieces[i].as_str(), separator);
        let mut tokens: Vec<String> = Vec::new();
        let mut j: usize = 0;
        while j < raw_tokens.len()
            invariant
                0 <= j <= raw_tokens.len(),
                raw_tokens.deep_view() == split_spec(segs[i as int], separator),
                raw_tokens.deep_view().len() == raw_tokens.len(),
                i < segs.len(),
                tokens.deep_view() =~= raw_tokens.deep_view().take(j as int).map_values(
                    |t: Seq<char>| trim_spec(t),
                ),
            decreases raw_tokens.len() - j,
        {
            let ghost old_tdv = tokens.deep_view();
            tokens.push(trim_str(raw_tokens[j].as_str()));
            proof {
                assert(tokens.deep_view() =~= old_tdv.push(
                    trim_spec(raw_tokens.deep_view()[j as int]),
                ));
                assert(tokens.deep_view() =~= raw_tokens.deep_view().take(j + 1).map_values(
                    |t: Seq<char>| trim_spec(t),
                ));
            }
            j = j + 1;
        }
        proof {
            assert(raw_tokens.deep_view().take(raw_tokens.len() as int) =~= raw_tokens.deep_view());
            assert(tokens.deep_view() =~= tokens_spec(segs[i as int], separator));
        }
        let ghost old_odv = out.deep_view();
        out.push(tokens);
        proof {
            assert(out.deep_view() =~= old_odv.push(tokens_spec(segs[i as int], separator)));
            assert(out.deep_view() =~= segs.take(i + 1).map_values(
                |p: Seq<char>| tokens_spec(p, separator),
            ));
        }
        i = i + 1;
    }
    proof {
        assert(segs.take(segs.len() as int) =~= segs);
        assert(out.deep_view() =~= groups_spec(input@, terminator, separator));
    }
    out
}

/// The abstract value of the builder's concrete working state.
pub open spec fn abs_state(
    finished: Seq<InterView>,
    inter: Option<Interchange>,
    group: Option<FunctionalGroup>,
    txn: Option<Transaction>,
) -> BuilderState {
    BuilderState { finished, inter: inter.deep_view(), group: group.deep_view(), txn: txn.deep_view() }
}

/// Parse raw EDI text with the given segment terminator and element
/// separator, resolving transaction names against `schemas`. Returns the
/// completed document, or the first structural or malformed condition of the
/// single forward pass — exactly as [`parse_spec`] prescribes.
pub fn parse_with_delimiters(
    input: &str,
    terminator: char,
    separator: char,
    schemas: &SchemaTable,
) -> (r: Result<Document, EdiParseError>)
    ensures
        (match parse_spec(input@, terminator, separator, schemas@) {
            Ok(doc) => r matches Ok(d) && d@ == doc,
            Err(e) => r == Err::<Document, EdiParseError>(e),
        }),
{
    let groups = tokenize(input, terminator, separator);
    let ghost gdv = groups.deep_view();
    let mut finished: Vec<Interchange> = Vec::new();
    let mut open_inter: Option<Interchange> = None;
    let mut open_group: Option<FunctionalGroup> = None;
    let mut open_txn: Option<Transaction> = None;
    let mut i: usize = 0;
    proof {
        assert(gdv.take(0) =~= Seq::<Seq<Seq<char>>>::empty());
        assert(abs_state(finished.deep_view(), open_inter, open_group, open_txn) =~~= init_state());
    }
    while i < groups.len()
        invariant
            0 <= i <= groups.len(),
            groups.deep_view() == gdv,
            gdv.len() == groups.len(),
            gdv == groups_spec(input@, terminator, separator),
            open_txn is Some ==> open_group is Some,
            open_group is Some ==> open_inter is Some,
            steps_spec(init_state(), gdv.take(i as int), schemas@) == Ok::<
                BuilderState,
                EdiParseError,
            >(abs_state(finished.deep_view(), open_inter, open_group, open_txn)),
        decreases groups.len() - i,
    {
        let ghost st = abs_state(finished.deep_view(), open_inter, open_group, open_txn);
        let ghost toks = gdv[i as int];
        proof {
            let segs = segments_spec(input@, terminator);
            assert(gdv[i as int] == tokens_spec(segs[i as int], separator));
            lemma_tokens_trimmed(segs[i as int], separator);
        }
        let group = &groups[i];
        if group.len() == 0 {
            proof {
                assert(toks.len() == 0);
                lemma_steps_prefix(gdv, i as int, st, schemas@);
                lemma_steps_err_extends(
                    gdv,
                    i + 1,
                    EdiParseError::MalformedSegment,
                    schemas@,
                );
            }
            return Err(EdiParseError::MalformedSegment);
        }
        proof {
            assert(toks[0] == group.deep_view()[0]);
            assert(trim_spec(toks[0]) == toks[0]);
        }
        let abbr = &group[0];
        if str_eq(abbr.as_str(), "ISA") {
            if open_inter.is_some() {
                proof {
                    lemma_steps_prefix(gdv, i as int, st, schemas@);
                    lemma_steps_err_extends(gdv, i + 1, EdiParseError::StructuralError, schemas@);
                }
                return Err(EdiParseError::StructuralError);
            }
            match Interchange::parse_from_tokens(group) {
                Ok(iv) => {
                    open_inter = Some(iv);
                },
                Err(e) => {
                    proof {
                        lemma_steps_prefix(gdv, i as int, st, schemas@);
                        lemma_steps_err_extends(gdv, i + 1, e, schemas@);
                    }
                    return Err(e);
                },
            }
        } else if str_eq(abbr.as_str(), "IEA") {
            if open_group.is_some() || open_txn.is_some() {
                proof {
                    lemma_steps_prefix(gdv, i as int, st, schemas@);
                    lemma_steps_err_extends(gdv, i + 1, EdiParseError::StructuralError, schemas@);
                }
                return Err(EdiParseError::StructuralError);
            }
            let prev = open_inter;
            open_inter = None;
            match prev {
                Some(iv) => {
                    finished.push(iv);
                },
                None => {
                    proof {
                        lemma_steps_prefix(gdv, i as int, st, schemas@);
                        lemma_steps_err_extends(
                            gdv,
                            i + 1,
                            EdiParseError::StructuralError,
                            schemas@,
                        );
                    }
                    return Err(EdiParseError::StructuralError);
                },
            }
        } else if str_eq(abbr.as_str(), "GS") {
            if open_inter.is_none() || open_group.is_some() {
                proof {
                    lemma_steps_prefix(gdv, i as int, st, schemas@);
                    lemma_steps_err_extends(gdv, i + 1, EdiParseError::StructuralError, schemas@);
                }
                return Err(EdiParseError::StructuralError);
            }
            match FunctionalGroup::parse_from_tokens(group) {
                Ok(gv) => {
                    open_group = Some(gv);
                },
                Err(e) => {
                    proof {
                        lemma_steps_prefix(gdv, i as int, st, schemas@);
                        lemma_steps_err_extends(gdv, i + 1, e, schemas@);
                    }
                    return Err(e);
                },
            }
        } else if str_eq(abbr.as_str(), "GE") {
            if open_txn.is_some() {
                proof {
                    lemma_steps_prefix(gdv, i as int, st, schemas@);
                    lemma_steps_err_extends(gdv, i + 1, EdiParseError::StructuralError, schemas@);
                }
                return Err(EdiParseError::StructuralError);
            }
            let prev = open_group;
            open_group = None;
            match prev {
                Some(gv) => {
                    let prev_inter = open_inter;
                    open_inter = None;
                    match prev_inter {
                        Some(mut iv) => {
                            iv.add_functional_group(gv);
                            open_inter = Some(iv);
                        },
                        None => {
                            proof {
                                assert(false);
                            }
                        },
                    }
                },
                None => {
                    proof {
                        lemma_steps_prefix(gdv, i as int, st, schemas@);
                        lemma_steps_err_extends(
                            gdv,
                            i + 1,
                            EdiParseError::StructuralError,
                            schemas@,
                        );
                    }
                    return Err(EdiParseError::StructuralError);
                },
            }
        } else if str_eq(abbr.as_str(), "ST") {
            if open_group.is_none() || open_txn.is_some() {
                proof {
                    lemma_steps_prefix(gdv, i as int, st, schemas@);
                    lemma_steps_err_extends(gdv, i + 1, EdiParseError::StructuralError, schemas@);
                }
                return Err(EdiParseError::StructuralError);
            }
            match Transaction::parse_from_tokens(group, schemas) {
                Ok(tv) => {
                    open_txn = Some(tv);
                },
                Err(e) => {
                    proof {
                        lemma_steps_prefix(gdv, i as int, st, schemas@);
                        lemma_steps_err_extends(gdv, i + 1, e, schemas@);
                    }
                    return Err(e);
                },
            }
        } else if str_eq(abbr.as_str(), "SE") {
            let prev = open_txn;
            open_txn = None;
            match prev {
                Some(tv) => {
                    let prev_group = open_group;
                    open_group = None;
                    match prev_group {
                        Some(mut gv) => {
                            gv.add_transaction(tv);
                            open_group = Some(gv);
                        },
                        None => {
                            proof {
                                assert(false);
                            }
                        },
                    }
                },
                None => {
                    proof {
                        lemma_steps_prefix(gdv, i as int, st, schemas@);
                        lemma_steps_err_extends(
                            gdv,
                            i + 1,
                            EdiParseError::StructuralError,
                            schemas@,
                        );
                    }
                    return Err(EdiParseError::StructuralError);
                },
            }
        } else {
            let prev = open_txn;
            open_txn = None;
            match prev {
                Some(mut tv) => {
                    if group.len() < 2 {
                        proof {
                            lemma_steps_prefix(gdv, i as int, st, schemas@);
                            lemma_steps_err_extends(
                                gdv,
                                i + 1,
                                EdiParseError::MalformedSegment,
                                schemas@,
                            );
                        }
                        return Err(EdiParseError::MalformedSegment);
                    }
                    tv.add_generic_segment(group);
                    open_txn = Some(tv);
                },
                None => {
                    proof {
                        lemma_steps_prefix(gdv, i as int, st, schemas@);
                        lemma_steps_err_extends(
                            gdv,
                            i + 1,
                            EdiParseError::StructuralError,
                            schemas@,
                        );
                    }
                    return Err(EdiParseError::StructuralError);
                },
            }
        }
        proof {
            lemma_steps_prefix(gdv, i as int, st, schemas@);
            let st2 = abs_state(finished.deep_view(), open_inter, open_group, open_txn);
            assert(step_spec(st, toks, schemas@) matches Ok(s) && s =~~= st2);
        }
        i = i + 1;
    }
    proof {
        assert(gdv.take(gdv.len() as int) =~= gdv);
    }
    if open_txn.is_some() {
        return Err(EdiParseError::UnterminatedEnvelope(EnvelopeKind::Transaction));
    }
    if open_group.is_some() {
        return Err(EdiParseError::UnterminatedEnvelope(EnvelopeKind::FunctionalGroup));
    }
    if open_inter.is_some() {
        return Err(EdiParseError::UnterminatedEnvelope(EnvelopeKind::Interchange));
    }
    Ok(Document { interchanges: finished })
}

/// Parse raw EDI text with the default delimiters: segments terminated by
/// `~`, elements separated by `*`.
pub fn parse(input: &str, schemas: &SchemaTable) -> (r: Result<Document, EdiParseError>)
    ensures
        (match parse_spec(input@, '~', '*', schemas@) {
            Ok(doc) => r matches Ok(d) && d@ == doc,
            Err(e) => r == Err::<Document, EdiParseError>(e),
        }),
{
    parse_with_delimiters(input, '~', '*', schemas)
}

} // verus!
