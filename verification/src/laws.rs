//! The laws of balanced input: any stream of properly nested
//! interchange/group/transaction envelope triples parses successfully, into
//! one interchange per start/end pair with the written nesting, and the data
//! segments of each transaction keep their arrival order.
//!
//! A balanced stream is described structurally ([`InterDesc`], [`GroupDesc`],
//! [`TxnDesc`]) and flattened to the token groups the state machine reads;
//! the theorems quantify over every such description.

use vstd::prelude::*;
use crate::document::build_spec;
use crate::document::finish_spec;
use crate::document::groups_spec;
use crate::document::parse_spec;
use crate::document::init_state;
use crate::document::lemma_steps_concat;
use crate::document::step_spec;
use crate::document::steps_spec;
use crate::document::BuilderState;
use crate::edi_parse_error::EdiParseError;
use crate::edi_parse_error::EnvelopeKind;
use crate::functional_group::group_of_tokens;
use crate::functional_group::GroupView;
use crate::generic_segment::segment_of_tokens;
use crate::generic_segment::SegView;
use crate::interchange::interchange_of_tokens;
use crate::interchange::InterView;
use crate::text::trim_spec;
use crate::transaction::transaction_of_tokens;
use crate::transaction::TxnView;

verus! {

/// Whether a trimmed abbreviation is one of the six envelope markers.
pub open spec fn is_envelope_marker(abbr: Seq<char>) -> bool {
    ||| abbr == "ISA"@
    ||| abbr == "IEA"@
    ||| abbr == "GS"@
    ||| abbr == "GE"@
    ||| abbr == "ST"@
    ||| abbr == "SE"@
}

/// A token group that opens an interchange.
pub open spec fn is_inter_start(toks: Seq<Seq<char>>) -> bool {
    toks.len() >= 14 && trim_spec(toks[0]) == "ISA"@
}

/// A token group that closes an interchange.
pub open spec fn is_inter_end(toks: Seq<Seq<char>>) -> bool {
    toks.len() >= 1 && trim_spec(toks[0]) == "IEA"@
}

/// A token group that opens a functional group.
pub open spec fn is_group_start(toks: Seq<Seq<char>>) -> bool {
    toks.len() >= 7 && trim_spec(toks[0]) == "GS"@
}

/// A token group that closes a functional group.
pub open spec fn is_group_end(toks: Seq<Seq<char>>) -> bool {
    toks.len() >= 1 && trim_spec(toks[0]) == "GE"@
}

/// A token group that opens a transaction.
pub open spec fn is_txn_start(toks: Seq<Seq<char>>) -> bool {
    toks.len() >= 3 && trim_spec(toks[0]) == "ST"@
}

/// A token group that closes a transaction.
pub open spec fn is_txn_end(toks: Seq<Seq<char>>) -> bool {
    toks.len() >= 1 && trim_spec(toks[0]) == "SE"@
}

/// A well-formed non-envelope data segment: an abbreviation that is no
/// marker, and at least one element after it.
pub open spec fn is_data_group(toks: Seq<Seq<char>>) -> bool {
    toks.len() >= 2 && !is_envelope_marker(trim_spec(toks[0]))
}

/// One balanced transaction: a start marker, any data segments, an end
/// marker.
pub struct TxnDesc {
    pub start: Seq<Seq<char>>,
    pub data: Seq<Seq<Seq<char>>>,
    pub end: Seq<Seq<char>>,
}

/// One balanced functional group.
pub struct GroupDesc {
    pub start: Seq<Seq<char>>,
    pub txns: Seq<TxnDesc>,
    pub end: Seq<Seq<char>>,
}

/// One balanced interchange.
pub struct InterDesc {
    pub start: Seq<Seq<char>>,
    pub groups: Seq<GroupDesc>,
    pub end: Seq<Seq<char>>,
}

pub open spec fn wf_txn(t: TxnDesc) -> bool {
    &&& is_txn_start(t.start)
    &&& is_txn_end(t.end)
    &&& forall|k: int| 0 <= k < t.data.len() ==> is_data_group(#[trigger] t.data[k])
}

pub open spec fn wf_group(g: GroupDesc) -> bool {
    &&& is_group_start(g.start)
    &&& is_group_end(g.end)
    &&& forall|k: int| 0 <= k < g.txns.len() ==> wf_txn(#[trigger] g.txns[k])
}

pub open spec fn wf_inter(ic: InterDesc) -> bool {
    &&& is_inter_start(ic.start)
    &&& is_inter_end(ic.end)
    &&& forall|k: int| 0 <= k < ic.groups.len() ==> wf_group(#[trigger] ic.groups[k])
}

pub open spec fn wf_doc(d: Seq<InterDesc>) -> bool {
    forall|k: int| 0 <= k < d.len() ==> wf_inter(#[trigger] d[k])
}

/// The token groups a balanced transaction stands for.
pub open spec fn flat_txn(t: TxnDesc) -> Seq<Seq<Seq<char>>> {
    seq![t.start] + t.data + seq![t.end]
}

pub open spec fn flat_txns(ts: Seq<TxnDesc>) -> Seq<Seq<Seq<char>>>
    decreases ts.len(),
{
    if ts.len() == 0 {
        Seq::<Seq<Seq<char>>>::empty()
    } else {
        flat_txn(ts[0]) + flat_txns(ts.drop_first())
    }
}

pub open spec fn flat_group(g: GroupDesc) -> Seq<Seq<Seq<char>>> {
    seq![g.start] + flat_txns(g.txns) + seq![g.end]
}

pub open spec fn flat_groups(gs: Seq<GroupDesc>) -> Seq<Seq<Seq<char>>>
    decreases gs.len(),
{
    if gs.len() == 0 {
        Seq::<Seq<Seq<char>>>::empty()
    } else {
        flat_group(gs[0]) + flat_groups(gs.drop_first())
    }
}

pub open spec fn flat_inter(ic: InterDesc) -> Seq<Seq<Seq<char>>> {
    seq![ic.start] + flat_groups(ic.groups) + seq![ic.end]
}

/// The token groups a balanced document stands for.
pub open spec fn flat_doc(d: Seq<InterDesc>) -> Seq<Seq<Seq<char>>>
    decreases d.len(),
{
    if d.len() == 0 {
        Seq::<Seq<Seq<char>>>::empty()
    } else {
        flat_inter(d[0]) + flat_doc(d.drop_first())
    }
}

/// The segments a transaction's data token groups must parse to, in order.
pub open spec fn seg_views_of(data: Seq<Seq<Seq<char>>>) -> Seq<SegView> {
    data.map_values(|toks: Seq<Seq<char>>| segment_of_tokens(toks))
}

/// The transaction a balanced transaction description must parse to.
pub open spec fn txn_view_of(t: TxnDesc, schemas: Seq<(Seq<char>, Seq<char>)>) -> TxnView {
    TxnView { segments: seg_views_of(t.data), ..transaction_of_tokens(t.start, schemas) }
}

pub open spec fn txn_views_of(ts: Seq<TxnDesc>, schemas: Seq<(Seq<char>, Seq<char>)>) -> Seq<
    TxnView,
> {
    ts.map_values(|t: TxnDesc| txn_view_of(t, schemas))
}

/// The functional group a balanced group description must parse to.
pub open spec fn group_view_of(g: GroupDesc, schemas: Seq<(Seq<char>, Seq<char>)>) -> GroupView {
    GroupView { transactions: txn_views_of(g.txns, schemas), ..group_of_tokens(g.start) }
}

pub open spec fn group_views_of(gs: Seq<GroupDesc>, schemas: Seq<(Seq<char>, Seq<char>)>) -> Seq<
    GroupView,
> {
    gs.map_values(|g: GroupDesc| group_view_of(g, schemas))
}

/// The interchange a balanced interchange description must parse to.
pub open spec fn inter_view_of(ic: InterDesc, schemas: Seq<(Seq<char>, Seq<char>)>) -> InterView {
    InterView { functional_groups: group_views_of(ic.groups, schemas), ..interchange_of_tokens(ic.start) }
}

/// The whole document a balanced description must parse to.
pub open spec fn doc_view_of(d: Seq<InterDesc>, schemas: Seq<(Seq<char>, Seq<char>)>) -> Seq<
    InterView,
> {
    d.map_values(|ic: InterDesc| inter_view_of(ic, schemas))
}

/// The six envelope markers are pairwise distinct abbreviations.
pub proof fn lemma_markers_distinct()
    ensures
        "ISA"@ != "IEA"@,
        "ISA"@ != "GS"@,
        "ISA"@ != "GE"@,
        "ISA"@ != "ST"@,
        "ISA"@ != "SE"@,
        "IEA"@ != "GS"@,
        "IEA"@ != "GE"@,
        "IEA"@ != "ST"@,
        "IEA"@ != "SE"@,
        "GS"@ != "GE"@,
        "GS"@ != "ST"@,
        "GS"@ != "SE"@,
        "GE"@ != "ST"@,
        "GE"@ != "SE"@,
        "ST"@ != "SE"@,
{
    reveal_strlit("ISA");
    reveal_strlit("IEA");
    reveal_strlit("GS");
    reveal_strlit("GE");
    reveal_strlit("ST");
    reveal_strlit("SE");
    assert("ISA"@.len() == 3);
    assert("IEA"@.len() == 3);
    assert("GS"@.len() == 2);
    assert("GE"@.len() == 2);
    assert("ST"@.len() == 2);
    assert("SE"@.len() == 2);
    assert("ISA"@[1] == 'S');
    assert("IEA"@[1] == 'E');
    assert("GS"@[0] == 'G');
    assert("GE"@[0] == 'G');
    assert("ST"@[0] == 'S');
    assert("SE"@[0] == 'S');
    assert("GS"@[1] == 'S');
    assert("GE"@[1] == 'E');
    assert("ST"@[1] == 'T');
    assert("SE"@[1] == 'E');
}

/// The machine on one token group alone.
pub proof fn lemma_steps_single(
    st: BuilderState,
    toks: Seq<Seq<char>>,
    schemas: Seq<(Seq<char>, Seq<char>)>,
)
    ensures
        steps_spec(st, seq![toks], schemas) == step_spec(st, toks, schemas),
{
    let single = seq![toks];
    assert(single[0] == toks);
    assert(single.drop_first() =~= Seq::<Seq<Seq<char>>>::empty());
    match step_spec(st, toks, schemas) {
        Ok(st2) => {
            assert(steps_spec(st2, single.drop_first(), schemas) == Ok::<
                BuilderState,
                EdiParseError,
            >(st2));
        },
        Err(_) => {},
    }
}

/// Feeding data segments into an open transaction appends them, in order.
pub proof fn lemma_steps_data(
    st: BuilderState,
    tv: TxnView,
    data: Seq<Seq<Seq<char>>>,
    schemas: Seq<(Seq<char>, Seq<char>)>,
)
    requires
        st.txn == Some(tv),
        forall|k: int| 0 <= k < data.len() ==> is_data_group(#[trigger] data[k]),
    ensures
        steps_spec(st, data, schemas) == Ok::<BuilderState, EdiParseError>(
            (BuilderState {
                txn: Some((TxnView { segments: tv.segments + seg_views_of(data), ..tv })),
                ..st
            }),
        ),
    decreases data.len(),
{
    if data.len() == 0 {
        assert(seg_views_of(data) =~= Seq::<SegView>::empty());
        assert(tv.segments + seg_views_of(data) =~= tv.segments);
        assert((BuilderState {
            txn: Some((TxnView { segments: tv.segments + seg_views_of(data), ..tv })),
            ..st
        }) =~~= st);
    } else {
        let tv2 = TxnView { segments: tv.segments.push(segment_of_tokens(data[0])), ..tv };
        let st2 = BuilderState { txn: Some(tv2), ..st };
        assert(step_spec(st, data[0], schemas) == Ok::<BuilderState, EdiParseError>(st2));
        lemma_steps_data(st2, tv2, data.drop_first(), schemas);
        assert(tv2.segments + seg_views_of(data.drop_first()) =~= tv.segments + seg_views_of(
            data,
        ));
        assert((BuilderState {
            txn: Some((TxnView { segments: tv2.segments + seg_views_of(data.drop_first()), ..tv2 })),
            ..st2
        }) =~~= (BuilderState {
            txn: Some((TxnView { segments: tv.segments + seg_views_of(data), ..tv })),
            ..st
        }));
    }
}

/// One balanced transaction closes into the open group.
pub proof fn lemma_steps_txn(
    st: BuilderState,
    gv: GroupView,
    t: TxnDesc,
    schemas: Seq<(Seq<char>, Seq<char>)>,
)
    requires
        st.group == Some(gv),
        st.txn is None,
        wf_txn(t),
    ensures
        steps_spec(st, flat_txn(t), schemas) == Ok::<BuilderState, EdiParseError>(
            (BuilderState {
                group: Some(
                    (GroupView {
                        transactions: gv.transactions.push(txn_view_of(t, schemas)),
                        ..gv
                    }),
                ),
                txn: None,
                ..st
            }),
        ),
{
    lemma_markers_distinct();
    let tv0 = transaction_of_tokens(t.start, schemas);
    let st1 = BuilderState { txn: Some(tv0), ..st };
    assert(step_spec(st, t.start, schemas) == Ok::<BuilderState, EdiParseError>(st1));
    let tv1 = TxnView { segments: tv0.segments + seg_views_of(t.data), ..tv0 };
    let st2 = BuilderState { txn: Some(tv1), ..st1 };
    lemma_steps_data(st1, tv0, t.data, schemas);
    let gv1 = GroupView { transactions: gv.transactions.push(tv1), ..gv };
    let st3 = BuilderState { group: Some(gv1), txn: None, ..st2 };
    assert(step_spec(st2, t.end, schemas) == Ok::<BuilderState, EdiParseError>(st3));
    assert(flat_txn(t) =~= seq![t.start] + (t.data + seq![t.end]));
    lemma_steps_concat(st, seq![t.start], t.data + seq![t.end], schemas);
    lemma_steps_single(st, t.start, schemas);
    lemma_steps_concat(st1, t.data, seq![t.end], schemas);
    lemma_steps_single(st2, t.end, schemas);
    assert(tv1 =~~= txn_view_of(t, schemas)) by {
        assert(tv0.segments + seg_views_of(t.data) =~= seg_views_of(t.data));
    }
    assert(steps_spec(st, flat_txn(t), schemas) == Ok::<BuilderState, EdiParseError>(st3));
    assert(st3 =~~= (BuilderState {
        group: Some(
            (GroupView { transactions: gv.transactions.push(txn_view_of(t, schemas)), ..gv }),
        ),
        txn: None,
        ..st
    }));
}

/// A run of balanced transactions closes each into the open group, in order.
pub proof fn lemma_steps_txns(
    st: BuilderState,
    gv: GroupView,
    ts: Seq<TxnDesc>,
    schemas: Seq<(Seq<char>, Seq<char>)>,
)
    requires
        st.group == Some(gv),
        st.txn is None,
        forall|k: int| 0 <= k < ts.len() ==> wf_txn(#[trigger] ts[k]),
    ensures
        steps_spec(st, flat_txns(ts), schemas) == Ok::<BuilderState, EdiParseError>(
            (BuilderState {
                group: Some(
                    (GroupView {
                        transactions: gv.transactions + txn_views_of(ts, schemas),
                        ..gv
                    }),
                ),
                ..st
            }),
        ),
    decreases ts.len(),
{
    if ts.len() == 0 {
        assert(txn_views_of(ts, schemas) =~= Seq::<TxnView>::empty());
        assert(gv.transactions + txn_views_of(ts, schemas) =~= gv.transactions);
        assert((BuilderState {
            group: Some(
                (GroupView { transactions: gv.transactions + txn_views_of(ts, schemas), ..gv }),
            ),
            ..st
        }) =~~= st);
    } else {
        lemma_steps_txn(st, gv, ts[0], schemas);
        let gv1 = GroupView { transactions: gv.transactions.push(txn_view_of(ts[0], schemas)), ..gv };
        let st1 = BuilderState { group: Some(gv1), txn: None, ..st };
        lemma_steps_txns(st1, gv1, ts.drop_first(), schemas);
        lemma_steps_concat(st, flat_txn(ts[0]), flat_txns(ts.drop_first()), schemas);
        assert(gv1.transactions + txn_views_of(ts.drop_first(), schemas) =~= gv.transactions
            + txn_views_of(ts, schemas));
        assert((BuilderState {
            group: Some(
                (GroupView {
                    transactions: gv1.transactions + txn_views_of(ts.drop_first(), schemas),
                    ..gv1
                }),
            ),
            ..st1
        }) =~~= (BuilderState {
            group: Some(
                (GroupView { transactions: gv.transactions + txn_views_of(ts, schemas), ..gv }),
            ),
            ..st
        }));
    }
}

/// One balanced functional group closes into the open interchange.
pub proof fn lemma_steps_group(
    st: BuilderState,
    iv: InterView,
    g: GroupDesc,
    schemas: Seq<(Seq<char>, Seq<char>)>,
)
    requires
        st.inter == Some(iv),
        st.group is None,
        st.txn is None,
        wf_group(g),
    ensures
        steps_spec(st, flat_group(g), schemas) == Ok::<BuilderState, EdiParseError>(
            (BuilderState {
                inter: Some(
                    (InterView {
                        functional_groups: iv.functional_groups.push(group_view_of(g, schemas)),
                        ..iv
                    }),
                ),
                group: None,
                txn: None,
                ..st
            }),
        ),
{
    lemma_markers_distinct();
    let gv0 = group_of_tokens(g.start);
    let st1 = BuilderState { group: Some(gv0), ..st };
    assert(step_spec(st, g.start, schemas) == Ok::<BuilderState, EdiParseError>(st1));
    let gv1 = GroupView { transactions: gv0.transactions + txn_views_of(g.txns, schemas), ..gv0 };
    let st2 = BuilderState { group: Some(gv1), ..st1 };
    lemma_steps_txns(st1, gv0, g.txns, schemas);
    let iv1 = InterView { functional_groups: iv.functional_groups.push(gv1), ..iv };
    let st3 = BuilderState { inter: Some(iv1), group: None, ..st2 };
    assert(step_spec(st2, g.end, schemas) == Ok::<BuilderState, EdiParseError>(st3));
    assert(flat_group(g) =~= seq![g.start] + (flat_txns(g.txns) + seq![g.end]));
    lemma_steps_concat(st, seq![g.start], flat_txns(g.txns) + seq![g.end], schemas);
    lemma_steps_single(st, g.start, schemas);
    lemma_steps_concat(st1, flat_txns(g.txns), seq![g.end], schemas);
    lemma_steps_single(st2, g.end, schemas);
    assert(gv1 =~~= group_view_of(g, schemas)) by {
        assert(gv0.transactions + txn_views_of(g.txns, schemas) =~= txn_views_of(g.txns, schemas));
    }
    assert(steps_spec(st, flat_group(g), schemas) == Ok::<BuilderState, EdiParseError>(st3));
    assert(st3 =~~= (BuilderState {
        inter: Some(
            (InterView {
                functional_groups: iv.functional_groups.push(group_view_of(g, schemas)),
                ..iv
            }),
        ),
        group: None,
        txn: None,
        ..st
    }));
}

/// A run of balanced functional groups closes each into the open
/// interchange, in order.
pub proof fn lemma_steps_groups(
    st: BuilderState,
    iv: InterView,
    gs: Seq<GroupDesc>,
    schemas: Seq<(Seq<char>, Seq<char>)>,
)
    requires
        st.inter == Some(iv),
        st.group is None,
        st.txn is None,
        forall|k: int| 0 <= k < gs.len() ==> wf_group(#[trigger] gs[k]),
    ensures
        steps_spec(st, flat_groups(gs), schemas) == Ok::<BuilderState, EdiParseError>(
            (BuilderState {
                inter: Some(
                    (InterView {
                        functional_groups: iv.functional_groups + group_views_of(gs, schemas),
                        ..iv
                    }),
                ),
                ..st
            }),
        ),
    decreases gs.len(),
{
    if gs.len() == 0 {
        assert(group_views_of(gs, schemas) =~= Seq::<GroupView>::empty());
        assert(iv.functional_groups + group_views_of(gs, schemas) =~= iv.functional_groups);
        assert((BuilderState {
            inter: Some(
                (InterView {
                    functional_groups: iv.functional_groups + group_views_of(gs, schemas),
                    ..iv
                }),
            ),
            ..st
        }) =~~= st);
    } else {
        lemma_steps_group(st, iv, gs[0], schemas);
        let iv1 = InterView {
            functional_groups: iv.functional_groups.push(group_view_of(gs[0], schemas)),
            ..iv
        };
        let st1 = BuilderState { inter: Some(iv1), group: None, txn: None, ..st };
        lemma_steps_groups(st1, iv1, gs.drop_first(), schemas);
        lemma_steps_concat(st, flat_group(gs[0]), flat_groups(gs.drop_first()), schemas);
        assert(iv1.functional_groups + group_views_of(gs.drop_first(), schemas)
            =~= iv.functional_groups + group_views_of(gs, schemas));
        assert((BuilderState {
            inter: Some(
                (InterView {
                    functional_groups: iv1.functional_groups + group_views_of(
                        gs.drop_first(),
                        schemas,
                    ),
                    ..iv1
                }),
            ),
            ..st1
        }) =~~= (BuilderState {
            inter: Some(
                (InterView {
                    functional_groups: iv.functional_groups + group_views_of(gs, schemas),
                    ..iv
                }),
            ),
            ..st
        }));
    }
}

/// One balanced interchange is finished and appended.
pub proof fn lemma_steps_inter(
    st: BuilderState,
    ic: InterDesc,
    schemas: Seq<(Seq<char>, Seq<char>)>,
)
    requires
        st.inter is None,
        st.group is None,
        st.txn is None,
        wf_inter(ic),
    ensures
        steps_spec(st, flat_inter(ic), schemas) == Ok::<BuilderState, EdiParseError>(
            (BuilderState { finished: st.finished.push(inter_view_of(ic, schemas)), ..st }),
        ),
{
    lemma_markers_distinct();
    let iv0 = interchange_of_tokens(ic.start);
    let st1 = BuilderState { inter: Some(iv0), ..st };
    assert(step_spec(st, ic.start, schemas) == Ok::<BuilderState, EdiParseError>(st1));
    let iv1 = InterView {
        functional_groups: iv0.functional_groups + group_views_of(ic.groups, schemas),
        ..iv0
    };
    let st2 = BuilderState { inter: Some(iv1), ..st1 };
    lemma_steps_groups(st1, iv0, ic.groups, schemas);
    let st3 = BuilderState { finished: st2.finished.push(iv1), inter: None, ..st2 };
    assert(step_spec(st2, ic.end, schemas) == Ok::<BuilderState, EdiParseError>(st3));
    assert(flat_inter(ic) =~= seq![ic.start] + (flat_groups(ic.groups) + seq![ic.end]));
    lemma_steps_concat(st, seq![ic.start], flat_groups(ic.groups) + seq![ic.end], schemas);
    lemma_steps_single(st, ic.start, schemas);
    lemma_steps_concat(st1, flat_groups(ic.groups), seq![ic.end], schemas);
    lemma_steps_single(st2, ic.end, schemas);
    assert(iv1 =~~= inter_view_of(ic, schemas)) by {
        assert(iv0.functional_groups + group_views_of(ic.groups, schemas) =~= group_views_of(
            ic.groups,
            schemas,
        ));
    }
    assert(steps_spec(st, flat_inter(ic), schemas) == Ok::<BuilderState, EdiParseError>(st3));
    assert(st3 =~~= (BuilderState {
        finished: st.finished.push(inter_view_of(ic, schemas)),
        ..st
    }));
}

/// A run of balanced interchanges finishes each in order.
pub proof fn lemma_steps_doc(
    st: BuilderState,
    d: Seq<InterDesc>,
    schemas: Seq<(Seq<char>, Seq<char>)>,
)
    requires
        st.inter is None,
        st.group is None,
        st.txn is None,
        wf_doc(d),
    ensures
        steps_spec(st, flat_doc(d), schemas) == Ok::<BuilderState, EdiParseError>(
            (BuilderState { finished: st.finished + doc_view_of(d, schemas), ..st }),
        ),
    decreases d.len(),
{
    if d.len() == 0 {
        assert(doc_view_of(d, schemas) =~= Seq::<InterView>::empty());
        assert(st.finished + doc_view_of(d, schemas) =~= st.finished);
        assert((BuilderState { finished: st.finished + doc_view_of(d, schemas), ..st }) =~~= st);
    } else {
        lemma_steps_inter(st, d[0], schemas);
        let st1 = BuilderState { finished: st.finished.push(inter_view_of(d[0], schemas)), ..st };
        lemma_steps_doc(st1, d.drop_first(), schemas);
        lemma_steps_concat(st, flat_inter(d[0]), flat_doc(d.drop_first()), schemas);
        assert(st1.finished + doc_view_of(d.drop_first(), schemas) =~= st.finished + doc_view_of(
            d,
            schemas,
        ));
        assert((BuilderState {
            finished: st1.finished + doc_view_of(d.drop_first(), schemas),
            ..st1
        }) =~~= (BuilderState { finished: st.finished + doc_view_of(d, schemas), ..st }));
    }
}

/// The law of balanced input: any stream of balanced
/// interchange/group/transaction envelope triples parses successfully, and
/// the document holds exactly one interchange per interchange start/end
/// pair, each holding exactly its own groups, transactions and data
/// segments, nested as written.
pub proof fn lemma_balanced_input_parses(d: Seq<InterDesc>, schemas: Seq<(Seq<char>, Seq<char>)>)
    requires
        wf_doc(d),
    ensures
        build_spec(flat_doc(d), schemas) == Ok::<Seq<InterView>, EdiParseError>(
            doc_view_of(d, schemas),
        ),
        doc_view_of(d, schemas).len() == d.len(),
{
    lemma_steps_doc(init_state(), d, schemas);
    let stf = BuilderState {
        finished: init_state().finished + doc_view_of(d, schemas),
        ..init_state()
    };
    assert(stf.finished =~= doc_view_of(d, schemas));
    assert(finish_spec(stf) == Ok::<Seq<InterView>, EdiParseError>(doc_view_of(d, schemas)));
}

/// The law of structural violation: a transaction-end segment encountered
/// with no open transaction raises a structural error, whatever else the
/// state holds.
pub proof fn lemma_transaction_end_without_open(
    st: BuilderState,
    toks: Seq<Seq<char>>,
    schemas: Seq<(Seq<char>, Seq<char>)>,
)
    requires
        st.txn is None,
        is_txn_end(toks),
    ensures
        step_spec(st, toks, schemas) == Err::<BuilderState, EdiParseError>(
            EdiParseError::StructuralError,
        ),
{
    lemma_markers_distinct();
}

/// The law of unterminated input: input that ends with an interchange still
/// open — and nothing open inside it — raises the unterminated-envelope
/// error naming the interchange level.
pub proof fn lemma_unterminated_interchange(st: BuilderState)
    requires
        st.inter is Some,
        st.group is None,
        st.txn is None,
    ensures
        finish_spec(st) == Err::<Seq<InterView>, EdiParseError>(
            EdiParseError::UnterminatedEnvelope(EnvelopeKind::Interchange),
        ),
{
}

/// The law of balanced input, stated of the raw text: any text that
/// tokenizes to a balanced stream of envelope triples parses successfully,
/// with one interchange per interchange start/end pair, nested as written.
pub proof fn lemma_balanced_text_parses(
    input: Seq<char>,
    terminator: char,
    separator: char,
    d: Seq<InterDesc>,
    schemas: Seq<(Seq<char>, Seq<char>)>,
)
    requires
        wf_doc(d),
        groups_spec(input, terminator, separator) == flat_doc(d),
    ensures
        parse_spec(input, terminator, separator, schemas) == Ok::<Seq<InterView>, EdiParseError>(
            doc_view_of(d, schemas),
        ),
        doc_view_of(d, schemas).len() == d.len(),
{
    lemma_balanced_input_parses(d, schemas);
}

/// The law of segment order: within any transaction of a balanced input,
/// the Nth data segment appears at index N-1 of that transaction's parsed
/// segment list.
pub proof fn lemma_segment_order(
    d: Seq<InterDesc>,
    schemas: Seq<(Seq<char>, Seq<char>)>,
    i: int,
    j: int,
    k: int,
    n: int,
)
    requires
        wf_doc(d),
        0 <= i < d.len(),
        0 <= j < d[i].groups.len(),
        0 <= k < d[i].groups[j].txns.len(),
        1 <= n <= d[i].groups[j].txns[k].data.len(),
    ensures
        build_spec(flat_doc(d), schemas) matches Ok(doc)
            && doc[i].functional_groups[j].transactions[k].segments[n - 1] == segment_of_tokens(
            d[i].groups[j].txns[k].data[n - 1],
        ),
{
    lemma_balanced_input_parses(d, schemas);
}

} // verus!
