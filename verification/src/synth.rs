//! The update synthesizer: rewrites the user's state-transition routine so
//! that every assignment to a tracked model field is immediately followed
//! by one update statement per dependent record, in the dependency map's
//! iteration order for that field. No statement is deleted or altered;
//! only insertions are made.

use vstd::prelude::*;
use crate::tokens::{Token, TokenV, clone_tokens};
use crate::depmap::{DepMap, DepMapV, DepRecordV, lookup};

verus! {

/// One statement of the transition routine. Only flat assignment
/// statements are recognized for instrumentation; everything else passes
/// through opaquely as `Other` (assignments nested in control flow are
/// deliberately not instrumented).
#[derive(Debug, PartialEq, Eq)]
pub enum Stmt {
    /// `model.field = value;`
    Assign { field: String, value: Vec<Token> },
    /// A synthesized re-application of a dependent property:
    /// `widget.property = expr;`
    Update { widget: String, property: String, expr: Vec<Token> },
    /// Any other statement, carried verbatim.
    Other { tokens: Vec<Token> },
}

/// The view of a `Stmt`.
#[verifier::ext_equal]
pub enum StmtV {
    Assign { field: Seq<char>, value: Seq<TokenV> },
    Update { widget: Seq<char>, property: Seq<char>, expr: Seq<TokenV> },
    Other { tokens: Seq<TokenV> },
}

impl DeepView for Stmt {
    type V = StmtV;

    open spec fn deep_view(&self) -> StmtV {
        match self {
            Stmt::Assign { field, value } => StmtV::Assign {
                field: field@,
                value: value.deep_view(),
            },
            Stmt::Update { widget, property, expr } => StmtV::Update {
                widget: widget@,
                property: property@,
                expr: expr.deep_view(),
            },
            Stmt::Other { tokens } => StmtV::Other { tokens: tokens.deep_view() },
        }
    }
}

/// Whether a statement is an assignment to a model field.
pub open spec fn is_assign(s: StmtV) -> bool {
    s is Assign
}

/// Whether a statement is a synthesized property update.
pub open spec fn is_update(s: StmtV) -> bool {
    s is Update
}

/// The field an assignment statement assigns to.
pub open spec fn assign_field(s: StmtV) -> Seq<char> {
    match s {
        StmtV::Assign { field, .. } => field,
        _ => Seq::empty(),
    }
}

/// The update statement a dependent record dictates: re-evaluate the
/// record's expression and assign the result to the widget's property.
pub open spec fn update_of(r: DepRecordV) -> StmtV {
    StmtV::Update {
        widget: r.widget_path,
        property: r.property_name,
        expr: r.expression_text,
    }
}

/// The update statements owed after an assignment to `f`: one per record
/// tracked for `f`, in the map's iteration order; none when `f` is
/// untracked.
pub open spec fn updates_for(m: DepMapV, f: Seq<char>) -> Seq<StmtV> {
    match lookup(m, f) {
        None => Seq::empty(),
        Some(rs) => rs.map_values(|r: DepRecordV| update_of(r)),
    }
}

/// What one source statement becomes: the statement itself, followed by
/// the updates it owes when it assigns to a tracked field.
pub open spec fn segment(s: StmtV, m: DepMapV) -> Seq<StmtV> {
    match s {
        StmtV::Assign { field, .. } => seq![s] + updates_for(m, field),
        _ => seq![s],
    }
}

/// The synthesized routine: each source statement in order, each followed
/// by the updates it owes.
pub open spec fn spec_synth(ss: Seq<StmtV>, m: DepMapV) -> Seq<StmtV>
    decreases ss.len(),
{
    if ss.len() == 0 {
        Seq::empty()
    } else {
        segment(ss[0], m) + spec_synth(ss.skip(1), m)
    }
}

/// A routine containing no synthesized update statements (every user
/// routine, before synthesis).
pub open spec fn no_updates(ss: Seq<StmtV>) -> bool {
    forall|i: int| 0 <= i < ss.len() ==> !is_update(#[trigger] ss[i])
}

/// Rewrites the transition routine: every statement passes through in
/// source order, and immediately after each assignment to a field tracked
/// by the map, one update statement per dependent record is inserted, in
/// the map's iteration order for that field.
#[verifier::loop_isolation(false)]
pub fn get_update(stmts: Vec<Stmt>, map: &DepMap) -> (out: Vec<Stmt>)
    ensures
        out.deep_view() == spec_synth(stmts.deep_view(), map.deep_view()),
{
    let ghost ssv = stmts.deep_view();
    let ghost mv = map.deep_view();
    let mut input = stmts;
    let mut out: Vec<Stmt> = Vec::new();
    proof {
        assert(out.deep_view() =~= Seq::<StmtV>::empty());
        assert(out.deep_view() + spec_synth(ssv, mv) =~= spec_synth(ssv, mv));
    }
    while input.len() > 0
        invariant
            out.deep_view() + spec_synth(input.deep_view(), mv) == spec_synth(ssv, mv),
        decreases input.len(),
    {
        let ghost iv = input.deep_view();
        let s = input.remove(0);
        let ghost sv = s.deep_view();
        proof {
            assert(input.deep_view() =~= iv.skip(1));
            assert(sv == iv[0]);
        }
        let field: Option<String> = match &s {
            Stmt::Assign { field, .. } => Some(field.clone()),
            _ => None,
        };
        let ghost pre = out.deep_view();
        out.push(s);
        proof {
            assert(out.deep_view() =~= pre.push(sv));
        }
        match field {
            None => {
                proof {
                    assert(segment(sv, mv) =~= seq![sv]);
                    assert(out.deep_view() =~= pre + segment(sv, mv));
                    assert(out.deep_view() + spec_synth(iv.skip(1), mv) =~= spec_synth(ssv, mv));
                }
            },
            Some(f) => {
                proof {
                    assert(f@ == assign_field(sv));
                }
                match map.get(&f) {
                    None => {
                        proof {
                            assert(updates_for(mv, f@) =~= Seq::<StmtV>::empty());
                            assert(segment(sv, mv) =~= seq![sv]);
                            assert(out.deep_view() =~= pre + segment(sv, mv));
                            assert(out.deep_view() + spec_synth(iv.skip(1), mv) =~= spec_synth(
                                ssv,
                                mv,
                            ));
                        }
                    },
                    Some(rs) => {
                        let ghost rsv = rs.deep_view();
                        let ghost base = out.deep_view();
                        let mut j: usize = 0;
                        proof {
                            assert(updates_for(mv, f@) == rsv.map_values(
                                |r: DepRecordV| update_of(r),
                            ));
                            assert(base + updates_for(mv, f@).take(0) =~= base);
                        }
                        while j < rs.len()
                            invariant
                                j <= rs.len(),
                                rsv.len() == rs.len(),
                                out.deep_view() == base + updates_for(mv, f@).take(j as int),
                            decreases rs.len() - j,
                        {
                            let rec = &rs[j];
                            let upd = Stmt::Update {
                                widget: rec.widget_path.clone(),
                                property: rec.property_name.clone(),
                                expr: clone_tokens(&rec.expression_text),
                            };
                            let ghost pre2 = out.deep_view();
                            proof {
                                assert(upd.deep_view() == update_of(rsv[j as int]));
                                assert(updates_for(mv, f@)[j as int] == update_of(rsv[j as int]));
                            }
                            out.push(upd);
                            proof {
                                assert(out.deep_view() =~= pre2.push(
                                    updates_for(mv, f@)[j as int],
                                ));
                                assert(out.deep_view() =~= base + updates_for(mv, f@).take(
                                    j as int + 1,
                                ));
                            }
                            j = j + 1;
                        }
                        proof {
                            assert(updates_for(mv, f@).take(rsv.len() as int) =~= updates_for(
                                mv,
                                f@,
                            ));
                            assert(out.deep_view() =~= pre + segment(sv, mv));
                            assert(out.deep_view() + spec_synth(iv.skip(1), mv) =~= spec_synth(
                                ssv,
                                mv,
                            ));
                        }
                    },
                }
            },
        }
    }
    proof {
        assert(input.deep_view().len() == 0);
        assert(spec_synth(input.deep_view(), mv) =~= Seq::<StmtV>::empty());
        assert(out.deep_view() =~= spec_synth(ssv, mv));
    }
    out
}

/// The head of a synthesized routine is the first source statement.
proof fn lemma_synth_head(ss: Seq<StmtV>, m: DepMapV)
    requires
        ss.len() > 0,
    ensures
        spec_synth(ss, m).len() > 0,
        spec_synth(ss, m)[0] == ss[0],
{
    assert(segment(ss[0], m)[0] == ss[0]);
}

/// Inside one segment, everything after the head is a synthesized update.
proof fn lemma_segment_tail_updates(s: StmtV, m: DepMapV)
    ensures
        segment(s, m).len() >= 1,
        segment(s, m)[0] == s,
        forall|k: int| 1 <= k < segment(s, m).len() ==> is_update(#[trigger] segment(s, m)[k]),
{
    match s {
        StmtV::Assign { field, .. } => {
            assert forall|k: int| 1 <= k < segment(s, m).len() implies is_update(
                #[trigger] segment(s, m)[k],
            ) by {
                assert(segment(s, m)[k] == updates_for(m, field)[k - 1]);
                match lookup(m, field) {
                    Some(rs) => {
                        assert(updates_for(m, field)[k - 1] == update_of(rs[k - 1]));
                    },
                    None => {},
                }
            }
        },
        _ => {},
    }
}

/// Every assignment statement in the synthesized routine is a source
/// statement, and it is immediately followed by exactly the update
/// statements of the records its field is tracked under — none when the
/// field is absent from the map — after which the source routine resumes.
pub proof fn lemma_assignment_followed_by_its_updates(ss: Seq<StmtV>, m: DepMapV, j: int)
    requires
        no_updates(ss),
        0 <= j < spec_synth(ss, m).len(),
        is_assign(spec_synth(ss, m)[j]),
    ensures
        ss.contains(spec_synth(ss, m)[j]),
        j + 1 + updates_for(m, assign_field(spec_synth(ss, m)[j])).len() <= spec_synth(
            ss,
            m,
        ).len(),
        spec_synth(ss, m).subrange(
            j + 1,
            j + 1 + updates_for(m, assign_field(spec_synth(ss, m)[j])).len(),
        ) == updates_for(m, assign_field(spec_synth(ss, m)[j])),
        j + 1 + updates_for(m, assign_field(spec_synth(ss, m)[j])).len() < spec_synth(
            ss,
            m,
        ).len() ==> !is_update(
            spec_synth(ss, m)[j + 1 + updates_for(m, assign_field(spec_synth(ss, m)[j])).len()],
        ),
    decreases ss.len(),
{
    let out = spec_synth(ss, m);
    let seg = segment(ss[0], m);
    let rest = spec_synth(ss.skip(1), m);
    lemma_segment_tail_updates(ss[0], m);
    if j < seg.len() {
        assert(out[j] == seg[j]);
        assert(j == 0);
        assert(out[0] == ss[0]);
        assert(ss.contains(out[0])) by {
            assert(ss[0] == out[0]);
        }
        let f = assign_field(ss[0]);
        let ups = updates_for(m, f);
        assert(seg =~= seq![ss[0]] + ups);
        assert(out.subrange(1, 1 + ups.len() as int) =~= ups) by {
            assert forall|k: int| 0 <= k < ups.len() implies out.subrange(1, 1 + ups.len() as int)[k]
                == ups[k] by {
                assert(out[1 + k] == seg[1 + k]);
                assert(seg[1 + k] == ups[k]);
            }
        }
        if 1 + (ups.len() as int) < out.len() {
            assert(out[1 + ups.len() as int] == rest[0]);
            assert(ss.skip(1).len() > 0);
            lemma_synth_head(ss.skip(1), m);
            assert(rest[0] == ss.skip(1)[0]);
            assert(ss.skip(1)[0] == ss[1]);
            assert(!is_update(ss[1]));
        }
    } else {
        let j2 = j - seg.len();
        assert(out[j] == rest[j2]);
        assert(no_updates(ss.skip(1))) by {
            assert forall|i: int| 0 <= i < ss.skip(1).len() implies !is_update(
                #[trigger] ss.skip(1)[i],
            ) by {
                assert(ss.skip(1)[i] == ss[i + 1]);
            }
        }
        lemma_assignment_followed_by_its_updates(ss.skip(1), m, j2);
        assert(ss.contains(out[j])) by {
            let w = choose|w: int| 0 <= w < ss.skip(1).len() && ss.skip(1)[w] == rest[j2];
            assert(ss[w + 1] == rest[j2]);
        }
        let f = assign_field(out[j]);
        let ups = updates_for(m, f);
        assert(out.subrange(j + 1, j + 1 + ups.len() as int) =~= rest.subrange(j2 + 1, j2 + 1 + ups.len() as int))
            by {
            assert forall|k: int| 0 <= k < ups.len() implies #[trigger] out.subrange(j + 1, j + 1 + ups.len() as int)[k]
                == rest.subrange(j2 + 1, j2 + 1 + ups.len() as int)[k] by {
                assert(out[j + 1 + k] == rest[j2 + 1 + k]);
            }
        }
        if j + 1 + (ups.len() as int) < out.len() {
            assert(out[j + 1 + ups.len() as int] == rest[j2 + 1 + ups.len() as int]);
        }
    }
}

/// An assignment to a field absent from the dependency map passes through
/// with nothing inserted after it: its immediate successor, when one
/// exists, is a source statement, never a synthesized update.
pub proof fn lemma_untracked_assignment_unmodified(ss: Seq<StmtV>, m: DepMapV, j: int)
    requires
        no_updates(ss),
        0 <= j < spec_synth(ss, m).len(),
        is_assign(spec_synth(ss, m)[j]),
        lookup(m, assign_field(spec_synth(ss, m)[j])) is None,
    ensures
        ss.contains(spec_synth(ss, m)[j]),
        j + 1 < spec_synth(ss, m).len() ==> !is_update(spec_synth(ss, m)[j + 1]),
{
    lemma_assignment_followed_by_its_updates(ss, m, j);
    assert(updates_for(m, assign_field(spec_synth(ss, m)[j])).len() == 0);
}

} // verus!
