//! The dependency map: a reverse index from model-field identifier to the
//! set of (widget, property, expression) records whose expressions
//! reference that field, built once per invocation from the widget tree.

use vstd::prelude::*;
use crate::tokens::{Token, TokenV, clone_tokens};
use crate::ast::{WidgetNode, WidgetNodeV, PropertyV, dview_seq, lemma_dview_seq_index};
use crate::analyzer::{expr_valid, idents_of, extract_idents};
use crate::errors::CompileError;

verus! {

/// One dependent property: the widget holding it, the property's name and
/// the expression to re-evaluate when the field changes.
#[derive(Debug, PartialEq, Eq)]
pub struct DepRecord {
    pub widget_path: String,
    pub property_name: String,
    pub expression_text: Vec<Token>,
}

/// The view of a `DepRecord`.
#[verifier::ext_equal]
pub struct DepRecordV {
    pub widget_path: Seq<char>,
    pub property_name: Seq<char>,
    pub expression_text: Seq<TokenV>,
}

impl DeepView for DepRecord {
    type V = DepRecordV;

    open spec fn deep_view(&self) -> DepRecordV {
        DepRecordV {
            widget_path: self.widget_path@,
            property_name: self.property_name@,
            expression_text: self.expression_text.deep_view(),
        }
    }
}

/// The view of a whole dependency map: field identifiers paired with their
/// dependent records, in first-insertion order.
pub type DepMapV = Seq<(Seq<char>, Seq<DepRecordV>)>;

/// The reverse index from model-field identifier to dependent records.
#[derive(Debug, PartialEq, Eq)]
pub struct DepMap {
    pub entries: Vec<(String, Vec<DepRecord>)>,
}

impl DeepView for DepMap {
    type V = DepMapV;

    open spec fn deep_view(&self) -> DepMapV {
        self.entries.deep_view()
    }
}

/// The records tracked for one field, or `None` when the field is absent.
pub open spec fn lookup(m: DepMapV, f: Seq<char>) -> Option<Seq<DepRecordV>>
    decreases m.len(),
{
    if m.len() == 0 {
        None
    } else if m[0].0 == f {
        Some(m[0].1)
    } else {
        lookup(m.skip(1), f)
    }
}

/// Whether the map tracks record `r` under field `f`.
pub open spec fn map_has_record(m: DepMapV, f: Seq<char>, r: DepRecordV) -> bool {
    match lookup(m, f) {
        Some(rs) => rs.contains(r),
        None => false,
    }
}

/// Inserts one record into one field's set; an already-present record for
/// the same field collapses, and other fields are untouched.
pub open spec fn add_record(m: DepMapV, f: Seq<char>, r: DepRecordV) -> DepMapV
    decreases m.len(),
{
    if m.len() == 0 {
        seq![(f, seq![r])]
    } else if m[0].0 == f {
        if m[0].1.contains(r) {
            m
        } else {
            seq![(m[0].0, m[0].1.push(r))] + m.skip(1)
        }
    } else {
        seq![m[0]] + add_record(m.skip(1), f, r)
    }
}

/// Inserts the same record under every identifier of a list.
pub open spec fn add_all(m: DepMapV, ids: Seq<Seq<char>>, r: DepRecordV) -> DepMapV
    decreases ids.len(),
{
    if ids.len() == 0 {
        m
    } else {
        add_all(add_record(m, ids[0], r), ids.skip(1), r)
    }
}

/// The record a property of a named widget contributes.
pub open spec fn record_of(widget: Seq<char>, p: PropertyV) -> DepRecordV {
    DepRecordV { widget_path: widget, property_name: p.name, expression_text: p.expr }
}

/// Folds one node's properties into the map, left to right; an invalid
/// expression aborts the build.
pub open spec fn build_props(widget: Seq<char>, props: Seq<PropertyV>, m: DepMapV) -> Option<
    DepMapV,
>
    decreases props.len(),
{
    if props.len() == 0 {
        Some(m)
    } else if !expr_valid(props[0].expr) {
        None
    } else {
        build_props(
            widget,
            props.skip(1),
            add_all(m, idents_of(props[0].expr), record_of(widget, props[0])),
        )
    }
}

/// The name a fully named node carries.
pub open spec fn name_of(t: WidgetNodeV) -> Seq<char> {
    match t.name {
        Some(n) => n,
        None => Seq::empty(),
    }
}

/// Folds a whole subtree into the map, in pre-order: the node's own
/// properties first, then its children in declared order.
pub open spec fn build_node(t: WidgetNodeV, m: DepMapV) -> Option<DepMapV>
    decreases t,
{
    match build_props(name_of(t), t.properties, m) {
        None => None,
        Some(m2) => build_children(t.children, m2),
    }
}

/// Folds a forest into the map, left to right.
pub open spec fn build_children(s: Seq<WidgetNodeV>, m: DepMapV) -> Option<DepMapV>
    decreases s,
{
    if s.len() == 0 {
        Some(m)
    } else {
        match build_node(s[0], m) {
            None => None,
            Some(m2) => build_children(s.skip(1), m2),
        }
    }
}

/// The dependency map of a whole tree, starting from the empty map.
pub open spec fn spec_dependency_map(t: WidgetNodeV) -> Option<DepMapV> {
    build_node(t, Seq::empty())
}

/// Whether two tokens have the same view.
fn token_eq(a: &Token, b: &Token) -> (r: bool)
    ensures
        r == (a.deep_view() == b.deep_view()),
{
    match (a, b) {
        (Token::Ident(x), Token::Ident(y)) => x.eq(y),
        (Token::Lit(x), Token::Lit(y)) => x.eq(y),
        (Token::LBrace, Token::LBrace) => true,
        (Token::RBrace, Token::RBrace) => true,
        (Token::LParen, Token::LParen) => true,
        (Token::RParen, Token::RParen) => true,
        (Token::LBracket, Token::LBracket) => true,
        (Token::RBracket, Token::RBracket) => true,
        (Token::Colon, Token::Colon) => true,
        (Token::Comma, Token::Comma) => true,
        (Token::Dot, Token::Dot) => true,
        (Token::Pound, Token::Pound) => true,
        (Token::Eq, Token::Eq) => true,
        (Token::FatArrow, Token::FatArrow) => true,
        (Token::PathSep, Token::PathSep) => true,
        (Token::Op(x), Token::Op(y)) => x == y,
        _ => false,
    }
}

/// Whether two token sequences have the same view.
fn tokens_eq(a: &Vec<Token>, b: &Vec<Token>) -> (r: bool)
    ensures
        r == (a.deep_view() == b.deep_view()),
{
    if a.len() != b.len() {
        assert(a.deep_view().len() != b.deep_view().len());
        return false;
    }
    let mut i: usize = 0;
    while i < a.len()
        invariant
            i <= a.len(),
            a.len() == b.len(),
            a.deep_view().len() == b.deep_view().len() == a.len(),
            forall|k: int| 0 <= k < i ==> a.deep_view()[k] == b.deep_view()[k],
        decreases a.len() - i,
    {
        if !token_eq(&a[i], &b[i]) {
            assert(a.deep_view()[i as int] != b.deep_view()[i as int]);
            return false;
        }
        i = i + 1;
    }
    proof {
        assert(a.deep_view() =~= b.deep_view());
    }
    true
}

/// Whether two records have the same view.
fn record_eq(a: &DepRecord, b: &DepRecord) -> (r: bool)
    ensures
        r == (a.deep_view() == b.deep_view()),
{
    a.widget_path.eq(&b.widget_path) && a.property_name.eq(&b.property_name) && tokens_eq(
        &a.expression_text,
        &b.expression_text,
    )
}

/// Whether a record list already holds a record with this view.
fn records_contain(v: &Vec<DepRecord>, r: &DepRecord) -> (res: bool)
    ensures
        res == v.deep_view().contains(r.deep_view()),
{
    let mut j: usize = 0;
    while j < v.len()
        invariant
            j <= v.len(),
            forall|k: int| 0 <= k < j ==> v.deep_view()[k] != r.deep_view(),
        decreases v.len() - j,
    {
        if record_eq(&v[j], r) {
            assert(v.deep_view()[j as int] == r.deep_view());
            return true;
        }
        j = j + 1;
    }
    false
}

/// Copies a record; the view is preserved exactly.
fn clone_record(r: &DepRecord) -> (res: DepRecord)
    ensures
        res.deep_view() == r.deep_view(),
{
    DepRecord {
        widget_path: r.widget_path.clone(),
        property_name: r.property_name.clone(),
        expression_text: clone_tokens(&r.expression_text),
    }
}

impl DepMap {
    /// The empty map.
    pub fn new() -> (m: DepMap)
        ensures
            m.deep_view() == Seq::<(Seq<char>, Seq<DepRecordV>)>::empty(),
    {
        let m = DepMap { entries: Vec::new() };
        proof {
            assert(m.deep_view() =~= Seq::<(Seq<char>, Seq<DepRecordV>)>::empty());
        }
        m
    }

    /// The records tracked for one field, copied out, or `None` when the
    /// field is absent.
    #[verifier::loop_isolation(false)]
    pub fn get(&self, f: &String) -> (r: Option<Vec<DepRecord>>)
        ensures
            match r {
                Some(rs) => lookup(self.deep_view(), f@) == Some(rs.deep_view()),
                None => lookup(self.deep_view(), f@) is None,
            },
    {
        let ghost dm = self.deep_view();
        let mut i: usize = 0;
        proof {
            assert(dm.skip(0) =~= dm);
        }
        while i < self.entries.len()
            invariant
                i <= self.entries.len(),
                dm == self.deep_view(),
                dm.len() == self.entries.len(),
                lookup(dm.skip(i as int), f@) == lookup(dm, f@),
            decreases self.entries.len() - i,
        {
            proof {
                assert(dm.skip(i as int)[0] == dm[i as int]);
                assert(dm.skip(i as int).skip(1) =~= dm.skip(i as int + 1));
            }
            if f.eq(&self.entries[i].0) {
                let src = &self.entries[i].1;
                let mut out: Vec<DepRecord> = Vec::new();
                let mut j: usize = 0;
                while j < src.len()
                    invariant
                        j <= src.len(),
                        out.deep_view() =~= src.deep_view().take(j as int),
                    decreases src.len() - j,
                {
                    let ghost pre = out.deep_view();
                    out.push(clone_record(&src[j]));
                    proof {
                        assert(out.deep_view() =~= pre.push(src.deep_view()[j as int]));
                        assert(out.deep_view() =~= src.deep_view().take(j as int + 1));
                    }
                    j = j + 1;
                }
                proof {
                    assert(src.deep_view().take(src.len() as int) =~= src.deep_view());
                    assert(dm[i as int].1 == src.deep_view());
                }
                return Some(out);
            }
            i = i + 1;
        }
        proof {
            assert(dm.skip(dm.len() as int) =~= Seq::<(Seq<char>, Seq<DepRecordV>)>::empty());
        }
        None
    }

    /// Inserts one record under one field, collapsing a duplicate record
    /// of the same field.
    pub fn insert(&mut self, f: &String, r: DepRecord)
        ensures
            final(self).deep_view() == add_record(old(self).deep_view(), f@, r.deep_view()),
        decreases old(self).entries.len(),
    {
        let ghost dm = self.deep_view();
        if self.entries.len() == 0 {
            let mut rs: Vec<DepRecord> = Vec::new();
            rs.push(r);
            self.entries.push((f.clone(), rs));
            proof {
                assert(rs.deep_view() =~= seq![r.deep_view()]);
                assert(self.deep_view() =~= seq![(f@, rs.deep_view())]);
            }
        } else {
            let mut head = self.entries.remove(0);
            proof {
                assert(self.deep_view() =~= dm.skip(1));
                assert(head.deep_view() == dm[0]);
            }
            if f.eq(&head.0) {
                if records_contain(&head.1, &r) {
                    self.entries.insert(0, head);
                    proof {
                        assert(self.deep_view() =~= dm);
                    }
                } else {
                    let ghost rs0 = head.1.deep_view();
                    head.1.push(r);
                    proof {
                        assert(head.1.deep_view() =~= rs0.push(r.deep_view()));
                    }
                    self.entries.insert(0, head);
                    proof {
                        assert(self.deep_view() =~= seq![(dm[0].0, dm[0].1.push(r.deep_view()))]
                            + dm.skip(1));
                    }
                }
            } else {
                self.insert(f, r);
                let ghost tail = self.deep_view();
                self.entries.insert(0, head);
                proof {
                    assert(self.deep_view() =~= seq![dm[0]] + tail);
                }
            }
        }
    }
}

/// Builds the dependency map for a whole widget tree: a pre-order walk that
/// analyzes every property's expression exactly once and files one record
/// per referenced identifier. Fails with `ExpressionAnalysisError` exactly
/// when some property expression is invalid.
#[verifier::loop_isolation(false)]
pub fn get_properties_model_map(t: &WidgetNode, map: &mut DepMap) -> (r: Result<
    (),
    CompileError,
>)
    requires
        t.dview().all_named(),
    ensures
        match r {
            Ok(()) => build_node(t.dview(), old(map).deep_view()) == Some(final(map).deep_view()),
            Err(e) => e == CompileError::ExpressionAnalysisError && build_node(
                t.dview(),
                old(map).deep_view(),
            ) is None,
        },
    decreases t,
{
    let ghost tv = t.dview();
    let widget_name: &String = match &t.name {
        Some(n) => n,
        None => {
            proof {
                assert(false);
            }
            return Err(CompileError::ExpressionAnalysisError);
        },
    };
    let ghost m0 = map.deep_view();
    let mut i: usize = 0;
    proof {
        assert(tv.properties.skip(0) =~= tv.properties);
    }
    while i < t.properties.len()
        invariant
            i <= t.properties.len(),
            tv == t.dview(),
            t.dview().all_named(),
            widget_name@ == name_of(tv),
            tv.properties.len() == t.properties.len(),
            forall|k: int| 0 <= k < t.properties.len() ==> tv.properties[k] == (
            #[trigger] t.properties@[k]).deep_view(),
            build_props(name_of(tv), tv.properties.skip(i as int), map.deep_view()) == build_props(
                name_of(tv),
                tv.properties,
                m0,
            ),
        decreases t.properties.len() - i,
    {
        let prop = &t.properties[i];
        let ghost pv = tv.properties[i as int];
        proof {
            assert(tv.properties.skip(i as int)[0] == pv);
            assert(tv.properties.skip(i as int).skip(1) =~= tv.properties.skip(i as int + 1));
            assert(prop.deep_view() == pv);
        }
        match extract_idents(&prop.expr) {
            Err(e) => {
                return Err(e);
            },
            Ok(ids) => {
                let ghost idsv = ids.deep_view();
                let ghost recv = record_of(name_of(tv), pv);
                let ghost m_prop = map.deep_view();
                let mut j: usize = 0;
                proof {
                    assert(idsv.skip(0) =~= idsv);
                }
                while j < ids.len()
                    invariant
                        j <= ids.len(),
                        idsv == ids.deep_view(),
                        idsv.len() == ids.len(),
                        pv == prop.deep_view(),
                        widget_name@ == name_of(tv),
                        recv == record_of(name_of(tv), pv),
                        add_all(map.deep_view(), idsv.skip(j as int), recv) == add_all(
                            m_prop,
                            idsv,
                            recv,
                        ),
                    decreases ids.len() - j,
                {
                    let rec = DepRecord {
                        widget_path: widget_name.clone(),
                        property_name: prop.name.clone(),
                        expression_text: clone_tokens(&prop.expr),
                    };
                    proof {
                        assert(rec.deep_view() == recv);
                        assert(idsv.skip(j as int)[0] == idsv[j as int]);
                        assert(idsv.skip(j as int).skip(1) =~= idsv.skip(j as int + 1));
                    }
                    map.insert(&ids[j], rec);
                    j = j + 1;
                }
                proof {
                    assert(idsv.skip(idsv.len() as int) =~= Seq::<Seq<char>>::empty());
                    assert(map.deep_view() == add_all(m_prop, idents_of(pv.expr), recv));
                }
            },
        }
        i = i + 1;
    }
    proof {
        assert(tv.properties.skip(tv.properties.len() as int) =~= Seq::<PropertyV>::empty());
    }
    let ghost m_after_props = map.deep_view();
    let mut c: usize = 0;
    proof {
        assert(tv.children.skip(0) =~= tv.children);
        lemma_dview_seq_index(t.children@);
    }
    while c < t.children.len()
        invariant
            c <= t.children.len(),
            tv == t.dview(),
            t.dview().all_named(),
            tv.children.len() == t.children.len(),
            forall|k: int| 0 <= k < t.children.len() ==> tv.children[k] == (
            #[trigger] t.children@[k]).dview(),
            build_children(tv.children.skip(c as int), map.deep_view()) == build_children(
                tv.children,
                m_after_props,
            ),
        decreases t.children.len() - c,
    {
        proof {
            assert(tv.children.skip(c as int)[0] == tv.children[c as int]);
            assert(tv.children.skip(c as int).skip(1) =~= tv.children.skip(c as int + 1));
            assert(tv.children[c as int].all_named());
        }
        match get_properties_model_map(&t.children[c], map) {
            Err(e) => {
                return Err(e);
            },
            Ok(()) => {},
        }
        c = c + 1;
    }
    proof {
        assert(tv.children.skip(tv.children.len() as int) =~= Seq::<WidgetNodeV>::empty());
    }
    Ok(())
}

} // verus!

// What the built map holds: exactly the records the tree dictates.

verus! {

/// Whether one of the node's own properties dictates record `r` under
/// field `f`: the record names this widget and that property, and the
/// property's expression mentions the identifier `f`.
pub open spec fn node_contributes(t: WidgetNodeV, f: Seq<char>, r: DepRecordV) -> bool {
    exists|k: int|
        0 <= k < t.properties.len() && r == record_of(name_of(t), #[trigger] t.properties[k])
            && (exists|j: int|
            0 <= j < t.properties[k].expr.len() && t.properties[k].expr[j] == TokenV::Ident(f))
}

/// Whether any node of the tree dictates record `r` under field `f`.
pub open spec fn tree_has_record(t: WidgetNodeV, f: Seq<char>, r: DepRecordV) -> bool
    decreases t,
{
    node_contributes(t, f, r) || exists|c: int|
        0 <= c < t.children.len() && tree_has_record(#[trigger] t.children[c], f, r)
}

/// Pushing one record adds exactly that record.
proof fn lemma_push_contains(s: Seq<DepRecordV>, x: DepRecordV, y: DepRecordV)
    ensures
        s.push(x).contains(y) <==> (s.contains(y) || x == y),
{
    assert(s.push(x)[s.len() as int] == x);
    if s.contains(y) {
        let k = choose|k: int| 0 <= k < s.len() && s[k] == y;
        assert(s.push(x)[k] == y);
    }
    if s.push(x).contains(y) {
        let k = choose|k: int| 0 <= k < s.push(x).len() && s.push(x)[k] == y;
        if k < s.len() {
            assert(s[k] == y);
        }
    }
}

/// `add_record` adds exactly one membership and disturbs no other.
proof fn lemma_add_record_membership(
    m: DepMapV,
    f: Seq<char>,
    r: DepRecordV,
    g: Seq<char>,
    q: DepRecordV,
)
    ensures
        map_has_record(add_record(m, f, r), g, q) <==> (map_has_record(m, g, q) || (g == f && q
            == r)),
    decreases m.len(),
{
    if m.len() == 0 {
        let a = add_record(m, f, r);
        assert(a[0] == (f, seq![r]));
        assert(a.skip(1) =~= Seq::<(Seq<char>, Seq<DepRecordV>)>::empty());
        if g == f {
            assert(lookup(a, g) == Some(seq![r]));
            assert(seq![r][0] == r);
            if seq![r].contains(q) {
                let k = choose|k: int| 0 <= k < seq![r].len() && seq![r][k] == q;
                assert(q == r);
            }
        } else {
            assert(lookup(a, g) == lookup(a.skip(1), g));
        }
    } else if m[0].0 == f {
        if m[0].1.contains(r) {
        } else {
            let a = seq![(m[0].0, m[0].1.push(r))] + m.skip(1);
            assert(a[0] == (m[0].0, m[0].1.push(r)));
            assert(a.skip(1) =~= m.skip(1));
            if g == f {
                assert(lookup(a, g) == Some(m[0].1.push(r)));
                assert(lookup(m, g) == Some(m[0].1));
                lemma_push_contains(m[0].1, r, q);
            } else {
                assert(lookup(a, g) == lookup(m.skip(1), g));
                assert(lookup(m, g) == lookup(m.skip(1), g));
            }
        }
    } else {
        let a = seq![m[0]] + add_record(m.skip(1), f, r);
        assert(a[0] == m[0]);
        assert(a.skip(1) =~= add_record(m.skip(1), f, r));
        lemma_add_record_membership(m.skip(1), f, r, g, q);
        if g == m[0].0 {
            assert(lookup(a, g) == Some(m[0].1));
            assert(lookup(m, g) == Some(m[0].1));
        } else {
            assert(lookup(a, g) == lookup(add_record(m.skip(1), f, r), g));
            assert(lookup(m, g) == lookup(m.skip(1), g));
        }
    }
}

/// `add_all` files one record under exactly the listed identifiers.
proof fn lemma_add_all_membership(
    m: DepMapV,
    ids: Seq<Seq<char>>,
    r: DepRecordV,
    g: Seq<char>,
    q: DepRecordV,
)
    ensures
        map_has_record(add_all(m, ids, r), g, q) <==> (map_has_record(m, g, q) || (ids.contains(g)
            && q == r)),
    decreases ids.len(),
{
    if ids.len() > 0 {
        lemma_add_record_membership(m, ids[0], r, g, q);
        lemma_add_all_membership(add_record(m, ids[0], r), ids.skip(1), r, g, q);
        assert(ids.contains(g) <==> (g == ids[0] || ids.skip(1).contains(g))) by {
            if ids.contains(g) {
                let k = choose|k: int| 0 <= k < ids.len() && ids[k] == g;
                if k > 0 {
                    assert(ids.skip(1)[k - 1] == g);
                }
            }
            if ids.skip(1).contains(g) {
                let k = choose|k: int| 0 <= k < ids.skip(1).len() && ids.skip(1)[k] == g;
                assert(ids[k + 1] == g);
            }
        }
    }
}

/// Whether one of the listed properties of widget `w` dictates `q`
/// under `g`.
pub open spec fn props_contribute(
    w: Seq<char>,
    ps: Seq<PropertyV>,
    g: Seq<char>,
    q: DepRecordV,
) -> bool {
    exists|k: int|
        0 <= k < ps.len() && q == record_of(w, #[trigger] ps[k]) && (exists|j: int|
            0 <= j < ps[k].expr.len() && ps[k].expr[j] == TokenV::Ident(g))
}

/// Folding a property list into the map files exactly the records its
/// properties dictate.
proof fn lemma_build_props_membership(
    w: Seq<char>,
    ps: Seq<PropertyV>,
    m: DepMapV,
    g: Seq<char>,
    q: DepRecordV,
)
    requires
        build_props(w, ps, m) is Some,
    ensures
        map_has_record(build_props(w, ps, m)->Some_0, g, q) <==> (map_has_record(m, g, q)
            || props_contribute(w, ps, g, q)),
    decreases ps.len(),
{
    if ps.len() == 0 {
        assert(!props_contribute(w, ps, g, q));
    } else {
        let ids = idents_of(ps[0].expr);
        let r0 = record_of(w, ps[0]);
        let m2 = add_all(m, ids, r0);
        lemma_add_all_membership(m, ids, r0, g, q);
        lemma_build_props_membership(w, ps.skip(1), m2, g, q);
        crate::analyzer::lemma_idents_of_membership(ps[0].expr, g);
        assert(props_contribute(w, ps, g, q) <==> ((q == r0 && ids.contains(g))
            || props_contribute(w, ps.skip(1), g, q))) by {
            if props_contribute(w, ps, g, q) {
                let k = choose|k: int|
                    0 <= k < ps.len() && q == record_of(w, ps[k]) && (exists|j: int|
                        0 <= j < ps[k].expr.len() && ps[k].expr[j] == TokenV::Ident(g));
                if k > 0 {
                    assert(ps.skip(1)[k - 1] == ps[k]);
                }
            }
            if props_contribute(w, ps.skip(1), g, q) {
                let k = choose|k: int|
                    0 <= k < ps.skip(1).len() && q == record_of(w, ps.skip(1)[k]) && (exists|
                    j: int|
                        0 <= j < ps.skip(1)[k].expr.len() && ps.skip(1)[k].expr[j]
                            == TokenV::Ident(g));
                assert(ps[k + 1] == ps.skip(1)[k]);
            }
        }
    }
}

/// Folding a subtree into the map files exactly the records its nodes
/// dictate.
proof fn lemma_build_node_membership(t: WidgetNodeV, m: DepMapV, g: Seq<char>, q: DepRecordV)
    requires
        build_node(t, m) is Some,
    ensures
        map_has_record(build_node(t, m)->Some_0, g, q) <==> (map_has_record(m, g, q)
            || tree_has_record(t, g, q)),
    decreases t, 0nat,
{
    let m2 = build_props(name_of(t), t.properties, m)->Some_0;
    lemma_build_props_membership(name_of(t), t.properties, m, g, q);
    lemma_build_children_membership(t.children, m2, g, q);
    assert(node_contributes(t, g, q) == props_contribute(name_of(t), t.properties, g, q));
}

/// Folding a forest into the map files exactly the records its trees
/// dictate.
proof fn lemma_build_children_membership(
    s: Seq<WidgetNodeV>,
    m: DepMapV,
    g: Seq<char>,
    q: DepRecordV,
)
    requires
        build_children(s, m) is Some,
    ensures
        map_has_record(build_children(s, m)->Some_0, g, q) <==> (map_has_record(m, g, q) || exists|
        c: int| 0 <= c < s.len() && tree_has_record(#[trigger] s[c], g, q)),
    decreases s, 1nat,
{
    if s.len() > 0 {
        let m2 = build_node(s[0], m)->Some_0;
        lemma_build_node_membership(s[0], m, g, q);
        lemma_build_children_membership(s.skip(1), m2, g, q);
        assert((exists|c: int| 0 <= c < s.len() && tree_has_record(#[trigger] s[c], g, q)) <==> (
        tree_has_record(s[0], g, q) || (exists|c: int|
            0 <= c < s.skip(1).len() && tree_has_record(#[trigger] s.skip(1)[c], g, q)))) by {
            if exists|c: int| 0 <= c < s.len() && tree_has_record(#[trigger] s[c], g, q) {
                let c = choose|c: int| 0 <= c < s.len() && tree_has_record(#[trigger] s[c], g, q);
                if c > 0 {
                    assert(s.skip(1)[c - 1] == s[c]);
                }
            }
            if exists|c: int| 0 <= c < s.skip(1).len() && tree_has_record(
                #[trigger] s.skip(1)[c],
                g,
                q,
            ) {
                let c = choose|c: int|
                    0 <= c < s.skip(1).len() && tree_has_record(#[trigger] s.skip(1)[c], g, q);
                assert(s[c + 1] == s.skip(1)[c]);
            }
        }
    }
}

/// The dependency map covers every property of the tree, and nothing
/// more: it tracks record `q` under field `g` exactly when some node's
/// property expression mentions the identifier `g` and `q` names that
/// node, that property and that expression.
pub proof fn lemma_map_covers_tree(t: WidgetNodeV, g: Seq<char>, q: DepRecordV)
    requires
        spec_dependency_map(t) is Some,
    ensures
        map_has_record(spec_dependency_map(t)->Some_0, g, q) <==> tree_has_record(t, g, q),
{
    lemma_build_node_membership(t, Seq::empty(), g, q);
}

} // verus!
