//! The construction generator: from the widget tree it emits an ordered
//! construction procedure — one instantiation per node in pre-order, each
//! node's static property assignments in declared order, the attachment of
//! each node to its parent, and, after the whole tree is built, the
//! binding of each declared event. A naming pass first gives every unnamed
//! node a deterministic generated name from an explicit generation context
//! scoped to one invocation.

use vstd::prelude::*;
use vstd::string::StringExecFns;
use crate::tokens::{Token, TokenV, clone_tokens};
use crate::ast::{
    WidgetNode, WidgetNodeV, PropertyV, EventBindingV, dview_seq, node_count_seq, preorder_seq,
};
use crate::depmap::name_of;

verus! {

/// One step of the construction procedure.
#[derive(Debug, PartialEq, Eq)]
pub enum Instr {
    /// Instantiate a widget of the given type under the given handle name.
    Create { name: String, typ: Vec<String> },
    /// Assign a static property from its declared expression.
    SetProp { widget: String, property: String, expr: Vec<Token> },
    /// Attach a constructed widget to its parent.
    Attach { child: String, parent: String },
    /// Wire a declared event to a callback that evaluates the message
    /// expression and returns the declared result flag.
    BindEvent {
        widget: String,
        event: String,
        args: Vec<String>,
        msg: Vec<Token>,
        result: Vec<Token>,
    },
}

/// The view of an `Instr`.
#[verifier::ext_equal]
pub enum InstrV {
    Create { name: Seq<char>, typ: Seq<Seq<char>> },
    SetProp { widget: Seq<char>, property: Seq<char>, expr: Seq<TokenV> },
    Attach { child: Seq<char>, parent: Seq<char> },
    BindEvent {
        widget: Seq<char>,
        event: Seq<char>,
        args: Seq<Seq<char>>,
        msg: Seq<TokenV>,
        result: Seq<TokenV>,
    },
}

impl DeepView for Instr {
    type V = InstrV;

    open spec fn deep_view(&self) -> InstrV {
        match self {
            Instr::Create { name, typ } => InstrV::Create { name: name@, typ: typ.deep_view() },
            Instr::SetProp { widget, property, expr } => InstrV::SetProp {
                widget: widget@,
                property: property@,
                expr: expr.deep_view(),
            },
            Instr::Attach { child, parent } => InstrV::Attach { child: child@, parent: parent@ },
            Instr::BindEvent { widget, event, args, msg, result } => InstrV::BindEvent {
                widget: widget@,
                event: event@,
                args: args.deep_view(),
                msg: msg.deep_view(),
                result: result.deep_view(),
            },
        }
    }
}

/// The generation context threaded through one invocation: the source of
/// deterministic generated widget names.
#[derive(Debug, PartialEq, Eq)]
pub struct GenContext {
    pub counter: u64,
}

/// The decimal digit character for one digit value.
pub open spec fn digit_char(d: nat) -> char {
    if d == 0 {
        '0'
    } else if d == 1 {
        '1'
    } else if d == 2 {
        '2'
    } else if d == 3 {
        '3'
    } else if d == 4 {
        '4'
    } else if d == 5 {
        '5'
    } else if d == 6 {
        '6'
    } else if d == 7 {
        '7'
    } else if d == 8 {
        '8'
    } else {
        '9'
    }
}

/// The decimal rendering of a number.
pub open spec fn dec_str(n: nat) -> Seq<char>
    decreases n,
{
    if n < 10 {
        seq![digit_char(n)]
    } else {
        dec_str(n / 10).push(digit_char(n % 10))
    }
}

/// The generated name for the `c`-th anonymous widget.
pub open spec fn gen_name(c: nat) -> Seq<char> {
    "widget"@ + dec_str(c)
}

/// The counter after drawing one name; it saturates at the machine bound.
pub open spec fn next_counter(c: nat) -> nat {
    if c < u64::MAX {
        (c + 1) as nat
    } else {
        c
    }
}

/// The decimal digit string for one digit value.
fn digit_str(d: u64) -> (r: &'static str)
    requires
        d < 10,
    ensures
        r@ == seq![digit_char(d as nat)],
{
    if d == 0 {
        proof {
            reveal_strlit("0");
        }
        "0"
    } else if d == 1 {
        proof {
            reveal_strlit("1");
        }
        "1"
    } else if d == 2 {
        proof {
            reveal_strlit("2");
        }
        "2"
    } else if d == 3 {
        proof {
            reveal_strlit("3");
        }
        "3"
    } else if d == 4 {
        proof {
            reveal_strlit("4");
        }
        "4"
    } else if d == 5 {
        proof {
            reveal_strlit("5");
        }
        "5"
    } else if d == 6 {
        proof {
            reveal_strlit("6");
        }
        "6"
    } else if d == 7 {
        proof {
            reveal_strlit("7");
        }
        "7"
    } else if d == 8 {
        proof {
            reveal_strlit("8");
        }
        "8"
    } else {
        proof {
            reveal_strlit("9");
        }
        "9"
    }
}

/// Appends the decimal rendering of `n`.
fn push_digits(n: u64, out: &mut String)
    ensures
        final(out)@ == old(out)@ + dec_str(n as nat),
    decreases n,
{
    if n >= 10 {
        push_digits(n / 10, out);
    }
    let ds = digit_str(n % 10);
    out.append(ds);
    proof {
        if n < 10 {
            assert(final(out)@ =~= old(out)@ + dec_str(n as nat));
        } else {
            assert(dec_str(n as nat) == dec_str((n / 10) as nat).push(
                digit_char((n % 10) as nat),
            ));
            assert(final(out)@ =~= old(out)@ + dec_str(n as nat));
        }
    }
}

/// Draws the next generated widget name from the context.
fn fresh_name(ctx: &mut GenContext) -> (r: String)
    ensures
        r@ == gen_name(old(ctx).counter as nat),
        final(ctx).counter as nat == next_counter(old(ctx).counter as nat),
{
    let mut s = String::from_str("widget");
    push_digits(ctx.counter, &mut s);
    if ctx.counter < u64::MAX {
        ctx.counter = ctx.counter + 1;
    }
    proof {
        assert(s@ =~= gen_name(old(ctx).counter as nat));
    }
    s
}

/// The naming pass on one node: a declared name is kept; an absent one is
/// replaced by the next generated name. Children are renamed left to
/// right. Returns the renamed tree and the advanced counter.
pub open spec fn spec_assign_names(t: WidgetNodeV, c: nat) -> (WidgetNodeV, nat)
    decreases t,
{
    let named = if t.name is Some {
        (t.name, c)
    } else {
        (Some(gen_name(c)), next_counter(c))
    };
    let rec = spec_assign_names_seq(t.children, named.1);
    (
        WidgetNodeV {
            name: named.0,
            typ: t.typ,
            properties: t.properties,
            children: rec.0,
            events: t.events,
        },
        rec.1,
    )
}

/// The naming pass on a forest, left to right.
pub open spec fn spec_assign_names_seq(s: Seq<WidgetNodeV>, c: nat) -> (Seq<WidgetNodeV>, nat)
    decreases s,
{
    if s.len() == 0 {
        (Seq::empty(), c)
    } else {
        let h = spec_assign_names(s[0], c);
        let rest = spec_assign_names_seq(s.skip(1), h.1);
        (seq![h.0] + rest.0, rest.1)
    }
}

/// A tree of a forest counts no more nodes than the whole forest.
pub proof fn lemma_node_count_seq_element(s: Seq<WidgetNodeV>, k: int)
    requires
        0 <= k < s.len(),
    ensures
        s[k].node_count() <= node_count_seq(s),
    decreases s.len(),
{
    if k > 0 {
        lemma_node_count_seq_element(s.skip(1), k - 1);
        assert(s.skip(1)[k - 1] == s[k]);
    }
}

/// After the naming pass, every node carries a name.
pub proof fn lemma_assign_names_named(t: WidgetNodeV, c: nat)
    ensures
        spec_assign_names(t, c).0.all_named(),
    decreases t,
{
    let named_c: nat = if t.name is Some {
        c
    } else {
        next_counter(c)
    };
    lemma_assign_names_seq_named(t.children, named_c);
}

/// All-named over a forest after the naming pass.
pub proof fn lemma_assign_names_seq_named(s: Seq<WidgetNodeV>, c: nat)
    ensures
        spec_assign_names_seq(s, c).0.len() == s.len(),
        forall|i: int|
            0 <= i < s.len() ==> (#[trigger] spec_assign_names_seq(s, c).0[i]).all_named(),
    decreases s,
{
    if s.len() > 0 {
        lemma_assign_names_named(s[0], c);
        lemma_assign_names_seq_named(s.skip(1), spec_assign_names(s[0], c).1);
        assert forall|i: int| 0 <= i < s.len() implies (
        #[trigger] spec_assign_names_seq(s, c).0[i]).all_named() by {
            if i > 0 {
                assert(spec_assign_names_seq(s, c).0[i] == spec_assign_names_seq(
                    s.skip(1),
                    spec_assign_names(s[0], c).1,
                ).0[i - 1]);
            }
        }
    }
}

/// Runs the naming pass on a tree, consuming it and threading the
/// generation context.
#[verifier::loop_isolation(false)]
pub fn assign_names(t: WidgetNode, ctx: &mut GenContext) -> (r: WidgetNode)
    ensures
        r.dview() == spec_assign_names(t.dview(), old(ctx).counter as nat).0,
        final(ctx).counter as nat == spec_assign_names(t.dview(), old(ctx).counter as nat).1,
    decreases t.dview().node_count(),
{
    let ghost tv = t.dview();
    let ghost c0 = ctx.counter as nat;
    let WidgetNode { name, typ, properties, children, events } = t;
    let name2: Option<String> = match name {
        Some(n) => Some(n),
        None => Some(fresh_name(ctx)),
    };
    let ghost c2 = ctx.counter as nat;
    let mut rest = children;
    let mut done: Vec<WidgetNode> = Vec::new();
    proof {
        assert(dview_seq(rest@) == tv.children);
        assert(dview_seq(done@) =~= Seq::<WidgetNodeV>::empty());
        assert(dview_seq(done@) + spec_assign_names_seq(dview_seq(rest@), c2).0
            =~= spec_assign_names_seq(tv.children, c2).0);
    }
    while rest.len() > 0
        invariant
            done@.len() <= tv.children.len(),
            dview_seq(rest@) =~= tv.children.skip(done@.len() as int),
            dview_seq(done@) + spec_assign_names_seq(dview_seq(rest@), ctx.counter as nat).0
                == spec_assign_names_seq(tv.children, c2).0,
            spec_assign_names_seq(dview_seq(rest@), ctx.counter as nat).1
                == spec_assign_names_seq(tv.children, c2).1,
        decreases rest.len(),
    {
        let ghost rv = dview_seq(rest@);
        let ghost rpre = rest@;
        let ghost cc = ctx.counter as nat;
        let child = rest.remove(0);
        proof {
            crate::ast::lemma_dview_seq_index(rpre);
            crate::ast::lemma_dview_seq_index(rest@);
            assert(dview_seq(rest@) =~= rv.skip(1));
            assert(child.dview() == rv[0]);
            assert(rv[0] == tv.children[done@.len() as int]);
            lemma_node_count_seq_element(tv.children, done@.len() as int);
            assert(child.dview().node_count() < tv.node_count());
            assert(dview_seq(rest@) =~= tv.children.skip(done@.len() as int + 1));
        }
        let renamed = assign_names(child, ctx);
        let ghost dpre = dview_seq(done@);
        let ghost gpre = done@;
        done.push(renamed);
        proof {
            crate::ast::lemma_dview_seq_index(gpre);
            crate::ast::lemma_dview_seq_index(done@);
            assert(dview_seq(done@) =~= dpre.push(spec_assign_names(rv[0], cc).0));
            assert(dview_seq(done@) + spec_assign_names_seq(
                dview_seq(rest@),
                ctx.counter as nat,
            ).0 =~= dpre + spec_assign_names_seq(rv, cc).0);
        }
    }
    proof {
        assert(dview_seq(rest@).len() == 0) by {
            crate::ast::lemma_dview_seq_index(rest@);
        }
        assert(dview_seq(done@) + spec_assign_names_seq(dview_seq(rest@), ctx.counter as nat).0
            =~= dview_seq(done@));
    }
    let r = WidgetNode { name: name2, typ, properties, children: done, events };
    proof {
        assert(r.dview() == spec_assign_names(tv, c0).0);
    }
    r
}

} // verus!

// The construction procedure itself.

verus! {

/// The instantiation instruction of one node.
pub open spec fn create_of(t: WidgetNodeV) -> InstrV {
    InstrV::Create { name: name_of(t), typ: t.typ }
}

/// The static property assignments of one node, in declared order.
pub open spec fn prop_instrs(w: Seq<char>, ps: Seq<PropertyV>) -> Seq<InstrV> {
    ps.map_values(|p: PropertyV| InstrV::SetProp { widget: w, property: p.name, expr: p.expr })
}

/// The attachment of a node to its parent; the root has none.
pub open spec fn attach_instrs(t: WidgetNodeV, parent: Option<Seq<char>>) -> Seq<InstrV> {
    match parent {
        None => Seq::empty(),
        Some(p) => seq![InstrV::Attach { child: name_of(t), parent: p }],
    }
}

/// The event bindings declared on one node.
pub open spec fn event_instrs(w: Seq<char>, es: Seq<EventBindingV>) -> Seq<InstrV> {
    es.map_values(
        |e: EventBindingV| InstrV::BindEvent {
            widget: w,
            event: e.event_name,
            args: e.handler_args,
            msg: e.produced_message_expr,
            result: e.result_flags,
        },
    )
}

/// The construction instructions of one subtree: instantiate the node,
/// assign its properties in declared order, attach it to its parent, then
/// construct the children in declared order.
pub open spec fn spec_gen_node(t: WidgetNodeV, parent: Option<Seq<char>>) -> Seq<InstrV>
    decreases t,
{
    seq![create_of(t)] + prop_instrs(name_of(t), t.properties) + attach_instrs(t, parent)
        + spec_gen_children(t.children, Some(name_of(t)))
}

/// The construction instructions of a forest, left to right.
pub open spec fn spec_gen_children(s: Seq<WidgetNodeV>, parent: Option<Seq<char>>) -> Seq<InstrV>
    decreases s,
{
    if s.len() == 0 {
        Seq::empty()
    } else {
        spec_gen_node(s[0], parent) + spec_gen_children(s.skip(1), parent)
    }
}

/// The event bindings of a whole tree, emitted after construction, in
/// pre-order.
pub open spec fn spec_gen_events(t: WidgetNodeV) -> Seq<InstrV>
    decreases t,
{
    event_instrs(name_of(t), t.events) + spec_gen_events_seq(t.children)
}

/// The event bindings of a forest.
pub open spec fn spec_gen_events_seq(s: Seq<WidgetNodeV>) -> Seq<InstrV>
    decreases s,
{
    if s.len() == 0 {
        Seq::empty()
    } else {
        spec_gen_events(s[0]) + spec_gen_events_seq(s.skip(1))
    }
}

/// The whole construction procedure: build the tree, then bind the events.
pub open spec fn spec_gen(t: WidgetNodeV) -> Seq<InstrV> {
    spec_gen_node(t, None) + spec_gen_events(t)
}

/// Copies a string sequence; the view is preserved exactly.
pub fn clone_strings(v: &Vec<String>) -> (res: Vec<String>)
    ensures
        res.deep_view() == v.deep_view(),
{
    let mut out: Vec<String> = Vec::new();
    let mut i: usize = 0;
    while i < v.len()
        invariant
            i <= v.len(),
            out.deep_view() =~= v.deep_view().take(i as int),
        decreases v.len() - i,
    {
        let ghost pre = out.deep_view();
        out.push(v[i].clone());
        proof {
            assert(out.deep_view() =~= pre.push(v.deep_view()[i as int]));
            assert(out.deep_view() =~= v.deep_view().take(i as int + 1));
        }
        i = i + 1;
    }
    proof {
        assert(v.deep_view().take(v.len() as int) =~= v.deep_view());
    }
    out
}

/// Emits the construction instructions of one subtree.
#[verifier::loop_isolation(false)]
fn gen_node(t: &WidgetNode, parent: Option<&String>, out: &mut Vec<Instr>)
    requires
        t.dview().all_named(),
    ensures
        final(out).deep_view() == old(out).deep_view() + spec_gen_node(
            t.dview(),
            match parent {
                Some(p) => Some(p@),
                None => None,
            },
        ),
    decreases t.dview().node_count(),
{
    let ghost tv = t.dview();
    let ghost pv: Option<Seq<char>> = match parent {
        Some(p) => Some(p@),
        None => None,
    };
    let ghost base = out.deep_view();
    let name: &String = match &t.name {
        Some(n) => n,
        None => {
            proof {
                assert(false);
            }
            return ;
        },
    };
    proof {
        assert(name@ == name_of(tv));
    }
    out.push(Instr::Create { name: name.clone(), typ: clone_strings(&t.typ) });
    proof {
        assert(out.deep_view() =~= base + seq![create_of(tv)]);
    }
    let ghost base_props = out.deep_view();
    let mut i: usize = 0;
    while i < t.properties.len()
        invariant
            i <= t.properties.len(),
            out.deep_view() =~= base_props + prop_instrs(name_of(tv), tv.properties).take(
                i as int,
            ),
        decreases t.properties.len() - i,
    {
        let p = &t.properties[i];
        proof {
            assert(p.deep_view() == tv.properties[i as int]);
        }
        let ghost pre = out.deep_view();
        out.push(
            Instr::SetProp {
                widget: name.clone(),
                property: p.name.clone(),
                expr: clone_tokens(&p.expr),
            },
        );
        proof {
            assert(out.deep_view() =~= pre.push(
                prop_instrs(name_of(tv), tv.properties)[i as int],
            ));
            assert(out.deep_view() =~= base_props + prop_instrs(name_of(tv), tv.properties).take(
                i as int + 1,
            ));
        }
        i = i + 1;
    }
    proof {
        assert(prop_instrs(name_of(tv), tv.properties).take(tv.properties.len() as int)
            =~= prop_instrs(name_of(tv), tv.properties));
    }
    match parent {
        None => {
            proof {
                assert(out.deep_view() + attach_instrs(tv, pv) =~= out.deep_view());
            }
        },
        Some(p) => {
            let ghost pre = out.deep_view();
            out.push(Instr::Attach { child: name.clone(), parent: p.clone() });
            proof {
                assert(out.deep_view() =~= pre + attach_instrs(tv, pv));
            }
        },
    }
    let ghost base_kids = out.deep_view();
    let mut c: usize = 0;
    proof {
        assert(tv.children.skip(0) =~= tv.children);
        crate::ast::lemma_dview_seq_index(t.children@);
    }
    while c < t.children.len()
        invariant
            c <= t.children.len(),
            tv.children.len() == t.children.len(),
            forall|k: int| 0 <= k < t.children.len() ==> tv.children[k] == (
            #[trigger] t.children@[k]).dview(),
            out.deep_view() + spec_gen_children(tv.children.skip(c as int), Some(name_of(tv)))
                == base_kids + spec_gen_children(tv.children, Some(name_of(tv))),
        decreases t.children.len() - c,
    {
        proof {
            assert(tv.children.skip(c as int)[0] == tv.children[c as int]);
            assert(tv.children.skip(c as int).skip(1) =~= tv.children.skip(c as int + 1));
            assert(tv.children[c as int].all_named());
            lemma_node_count_seq_element(tv.children, c as int);
        }
        gen_node(&t.children[c], Some(name), out);
        c = c + 1;
    }
    proof {
        assert(spec_gen_children(tv.children.skip(tv.children.len() as int), Some(name_of(tv)))
            =~= Seq::<InstrV>::empty());
        assert(out.deep_view() =~= base + spec_gen_node(tv, pv));
    }
}

/// Emits the event bindings of one subtree, in pre-order.
#[verifier::loop_isolation(false)]
fn gen_events(t: &WidgetNode, out: &mut Vec<Instr>)
    requires
        t.dview().all_named(),
    ensures
        final(out).deep_view() == old(out).deep_view() + spec_gen_events(t.dview()),
    decreases t.dview().node_count(),
{
    let ghost tv = t.dview();
    let ghost base = out.deep_view();
    let name: &String = match &t.name {
        Some(n) => n,
        None => {
            proof {
                assert(false);
            }
            return ;
        },
    };
    proof {
        assert(name@ == name_of(tv));
    }
    let mut i: usize = 0;
    while i < t.events.len()
        invariant
            i <= t.events.len(),
            out.deep_view() =~= base + event_instrs(name_of(tv), tv.events).take(i as int),
        decreases t.events.len() - i,
    {
        let e = &t.events[i];
        proof {
            assert(e.deep_view() == tv.events[i as int]);
        }
        let ghost pre = out.deep_view();
        out.push(
            Instr::BindEvent {
                widget: name.clone(),
                event: e.event_name.clone(),
                args: clone_strings(&e.handler_args),
                msg: clone_tokens(&e.produced_message_expr),
                result: clone_tokens(&e.result_flags),
            },
        );
        proof {
            assert(out.deep_view() =~= pre.push(event_instrs(name_of(tv), tv.events)[i as int]));
            assert(out.deep_view() =~= base + event_instrs(name_of(tv), tv.events).take(
                i as int + 1,
            ));
        }
        i = i + 1;
    }
    proof {
        assert(event_instrs(name_of(tv), tv.events).take(tv.events.len() as int) =~= event_instrs(
            name_of(tv),
            tv.events,
        ));
    }
    let ghost base_kids = out.deep_view();
    let mut c: usize = 0;
    proof {
        assert(tv.children.skip(0) =~= tv.children);
        crate::ast::lemma_dview_seq_index(t.children@);
    }
    while c < t.children.len()
        invariant
            c <= t.children.len(),
            tv.children.len() == t.children.len(),
            forall|k: int| 0 <= k < t.children.len() ==> tv.children[k] == (
            #[trigger] t.children@[k]).dview(),
            out.deep_view() + spec_gen_events_seq(tv.children.skip(c as int)) == base_kids
                + spec_gen_events_seq(tv.children),
        decreases t.children.len() - c,
    {
        proof {
            assert(tv.children.skip(c as int)[0] == tv.children[c as int]);
            assert(tv.children.skip(c as int).skip(1) =~= tv.children.skip(c as int + 1));
            assert(tv.children[c as int].all_named());
            lemma_node_count_seq_element(tv.children, c as int);
        }
        gen_events(&t.children[c], out);
        c = c + 1;
    }
    proof {
        assert(spec_gen_events_seq(tv.children.skip(tv.children.len() as int))
            =~= Seq::<InstrV>::empty());
        assert(out.deep_view() =~= base + spec_gen_events(tv));
    }
}

/// Emits the whole ordered construction procedure of a named tree and
/// returns it together with the root handle's name.
pub fn gen(t: &WidgetNode) -> (r: (Vec<Instr>, String))
    requires
        t.dview().all_named(),
    ensures
        r.0.deep_view() == spec_gen(t.dview()),
        r.1@ == name_of(t.dview()),
{
    let mut out: Vec<Instr> = Vec::new();
    proof {
        assert(out.deep_view() =~= Seq::<InstrV>::empty());
    }
    gen_node(t, None, &mut out);
    proof {
        assert(out.deep_view() =~= spec_gen_node(t.dview(), None));
    }
    gen_events(t, &mut out);
    let root: String = match &t.name {
        Some(n) => n.clone(),
        None => {
            proof {
                assert(false);
            }
            String::new()
        },
    };
    (out, root)
}

} // verus!

// The construction-order law: instantiations appear in pre-order.

verus! {

/// The instantiations of an instruction sequence, in order: each node's
/// name and type.
pub open spec fn creates_of(s: Seq<InstrV>) -> Seq<(Option<Seq<char>>, Seq<Seq<char>>)>
    decreases s.len(),
{
    if s.len() == 0 {
        Seq::empty()
    } else {
        match s[0] {
            InstrV::Create { name, typ } => seq![(Some(name), typ)] + creates_of(s.skip(1)),
            _ => creates_of(s.skip(1)),
        }
    }
}

/// `creates_of` distributes over concatenation.
proof fn lemma_creates_of_add(a: Seq<InstrV>, b: Seq<InstrV>)
    ensures
        creates_of(a + b) == creates_of(a) + creates_of(b),
    decreases a.len(),
{
    if a.len() == 0 {
        assert(a + b =~= b);
        assert(creates_of(a) + creates_of(b) =~= creates_of(b));
    } else {
        lemma_creates_of_add(a.skip(1), b);
        assert((a + b).skip(1) =~= a.skip(1) + b);
        assert((a + b)[0] == a[0]);
        match a[0] {
            InstrV::Create { name, typ } => {
                assert(creates_of(a + b) =~= creates_of(a) + creates_of(b));
            },
            _ => {},
        }
    }
}

/// Property assignments instantiate nothing.
proof fn lemma_creates_of_props(w: Seq<char>, ps: Seq<PropertyV>)
    ensures
        creates_of(prop_instrs(w, ps)) == Seq::<(Option<Seq<char>>, Seq<Seq<char>>)>::empty(),
    decreases ps.len(),
{
    if ps.len() > 0 {
        lemma_creates_of_props(w, ps.skip(1));
        assert(prop_instrs(w, ps).skip(1) =~= prop_instrs(w, ps.skip(1)));
    }
}

/// Event bindings instantiate nothing.
proof fn lemma_creates_of_events(w: Seq<char>, es: Seq<EventBindingV>)
    ensures
        creates_of(event_instrs(w, es)) == Seq::<(Option<Seq<char>>, Seq<Seq<char>>)>::empty(),
    decreases es.len(),
{
    if es.len() > 0 {
        lemma_creates_of_events(w, es.skip(1));
        assert(event_instrs(w, es).skip(1) =~= event_instrs(w, es.skip(1)));
    }
}

/// Attachment instantiates nothing.
proof fn lemma_creates_of_attach(t: WidgetNodeV, parent: Option<Seq<char>>)
    ensures
        creates_of(attach_instrs(t, parent)) == Seq::<
            (Option<Seq<char>>, Seq<Seq<char>>),
        >::empty(),
{
    assert(creates_of(Seq::<InstrV>::empty()) =~= Seq::<
        (Option<Seq<char>>, Seq<Seq<char>>),
    >::empty());
    match parent {
        None => {},
        Some(p) => {
            assert(attach_instrs(t, parent).skip(1) =~= Seq::<InstrV>::empty());
            assert(creates_of(attach_instrs(t, parent)) =~= Seq::<
                (Option<Seq<char>>, Seq<Seq<char>>),
            >::empty());
        },
    }
}

/// The instantiations of one subtree's construction are its pre-order
/// traversal.
proof fn lemma_gen_node_creates(t: WidgetNodeV, parent: Option<Seq<char>>)
    requires
        t.all_named(),
    ensures
        creates_of(spec_gen_node(t, parent)) == t.preorder(),
    decreases t,
{
    let w = name_of(t);
    lemma_creates_of_props(w, t.properties);
    lemma_creates_of_attach(t, parent);
    lemma_gen_children_creates(t.children, Some(w));
    lemma_creates_of_add(
        seq![create_of(t)] + prop_instrs(w, t.properties) + attach_instrs(t, parent),
        spec_gen_children(t.children, Some(w)),
    );
    lemma_creates_of_add(seq![create_of(t)] + prop_instrs(w, t.properties), attach_instrs(t, parent));
    lemma_creates_of_add(seq![create_of(t)], prop_instrs(w, t.properties));
    assert(creates_of(seq![create_of(t)]) =~= seq![(Some(w), t.typ)]) by {
        assert(seq![create_of(t)].skip(1) =~= Seq::<InstrV>::empty());
        assert(creates_of(Seq::<InstrV>::empty()) =~= Seq::<
            (Option<Seq<char>>, Seq<Seq<char>>),
        >::empty());
    }
    assert(t.name == Some(w));
    assert(creates_of(spec_gen_node(t, parent)) =~= t.preorder());
}

/// The instantiations of a named forest's construction are its pre-order
/// traversals, concatenated.
proof fn lemma_gen_children_creates(s: Seq<WidgetNodeV>, parent: Option<Seq<char>>)
    requires
        forall|i: int| 0 <= i < s.len() ==> (#[trigger] s[i]).all_named(),
    ensures
        creates_of(spec_gen_children(s, parent)) == preorder_seq(s),
    decreases s,
{
    if s.len() > 0 {
        lemma_gen_node_creates(s[0], parent);
        lemma_gen_children_creates(s.skip(1), parent);
        lemma_creates_of_add(spec_gen_node(s[0], parent), spec_gen_children(s.skip(1), parent));
    }
}

/// Event binding emits no instantiation anywhere in the tree.
proof fn lemma_gen_events_creates(t: WidgetNodeV)
    ensures
        creates_of(spec_gen_events(t)) == Seq::<(Option<Seq<char>>, Seq<Seq<char>>)>::empty(),
    decreases t,
{
    lemma_creates_of_events(name_of(t), t.events);
    lemma_gen_events_seq_creates(t.children);
    lemma_creates_of_add(event_instrs(name_of(t), t.events), spec_gen_events_seq(t.children));
}

/// Event binding over a forest emits no instantiation.
proof fn lemma_gen_events_seq_creates(s: Seq<WidgetNodeV>)
    ensures
        creates_of(spec_gen_events_seq(s)) == Seq::<(Option<Seq<char>>, Seq<Seq<char>>)>::empty(),
    decreases s,
{
    if s.len() > 0 {
        lemma_gen_events_creates(s[0]);
        lemma_gen_events_seq_creates(s.skip(1));
        lemma_creates_of_add(spec_gen_events(s[0]), spec_gen_events_seq(s.skip(1)));
    }
}

/// The construction-order law: for every named widget tree, the emitted
/// instantiation order equals the tree's pre-order traversal.
pub proof fn lemma_construction_order(t: WidgetNodeV)
    requires
        t.all_named(),
    ensures
        creates_of(spec_gen(t)) == t.preorder(),
{
    lemma_gen_node_creates(t, None);
    lemma_gen_events_creates(t);
    lemma_creates_of_add(spec_gen_node(t, None), spec_gen_events(t));
    assert(creates_of(spec_gen(t)) =~= t.preorder());
}

} // verus!
