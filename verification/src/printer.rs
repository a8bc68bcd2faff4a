//! The printer: renders a widget tree back into the declaration tokens
//! that describe it, in the canonical form the grammar parser accepts.
//! Parsing a printed tree returns the tree exactly, so node count, types
//! and property counts all survive the structural round trip.

use vstd::prelude::*;
use crate::tokens::{Token, TokenV, depth_of, balanced, clone_tokens};
use crate::ast::{PropertyV, EventBindingV, WidgetNode, WidgetNodeV};

verus! {

/// The tokens of a type path: segments joined by `::`.
pub open spec fn print_path(p: Seq<Seq<char>>) -> Seq<TokenV>
    decreases p.len(),
{
    if p.len() == 0 {
        Seq::empty()
    } else if p.len() == 1 {
        seq![TokenV::Ident(p[0])]
    } else {
        seq![TokenV::Ident(p[0]), TokenV::PathSep] + print_path(p.skip(1))
    }
}

/// The tokens of an optional instance-name annotation.
pub open spec fn print_name(nm: Option<Seq<char>>) -> Seq<TokenV> {
    match nm {
        None => Seq::empty(),
        Some(n) => seq![
            TokenV::Pound,
            TokenV::LBracket,
            TokenV::Ident("name"@),
            TokenV::Eq,
            TokenV::Lit(n),
            TokenV::RBracket,
        ],
    }
}

/// The tokens of one property entry, comma-terminated.
pub open spec fn print_prop(p: PropertyV) -> Seq<TokenV> {
    seq![TokenV::Ident(p.name), TokenV::Colon] + p.expr + seq![TokenV::Comma]
}

/// The tokens of a node's property entries.
pub open spec fn print_props(ps: Seq<PropertyV>) -> Seq<TokenV>
    decreases ps.len(),
{
    if ps.len() == 0 {
        Seq::empty()
    } else {
        print_prop(ps[0]) + print_props(ps.skip(1))
    }
}

/// The tokens of a handler argument list, commas between arguments.
pub open spec fn print_args(args: Seq<Seq<char>>) -> Seq<TokenV>
    decreases args.len(),
{
    if args.len() == 0 {
        Seq::empty()
    } else if args.len() == 1 {
        seq![TokenV::Ident(args[0])]
    } else {
        seq![TokenV::Ident(args[0]), TokenV::Comma] + print_args(args.skip(1))
    }
}

/// The tokens of one event-binding entry, comma-terminated.
pub open spec fn print_event(e: EventBindingV) -> Seq<TokenV> {
    seq![TokenV::Ident(e.event_name), TokenV::LParen] + print_args(e.handler_args) + seq![
        TokenV::RParen,
        TokenV::FatArrow,
        TokenV::LParen,
    ] + e.produced_message_expr + seq![TokenV::Comma] + e.result_flags + seq![
        TokenV::RParen,
        TokenV::Comma,
    ]
}

/// The tokens of a node's event entries.
pub open spec fn print_events(es: Seq<EventBindingV>) -> Seq<TokenV>
    decreases es.len(),
{
    if es.len() == 0 {
        Seq::empty()
    } else {
        print_event(es[0]) + print_events(es.skip(1))
    }
}

/// The tokens of one whole node: type path, optional name annotation, and
/// the braced entries — properties, then children, then events, each
/// comma-terminated.
pub open spec fn print_node(t: WidgetNodeV) -> Seq<TokenV>
    decreases t,
{
    print_path(t.typ) + print_name(t.name) + seq![TokenV::LBrace] + print_props(t.properties)
        + print_children(t.children) + print_events(t.events) + seq![TokenV::RBrace]
}

/// The tokens of a node's child entries.
pub open spec fn print_children(s: Seq<WidgetNodeV>) -> Seq<TokenV>
    decreases s,
{
    if s.len() == 0 {
        Seq::empty()
    } else {
        print_node(s[0]) + seq![TokenV::Comma] + print_children(s.skip(1))
    }
}

/// An expression the printer can round-trip: non-empty, balanced, and
/// holding no comma outside all delimiters.
pub open spec fn wf_expr(e: Seq<TokenV>) -> bool {
    &&& e.len() > 0
    &&& balanced(e)
    &&& forall|k: int|
        0 <= k < e.len() && depth_of(#[trigger] e.take(k)) == 0 ==> !(e[k] is Comma)
}

/// A tree the printer can round-trip: every node has a type path, and
/// every property and event expression is well formed.
pub open spec fn wf_node(t: WidgetNodeV) -> bool
    decreases t,
{
    &&& t.typ.len() > 0
    &&& forall|k: int| 0 <= k < t.properties.len() ==> wf_expr((#[trigger] t.properties[k]).expr)
    &&& forall|k: int|
        0 <= k < t.events.len() ==> wf_expr((#[trigger] t.events[k]).produced_message_expr)
            && wf_expr(t.events[k].result_flags)
    &&& forall|k: int| 0 <= k < t.children.len() ==> wf_node(#[trigger] t.children[k])
}

/// Renders one node into declaration tokens.
#[verifier::loop_isolation(false)]
pub fn print(t: &WidgetNode) -> (out: Vec<Token>)
    ensures
        out.deep_view() == print_node(t.dview()),
    decreases t.dview().node_count(),
{
    let ghost tv = t.dview();
    let mut out: Vec<Token> = Vec::new();
    proof {
        assert(out.deep_view() =~= Seq::<TokenV>::empty());
    }
    print_into(t, &mut out);
    proof {
        assert(out.deep_view() =~= print_node(tv));
    }
    out
}

/// Appends one node's declaration tokens.
#[verifier::loop_isolation(false)]
#[verifier::rlimit(100)]
fn print_into(t: &WidgetNode, out: &mut Vec<Token>)
    ensures
        final(out).deep_view() == old(out).deep_view() + print_node(t.dview()),
    decreases t.dview().node_count(),
{
    let ghost tv = t.dview();
    let ghost base = out.deep_view();
    // type path
    let ghost base_path = out.deep_view();
    let mut i: usize = 0;
    proof {
        assert(tv.typ.skip(0) =~= tv.typ);
    }
    while i < t.typ.len()
        invariant
            i <= t.typ.len(),
            tv.typ.len() == t.typ.len(),
            out.deep_view() + print_path(tv.typ.skip(i as int)) == base_path + print_path(tv.typ),
        decreases t.typ.len() - i,
    {
        let ghost pre = out.deep_view();
        out.push(Token::Ident(t.typ[i].clone()));
        if i + 1 < t.typ.len() {
            out.push(Token::PathSep);
        }
        proof {
            assert(tv.typ.skip(i as int)[0] == tv.typ[i as int]);
            assert(tv.typ.skip(i as int).skip(1) =~= tv.typ.skip(i as int + 1));
            if i + 1 < t.typ.len() {
                assert(out.deep_view() =~= pre + seq![
                    TokenV::Ident(tv.typ[i as int]),
                    TokenV::PathSep,
                ]);
                assert(out.deep_view() + print_path(tv.typ.skip(i as int + 1)) =~= pre
                    + print_path(tv.typ.skip(i as int)));
            } else {
                assert(tv.typ.skip(i as int).len() == 1);
                assert(out.deep_view() =~= pre + seq![TokenV::Ident(tv.typ[i as int])]);
                assert(out.deep_view() + print_path(tv.typ.skip(i as int + 1)) =~= pre
                    + print_path(tv.typ.skip(i as int)));
            }
        }
        i = i + 1;
    }
    proof {
        assert(print_path(tv.typ.skip(tv.typ.len() as int)) =~= Seq::<TokenV>::empty());
        assert(out.deep_view() =~= base_path + print_path(tv.typ));
    }
    // name annotation
    match &t.name {
        None => {
            proof {
                assert(out.deep_view() + print_name(tv.name) =~= out.deep_view());
            }
        },
        Some(n) => {
            let ghost pre = out.deep_view();
            out.push(Token::Pound);
            out.push(Token::LBracket);
            out.push(Token::Ident(crate::tokens::name_key()));
            out.push(Token::Eq);
            out.push(Token::Lit(n.clone()));
            out.push(Token::RBracket);
            proof {
                assert(out.deep_view() =~= pre + print_name(tv.name));
            }
        },
    }
    let ghost after_name = out.deep_view();
    out.push(Token::LBrace);
    proof {
        assert(out.deep_view() =~= base + print_path(tv.typ) + print_name(tv.name) + seq![
            TokenV::LBrace,
        ]);
    }
    // properties
    let ghost base_props = out.deep_view();
    let mut p: usize = 0;
    proof {
        assert(tv.properties.skip(0) =~= tv.properties);
    }
    while p < t.properties.len()
        invariant
            p <= t.properties.len(),
            tv.properties.len() == t.properties.len(),
            out.deep_view() + print_props(tv.properties.skip(p as int)) == base_props
                + print_props(tv.properties),
        decreases t.properties.len() - p,
    {
        let ghost pre = out.deep_view();
        let prop = &t.properties[p];
        proof {
            assert(prop.deep_view() == tv.properties[p as int]);
        }
        out.push(Token::Ident(prop.name.clone()));
        out.push(Token::Colon);
        let mut e = clone_tokens(&prop.expr);
        out.append(&mut e);
        out.push(Token::Comma);
        proof {
            assert(tv.properties.skip(p as int)[0] == tv.properties[p as int]);
            assert(tv.properties.skip(p as int).skip(1) =~= tv.properties.skip(p as int + 1));
            assert(out.deep_view() =~= pre + print_prop(tv.properties[p as int]));
            assert(out.deep_view() + print_props(tv.properties.skip(p as int + 1)) =~= pre
                + print_props(tv.properties.skip(p as int)));
        }
        p = p + 1;
    }
    proof {
        assert(print_props(tv.properties.skip(tv.properties.len() as int)) =~= Seq::<
            TokenV,
        >::empty());
    }
    proof {
        assert(out.deep_view() =~= base + print_path(tv.typ) + print_name(tv.name) + seq![
            TokenV::LBrace,
        ] + print_props(tv.properties));
    }
    // children
    let ghost base_kids = out.deep_view();
    let mut c: usize = 0;
    proof {
        assert(tv.children.skip(0) =~= tv.children);
        crate::ast::lemma_dview_seq_index(t.children@);
    }
    while c < t.children.len()
        invariant
            c <= t.children.len(),
            tv.children.len() == t.children.len(),
            forall|k: int| 0 <= k < t.children.len() ==> tv.children[k] == (
            #[trigger] t.children@[k]).dview(),
            out.deep_view() + print_children(tv.children.skip(c as int)) == base_kids
                + print_children(tv.children),
        decreases t.children.len() - c,
    {
        proof {
            assert(tv.children.skip(c as int)[0] == tv.children[c as int]);
            assert(tv.children.skip(c as int).skip(1) =~= tv.children.skip(c as int + 1));
            crate::gen::lemma_node_count_seq_element(tv.children, c as int);
        }
        let ghost pre = out.deep_view();
        print_into(&t.children[c], out);
        out.push(Token::Comma);
        proof {
            assert(out.deep_view() =~= pre + print_node(tv.children[c as int]) + seq![
                TokenV::Comma,
            ]);
            assert(out.deep_view() + print_children(tv.children.skip(c as int + 1)) =~= pre
                + print_children(tv.children.skip(c as int)));
        }
        c = c + 1;
    }
    proof {
        assert(print_children(tv.children.skip(tv.children.len() as int)) =~= Seq::<
            TokenV,
        >::empty());
    }
    proof {
        assert(out.deep_view() =~= base_kids + print_children(tv.children));
    }
    // events
    let ghost base_evs = out.deep_view();
    let mut v: usize = 0;
    proof {
        assert(tv.events.skip(0) =~= tv.events);
    }
    while v < t.events.len()
        invariant
            v <= t.events.len(),
            tv.events.len() == t.events.len(),
            out.deep_view() + print_events(tv.events.skip(v as int)) == base_evs + print_events(
                tv.events,
            ),
        decreases t.events.len() - v,
    {
        let ghost pre = out.deep_view();
        let ev = &t.events[v];
        proof {
            assert(ev.deep_view() == tv.events[v as int]);
        }
        out.push(Token::Ident(ev.event_name.clone()));
        out.push(Token::LParen);
        let ghost base_args = out.deep_view();
        let mut a: usize = 0;
        proof {
            assert(ev.handler_args.deep_view().skip(0) =~= ev.handler_args.deep_view());
        }
        while a < ev.handler_args.len()
            invariant
                a <= ev.handler_args.len(),
                out.deep_view() + print_args(ev.handler_args.deep_view().skip(a as int))
                    == base_args + print_args(ev.handler_args.deep_view()),
            decreases ev.handler_args.len() - a,
        {
            let ghost apre = out.deep_view();
            let ghost av = ev.handler_args.deep_view();
            out.push(Token::Ident(ev.handler_args[a].clone()));
            if a + 1 < ev.handler_args.len() {
                out.push(Token::Comma);
            }
            proof {
                assert(av.skip(a as int)[0] == av[a as int]);
                assert(av.skip(a as int).skip(1) =~= av.skip(a as int + 1));
                if a + 1 < ev.handler_args.len() {
                    assert(out.deep_view() =~= apre + seq![
                        TokenV::Ident(av[a as int]),
                        TokenV::Comma,
                    ]);
                    assert(out.deep_view() + print_args(av.skip(a as int + 1)) =~= apre
                        + print_args(av.skip(a as int)));
                } else {
                    assert(av.skip(a as int).len() == 1);
                    assert(out.deep_view() =~= apre + seq![TokenV::Ident(av[a as int])]);
                    assert(out.deep_view() + print_args(av.skip(a as int + 1)) =~= apre
                        + print_args(av.skip(a as int)));
                }
            }
            a = a + 1;
        }
        proof {
            assert(print_args(
                ev.handler_args.deep_view().skip(ev.handler_args.len() as int),
            ) =~= Seq::<TokenV>::empty());
            assert(out.deep_view() =~= pre + seq![
                TokenV::Ident(tv.events[v as int].event_name),
                TokenV::LParen,
            ] + print_args(tv.events[v as int].handler_args));
        }
        let ghost after_args = out.deep_view();
        out.push(Token::RParen);
        out.push(Token::FatArrow);
        out.push(Token::LParen);
        let ghost after_head = out.deep_view();
        proof {
            assert(after_head =~= after_args + seq![
                TokenV::RParen,
                TokenV::FatArrow,
                TokenV::LParen,
            ]);
        }
        let mut m = clone_tokens(&ev.produced_message_expr);
        out.append(&mut m);
        out.push(Token::Comma);
        proof {
            assert(out.deep_view() =~= after_head + tv.events[v as int].produced_message_expr
                + seq![TokenV::Comma]);
        }
        let ghost after_msg = out.deep_view();
        let mut rf = clone_tokens(&ev.result_flags);
        out.append(&mut rf);
        out.push(Token::RParen);
        out.push(Token::Comma);
        proof {
            assert(out.deep_view() =~= after_msg + tv.events[v as int].result_flags + seq![
                TokenV::RParen,
                TokenV::Comma,
            ]);
            assert(tv.events.skip(v as int)[0] == tv.events[v as int]);
            assert(tv.events.skip(v as int).skip(1) =~= tv.events.skip(v as int + 1));
            assert(out.deep_view() =~= pre + print_event(tv.events[v as int]));
            assert(out.deep_view() + print_events(tv.events.skip(v as int + 1)) =~= pre
                + print_events(tv.events.skip(v as int)));
        }
        v = v + 1;
    }
    proof {
        assert(print_events(tv.events.skip(tv.events.len() as int)) =~= Seq::<TokenV>::empty());
    }
    proof {
        assert(out.deep_view() =~= base_evs + print_events(tv.events));
    }
    out.push(Token::RBrace);
    proof {
        assert(out.deep_view() =~= base_kids + print_children(tv.children) + print_events(
            tv.events,
        ) + seq![TokenV::RBrace]);
        assert(out.deep_view() =~= base + print_node(tv));
    }
}

} // verus!

// The structural round trip: parsing a printed tree returns the tree.

use crate::parser::{
    spec_parse, spec_parse_node, spec_parse_entries, spec_parse_expr, spec_parse_args,
    spec_parse_path, spec_parse_name,
};
use crate::tokens::delim_delta;

verus! {

/// Whether `p` stands verbatim in `s` at position `i`.
pub open spec fn at(s: Seq<TokenV>, i: int, p: Seq<TokenV>) -> bool {
    0 <= i && i + p.len() <= s.len() && s.subrange(i, i + p.len() as int) == p
}

/// One token of an embedded chunk, read off the surrounding sequence.
proof fn lemma_tok_at(s: Seq<TokenV>, i: int, p: Seq<TokenV>, k: int)
    requires
        at(s, i, p),
        0 <= k < p.len(),
    ensures
        s[i + k] == p[k],
{
    assert(s.subrange(i, i + p.len() as int)[k] == s[i + k]);
}

/// A chunk of an embedded chunk is itself embedded.
proof fn lemma_sub_chunk(s: Seq<TokenV>, i: int, p: Seq<TokenV>, a: int, c: Seq<TokenV>)
    requires
        at(s, i, p),
        0 <= a,
        a + c.len() <= p.len(),
        p.subrange(a, a + c.len() as int) == c,
    ensures
        at(s, i + a, c),
{
    assert(s.subrange(i + a, i + a + c.len() as int) =~= c) by {
        assert forall|k: int|
            0 <= k < c.len() implies s.subrange(i + a, i + a + c.len() as int)[k] == c[k] by {
            assert(s.subrange(i + a, i + a + c.len() as int)[k] == s[i + a + k]);
            assert(s.subrange(i, i + p.len() as int)[a + k] == s[i + (a + k)]);
            assert(p.subrange(a, a + c.len() as int)[k] == p[a + k]);
        }
    }
}

/// Nesting depth adds over concatenation.
proof fn lemma_depth_of_add(a: Seq<TokenV>, b: Seq<TokenV>)
    ensures
        depth_of(a + b) == depth_of(a) + depth_of(b),
    decreases b.len(),
{
    if b.len() == 0 {
        assert(a + b =~= a);
    } else {
        lemma_depth_of_add(a, b.drop_last());
        assert((a + b).drop_last() =~= a + b.drop_last());
        assert((a + b).last() == b.last());
    }
}

/// A printed type path parses back to its segments, when no path
/// separator follows it.
proof fn lemma_parse_path_print(p: Seq<Seq<char>>, s: Seq<TokenV>, i: int)
    requires
        p.len() > 0,
        at(s, i, print_path(p)),
        i + print_path(p).len() < s.len() ==> !(s[i + print_path(p).len()] is PathSep),
    ensures
        spec_parse_path(s, i) == Some((p, print_path(p).len() as nat)),
    decreases p.len(),
{
    let pr = print_path(p);
    if p.len() == 1 {
        assert(pr[0] == TokenV::Ident(p[0]));
        lemma_tok_at(s, i, pr, 0);
        assert(s[i] == TokenV::Ident(p[0]));
        assert(seq![p[0]] =~= p);
    } else {
        let rest = print_path(p.skip(1));
        assert(pr[0] == TokenV::Ident(p[0]));
        assert(pr[1] == TokenV::PathSep);
        lemma_tok_at(s, i, pr, 0);
        lemma_tok_at(s, i, pr, 1);
        assert(s[i] == TokenV::Ident(p[0]));
        assert(s[i + 1] is PathSep);
        assert(pr.subrange(2, 2 + rest.len() as int) =~= rest);
        lemma_sub_chunk(s, i, pr, 2, rest);
        assert(i + pr.len() < s.len() ==> !(s[(i + 2) + rest.len()] is PathSep));
        lemma_parse_path_print(p.skip(1), s, i + 2);
        assert(seq![p[0]] + p.skip(1) =~= p);
    }
}

/// A printed name annotation parses back, when no `#` follows it.
proof fn lemma_parse_name_print(nm: Option<Seq<char>>, s: Seq<TokenV>, i: int)
    requires
        at(s, i, print_name(nm)),
        i + print_name(nm).len() < s.len(),
        !(s[i + print_name(nm).len()] is Pound),
    ensures
        spec_parse_name(s, i) == Some((nm, print_name(nm).len() as nat)),
{
    let pr = print_name(nm);
    match nm {
        None => {
            assert(pr.len() == 0);
        },
        Some(n) => {
            lemma_tok_at(s, i, pr, 0);
            lemma_tok_at(s, i, pr, 1);
            lemma_tok_at(s, i, pr, 2);
            lemma_tok_at(s, i, pr, 3);
            lemma_tok_at(s, i, pr, 4);
            lemma_tok_at(s, i, pr, 5);
            assert(s[i] is Pound);
            assert(s[i + 1] is LBracket);
            assert(s[i + 2] == TokenV::Ident("name"@));
            assert(s[i + 3] is Eq);
            assert(s[i + 4] == TokenV::Lit(n));
            assert(s[i + 5] is RBracket);
        },
    }
}

/// A printed well-formed expression, followed by its terminator, parses
/// back exactly up to the terminator.
proof fn lemma_parse_expr_print(e: Seq<TokenV>, s: Seq<TokenV>, i: int, comma_end: bool, d: nat)
    requires
        at(s, i, e),
        i + e.len() < s.len(),
        comma_end ==> s[i + e.len()] is Comma,
        !comma_end ==> s[i + e.len()] is RParen,
        forall|k: int| 0 <= k <= e.len() ==> d + depth_of(#[trigger] e.take(k)) >= 0,
        d + depth_of(e) == 0,
        forall|k: int|
            0 <= k < e.len() && d + depth_of(#[trigger] e.take(k)) == 0 ==> !(e[k] is Comma),
    ensures
        spec_parse_expr(s, i, comma_end, d) == Some((e, (e.len() + 1) as nat)),
    decreases e.len(),
{
    if e.len() == 0 {
        assert(e.take(0) =~= e);
        assert(d == 0);
        assert(Seq::<TokenV>::empty() =~= e);
    } else {
        lemma_tok_at(s, i, e, 0);
        let t = s[i];
        assert(t == e[0]);
        assert(e.take(0) =~= Seq::<TokenV>::empty());
        assert(e.take(1).drop_last() =~= Seq::<TokenV>::empty());
        assert(e.take(1).last() == e[0]);
        assert(depth_of(e.take(1)) == delim_delta(e[0]));
        if d == 0 {
            assert(depth_of(e.take(0)) == 0);
            assert(!(e[0] is Comma));
            assert(d + depth_of(e.take(1)) >= 0);
            assert(delim_delta(e[0]) != -1);
        }
        let d2: nat = if delim_delta(t) == 1 {
            d + 1
        } else if delim_delta(t) == -1 {
            (d - 1) as nat
        } else {
            d
        };
        let e2 = e.skip(1);
        assert(e.subrange(1, 1 + e2.len() as int) =~= e2);
        lemma_sub_chunk(s, i, e, 1, e2);
        assert forall|k: int| 0 <= k <= e2.len() implies d2 + depth_of(#[trigger] e2.take(k)) >= 0
            by {
            assert(e.take(k + 1) =~= seq![e[0]] + e2.take(k));
            lemma_depth_of_add(seq![e[0]], e2.take(k));
            assert(seq![e[0]].drop_last() =~= Seq::<TokenV>::empty());
            assert(depth_of(seq![e[0]]) == delim_delta(e[0]));
            assert(d + depth_of(e.take(k + 1)) >= 0);
        }
        assert(d2 + depth_of(e2) == 0) by {
            assert(e2.take(e2.len() as int) =~= e2);
            assert(d2 + depth_of(e2.take(e2.len() as int)) >= 0);
            assert(e.take(e2.len() as int + 1) =~= seq![e[0]] + e2);
            assert(e.take(e.len() as int) =~= e);
            lemma_depth_of_add(seq![e[0]], e2);
            assert(seq![e[0]].drop_last() =~= Seq::<TokenV>::empty());
        }
        assert forall|k: int|
            0 <= k < e2.len() && d2 + depth_of(#[trigger] e2.take(k)) == 0 implies !(e2[k]
            is Comma) by {
            assert(e.take(k + 1) =~= seq![e[0]] + e2.take(k));
            lemma_depth_of_add(seq![e[0]], e2.take(k));
            assert(seq![e[0]].drop_last() =~= Seq::<TokenV>::empty());
            assert(d + depth_of(e.take(k + 1)) == 0);
            assert(e2[k] == e[k + 1]);
        }
        lemma_parse_expr_print(e2, s, i + 1, comma_end, d2);
        assert(seq![e[0]] + e2 =~= e);
    }
}

/// A printed argument list followed by its closing parenthesis parses
/// back to the arguments.
proof fn lemma_parse_args_print(args: Seq<Seq<char>>, s: Seq<TokenV>, i: int)
    requires
        at(s, i, print_args(args)),
        i + print_args(args).len() < s.len(),
        s[i + print_args(args).len()] is RParen,
    ensures
        spec_parse_args(s, i) == Some((args, (print_args(args).len() + 1) as nat)),
    decreases args.len(),
{
    let pr = print_args(args);
    if args.len() == 0 {
        assert(Seq::<Seq<char>>::empty() =~= args);
    } else if args.len() == 1 {
        assert(pr[0] == TokenV::Ident(args[0]));
        lemma_tok_at(s, i, pr, 0);
        assert(s[i] == TokenV::Ident(args[0]));
        assert(s[i + 1] is RParen);
        assert(seq![args[0]] =~= args);
    } else {
        let rest = print_args(args.skip(1));
        assert(pr[0] == TokenV::Ident(args[0]));
        assert(pr[1] == TokenV::Comma);
        lemma_tok_at(s, i, pr, 0);
        lemma_tok_at(s, i, pr, 1);
        assert(s[i] == TokenV::Ident(args[0]));
        assert(s[i + 1] is Comma);
        assert(pr.subrange(2, 2 + rest.len() as int) =~= rest);
        lemma_sub_chunk(s, i, pr, 2, rest);
        lemma_parse_args_print(args.skip(1), s, i + 2);
        assert(seq![args[0]] + args.skip(1) =~= args);
    }
}

/// The length of a printed entry list, closing brace included.
pub open spec fn entries_len(
    ps: Seq<PropertyV>,
    ks: Seq<WidgetNodeV>,
    es: Seq<EventBindingV>,
) -> int {
    print_props(ps).len() + print_children(ks).len() + print_events(es).len() + 1 as int
}

/// The printed entry list, closing brace included.
pub open spec fn print_entries(
    ps: Seq<PropertyV>,
    ks: Seq<WidgetNodeV>,
    es: Seq<EventBindingV>,
) -> Seq<TokenV> {
    print_props(ps) + print_children(ks) + print_events(es) + seq![TokenV::RBrace]
}

/// A well-formed expression satisfies the depth-zero conditions the
/// expression lemma asks for.
proof fn lemma_wf_expr_conditions(e: Seq<TokenV>)
    requires
        wf_expr(e),
    ensures
        forall|k: int| 0 <= k <= e.len() ==> depth_of(#[trigger] e.take(k)) >= 0,
        depth_of(e) == 0,
{
    assert(e.take(e.len() as int) =~= e);
}

/// Printed entries — properties, children, events, closing brace — parse
/// back to exactly those entries.
#[verifier::rlimit(100)]
proof fn lemma_parse_entries_print(
    ps: Seq<PropertyV>,
    ks: Seq<WidgetNodeV>,
    es: Seq<EventBindingV>,
    s: Seq<TokenV>,
    i: int,
)
    requires
        at(s, i, print_entries(ps, ks, es)),
        forall|k: int| 0 <= k < ps.len() ==> wf_expr((#[trigger] ps[k]).expr),
        forall|k: int|
            0 <= k < es.len() ==> wf_expr((#[trigger] es[k]).produced_message_expr) && wf_expr(
                es[k].result_flags,
            ),
        forall|k: int| 0 <= k < ks.len() ==> wf_node(#[trigger] ks[k]),
    ensures
        spec_parse_entries(s, i) == Some(((ps, ks, es), entries_len(ps, ks, es) as nat)),
    decreases ks, ps.len(), es.len(), 1nat,
{
    let whole = print_entries(ps, ks, es);
    let total = entries_len(ps, ks, es);
    if ps.len() > 0 {
        let e = ps[0].expr;
        assert(wf_expr(e));
        let p0 = print_prop(ps[0]);
        assert(p0[0] == TokenV::Ident(ps[0].name));
        assert(p0[1] == TokenV::Colon);
        assert(p0[2 + e.len() as int] == TokenV::Comma);
        assert(whole.subrange(0, p0.len() as int) =~= p0);
        lemma_sub_chunk(s, i, whole, 0, p0);
        lemma_tok_at(s, i, p0, 0);
        lemma_tok_at(s, i, p0, 1);
        lemma_tok_at(s, i, p0, 2 + e.len() as int);
        assert(s[i] == TokenV::Ident(ps[0].name));
        assert(s[i + 1] is Colon);
        assert(p0.subrange(2, 2 + e.len() as int) =~= e);
        lemma_sub_chunk(s, i, p0, 2, e);
        assert(s[(i + 2) + e.len()] is Comma);
        lemma_wf_expr_conditions(e);
        lemma_parse_expr_print(e, s, i + 2, true, 0);
        let c = i + 2 + e.len() + 1;
        let rest = print_entries(ps.skip(1), ks, es);
        assert(whole.subrange(p0.len() as int, p0.len() + rest.len() as int) =~= rest) by {
            assert(print_props(ps) =~= p0 + print_props(ps.skip(1)));
        }
        lemma_sub_chunk(s, i, whole, p0.len() as int, rest);
        lemma_parse_entries_print(ps.skip(1), ks, es, s, c);
        assert(PropertyV { name: ps[0].name, expr: e } =~= ps[0]);
        assert(seq![ps[0]] + ps.skip(1) =~= ps);
    } else if ks.len() > 0 {
        let w = ks[0];
        assert(wf_node(w));
        let pn = print_node(w);
        assert(print_props(ps) =~= Seq::<TokenV>::empty());
        assert(whole.subrange(0, pn.len() as int) =~= pn) by {
            assert(print_children(ks) =~= pn + seq![TokenV::Comma] + print_children(ks.skip(1)));
        }
        lemma_sub_chunk(s, i, whole, 0, pn);
        assert(pn[0] == TokenV::Ident(w.typ[0])) by {
            assert(print_path(w.typ)[0] == TokenV::Ident(w.typ[0]));
        }
        lemma_tok_at(s, i, pn, 0);
        lemma_tok_at(s, i, pn, 1);
        assert(s[i] == TokenV::Ident(w.typ[0]));
        assert(!(s[i + 1] is Colon) && !(s[i + 1] is LParen)) by {
            if w.typ.len() > 1 {
                assert(print_path(w.typ)[1] == TokenV::PathSep);
                assert(pn[1] == TokenV::PathSep);
            } else {
                assert(print_path(w.typ).len() == 1);
                match w.name {
                    Some(n) => {
                        assert(print_name(w.name)[0] == TokenV::Pound);
                        assert(pn[1] == TokenV::Pound);
                    },
                    None => {
                        assert(print_name(w.name).len() == 0);
                        assert(pn[1] == TokenV::LBrace);
                    },
                }
            }
        }
        lemma_parse_node_print(w, s, i);
        assert(whole[pn.len() as int] == TokenV::Comma) by {
            assert(print_children(ks) =~= pn + seq![TokenV::Comma] + print_children(ks.skip(1)));
        }
        lemma_tok_at(s, i, whole, pn.len() as int);
        assert(s[i + pn.len()] is Comma);
        let c = i + pn.len() + 1;
        let rest = print_entries(ps, ks.skip(1), es);
        assert(whole.subrange(pn.len() + 1 as int, pn.len() + 1 + rest.len() as int) =~= rest) by {
            assert(print_children(ks) =~= pn + seq![TokenV::Comma] + print_children(ks.skip(1)));
        }
        lemma_sub_chunk(s, i, whole, pn.len() + 1 as int, rest);
        lemma_parse_entries_print(ps, ks.skip(1), es, s, c);
        assert(seq![w] + ks.skip(1) =~= ks);
    } else if es.len() > 0 {
        let ev = es[0];
        let pe = print_event(ev);
        let pa = print_args(ev.handler_args);
        let msg = ev.produced_message_expr;
        let res = ev.result_flags;
        assert(print_props(ps) =~= Seq::<TokenV>::empty());
        assert(print_children(ks) =~= Seq::<TokenV>::empty());
        assert(whole.subrange(0, pe.len() as int) =~= pe) by {
            assert(print_events(es) =~= pe + print_events(es.skip(1)));
        }
        lemma_sub_chunk(s, i, whole, 0, pe);
        assert(pe[0] == TokenV::Ident(ev.event_name));
        assert(pe[1] == TokenV::LParen);
        lemma_tok_at(s, i, pe, 0);
        lemma_tok_at(s, i, pe, 1);
        assert(s[i] == TokenV::Ident(ev.event_name));
        assert(s[i + 1] is LParen);
        assert(pe.subrange(2, 2 + pa.len() as int) =~= pa);
        lemma_sub_chunk(s, i, pe, 2, pa);
        assert(pe[2 + pa.len() as int] == TokenV::RParen);
        lemma_tok_at(s, i, pe, 2 + pa.len() as int);
        assert(s[(i + 2) + pa.len()] is RParen);
        lemma_parse_args_print(ev.handler_args, s, i + 2);
        let j = i + 2 + pa.len() + 1;
        assert(pe[2 + pa.len() + 1 as int] == TokenV::FatArrow);
        assert(pe[2 + pa.len() + 2 as int] == TokenV::LParen);
        lemma_tok_at(s, i, pe, 2 + pa.len() + 1 as int);
        lemma_tok_at(s, i, pe, 2 + pa.len() + 2 as int);
        assert(s[j] is FatArrow);
        assert(s[j + 1] is LParen);
        let moff = 2 + pa.len() + 3 as int;
        assert(pe.subrange(moff, moff + msg.len() as int) =~= msg);
        lemma_sub_chunk(s, i, pe, moff, msg);
        assert(pe[moff + msg.len() as int] == TokenV::Comma);
        lemma_tok_at(s, i, pe, moff + msg.len() as int);
        assert(s[(i + moff) + msg.len()] is Comma);
        lemma_wf_expr_conditions(msg);
        assert(i + moff == j + 2);
        lemma_parse_expr_print(msg, s, j + 2, true, 0);
        let k = j + 2 + msg.len() + 1;
        let roff = moff + msg.len() + 1 as int;
        assert(pe.subrange(roff, roff + res.len() as int) =~= res);
        lemma_sub_chunk(s, i, pe, roff, res);
        assert(pe[roff + res.len() as int] == TokenV::RParen);
        lemma_tok_at(s, i, pe, roff + res.len() as int);
        assert(i + roff == k);
        assert(s[k + res.len()] is RParen);
        lemma_wf_expr_conditions(res);
        lemma_parse_expr_print(res, s, k, false, 0);
        let l = k + res.len() + 1;
        assert(pe[roff + res.len() + 1 as int] == TokenV::Comma);
        lemma_tok_at(s, i, pe, roff + res.len() + 1 as int);
        assert(s[l] is Comma);
        let rest = print_entries(ps, ks, es.skip(1));
        assert(whole.subrange(pe.len() as int, pe.len() + rest.len() as int) =~= rest) by {
            assert(print_events(es) =~= pe + print_events(es.skip(1)));
        }
        lemma_sub_chunk(s, i, whole, pe.len() as int, rest);
        assert(i + pe.len() == l + 1);
        lemma_parse_entries_print(ps, ks, es.skip(1), s, l + 1);
        assert(EventBindingV {
            event_name: ev.event_name,
            handler_args: ev.handler_args,
            produced_message_expr: msg,
            result_flags: res,
        } =~= ev);
        assert(seq![ev] + es.skip(1) =~= es);
    } else {
        assert(whole[0] == TokenV::RBrace);
        lemma_tok_at(s, i, whole, 0);
        assert(s[i] is RBrace);
        assert(Seq::<PropertyV>::empty() =~= ps);
        assert(Seq::<WidgetNodeV>::empty() =~= ks);
        assert(Seq::<EventBindingV>::empty() =~= es);
    }
}

/// A printed well-formed node parses back to itself.
#[verifier::rlimit(100)]
proof fn lemma_parse_node_print(t: WidgetNodeV, s: Seq<TokenV>, i: int)
    requires
        wf_node(t),
        at(s, i, print_node(t)),
    ensures
        spec_parse_node(s, i) == Some((t, print_node(t).len() as nat)),
    decreases t, 0nat, 0nat, 0nat,
{
    let pn = print_node(t);
    let pp = print_path(t.typ);
    let pm = print_name(t.name);
    let en = print_entries(t.properties, t.children, t.events);
    assert(pn =~= pp + pm + seq![TokenV::LBrace] + en);
    assert(pn.subrange(0, pp.len() as int) =~= pp);
    lemma_sub_chunk(s, i, pn, 0, pp);
    assert(pn[pp.len() as int] == (match t.name {
        Some(n) => TokenV::Pound,
        None => TokenV::LBrace,
    })) by {
        match t.name {
            Some(n) => {
                assert(pm[0] == TokenV::Pound);
            },
            None => {},
        }
    }
    lemma_tok_at(s, i, pn, pp.len() as int);
    assert(!(s[i + pp.len()] is PathSep));
    lemma_parse_path_print(t.typ, s, i);
    let j = i + pp.len();
    assert(pn.subrange(pp.len() as int, pp.len() + pm.len() as int) =~= pm);
    lemma_sub_chunk(s, i, pn, pp.len() as int, pm);
    assert(pn[pp.len() + pm.len() as int] == TokenV::LBrace);
    lemma_tok_at(s, i, pn, pp.len() + pm.len() as int);
    assert(s[j + pm.len()] is LBrace);
    assert(!(s[j + pm.len()] is Pound));
    lemma_parse_name_print(t.name, s, j);
    let b = j + pm.len() + 1;
    assert(pn.subrange(pp.len() + pm.len() + 1 as int, pn.len() as int) =~= en);
    lemma_sub_chunk(s, i, pn, pp.len() + pm.len() + 1 as int, en);
    lemma_parse_entries_print(t.properties, t.children, t.events, s, b);
    assert(WidgetNodeV {
        name: t.name,
        typ: t.typ,
        properties: t.properties,
        children: t.children,
        events: t.events,
    } =~= t);
}

/// The structural round trip: parsing the printed declaration of any
/// well-formed tree returns the tree itself, so the re-derived node
/// count, types and property count equal the original's.
pub proof fn lemma_structural_round_trip(t: WidgetNodeV)
    requires
        wf_node(t),
    ensures
        spec_parse(print_node(t)) == Some(t),
        spec_parse(print_node(t))->Some_0.node_count() == t.node_count(),
        spec_parse(print_node(t))->Some_0.typ == t.typ,
        spec_parse(print_node(t))->Some_0.property_count() == t.property_count(),
{
    let s = print_node(t);
    assert(s.subrange(0, s.len() as int) =~= s);
    lemma_parse_node_print(t, s, 0);
}

} // verus!
