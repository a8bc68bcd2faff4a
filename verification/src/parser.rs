//! The grammar parser: recursive descent over the token sequence of one
//! brace-delimited widget declaration.
//!
//! Grammar (informal):
//! `Node := TypePath [ '#' '[' name '=' "lit" ']' ] '{' (Property ',')* (Node ',')* (EventBinding ',')* '}'`,
//! `Property := ident ':' expr`,
//! `EventBinding := ident '(' arg-list ')' '=>' '(' message-expr ',' result-expr ')'`.
//! Comma-separated entries may appear in any order; each is classified by
//! its first two tokens. Unbalanced braces, an entry matching none of the
//! three forms, or a missing type path fail with `ParseError`, and no
//! partial tree is returned.

use vstd::prelude::*;
use crate::tokens::{Token, TokenV, delim_delta};
use crate::ast::{Property, PropertyV, EventBinding, EventBindingV, WidgetNode, WidgetNodeV};
use crate::errors::CompileError;

verus! {

/// The tokens left from position `i` on; zero once `i` passes the end.
pub open spec fn remaining(s: Seq<TokenV>, i: int) -> int {
    if s.len() - i >= 0 {
        s.len() - i
    } else {
        0
    }
}

/// Parses a type path `ident (:: ident)*`; returns the segments and the
/// number of tokens consumed.
pub open spec fn spec_parse_path(s: Seq<TokenV>, i: int) -> Option<(Seq<Seq<char>>, nat)>
    decreases remaining(s, i),
{
    if i < 0 || i >= s.len() {
        None
    } else {
        match s[i] {
            TokenV::Ident(x) => {
                if i + 1 < s.len() && s[i + 1] is PathSep {
                    match spec_parse_path(s, i + 2) {
                        None => None,
                        Some((rest, c)) => Some((seq![x] + rest, c + 2)),
                    }
                } else {
                    Some((seq![x], 1))
                }
            },
            _ => None,
        }
    }
}

/// Parses an optional instance-name annotation
/// `'#' '[' name '=' "lit" ']'`; consumes nothing when no `#` is present.
pub open spec fn spec_parse_name(s: Seq<TokenV>, i: int) -> Option<(Option<Seq<char>>, nat)> {
    if 0 <= i < s.len() && s[i] is Pound {
        if i + 5 < s.len() && s[i + 1] is LBracket && s[i + 2] == TokenV::Ident("name"@) && s[i
            + 3] is Eq && s[i + 4] is Lit && s[i + 5] is RBracket {
            Some((Some(lit_of(s[i + 4])), 6))
        } else {
            None
        }
    } else {
        Some((None, 0))
    }
}

/// The payload of a literal token.
pub open spec fn lit_of(t: TokenV) -> Seq<char> {
    match t {
        TokenV::Lit(x) => x,
        _ => Seq::empty(),
    }
}

/// Parses expression tokens up to a terminator at nesting depth zero — a
/// comma when `comma_end` is set, a closing parenthesis otherwise. The
/// terminator is consumed and not part of the expression. Any other
/// delimiter closing at depth zero is a parse failure.
pub open spec fn spec_parse_expr(s: Seq<TokenV>, i: int, comma_end: bool, depth: nat) -> Option<
    (Seq<TokenV>, nat),
>
    decreases remaining(s, i),
{
    if i < 0 || i >= s.len() {
        None
    } else {
        let t = s[i];
        if depth == 0 && comma_end && t is Comma {
            Some((Seq::empty(), 1))
        } else if depth == 0 && !comma_end && t is RParen {
            Some((Seq::empty(), 1))
        } else if depth == 0 && delim_delta(t) == -1 {
            None
        } else if depth == 0 && !comma_end && t is Comma {
            None
        } else {
            let d2 = if delim_delta(t) == 1 {
                depth + 1
            } else if delim_delta(t) == -1 {
                (depth - 1) as nat
            } else {
                depth
            };
            match spec_parse_expr(s, i + 1, comma_end, d2) {
                None => None,
                Some((e, c)) => Some((seq![t] + e, c + 1)),
            }
        }
    }
}

/// Parses a handler argument list `[ident (',' ident)*] ')'`; the closing
/// parenthesis is consumed.
pub open spec fn spec_parse_args(s: Seq<TokenV>, i: int) -> Option<(Seq<Seq<char>>, nat)>
    decreases remaining(s, i),
{
    if i < 0 || i >= s.len() {
        None
    } else if s[i] is RParen {
        Some((Seq::empty(), 1))
    } else {
        match s[i] {
            TokenV::Ident(x) => {
                if i + 1 < s.len() && s[i + 1] is RParen {
                    Some((seq![x], 2))
                } else if i + 1 < s.len() && s[i + 1] is Comma {
                    match spec_parse_args(s, i + 2) {
                        None => None,
                        Some((rest, c)) => Some((seq![x] + rest, c + 2)),
                    }
                } else {
                    None
                }
            },
            _ => None,
        }
    }
}

/// Parses the entries of a node body up to and including the closing
/// brace. Each comma-terminated entry is classified by its first two
/// tokens: `ident ':'` opens a property, `ident '('` an event binding,
/// and anything else starting with an identifier a nested node.
pub open spec fn spec_parse_entries(s: Seq<TokenV>, i: int) -> Option<
    ((Seq<PropertyV>, Seq<WidgetNodeV>, Seq<EventBindingV>), nat),
>
    decreases remaining(s, i), 1nat,
{
    if i < 0 || i >= s.len() {
        None
    } else if s[i] is RBrace {
        Some(((Seq::empty(), Seq::empty(), Seq::empty()), 1))
    } else {
        match s[i] {
            TokenV::Ident(x) => {
                if i + 1 >= s.len() {
                    None
                } else if s[i + 1] is Colon {
                    match spec_parse_expr(s, i + 2, true, 0) {
                        None => None,
                        Some((e, c)) => if e.len() == 0 {
                            None
                        } else {
                            match spec_parse_entries(s, i + 2 + c) {
                                None => None,
                                Some(((ps, ks, es), c2)) => Some(
                                    (
                                        (seq![PropertyV { name: x, expr: e }] + ps, ks, es),
                                        2 + c + c2,
                                    ),
                                ),
                            }
                        },
                    }
                } else if s[i + 1] is LParen {
                    match spec_parse_args(s, i + 2) {
                        None => None,
                        Some((args, c)) => {
                            let j = i + 2 + c;
                            if j + 1 < s.len() && s[j] is FatArrow && s[j + 1] is LParen {
                                match spec_parse_expr(s, j + 2, true, 0) {
                                    None => None,
                                    Some((msg, c2)) => if msg.len() == 0 {
                                        None
                                    } else {
                                        match spec_parse_expr(s, j + 2 + c2, false, 0) {
                                            None => None,
                                            Some((res, c3)) => if res.len() == 0 {
                                                None
                                            } else {
                                                let k = j + 2 + c2 + c3;
                                                if k < s.len() && s[k] is Comma {
                                                    match spec_parse_entries(s, k + 1) {
                                                        None => None,
                                                        Some(((ps, ks, es), c4)) => {
                                                            let ev = EventBindingV {
                                                                event_name: x,
                                                                handler_args: args,
                                                                produced_message_expr: msg,
                                                                result_flags: res,
                                                            };
                                                            Some(
                                                                (
                                                                    (ps, ks, seq![ev] + es),
                                                                    (k + 1 - i + c4) as nat,
                                                                ),
                                                            )
                                                        },
                                                    }
                                                } else {
                                                    None
                                                }
                                            },
                                        }
                                    },
                                }
                            } else {
                                None
                            }
                        },
                    }
                } else {
                    match spec_parse_node(s, i) {
                        None => None,
                        Some((w, c)) => {
                            let j = i + c;
                            if j < s.len() && s[j] is Comma {
                                match spec_parse_entries(s, j + 1) {
                                    None => None,
                                    Some(((ps, ks, es), c2)) => Some(
                                        ((ps, seq![w] + ks, es), c + 1 + c2),
                                    ),
                                }
                            } else {
                                None
                            }
                        },
                    }
                }
            },
            _ => None,
        }
    }
}

/// Parses one widget node: a type path, an optional name annotation, and
/// a brace-delimited entry list.
pub open spec fn spec_parse_node(s: Seq<TokenV>, i: int) -> Option<(WidgetNodeV, nat)>
    decreases remaining(s, i), 0nat,
{
    if i < 0 || i >= s.len() {
        None
    } else {
        match spec_parse_path(s, i) {
            None => None,
            Some((path, c1)) => {
                match spec_parse_name(s, i + c1) {
                    None => None,
                    Some((nm, c2)) => {
                        let j = i + c1 + c2;
                        if j < s.len() && s[j] is LBrace {
                            match spec_parse_entries(s, j + 1) {
                                None => None,
                                Some(((ps, ks, es), c3)) => Some(
                                    (
                                        WidgetNodeV {
                                            name: nm,
                                            typ: path,
                                            properties: ps,
                                            children: ks,
                                            events: es,
                                        },
                                        c1 + c2 + 1 + c3,
                                    ),
                                ),
                            }
                        } else {
                            None
                        }
                    },
                }
            },
        }
    }
}

/// Parses a whole widget declaration: one node covering every token.
pub open spec fn spec_parse(s: Seq<TokenV>) -> Option<WidgetNodeV> {
    match spec_parse_node(s, 0) {
        None => None,
        Some((w, c)) => if c == s.len() {
            Some(w)
        } else {
            None
        },
    }
}

} // verus!

// Executable recursive descent, each function proved equal to its
// specification counterpart.


verus! {

fn is_pathsep(t: &Token) -> (r: bool)
    ensures
        r == (t.deep_view() is PathSep),
{
    match t {
        Token::PathSep => true,
        _ => false,
    }
}

fn is_pound(t: &Token) -> (r: bool)
    ensures
        r == (t.deep_view() is Pound),
{
    match t {
        Token::Pound => true,
        _ => false,
    }
}

fn is_lbracket(t: &Token) -> (r: bool)
    ensures
        r == (t.deep_view() is LBracket),
{
    match t {
        Token::LBracket => true,
        _ => false,
    }
}

fn is_rbracket(t: &Token) -> (r: bool)
    ensures
        r == (t.deep_view() is RBracket),
{
    match t {
        Token::RBracket => true,
        _ => false,
    }
}

fn is_eq_tok(t: &Token) -> (r: bool)
    ensures
        r == (t.deep_view() is Eq),
{
    match t {
        Token::Eq => true,
        _ => false,
    }
}

fn is_lbrace(t: &Token) -> (r: bool)
    ensures
        r == (t.deep_view() is LBrace),
{
    match t {
        Token::LBrace => true,
        _ => false,
    }
}

fn is_rbrace(t: &Token) -> (r: bool)
    ensures
        r == (t.deep_view() is RBrace),
{
    match t {
        Token::RBrace => true,
        _ => false,
    }
}

fn is_colon(t: &Token) -> (r: bool)
    ensures
        r == (t.deep_view() is Colon),
{
    match t {
        Token::Colon => true,
        _ => false,
    }
}

fn is_comma(t: &Token) -> (r: bool)
    ensures
        r == (t.deep_view() is Comma),
{
    match t {
        Token::Comma => true,
        _ => false,
    }
}

fn is_lparen(t: &Token) -> (r: bool)
    ensures
        r == (t.deep_view() is LParen),
{
    match t {
        Token::LParen => true,
        _ => false,
    }
}

fn is_rparen(t: &Token) -> (r: bool)
    ensures
        r == (t.deep_view() is RParen),
{
    match t {
        Token::RParen => true,
        _ => false,
    }
}

fn is_fatarrow(t: &Token) -> (r: bool)
    ensures
        r == (t.deep_view() is FatArrow),
{
    match t {
        Token::FatArrow => true,
        _ => false,
    }
}

/// The delimiter-depth change of one token.
fn delta_of(t: &Token) -> (r: i8)
    ensures
        r as int == delim_delta(t.deep_view()),
{
    match t {
        Token::LBrace => 1,
        Token::LParen => 1,
        Token::LBracket => 1,
        Token::RBrace => -1,
        Token::RParen => -1,
        Token::RBracket => -1,
        _ => 0,
    }
}

fn parse_path(tokens: &Vec<Token>, i: usize) -> (r: Result<(Vec<String>, usize), CompileError>)
    ensures
        match r {
            Ok((p, j)) => i < j <= tokens.len() && spec_parse_path(tokens.deep_view(), i as int)
                == Some((p.deep_view(), (j - i) as nat)),
            Err(e) => e == CompileError::ParseError && spec_parse_path(
                tokens.deep_view(),
                i as int,
            ) is None,
        },
    decreases remaining(tokens.deep_view(), i as int),
{
    let ghost s = tokens.deep_view();
    if i >= tokens.len() {
        return Err(CompileError::ParseError);
    }
    match &tokens[i] {
        Token::Ident(x) => {
            if i + 1 < tokens.len() && is_pathsep(&tokens[i + 1]) {
                match parse_path(tokens, i + 2) {
                    Err(e) => Err(e),
                    Ok((mut rest, j)) => {
                        let ghost restv = rest.deep_view();
                        rest.insert(0, x.clone());
                        proof {
                            assert(rest.deep_view() =~= seq![x@] + restv);
                        }
                        Ok((rest, j))
                    },
                }
            } else {
                let mut v: Vec<String> = Vec::new();
                v.push(x.clone());
                proof {
                    assert(v.deep_view() =~= seq![x@]);
                }
                Ok((v, i + 1))
            }
        },
        _ => Err(CompileError::ParseError),
    }
}

fn parse_name(tokens: &Vec<Token>, i: usize) -> (r: Result<
    (Option<String>, usize),
    CompileError,
>)
    requires
        i <= tokens.len(),
    ensures
        match r {
            Ok((nm, j)) => i <= j <= tokens.len() && spec_parse_name(tokens.deep_view(), i as int)
                == Some((nm.deep_view(), (j - i) as nat)),
            Err(e) => e == CompileError::ParseError && spec_parse_name(
                tokens.deep_view(),
                i as int,
            ) is None,
        },
{
    let ghost s = tokens.deep_view();
    if i < tokens.len() && is_pound(&tokens[i]) {
        if tokens.len() - i >= 6 && is_lbracket(&tokens[i + 1]) && is_eq_tok(&tokens[i + 3])
            && is_rbracket(&tokens[i + 5]) {
            let key_ok: bool = match &tokens[i + 2] {
                Token::Ident(k) => {
                    let expected = String::from_str("name");
                    k.eq(&expected)
                },
                _ => false,
            };
            proof {
                assert(key_ok == (s[i as int + 2] == TokenV::Ident("name"@)));
            }
            if key_ok {
                match &tokens[i + 4] {
                    Token::Lit(v) => Ok((Some(v.clone()), i + 6)),
                    _ => Err(CompileError::ParseError),
                }
            } else {
                Err(CompileError::ParseError)
            }
        } else {
            Err(CompileError::ParseError)
        }
    } else {
        Ok((None, i))
    }
}

fn parse_expr(tokens: &Vec<Token>, i: usize, comma_end: bool, depth: usize) -> (r: Result<
    (Vec<Token>, usize),
    CompileError,
>)
    requires
        depth <= i,
    ensures
        match r {
            Ok((e, j)) => i < j <= tokens.len() && spec_parse_expr(
                tokens.deep_view(),
                i as int,
                comma_end,
                depth as nat,
            ) == Some((e.deep_view(), (j - i) as nat)),
            Err(er) => er == CompileError::ParseError && spec_parse_expr(
                tokens.deep_view(),
                i as int,
                comma_end,
                depth as nat,
            ) is None,
        },
    decreases remaining(tokens.deep_view(), i as int),
{
    let ghost s = tokens.deep_view();
    if i >= tokens.len() {
        return Err(CompileError::ParseError);
    }
    let t = &tokens[i];
    let d = delta_of(t);
    if depth == 0 && comma_end && is_comma(t) {
        let e: Vec<Token> = Vec::new();
        proof {
            assert(e.deep_view() =~= Seq::<TokenV>::empty());
        }
        Ok((e, i + 1))
    } else if depth == 0 && !comma_end && is_rparen(t) {
        let e: Vec<Token> = Vec::new();
        proof {
            assert(e.deep_view() =~= Seq::<TokenV>::empty());
        }
        Ok((e, i + 1))
    } else if depth == 0 && d == -1 {
        Err(CompileError::ParseError)
    } else if depth == 0 && !comma_end && is_comma(t) {
        Err(CompileError::ParseError)
    } else {
        let d2: usize = if d == 1 {
            depth + 1
        } else if d == -1 {
            depth - 1
        } else {
            depth
        };
        match parse_expr(tokens, i + 1, comma_end, d2) {
            Err(er) => Err(er),
            Ok((mut e, j)) => {
                let ghost ev = e.deep_view();
                e.insert(0, tokens[i].clone());
                proof {
                    assert(e.deep_view() =~= seq![s[i as int]] + ev);
                }
                Ok((e, j))
            },
        }
    }
}

fn parse_args(tokens: &Vec<Token>, i: usize) -> (r: Result<(Vec<String>, usize), CompileError>)
    ensures
        match r {
            Ok((a, j)) => i < j <= tokens.len() && spec_parse_args(tokens.deep_view(), i as int)
                == Some((a.deep_view(), (j - i) as nat)),
            Err(e) => e == CompileError::ParseError && spec_parse_args(
                tokens.deep_view(),
                i as int,
            ) is None,
        },
    decreases remaining(tokens.deep_view(), i as int),
{
    let ghost s = tokens.deep_view();
    if i >= tokens.len() {
        return Err(CompileError::ParseError);
    }
    if is_rparen(&tokens[i]) {
        let a: Vec<String> = Vec::new();
        proof {
            assert(a.deep_view() =~= Seq::<Seq<char>>::empty());
        }
        return Ok((a, i + 1));
    }
    match &tokens[i] {
        Token::Ident(x) => {
            if i + 1 < tokens.len() && is_rparen(&tokens[i + 1]) {
                let mut a: Vec<String> = Vec::new();
                a.push(x.clone());
                proof {
                    assert(a.deep_view() =~= seq![x@]);
                }
                Ok((a, i + 2))
            } else if i + 1 < tokens.len() && is_comma(&tokens[i + 1]) {
                match parse_args(tokens, i + 2) {
                    Err(e) => Err(e),
                    Ok((mut rest, j)) => {
                        let ghost restv = rest.deep_view();
                        rest.insert(0, x.clone());
                        proof {
                            assert(rest.deep_view() =~= seq![x@] + restv);
                        }
                        Ok((rest, j))
                    },
                }
            } else {
                Err(CompileError::ParseError)
            }
        },
        _ => Err(CompileError::ParseError),
    }
}

/// The entries of one node body, parsed and grouped.
struct Entries {
    props: Vec<Property>,
    kids: Vec<WidgetNode>,
    evs: Vec<EventBinding>,
}

#[verifier::rlimit(100)]
fn parse_entries(tokens: &Vec<Token>, i: usize) -> (r: Result<(Entries, usize), CompileError>)
    ensures
        match r {
            Ok((en, j)) => i < j <= tokens.len() && spec_parse_entries(
                tokens.deep_view(),
                i as int,
            ) == Some(
                (
                    (en.props.deep_view(), crate::ast::dview_seq(en.kids@), en.evs.deep_view()),
                    (j - i) as nat,
                ),
            ),
            Err(e) => e == CompileError::ParseError && spec_parse_entries(
                tokens.deep_view(),
                i as int,
            ) is None,
        },
    decreases remaining(tokens.deep_view(), i as int), 1nat,
{
    let ghost s = tokens.deep_view();
    if i >= tokens.len() {
        return Err(CompileError::ParseError);
    }
    if is_rbrace(&tokens[i]) {
        let en = Entries { props: Vec::new(), kids: Vec::new(), evs: Vec::new() };
        proof {
            assert(en.props.deep_view() =~= Seq::<PropertyV>::empty());
            assert(crate::ast::dview_seq(en.kids@) =~= Seq::<WidgetNodeV>::empty());
            assert(en.evs.deep_view() =~= Seq::<EventBindingV>::empty());
        }
        return Ok((en, i + 1));
    }
    let head_is_ident: bool = match &tokens[i] {
        Token::Ident(_) => true,
        _ => false,
    };
    if !head_is_ident {
        return Err(CompileError::ParseError);
    }
    if i + 1 >= tokens.len() {
        return Err(CompileError::ParseError);
    }
    if is_colon(&tokens[i + 1]) {
        let name: String = match &tokens[i] {
            Token::Ident(x) => x.clone(),
            _ => {
                proof {
                    assert(false);
                }
                return Err(CompileError::ParseError);
            },
        };
        match parse_expr(tokens, i + 2, true, 0) {
            Err(e) => Err(e),
            Ok((e, j)) => {
                if e.len() == 0 {
                    return Err(CompileError::ParseError);
                }
                match parse_entries(tokens, j) {
                    Err(er) => Err(er),
                    Ok((mut en, k)) => {
                        let ghost psv = en.props.deep_view();
                        en.props.insert(0, Property { name, expr: e });
                        proof {
                            assert(en.props.deep_view() =~= seq![
                                PropertyV {
                                    name: s[i as int]->Ident_0,
                                    expr: spec_parse_expr(s, i as int + 2, true, 0)->Some_0.0,
                                },
                            ] + psv);
                        }
                        Ok((en, k))
                    },
                }
            },
        }
    } else if is_lparen(&tokens[i + 1]) {
        let ev_name: String = match &tokens[i] {
            Token::Ident(x) => x.clone(),
            _ => {
                proof {
                    assert(false);
                }
                return Err(CompileError::ParseError);
            },
        };
        match parse_args(tokens, i + 2) {
            Err(e) => Err(e),
            Ok((args, j)) => {
                if !(j < tokens.len() && is_fatarrow(&tokens[j]) && j + 1 < tokens.len()
                    && is_lparen(&tokens[j + 1])) {
                    return Err(CompileError::ParseError);
                }
                match parse_expr(tokens, j + 2, true, 0) {
                    Err(e) => Err(e),
                    Ok((msg, k)) => {
                        if msg.len() == 0 {
                            return Err(CompileError::ParseError);
                        }
                        match parse_expr(tokens, k, false, 0) {
                            Err(e) => Err(e),
                            Ok((res, l)) => {
                                if res.len() == 0 {
                                    return Err(CompileError::ParseError);
                                }
                                if !(l < tokens.len() && is_comma(&tokens[l])) {
                                    return Err(CompileError::ParseError);
                                }
                                match parse_entries(tokens, l + 1) {
                                    Err(er) => Err(er),
                                    Ok((mut en, m)) => {
                                        let ghost esv = en.evs.deep_view();
                                        let eb = EventBinding {
                                            event_name: ev_name,
                                            handler_args: args,
                                            produced_message_expr: msg,
                                            result_flags: res,
                                        };
                                        let ghost ebv = eb.deep_view();
                                        en.evs.insert(0, eb);
                                        proof {
                                            assert(en.evs.deep_view() =~= seq![ebv] + esv);
                                        }
                                        Ok((en, m))
                                    },
                                }
                            },
                        }
                    },
                }
            },
        }
    } else {
        match parse_node(tokens, i) {
            Err(e) => Err(e),
            Ok((w, j)) => {
                if !(j < tokens.len() && is_comma(&tokens[j])) {
                    return Err(CompileError::ParseError);
                }
                match parse_entries(tokens, j + 1) {
                    Err(er) => Err(er),
                    Ok((mut en, k)) => {
                        let ghost ksv = crate::ast::dview_seq(en.kids@);
                        let ghost wv = w.dview();
                        let ghost pre = en.kids@;
                        en.kids.insert(0, w);
                        proof {
                            assert(en.kids@ =~= seq![en.kids@[0]] + pre);
                            assert(en.kids@.skip(1) =~= pre);
                            assert(crate::ast::dview_seq(en.kids@) =~= seq![wv] + ksv);
                        }
                        Ok((en, k))
                    },
                }
            },
        }
    }
}

/// Parses one widget node starting at `i`.
fn parse_node(tokens: &Vec<Token>, i: usize) -> (r: Result<(WidgetNode, usize), CompileError>)
    ensures
        match r {
            Ok((w, j)) => i < j <= tokens.len() && spec_parse_node(tokens.deep_view(), i as int)
                == Some((w.dview(), (j - i) as nat)),
            Err(e) => e == CompileError::ParseError && spec_parse_node(
                tokens.deep_view(),
                i as int,
            ) is None,
        },
    decreases remaining(tokens.deep_view(), i as int), 0nat,
{
    let ghost s = tokens.deep_view();
    if i >= tokens.len() {
        return Err(CompileError::ParseError);
    }
    match parse_path(tokens, i) {
        Err(e) => Err(e),
        Ok((path, j)) => {
            match parse_name(tokens, j) {
                Err(e) => Err(e),
                Ok((nm, k)) => {
                    if !(k < tokens.len() && is_lbrace(&tokens[k])) {
                        return Err(CompileError::ParseError);
                    }
                    match parse_entries(tokens, k + 1) {
                        Err(e) => Err(e),
                        Ok((en, l)) => {
                            let w = WidgetNode {
                                name: nm,
                                typ: path,
                                properties: en.props,
                                children: en.kids,
                                events: en.evs,
                            };
                            Ok((w, l))
                        },
                    }
                },
            }
        },
    }
}

/// Parses a whole widget declaration: one node that covers every token of
/// the input. Fails with `ParseError` — returning no partial tree — when
/// the tokens do not form exactly one well-formed node.
pub fn parse(tokens: &Vec<Token>) -> (r: Result<WidgetNode, CompileError>)
    ensures
        match r {
            Ok(w) => spec_parse(tokens.deep_view()) == Some(w.dview()),
            Err(e) => e == CompileError::ParseError && spec_parse(tokens.deep_view()) is None,
        },
{
    match parse_node(tokens, 0) {
        Err(e) => Err(e),
        Ok((w, j)) => {
            if j == tokens.len() {
                Ok(w)
            } else {
                Err(CompileError::ParseError)
            }
        },
    }
}

} // verus!
