//! The dependency analyzer: given one property expression, it returns the
//! identifiers the expression references. No scope resolution is performed;
//! every identifier is a candidate model-field name, so shadowed or local
//! names are collected too (a documented source of harmless false
//! positives — they never match an assignment during synthesis).

use vstd::prelude::*;
use crate::tokens::{Token, TokenV, balanced, check_balanced};
use crate::errors::CompileError;

verus! {

/// A token sequence is a valid expression when it is non-empty and its
/// delimiters balance.
pub open spec fn expr_valid(e: Seq<TokenV>) -> bool {
    e.len() > 0 && balanced(e)
}

/// Adds the identifier carried by one token to the accumulator, unless the
/// token is no identifier or the identifier was already collected.
pub open spec fn step_idents(acc: Seq<Seq<char>>, t: TokenV) -> Seq<Seq<char>> {
    match t {
        TokenV::Ident(x) => if acc.contains(x) {
            acc
        } else {
            acc.push(x)
        },
        _ => acc,
    }
}

/// Folds `step_idents` over an expression, left to right.
pub open spec fn collect_idents(e: Seq<TokenV>, acc: Seq<Seq<char>>) -> Seq<Seq<char>>
    decreases e.len(),
{
    if e.len() == 0 {
        acc
    } else {
        collect_idents(e.skip(1), step_idents(acc, e[0]))
    }
}

/// The candidate model-field identifiers referenced by an expression:
/// every identifier occurring in it, in first-occurrence order, each once.
pub open spec fn idents_of(e: Seq<TokenV>) -> Seq<Seq<char>> {
    collect_idents(e, Seq::empty())
}

/// What `collect_idents` holds: exactly the accumulator's identifiers and
/// those written in the expression.
pub proof fn lemma_collect_idents_membership(e: Seq<TokenV>, acc: Seq<Seq<char>>, x: Seq<char>)
    ensures
        collect_idents(e, acc).contains(x) <==> (acc.contains(x) || exists|j: int|
            0 <= j < e.len() && e[j] == TokenV::Ident(x)),
    decreases e.len(),
{
    if e.len() > 0 {
        lemma_collect_idents_membership(e.skip(1), step_idents(acc, e[0]), x);
        assert(step_idents(acc, e[0]).contains(x) <==> (acc.contains(x) || e[0]
            == TokenV::Ident(x))) by {
            match e[0] {
                TokenV::Ident(y) => {
                    if !acc.contains(y) {
                        assert(acc.push(y).contains(x) <==> (acc.contains(x) || x == y)) by {
                            assert(acc.push(y)[acc.len() as int] == y);
                            if acc.contains(x) {
                                let k = choose|k: int| 0 <= k < acc.len() && acc[k] == x;
                                assert(acc.push(y)[k] == x);
                            }
                            if acc.push(y).contains(x) {
                                let k = choose|k: int|
                                    0 <= k < acc.push(y).len() && acc.push(y)[k] == x;
                                if k < acc.len() {
                                    assert(acc[k] == x);
                                }
                            }
                        }
                    }
                },
                _ => {},
            }
        }
        assert forall|j: int| 0 <= j < e.len() && #[trigger] e[j] == TokenV::Ident(x) implies (
        e[0] == TokenV::Ident(x) || exists|j2: int|
            0 <= j2 < e.skip(1).len() && #[trigger] e.skip(1)[j2] == TokenV::Ident(x)) by {
            if j > 0 {
                assert(e.skip(1)[j - 1] == TokenV::Ident(x));
            }
        }
        assert forall|j2: int|
            0 <= j2 < e.skip(1).len() && #[trigger] e.skip(1)[j2] == TokenV::Ident(x) implies
            exists|j: int| 0 <= j < e.len() && #[trigger] e[j] == TokenV::Ident(x) by {
            assert(e[j2 + 1] == TokenV::Ident(x));
        }
    }
}

/// An expression references an identifier exactly when one of its tokens
/// is that identifier.
pub proof fn lemma_idents_of_membership(e: Seq<TokenV>, x: Seq<char>)
    ensures
        idents_of(e).contains(x) <==> exists|j: int|
            0 <= j < e.len() && e[j] == TokenV::Ident(x),
{
    lemma_collect_idents_membership(e, Seq::empty(), x);
}

/// Whether a string sequence already holds a string with this view.
fn strings_contain(v: &Vec<String>, x: &String) -> (r: bool)
    ensures
        r == v.deep_view().contains(x@),
{
    let mut j: usize = 0;
    while j < v.len()
        invariant
            j <= v.len(),
            forall|k: int| 0 <= k < j ==> v.deep_view()[k] != x@,
        decreases v.len() - j,
    {
        if x.eq(&v[j]) {
            assert(v.deep_view()[j as int] == x@);
            return true;
        }
        j = j + 1;
    }
    false
}

/// Analyzes one property expression: rejects an invalid expression with
/// `ExpressionAnalysisError`, and otherwise returns every referenced
/// identifier, in first-occurrence order, each exactly once.
pub fn extract_idents(expr: &Vec<Token>) -> (r: Result<Vec<String>, CompileError>)
    ensures
        match r {
            Ok(ids) => expr_valid(expr.deep_view()) && ids.deep_view() == idents_of(
                expr.deep_view(),
            ),
            Err(e) => e == CompileError::ExpressionAnalysisError && !expr_valid(expr.deep_view()),
        },
{
    let ghost dv = expr.deep_view();
    if expr.len() == 0 {
        return Err(CompileError::ExpressionAnalysisError);
    }
    if !check_balanced(expr) {
        return Err(CompileError::ExpressionAnalysisError);
    }
    let mut out: Vec<String> = Vec::new();
    let mut i: usize = 0;
    proof {
        assert(dv.skip(0) =~= dv);
        assert(out.deep_view() =~= Seq::<Seq<char>>::empty());
    }
    while i < expr.len()
        invariant
            i <= expr.len(),
            dv == expr.deep_view(),
            dv.len() == expr.len(),
            collect_idents(dv.skip(i as int), out.deep_view()) == idents_of(dv),
        decreases expr.len() - i,
    {
        let ghost acc = out.deep_view();
        match &expr[i] {
            Token::Ident(s) => {
                if !strings_contain(&out, s) {
                    let ghost pre = out.deep_view();
                    out.push(s.clone());
                    proof {
                        assert(out.deep_view() =~= pre.push(s@));
                    }
                }
            },
            _ => {},
        }
        proof {
            assert(out.deep_view() == step_idents(acc, dv[i as int]));
            assert(dv.skip(i as int).skip(1) =~= dv.skip(i as int + 1));
            assert(dv.skip(i as int)[0] == dv[i as int]);
        }
        i = i + 1;
    }
    proof {
        assert(dv.skip(dv.len() as int) =~= Seq::<TokenV>::empty());
    }
    Ok(out)
}

} // verus!
