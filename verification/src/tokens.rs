//! Lexical tokens of the widget-description language, their mathematical
//! view, and delimiter-balance predicates used by the parser and the
//! dependency analyzer.

use vstd::prelude::*;
use vstd::string::StringExecFns;

verus! {

/// One token of the widget-description language. Identifier and literal
/// payloads are carried verbatim; the compiler never interprets them.
#[derive(Debug, PartialEq, Eq)]
pub enum Token {
    /// An identifier (type-path segments, property names, expression names).
    Ident(String),
    /// A literal payload (a number or the contents of a quoted string).
    Lit(String),
    /// `{`
    LBrace,
    /// `}`
    RBrace,
    /// `(`
    LParen,
    /// `)`
    RParen,
    /// `[`
    LBracket,
    /// `]`
    RBracket,
    /// `:`
    Colon,
    /// `,`
    Comma,
    /// `.`
    Dot,
    /// `#`
    Pound,
    /// `=`
    Eq,
    /// `=>`
    FatArrow,
    /// `::`
    PathSep,
    /// Any other operator character appearing inside an expression.
    Op(char),
}

/// The mathematical view of a token: identifier and literal payloads become
/// character sequences.
#[verifier::ext_equal]
pub enum TokenV {
    Ident(Seq<char>),
    Lit(Seq<char>),
    LBrace,
    RBrace,
    LParen,
    RParen,
    LBracket,
    RBracket,
    Colon,
    Comma,
    Dot,
    Pound,
    Eq,
    FatArrow,
    PathSep,
    Op(char),
}

impl DeepView for Token {
    type V = TokenV;

    open spec fn deep_view(&self) -> TokenV {
        match self {
            Token::Ident(s) => TokenV::Ident(s@),
            Token::Lit(s) => TokenV::Lit(s@),
            Token::LBrace => TokenV::LBrace,
            Token::RBrace => TokenV::RBrace,
            Token::LParen => TokenV::LParen,
            Token::RParen => TokenV::RParen,
            Token::LBracket => TokenV::LBracket,
            Token::RBracket => TokenV::RBracket,
            Token::Colon => TokenV::Colon,
            Token::Comma => TokenV::Comma,
            Token::Dot => TokenV::Dot,
            Token::Pound => TokenV::Pound,
            Token::Eq => TokenV::Eq,
            Token::FatArrow => TokenV::FatArrow,
            Token::PathSep => TokenV::PathSep,
            Token::Op(c) => TokenV::Op(*c),
        }
    }
}

impl Clone for Token {
    fn clone(&self) -> (res: Token)
        ensures
            res.deep_view() == self.deep_view(),
    {
        match self {
            Token::Ident(s) => Token::Ident(s.clone()),
            Token::Lit(s) => Token::Lit(s.clone()),
            Token::LBrace => Token::LBrace,
            Token::RBrace => Token::RBrace,
            Token::LParen => Token::LParen,
            Token::RParen => Token::RParen,
            Token::LBracket => Token::LBracket,
            Token::RBracket => Token::RBracket,
            Token::Colon => Token::Colon,
            Token::Comma => Token::Comma,
            Token::Dot => Token::Dot,
            Token::Pound => Token::Pound,
            Token::Eq => Token::Eq,
            Token::FatArrow => Token::FatArrow,
            Token::PathSep => Token::PathSep,
            Token::Op(c) => Token::Op(*c),
        }
    }
}

/// Copies a token sequence; the view is preserved exactly.
pub fn clone_tokens(v: &Vec<Token>) -> (res: Vec<Token>)
    ensures
        res.deep_view() == v.deep_view(),
{
    let mut out: Vec<Token> = Vec::new();
    let mut i: usize = 0;
    while i < v.len()
        invariant
            i <= v.len(),
            out.deep_view() == v.deep_view().take(i as int),
        decreases v.len() - i,
    {
        let t = v[i].clone();
        let ghost pre = out.deep_view();
        out.push(t);
        proof {
            assert(out.deep_view() =~= pre.push(t.deep_view()));
            assert(out.deep_view() =~= v.deep_view().take(i as int + 1));
        }
        i = i + 1;
    }
    proof {
        assert(v.deep_view().take(v.len() as int) =~= v.deep_view());
    }
    out
}

/// How a token changes the delimiter nesting depth: opening delimiters
/// raise it by one, closing delimiters lower it by one.
pub open spec fn delim_delta(t: TokenV) -> int {
    match t {
        TokenV::LBrace => 1,
        TokenV::LParen => 1,
        TokenV::LBracket => 1,
        TokenV::RBrace => -1,
        TokenV::RParen => -1,
        TokenV::RBracket => -1,
        _ => 0,
    }
}

/// The delimiter nesting depth after reading a whole token sequence.
pub open spec fn depth_of(s: Seq<TokenV>) -> int
    decreases s.len(),
{
    if s.len() == 0 {
        0
    } else {
        depth_of(s.drop_last()) + delim_delta(s.last())
    }
}

/// Every prefix of the sequence keeps a non-negative nesting depth,
/// so no closing delimiter appears without a matching opener before it.
pub open spec fn prefixes_nonneg(s: Seq<TokenV>) -> bool {
    forall|i: int| 0 <= i <= s.len() ==> depth_of(#[trigger] s.take(i)) >= 0
}

/// A token sequence is balanced when its delimiters nest properly and
/// every opened delimiter is closed.
pub open spec fn balanced(s: Seq<TokenV>) -> bool {
    depth_of(s) == 0 && prefixes_nonneg(s)
}

/// Unfolding step for `depth_of` along a prefix.
pub proof fn lemma_depth_take_step(s: Seq<TokenV>, i: int)
    requires
        0 <= i < s.len(),
    ensures
        depth_of(s.take(i + 1)) == depth_of(s.take(i)) + delim_delta(s[i]),
{
    assert(s.take(i + 1).drop_last() =~= s.take(i));
    assert(s.take(i + 1).last() == s[i]);
}

/// Whether the delimiters of a token sequence are balanced.
pub fn check_balanced(v: &Vec<Token>) -> (r: bool)
    ensures
        r == balanced(v.deep_view()),
{
    let ghost s = v.deep_view();
    let mut depth: i128 = 0;
    let mut i: usize = 0;
    proof {
        assert(s.take(0) =~= Seq::<TokenV>::empty());
    }
    while i < v.len()
        invariant
            i <= v.len(),
            s == v.deep_view(),
            s.len() == v.len(),
            depth == depth_of(s.take(i as int)),
            -(i as int) <= depth <= i as int,
            forall|j: int| 0 <= j <= i ==> depth_of(#[trigger] s.take(j)) >= 0,
        decreases v.len() - i,
    {
        let d: i128 = match &v[i] {
            Token::LBrace => 1,
            Token::LParen => 1,
            Token::LBracket => 1,
            Token::RBrace => -1,
            Token::RParen => -1,
            Token::RBracket => -1,
            _ => 0,
        };
        proof {
            lemma_depth_take_step(s, i as int);
        }
        depth = depth + d;
        if depth < 0 {
            return false;
        }
        i = i + 1;
    }
    proof {
        assert(s.take(v.len() as int) =~= s);
    }
    depth == 0
}

/// The attribute key of an instance-name annotation.
pub fn name_key() -> (r: String)
    ensures
        r@ == "name"@,
{
    String::from_str("name")
}

} // verus!
