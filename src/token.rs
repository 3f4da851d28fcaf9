//! Tokens of the template language, already grouped by bracket.
use vstd::prelude::*;

verus! {

/// The bracket that encloses a group; `Invisible` for a group without one.
#[derive(Debug, Clone, Copy, PartialEq, Eq)]
pub enum Delimiter {
    Parenthesis,
    Brace,
    Bracket,
    Invisible,
}

/// One token: a word, a literal (its source text), one punctuation
/// character, or a bracketed group of tokens.
#[derive(Debug)]
pub enum Token {
    Ident(String),
    Literal(String),
    Punct(char),
    Group(Delimiter, Vec<Token>),
}

/// A token as a mathematical value.
pub enum TokenView {
    Ident(Seq<char>),
    Literal(Seq<char>),
    Punct(char),
    Group(Delimiter, Seq<TokenView>),
}

pub open spec fn token_view(t: Token) -> TokenView
    decreases t,
{
    match t {
        Token::Ident(s) => TokenView::Ident(s@),
        Token::Literal(s) => TokenView::Literal(s@),
        Token::Punct(c) => TokenView::Punct(c),
        Token::Group(d, v) => TokenView::Group(d, tokens_view(v@)),
    }
}

pub open spec fn tokens_view(s: Seq<Token>) -> Seq<TokenView>
    decreases s,
{
    if s.len() == 0 {
        Seq::empty()
    } else {
        tokens_view(s.subrange(0, s.len() - 1)).push(token_view(s[s.len() - 1]))
    }
}

/// A copy of `t`.
pub fn copy_token(t: &Token) -> (r: Token)
    ensures
        token_view(r) == token_view(*t),
    decreases t,
{
    match t {
        Token::Ident(s) => Token::Ident(s.clone()),
        Token::Literal(s) => Token::Literal(s.clone()),
        Token::Punct(c) => Token::Punct(*c),
        Token::Group(d, v) => Token::Group(*d, copy_tokens(v)),
    }
}

/// A copy of `v`.
pub fn copy_tokens(v: &Vec<Token>) -> (r: Vec<Token>)
    ensures
        tokens_view(r@) == tokens_view(v@),
    decreases v,
{
    let mut r: Vec<Token> = Vec::new();
    let mut i: usize = 0;
    while i < v.len()
        invariant
            i <= v@.len(),
            r@.len() == i,
            tokens_view(r@) == tokens_view(v@.take(i as int)),
        decreases v@.len() - i,
    {
        let t = copy_token(&v[i]);
        let ghost before = r@;
        r.push(t);
        assert(r@.subrange(0, r@.len() - 1) =~= before);
        assert(v@.take(i + 1).subrange(0, i as int) =~= v@.take(i as int));
        i = i + 1;
    }
    assert(v@.take(v@.len() as int) =~= v@);
    r
}

} // verus!
