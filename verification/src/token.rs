//! The token tree that the expression parser consumes: atoms and nested
//! lists, as a reader of parenthesized text produces them.

use vstd::prelude::*;

verus! {

/// A token tree.
#[derive(Debug, PartialEq, Eq)]
pub enum Token {
    /// An integer atom.
    Int(i64),
    /// An atom that reads as a floating-point number and not as an
    /// integer. No expression contains one, so its value is not kept.
    Real,
    /// A symbol or quoted string.
    Sym(String),
    /// A parenthesized list.
    List(Vec<Token>),
}

/// The model of a token tree.
pub enum SpecToken {
    Int(i64),
    Real,
    Sym(Seq<char>),
    List(Seq<SpecToken>),
}

/// The model of a token tree.
pub open spec fn token_model(t: Token) -> SpecToken
    decreases t,
{
    match t {
        Token::Int(n) => SpecToken::Int(n),
        Token::Real => SpecToken::Real,
        Token::Sym(name) => SpecToken::Sym(name@),
        Token::List(items) => SpecToken::List(
            Seq::new(
                items.len() as nat,
                |k: int|
                    if 0 <= k < items.len() {
                        token_model(items[k])
                    } else {
                        SpecToken::Real
                    },
            ),
        ),
    }
}

impl View for Token {
    type V = SpecToken;

    open spec fn view(&self) -> SpecToken {
        token_model(*self)
    }
}

/// The models of the token trees in a sequence.
pub open spec fn tokens_model(items: Seq<Token>) -> Seq<SpecToken> {
    Seq::new(items.len(), |k: int| items[k]@)
}

/// The model of a list is the list of its items' models.
pub proof fn lemma_list_model(items: Vec<Token>)
    ensures
        Token::List(items)@ == SpecToken::List(tokens_model(items@)),
{
    assert(Token::List(items)@->List_0 =~= tokens_model(items@));
}

} // verus!
