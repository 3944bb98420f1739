//! Reading source text into a token tree.

use vstd::prelude::*;
use crate::error::{CompileError, SpecError};
use crate::token::{lemma_list_model, tokens_model, SpecToken, Token};

verus! {

#[verifier::external_type_specification]
#[verifier::external_body]
pub struct ExSexp(sexp::Sexp);

#[verifier::external_type_specification]
#[verifier::external_body]
pub struct ExSexpError(sexp::Error);

/// The token tree that an s-expression holds.
pub uninterp spec fn tree_of(s: sexp::Sexp) -> SpecToken;

/// The token tree that a text reads as, or `None` where the text is not
/// one well-formed s-expression.
pub uninterp spec fn read_as(text: Seq<char>) -> Option<SpecToken>;

/// `sexp::parse` reads one s-expression from the whole text, or fails. The
/// contract gives its outcome a name: what comes back depends on the text
/// alone.
pub assume_specification[ sexp::parse ](s: &str) -> (r: Result<sexp::Sexp, Box<sexp::Error>>)
    ensures
        match r {
            Ok(t) => read_as(s@) == Some(tree_of(t)),
            Err(_) => read_as(s@) is None,
        },
;

/// The top of an s-expression: an atom with its value, or the length of a
/// list.
enum Top {
    Int(i64),
    Real,
    Sym(String),
    List(usize),
}

/// Tells the variants of `sexp::Sexp` and `sexp::Atom` apart. The contract
/// claims that an integer atom and a string atom hold their value, that a
/// floating-point atom is `Real`, and that a list has the length given.
#[verifier::external_body]
fn top_of(s: &sexp::Sexp) -> (top: Top)
    ensures
        match top {
            Top::Int(n) => tree_of(*s) == SpecToken::Int(n),
            Top::Real => tree_of(*s) == SpecToken::Real,
            Top::Sym(name) => tree_of(*s) == SpecToken::Sym(name@),
            Top::List(len) => tree_of(*s) matches SpecToken::List(items) && items.len() == len,
        },
{
    match s {
        sexp::Sexp::Atom(sexp::Atom::I(n)) => Top::Int(*n),
        sexp::Sexp::Atom(sexp::Atom::F(_)) => Top::Real,
        sexp::Sexp::Atom(sexp::Atom::S(name)) => Top::Sym(name.clone()),
        sexp::Sexp::List(items) => Top::List(items.len()),
    }
}

/// The item at position `k` of a `sexp::Sexp::List`. The contract claims
/// that it holds what the list holds at that position.
#[verifier::external_body]
fn item_of(s: &sexp::Sexp, k: usize) -> (item: &sexp::Sexp)
    requires
        tree_of(*s) is List,
        k < tree_of(*s)->List_0.len(),
    ensures
        tree_of(*item) == tree_of(*s)->List_0[k as int],
{
    match s {
        sexp::Sexp::List(items) => &items[k],
        sexp::Sexp::Atom(_) => s,
    }
}

/// Copies an s-expression into a token tree.
fn token_of(s: &sexp::Sexp) -> (t: Token)
    ensures
        t@ == tree_of(*s),
    decreases tree_of(*s),
{
    match top_of(s) {
        Top::Int(n) => Token::Int(n),
        Top::Real => Token::Real,
        Top::Sym(name) => Token::Sym(name),
        Top::List(len) => {
            let ghost want = tree_of(*s)->List_0;
            let mut items: Vec<Token> = Vec::new();
            let mut k: usize = 0;
            while k < len
                invariant
                    k <= len,
                    items.len() == k,
                    tree_of(*s) == SpecToken::List(want),
                    want.len() == len,
                    forall|j: int| 0 <= j < k ==> (#[trigger] items[j])@ == want[j],
                decreases len - k,
            {
                let item = token_of(item_of(s, k));
                items.push(item);
                k = k + 1;
            }
            proof {
                lemma_list_model(items);
                assert(tokens_model(items@) =~= want);
            }
            Token::List(items)
        },
    }
}

/// Reads a text as one token tree. A text that is not one well-formed
/// s-expression is a syntax error.
pub fn read_tokens(text: &str) -> (r: Result<Token, CompileError>)
    ensures
        match r {
            Ok(t) => read_as(text@) == Some(t@),
            Err(err) => read_as(text@) is None && err@ == SpecError::Syntax,
        },
{
    match sexp::parse(text) {
        Ok(s) => Ok(token_of(&s)),
        Err(_) => Err(CompileError::Syntax),
    }
}

} // verus!
