//! From token trees to expressions: the grammar of the source language.

use vstd::prelude::*;
use vstd::string::StringExecFns;
use crate::ast::{bindings_model, lemma_let_model, Expr, Op1, Op2, SpecExpr};
use crate::error::{CompileError, SpecError};
use crate::token::{lemma_list_model, tokens_model, SpecToken, Token};

verus! {

/// The reserved words. None of them can be used as a name.
#[derive(Debug, Clone, Copy, PartialEq, Eq, Structural)]
pub enum Keyword {
    Let,
    Add1,
    Sub1,
    Plus,
    Minus,
    Times,
}

/// The reserved word that a symbol spells, if it spells one.
pub open spec fn keyword_of(name: Seq<char>) -> Option<Keyword> {
    if name == "let"@ {
        Some(Keyword::Let)
    } else if name == "add1"@ {
        Some(Keyword::Add1)
    } else if name == "sub1"@ {
        Some(Keyword::Sub1)
    } else if name == "+"@ {
        Some(Keyword::Plus)
    } else if name == "-"@ {
        Some(Keyword::Minus)
    } else if name == "*"@ {
        Some(Keyword::Times)
    } else {
        None
    }
}

/// A symbol can serve as a name when it is no reserved word.
pub open spec fn is_name(name: Seq<char>) -> bool {
    keyword_of(name) is None
}

/// A unary operation on an operand that parsed.
pub open spec fn unary(op: Op1, arg: Option<SpecExpr>) -> Option<SpecExpr> {
    match arg {
        Some(a) => Some(SpecExpr::UnOp(op, Box::new(a))),
        None => None,
    }
}

/// A binary operation on two operands that parsed.
pub open spec fn binary(op: Op2, left: Option<SpecExpr>, right: Option<SpecExpr>) -> Option<
    SpecExpr,
> {
    match (left, right) {
        (Some(l), Some(r)) => Some(SpecExpr::BinOp(op, Box::new(l), Box::new(r))),
        _ => None,
    }
}

/// A `let` of bindings and a body that parsed.
pub open spec fn binding_form(
    binds: Option<Seq<(Seq<char>, SpecExpr)>>,
    body: Option<SpecExpr>,
) -> Option<SpecExpr> {
    match (binds, body) {
        (Some(bs), Some(b)) => Some(SpecExpr::Let(bs, Box::new(b))),
        _ => None,
    }
}

/// The expression that a token tree denotes, or `None` where it denotes
/// none.
///
/// - An integer atom within the 32-bit signed range is a number.
/// - A symbol that is no reserved word is a name.
/// - `(add1 e)` and `(sub1 e)` are unary operations; `(+ a b)`, `(- a b)`
///   and `(* a b)` are binary operations.
/// - `(let (b ...) e)` with at least one binding is a `let`.
/// - Nothing else is an expression.
pub open spec fn ast_of(t: SpecToken) -> Option<SpecExpr>
    decreases t,
{
    match t {
        SpecToken::Int(n) => if i32::MIN <= n <= i32::MAX {
            Some(SpecExpr::Number(n as i32))
        } else {
            None
        },
        SpecToken::Real => None,
        SpecToken::Sym(name) => if is_name(name) {
            Some(SpecExpr::Id(name))
        } else {
            None
        },
        SpecToken::List(items) => if items.len() == 0 {
            None
        } else {
            match items[0] {
                SpecToken::Sym(head) => match keyword_of(head) {
                    Some(Keyword::Add1) => if items.len() == 2 {
                        unary(Op1::Add1, ast_of(items[1]))
                    } else {
                        None
                    },
                    Some(Keyword::Sub1) => if items.len() == 2 {
                        unary(Op1::Sub1, ast_of(items[1]))
                    } else {
                        None
                    },
                    Some(Keyword::Plus) => if items.len() == 3 {
                        binary(Op2::Plus, ast_of(items[1]), ast_of(items[2]))
                    } else {
                        None
                    },
                    Some(Keyword::Minus) => if items.len() == 3 {
                        binary(Op2::Minus, ast_of(items[1]), ast_of(items[2]))
                    } else {
                        None
                    },
                    Some(Keyword::Times) => if items.len() == 3 {
                        binary(Op2::Times, ast_of(items[1]), ast_of(items[2]))
                    } else {
                        None
                    },
                    Some(Keyword::Let) => if items.len() == 3 {
                        match items[1] {
                            SpecToken::List(bs) => if bs.len() > 0 {
                                binding_form(bindings_of(bs), ast_of(items[2]))
                            } else {
                                None
                            },
                            _ => None,
                        }
                    } else {
                        None
                    },
                    None => None,
                },
                _ => None,
            }
        },
    }
}

/// The binding that a token tree denotes: a list of a name and an
/// expression.
pub open spec fn binding_of(t: SpecToken) -> Option<(Seq<char>, SpecExpr)>
    decreases t,
{
    match t {
        SpecToken::List(items) => if items.len() == 2 {
            match items[0] {
                SpecToken::Sym(name) => if is_name(name) {
                    match ast_of(items[1]) {
                        Some(e) => Some((name, e)),
                        None => None,
                    }
                } else {
                    None
                },
                _ => None,
            }
        } else {
            None
        },
        _ => None,
    }
}

/// The bindings that a sequence of token trees denotes: each of them must
/// denote one.
pub open spec fn bindings_of(bs: Seq<SpecToken>) -> Option<Seq<(Seq<char>, SpecExpr)>>
    decreases bs,
{
    if forall|k: int| 0 <= k < bs.len() ==> binding_of(#[trigger] bs[k]) is Some {
        Some(
            Seq::new(
                bs.len(),
                |k: int|
                    if 0 <= k < bs.len() {
                        binding_of(bs[k])->0
                    } else {
                        (Seq::empty(), SpecExpr::Number(0))
                    },
            ),
        )
    } else {
        None
    }
}

/// An expression is grammatical when no name in it, used or bound, is a
/// reserved word and every `let` in it has at least one binding.
pub open spec fn grammatical(e: SpecExpr) -> bool
    decreases e,
{
    match e {
        SpecExpr::Number(_) => true,
        SpecExpr::Id(name) => is_name(name),
        SpecExpr::UnOp(_, arg) => grammatical(*arg),
        SpecExpr::BinOp(_, left, right) => grammatical(*left) && grammatical(*right),
        SpecExpr::Let(binds, body) => {
            &&& binds.len() > 0
            &&& forall|k: int|
                0 <= k < binds.len() ==> is_name((#[trigger] binds[k]).0) && grammatical(
                    binds[k].1,
                )
            &&& grammatical(*body)
        },
    }
}

/// Every expression that a token tree denotes is grammatical.
pub proof fn law_parsed_is_grammatical(t: SpecToken)
    ensures
        ast_of(t) matches Some(e) ==> grammatical(e),
    decreases t,
{
    match t {
        SpecToken::List(items) => {
            if items.len() == 2 {
                law_parsed_is_grammatical(items[1]);
            }
            if items.len() == 3 {
                law_parsed_is_grammatical(items[1]);
                law_parsed_is_grammatical(items[2]);
                match items[1] {
                    SpecToken::List(bs) => {
                        if bindings_of(bs) is Some {
                            let binds = bindings_of(bs)->0;
                            assert forall|k: int| 0 <= k < binds.len() implies is_name(
                                (#[trigger] binds[k]).0,
                            ) && grammatical(binds[k].1) by {
                                assert(binding_of(bs[k]) is Some);
                                lemma_bound_is_grammatical(bs[k]);
                            }
                        }
                    },
                    _ => {},
                }
            }
        },
        _ => {},
    }
}

/// Every binding that a token tree denotes has a name that is no reserved
/// word and an expression that is grammatical.
proof fn lemma_bound_is_grammatical(t: SpecToken)
    ensures
        binding_of(t) matches Some(b) ==> is_name(b.0) && grammatical(b.1),
    decreases t,
{
    match t {
        SpecToken::List(items) => {
            if items.len() == 2 {
                law_parsed_is_grammatical(items[1]);
            }
        },
        _ => {},
    }
}

/// The reserved word that a symbol spells, if it spells one.
pub fn keyword(name: &String) -> (k: Option<Keyword>)
    ensures
        k == keyword_of(name@),
{
    if *name == String::from_str("let") {
        Some(Keyword::Let)
    } else if *name == String::from_str("add1") {
        Some(Keyword::Add1)
    } else if *name == String::from_str("sub1") {
        Some(Keyword::Sub1)
    } else if *name == String::from_str("+") {
        Some(Keyword::Plus)
    } else if *name == String::from_str("-") {
        Some(Keyword::Minus)
    } else if *name == String::from_str("*") {
        Some(Keyword::Times)
    } else {
        None
    }
}

/// What `parse_expr` owes for a token tree: the expression it denotes, or
/// a syntax error where it denotes none.
pub open spec fn parsed_as(t: SpecToken, r: Result<Expr, CompileError>) -> bool {
    match r {
        Ok(e) => ast_of(t) == Some(e@),
        Err(err) => ast_of(t) is None && err@ == SpecError::Syntax,
    }
}

/// What `parse_bind` owes for a token tree: the binding it denotes, or a
/// syntax error where it denotes none.
pub open spec fn bound_as(t: SpecToken, r: Result<(String, Expr), CompileError>) -> bool {
    match r {
        Ok(b) => binding_of(t) == Some((b.0@, b.1@)),
        Err(err) => binding_of(t) is None && err@ == SpecError::Syntax,
    }
}


/// Builds the expression that a token tree denotes.
pub fn parse_expr(t: &Token) -> (r: Result<Expr, CompileError>)
    ensures
        parsed_as(t@, r),
    decreases t,
{
    match t {
        Token::Int(n) => {
            if -2147483648 <= *n && *n <= 2147483647 {
                Ok(Expr::Number(*n as i32))
            } else {
                Err(CompileError::Syntax)
            }
        },
        Token::Real => Err(CompileError::Syntax),
        Token::Sym(name) => {
            match keyword(name) {
                None => Ok(Expr::Id(name.clone())),
                Some(_) => Err(CompileError::Syntax),
            }
        },
        Token::List(items) => {
            proof {
                lemma_list_model(*items);
            }
            if items.len() == 0 {
                return Err(CompileError::Syntax);
            }
            let word = match &items[0] {
                Token::Sym(head) => keyword(head),
                _ => None,
            };
            match word {
                Some(Keyword::Add1) => parse_unary(Op1::Add1, items),
                Some(Keyword::Sub1) => parse_unary(Op1::Sub1, items),
                Some(Keyword::Plus) => parse_binary(Op2::Plus, items),
                Some(Keyword::Minus) => parse_binary(Op2::Minus, items),
                Some(Keyword::Times) => parse_binary(Op2::Times, items),
                Some(Keyword::Let) => parse_let(items),
                None => Err(CompileError::Syntax),
            }
        },
    }
}

/// The operand list of a unary operation: the operator and one operand.
fn parse_unary(op: Op1, items: &Vec<Token>) -> (r: Result<Expr, CompileError>)
    requires
        items.len() > 0,
    ensures
        match r {
            Ok(e) => items.len() == 2 && unary(op, ast_of(items[1]@)) == Some(e@),
            Err(err) => (items.len() != 2 || ast_of(items[1]@) is None) && err@
                == SpecError::Syntax,
        },
    decreases items,
{
    if items.len() != 2 {
        return Err(CompileError::Syntax);
    }
    match parse_expr(&items[1]) {
        Ok(arg) => Ok(Expr::UnOp(op, Box::new(arg))),
        Err(err) => Err(err),
    }
}

/// The operand list of a binary operation: the operator and two operands.
fn parse_binary(op: Op2, items: &Vec<Token>) -> (r: Result<Expr, CompileError>)
    requires
        items.len() > 0,
    ensures
        match r {
            Ok(e) => items.len() == 3 && binary(op, ast_of(items[1]@), ast_of(items[2]@)) == Some(
                e@,
            ),
            Err(err) => (items.len() != 3 || binary(op, ast_of(items[1]@), ast_of(items[2]@))
                is None) && err@ == SpecError::Syntax,
        },
    decreases items,
{
    if items.len() != 3 {
        return Err(CompileError::Syntax);
    }
    match parse_expr(&items[1]) {
        Ok(left) => match parse_expr(&items[2]) {
            Ok(right) => Ok(Expr::BinOp(op, Box::new(left), Box::new(right))),
            Err(err) => Err(err),
        },
        Err(err) => Err(err),
    }
}

/// The operand list of a `let`: the word, a list of bindings, a body.
fn parse_let(items: &Vec<Token>) -> (r: Result<Expr, CompileError>)
    requires
        items.len() > 0,
    ensures
        match r {
            Ok(e) => items.len() == 3 && (items[1]@ matches SpecToken::List(bs) && bs.len() > 0
                && binding_form(bindings_of(bs), ast_of(items[2]@)) == Some(e@)),
            Err(err) => err@ == SpecError::Syntax && (items.len() == 3 ==> (items[1]@
                matches SpecToken::List(bs) ==> bs.len() == 0 || binding_form(
                bindings_of(bs),
                ast_of(items[2]@),
            ) is None)),
        },
    decreases items,
{
    if items.len() != 3 {
        return Err(CompileError::Syntax);
    }
    match &items[1] {
        Token::List(bs) => {
            proof {
                lemma_list_model(*bs);
            }
            if bs.len() == 0 {
                return Err(CompileError::Syntax);
            }
            match parse_binds(bs) {
                Ok(binds) => match parse_expr(&items[2]) {
                    Ok(body) => {
                        let e = Expr::Let(binds, Box::new(body));
                        proof {
                            lemma_let_model(e->Let_0, e->Let_1);
                        }
                        Ok(e)
                    },
                    Err(err) => Err(err),
                },
                Err(err) => Err(err),
            }
        },
        _ => Err(CompileError::Syntax),
    }
}

/// Builds the bindings that a list of token trees denotes.
fn parse_binds(bs: &Vec<Token>) -> (r: Result<Vec<(String, Expr)>, CompileError>)
    ensures
        match r {
            Ok(binds) => bindings_of(tokens_model(bs@)) == Some(bindings_model(binds@)),
            Err(err) => bindings_of(tokens_model(bs@)) is None && err@ == SpecError::Syntax,
        },
    decreases bs,
{
    let mut binds: Vec<(String, Expr)> = Vec::new();
    let mut k: usize = 0;
    while k < bs.len()
        invariant
            k <= bs.len(),
            binds.len() == k,
            forall|j: int|
                0 <= j < k ==> binding_of(#[trigger] bs[j]@) == Some((binds[j].0@, binds[j].1@)),
        decreases bs.len() - k,
    {
        match parse_bind(&bs[k]) {
            Ok(b) => {
                binds.push(b);
            },
            Err(err) => {
                assert(tokens_model(bs@)[k as int] == bs[k as int]@);
                return Err(err);
            },
        }
        k = k + 1;
    }
    proof {
        let ts = tokens_model(bs@);
        assert forall|j: int| 0 <= j < ts.len() implies binding_of(#[trigger] ts[j]) is Some by {
            assert(ts[j] == bs[j]@);
        }
        assert(bindings_of(ts)->0 =~= bindings_model(binds@)) by {
            assert forall|j: int| 0 <= j < ts.len() implies bindings_of(ts)->0[j]
                == bindings_model(binds@)[j] by {
                assert(ts[j] == bs[j]@);
            }
        }
    }
    Ok(binds)
}

/// Builds the binding that a token tree denotes.
pub fn parse_bind(t: &Token) -> (r: Result<(String, Expr), CompileError>)
    ensures
        bound_as(t@, r),
    decreases t,
{
    match t {
        Token::List(items) => {
            proof {
                lemma_list_model(*items);
            }
            if items.len() != 2 {
                return Err(CompileError::Syntax);
            }
            match &items[0] {
                Token::Sym(name) => {
                    match keyword(name) {
                        None => match parse_expr(&items[1]) {
                            Ok(e) => Ok((name.clone(), e)),
                            Err(err) => Err(err),
                        },
                        Some(_) => Err(CompileError::Syntax),
                    }
                },
                _ => Err(CompileError::Syntax),
            }
        },
        _ => Err(CompileError::Syntax),
    }
}

} // verus!
