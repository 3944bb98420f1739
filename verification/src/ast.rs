//! The expression tree of the source language and its mathematical model.

use vstd::prelude::*;

verus! {

/// Unary operators.
#[derive(Debug, Clone, Copy, PartialEq, Eq, Structural)]
pub enum Op1 {
    Add1,
    Sub1,
}

/// Binary operators.
#[derive(Debug, Clone, Copy, PartialEq, Eq, Structural)]
pub enum Op2 {
    Plus,
    Minus,
    Times,
}

/// An expression.
///
/// ```text
/// <expr> := <number> | <identifier>
///         | (let (<binding>+) <expr>)
///         | (add1 <expr>) | (sub1 <expr>)
///         | (+ <expr> <expr>) | (- <expr> <expr>) | (* <expr> <expr>)
/// <binding> := (<identifier> <expr>)
/// ```
#[derive(Debug, PartialEq, Eq)]
pub enum Expr {
    Number(i32),
    Id(String),
    Let(Vec<(String, Expr)>, Box<Expr>),
    UnOp(Op1, Box<Expr>),
    BinOp(Op2, Box<Expr>, Box<Expr>),
}

/// The model of an expression: names are character sequences and a binding
/// list is a sequence of pairs.
pub enum SpecExpr {
    Number(i32),
    Id(Seq<char>),
    Let(Seq<(Seq<char>, SpecExpr)>, Box<SpecExpr>),
    UnOp(Op1, Box<SpecExpr>),
    BinOp(Op2, Box<SpecExpr>, Box<SpecExpr>),
}

/// The number of bindings of a `let`; zero for any other expression.
pub open spec fn binding_count(e: SpecExpr) -> nat {
    match e {
        SpecExpr::Let(binds, _) => binds.len(),
        _ => 0,
    }
}

/// The model of an expression.
pub open spec fn model_of(e: Expr) -> SpecExpr
    decreases e,
{
    match e {
        Expr::Number(n) => SpecExpr::Number(n),
        Expr::Id(name) => SpecExpr::Id(name@),
        Expr::Let(binds, body) => SpecExpr::Let(
            Seq::new(
                binds.len() as nat,
                |k: int|
                    if 0 <= k < binds.len() {
                        (binds[k].0@, model_of(binds[k].1))
                    } else {
                        (Seq::empty(), SpecExpr::Number(0))
                    },
            ),
            Box::new(model_of(*body)),
        ),
        Expr::UnOp(op, arg) => SpecExpr::UnOp(op, Box::new(model_of(*arg))),
        Expr::BinOp(op, left, right) => SpecExpr::BinOp(
            op,
            Box::new(model_of(*left)),
            Box::new(model_of(*right)),
        ),
    }
}

impl View for Expr {
    type V = SpecExpr;

    open spec fn view(&self) -> SpecExpr {
        model_of(*self)
    }
}

/// The models of the bindings in a sequence.
pub open spec fn bindings_model(binds: Seq<(String, Expr)>) -> Seq<(Seq<char>, SpecExpr)> {
    Seq::new(binds.len(), |k: int| (binds[k].0@, binds[k].1@))
}

/// The model of a `let` is the `let` of its bindings' and its body's models.
pub proof fn lemma_let_model(binds: Vec<(String, Expr)>, body: Box<Expr>)
    ensures
        Expr::Let(binds, body)@ == SpecExpr::Let(bindings_model(binds@), Box::new(body@)),
{
    assert(Expr::Let(binds, body)@->Let_0 =~= bindings_model(binds@));
}

} // verus!
