//! The meaning of the source language: the value of an expression, in the
//! arithmetic of the target machine's words.

use vstd::prelude::*;
use crate::ast::{binding_count, Op1, Op2, SpecExpr};
use crate::machine::wrap;

verus! {

/// The values of the names in scope.
pub type Values = Map<Seq<char>, int>;

/// The result of a unary operation.
pub open spec fn apply1(op: Op1, a: int) -> int {
    match op {
        Op1::Add1 => wrap(a + 1),
        Op1::Sub1 => wrap(a - 1),
    }
}

/// The result of a binary operation on a left and a right operand.
pub open spec fn apply2(op: Op2, a: int, b: int) -> int {
    match op {
        Op2::Plus => wrap(a + b),
        Op2::Minus => wrap(a - b),
        Op2::Times => wrap(a * b),
    }
}

/// The value of an expression, given the values of the names in scope.
/// Arithmetic is that of the machine's words. The bindings of a `let` are
/// evaluated in written order, each seeing the ones before it; an inner
/// binding of a name hides an outer one for the extent of the body.
pub open spec fn eval(e: SpecExpr, values: Values) -> int
    decreases e, binding_count(e) + 1,
{
    match e {
        SpecExpr::Number(n) => n as int,
        SpecExpr::Id(name) => values[name],
        SpecExpr::UnOp(op, arg) => apply1(op, eval(*arg, values)),
        SpecExpr::BinOp(op, left, right) => apply2(op, eval(*left, values), eval(*right, values)),
        SpecExpr::Let(_, _) => eval_let(e, 0, values),
    }
}

/// The value of the `let` expression `e` once its bindings before position
/// `k` have been evaluated into `values`.
pub open spec fn eval_let(e: SpecExpr, k: int, values: Values) -> int
    decreases e, binding_count(e) - k,
{
    match e {
        SpecExpr::Let(binds, body) => if 0 <= k < binds.len() {
            eval_let(e, k + 1, values.insert(binds[k].0, eval(binds[k].1, values)))
        } else {
            eval(*body, values)
        },
        _ => 0,
    }
}

/// The value of a `let` with one binding is the value of its body with
/// the name bound to the value of the binding's expression.
pub proof fn lemma_eval_single_let(name: Seq<char>, bound: SpecExpr, body: SpecExpr, values: Values)
    ensures
        eval(SpecExpr::Let(seq![(name, bound)], Box::new(body)), values) == eval(
            body,
            values.insert(name, eval(bound, values)),
        ),
{
    let binds = seq![(name, bound)];
    let e = SpecExpr::Let(binds, Box::new(body));
    let inner = values.insert(name, eval(bound, values));
    assert(binds.len() == 1 && binds[0] == (name, bound));
    assert(eval(e, values) == eval_let(e, 0, values));
    assert(eval_let(e, 0, values) == eval_let(e, 1, inner));
    assert(eval_let(e, 1, inner) == eval(body, inner));
}

/// An inner binding of a name hides an outer one for the body it covers:
/// the body of the inner `let` sees the inner value, whatever the outer
/// one was.
pub proof fn law_inner_binding_shadows(
    name: Seq<char>,
    outer: SpecExpr,
    inner: SpecExpr,
    body: SpecExpr,
    values: Values,
)
    ensures
        eval(
            SpecExpr::Let(
                seq![(name, outer)],
                Box::new(SpecExpr::Let(seq![(name, inner)], Box::new(body))),
            ),
            values,
        ) == eval(
            body,
            values.insert(name, eval(inner, values.insert(name, eval(outer, values)))),
        ),
{
    let seen = values.insert(name, eval(outer, values));
    let nested = SpecExpr::Let(seq![(name, inner)], Box::new(body));
    let whole = SpecExpr::Let(seq![(name, outer)], Box::new(nested));
    lemma_eval_single_let(name, inner, body, seen);
    lemma_eval_single_let(name, outer, nested, values);
    assert(seen.insert(name, eval(inner, seen)) =~= values.insert(name, eval(inner, seen)));
}

/// A binding does not reach past its `let`: the right operand of an
/// operation is evaluated under the values around it, whatever a `let` in
/// the left operand bound.
pub proof fn law_binding_ends_with_let(
    op: Op2,
    name: Seq<char>,
    bound: SpecExpr,
    body: SpecExpr,
    right: SpecExpr,
    values: Values,
)
    ensures
        eval(
            SpecExpr::BinOp(
                op,
                Box::new(SpecExpr::Let(seq![(name, bound)], Box::new(body))),
                Box::new(right),
            ),
            values,
        ) == apply2(
            op,
            eval(body, values.insert(name, eval(bound, values))),
            eval(right, values),
        ),
{
    lemma_eval_single_let(name, bound, body, values);
}

} // verus!
