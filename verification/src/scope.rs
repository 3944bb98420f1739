//! Which expressions compile: those in which every `let` binds distinct
//! names and every name is used within the scope of a binding.

use vstd::prelude::*;
use crate::ast::{binding_count, SpecExpr};
use crate::error::SpecError;
use crate::codegen::{
    code_of, first_repeat, is_first_repeat, let_code, names_of, repeats, Scope,
};

verus! {

/// An expression is well scoped under a set of names in scope when each of
/// its `let`s binds pairwise distinct names and each name it uses is in
/// scope where it stands. The expression of a binding sees the names in
/// scope around the `let` and the bindings before its own; the body sees
/// all bindings.
pub open spec fn well_scoped(e: SpecExpr, scope: Set<Seq<char>>) -> bool
    decreases e, binding_count(e) + 1,
{
    match e {
        SpecExpr::Number(_) => true,
        SpecExpr::Id(name) => scope.contains(name),
        SpecExpr::UnOp(_, arg) => well_scoped(*arg, scope),
        SpecExpr::BinOp(_, left, right) => well_scoped(*left, scope) && well_scoped(
            *right,
            scope,
        ),
        SpecExpr::Let(binds, _) => names_of(binds).no_duplicates() && let_well_scoped(
            e,
            0,
            scope,
        ),
    }
}

/// The bindings of the `let` expression `e` from position `k` on, and its
/// body, are well scoped.
pub open spec fn let_well_scoped(e: SpecExpr, k: int, scope: Set<Seq<char>>) -> bool
    decreases e, binding_count(e) - k,
{
    match e {
        SpecExpr::Let(binds, body) => if 0 <= k < binds.len() {
            well_scoped(binds[k].1, scope) && let_well_scoped(
                e,
                k + 1,
                scope.insert(binds[k].0),
            )
        } else {
            well_scoped(*body, scope)
        },
        _ => true,
    }
}

/// A list of names has a first repeat exactly when two of its positions
/// hold the same name.
pub proof fn law_repeat_iff_duplicate(names: Seq<Seq<char>>)
    ensures
        first_repeat(names) is None <==> names.no_duplicates(),
        first_repeat(names) matches Some(k) ==> is_first_repeat(names, k),
{
    if names.no_duplicates() {
        assert forall|k: int| !is_first_repeat(names, k) by {
            if is_first_repeat(names, k) {
                let j = choose|j: int| 0 <= j < k && names[j] == names[k];
                assert(names[j] == names[k]);
            }
        }
    } else {
        let (i, j) = choose|i: int, j: int|
            0 <= i < names.len() && 0 <= j < names.len() && i != j && names[i] == names[j];
        let hi = if i < j {
            j
        } else {
            i
        };
        let lo = if i < j {
            i
        } else {
            j
        };
        assert(0 <= lo < hi && names[lo] == names[hi]);
        assert(repeats(names, hi));
        lemma_least_repeat(names, hi);
    }
    if first_repeat(names) is Some {
        let k = choose|k: int| is_first_repeat(names, k);
        assert(is_first_repeat(names, k));
    }
}

/// A `let` whose binding list holds a name twice always fails with a
/// duplicate binding, whatever its bindings and its body hold, whatever is
/// in scope and wherever the free slots begin. The name reported stands at
/// two positions of the list at least.
pub proof fn law_duplicate_always_fails(
    binds: Seq<(Seq<char>, SpecExpr)>,
    body: SpecExpr,
    si: int,
    env: Scope,
)
    requires
        !names_of(binds).no_duplicates(),
    ensures
        code_of(SpecExpr::Let(binds, Box::new(body)), si, env) matches Err(
            SpecError::DuplicateBinding(name),
        ) && exists|i: int, j: int|
            0 <= i < j < binds.len() && binds[i].0 == name && binds[j].0 == name,
{
    let names = names_of(binds);
    law_repeat_iff_duplicate(names);
    let k = first_repeat(names)->0;
    assert(is_first_repeat(names, k));
    let i = choose|i: int| 0 <= i < k && names[i] == names[k];
    assert(0 <= i < k < binds.len() && binds[i].0 == binds[k].0 && binds[k].0 == binds[k].0);
}

/// Where some position repeats an earlier name, some position is the first
/// to do so.
proof fn lemma_least_repeat(names: Seq<Seq<char>>, k: int)
    requires
        0 <= k < names.len(),
        repeats(names, k),
    ensures
        exists|f: int| is_first_repeat(names, f),
    decreases k,
{
    if forall|j: int| 0 <= j < k ==> !repeats(names, j) {
        assert(is_first_repeat(names, k));
    } else {
        let j = choose|j: int| 0 <= j < k && repeats(names, j);
        lemma_least_repeat(names, j);
    }
}

/// An expression compiles exactly when it is well scoped under the names
/// that the environment binds, whatever the first free slot is. Where it
/// does not compile, the failure is a duplicate binding or an unbound
/// name, never a syntax error.
pub proof fn law_compiles_iff_well_scoped(e: SpecExpr, si: int, env: Scope)
    ensures
        code_of(e, si, env) is Ok <==> well_scoped(e, env.dom()),
        code_of(e, si, env) matches Err(err) ==> err !is Syntax,
    decreases e, binding_count(e) + 1,
{
    match e {
        SpecExpr::Number(_) => {},
        SpecExpr::Id(_) => {},
        SpecExpr::UnOp(_, arg) => {
            law_compiles_iff_well_scoped(*arg, si, env);
        },
        SpecExpr::BinOp(_, left, right) => {
            law_compiles_iff_well_scoped(*left, si, env);
            law_compiles_iff_well_scoped(*right, si + 1, env);
        },
        SpecExpr::Let(binds, _) => {
            law_repeat_iff_duplicate(names_of(binds));
            lemma_let_compiles_iff_well_scoped(e, 0, si, env);
        },
    }
}

/// The bindings of a `let` from position `k` on, and its body, compile
/// exactly when they are well scoped.
proof fn lemma_let_compiles_iff_well_scoped(e: SpecExpr, k: int, si: int, env: Scope)
    requires
        e is Let,
        0 <= k <= binding_count(e),
    ensures
        let_code(e, k, si, env) is Ok <==> let_well_scoped(e, k, env.dom()),
        let_code(e, k, si, env) matches Err(err) ==> err !is Syntax,
    decreases e, binding_count(e) - k,
{
    let binds = e->Let_0;
    let body = e->Let_1;
    if k < binds.len() {
        let inner = env.insert(binds[k].0, si as i32);
        law_compiles_iff_well_scoped(binds[k].1, si, env);
        lemma_let_compiles_iff_well_scoped(e, k + 1, si + 1, inner);
        assert(inner.dom() =~= env.dom().insert(binds[k].0));
    } else {
        law_compiles_iff_well_scoped(*body, si, env);
    }
}

} // verus!
